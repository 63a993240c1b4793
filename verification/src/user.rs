//! Profile data: the gender enumeration and the per-account profile with
//! its optional fields.
use vstd::prelude::*;

verus! {

/// The fixed gender enumeration a profile may carry.
#[derive(PartialEq, Eq, Structural, Clone, Copy, Debug)]
pub enum Gender {
    Male,
    Female,
    Other,
}

impl Gender {
    /// The stored text of this value.
    pub fn as_str(&self) -> (r: &'static str)
        ensures
            r@ == match self {
                Gender::Male => "Male"@,
                Gender::Female => "Female"@,
                Gender::Other => "Other"@,
            },
    {
        match self {
            Gender::Male => "Male",
            Gender::Female => "Female",
            Gender::Other => "Other",
        }
    }
}

impl Gender {
    /// Parses a gender value, accepting any mix of upper and lower case;
    /// anything else is rejected with a diagnostic naming the input.
    pub fn from_str(s: &str) -> (r: Result<Gender, String>)
        ensures
            r matches Ok(g) ==> (g is Male && lower_eq(s@, "male"@)) || (g is Female && lower_eq(
                s@,
                "female"@,
            )) || (g is Other && lower_eq(s@, "other"@)),
            (lower_eq(s@, "male"@) || lower_eq(s@, "female"@) || lower_eq(s@, "other"@)) ==> r
                is Ok,
            r matches Err(m) ==> m@ == "Invalid gender value: "@ + s@,
    {
        if eq_ignore_ascii_case(s, "male") {
            Ok(Gender::Male)
        } else if eq_ignore_ascii_case(s, "female") {
            Ok(Gender::Female)
        } else if eq_ignore_ascii_case(s, "other") {
            Ok(Gender::Other)
        } else {
            let mut m = String::new();
            m.append("Invalid gender value: ");
            m.append(s);
            proof {
                assert(m@ =~= "Invalid gender value: "@ + s@);
            }
            Err(m)
        }
    }
}

/// The lower-cased form of one character, for ASCII letters.
pub open spec fn lower_char(c: char) -> char {
    if 65 <= (c as u32) && (c as u32) <= 90 {
        (((c as u32) + 32) as u8) as char
    } else {
        c
    }
}

/// Whether two texts agree after ASCII lower-casing.
pub open spec fn lower_eq(a: Seq<char>, b: Seq<char>) -> bool {
    a.len() == b.len() && forall|i: int|
        0 <= i < a.len() ==> lower_char(#[trigger] a[i]) == lower_char(b[i])
}

/// Compares two texts ignoring ASCII case.
pub fn eq_ignore_ascii_case(a: &str, b: &str) -> (r: bool)
    ensures
        r == lower_eq(a@, b@),
{
    let n = a.unicode_len();
    let m = b.unicode_len();
    if n != m {
        return false;
    }
    let mut i: usize = 0;
    while i < n
        invariant
            n == a@.len(),
            n == b@.len(),
            0 <= i <= n,
            forall|j: int| 0 <= j < i ==> lower_char(#[trigger] a@[j]) == lower_char(b@[j]),
        decreases n - i,
    {
        let ca = a.get_char(i) as u32;
        let cb = b.get_char(i) as u32;
        let la: u32 = if 65 <= ca && ca <= 90 {
            ca + 32
        } else {
            ca
        };
        let lb: u32 = if 65 <= cb && cb <= 90 {
            cb + 32
        } else {
            cb
        };
        if la != lb {
            proof {
                lemma_lower_distinct(a@[i as int], b@[i as int]);
            }
            return false;
        }
        proof {
            lemma_lower_same(a@[i as int], b@[i as int]);
        }
        i = i + 1;
    }
    true
}

/// Characters whose lower-cased code points differ are distinct after
/// lower-casing.
proof fn lemma_lower_distinct(ca: char, cb: char)
    requires
        spec_lower_u32(ca as u32) != spec_lower_u32(cb as u32),
    ensures
        lower_char(ca) != lower_char(cb),
{
    assert(lower_char(ca) as u32 == spec_lower_u32(ca as u32)) by {
        lemma_lower_char_u32(ca);
    }
    assert(lower_char(cb) as u32 == spec_lower_u32(cb as u32)) by {
        lemma_lower_char_u32(cb);
    }
}

/// Characters whose lower-cased code points agree are equal after
/// lower-casing.
proof fn lemma_lower_same(ca: char, cb: char)
    requires
        spec_lower_u32(ca as u32) == spec_lower_u32(cb as u32),
    ensures
        lower_char(ca) == lower_char(cb),
{
    lemma_lower_char_u32(ca);
    lemma_lower_char_u32(cb);
    crate::base64url::lemma_char_eq(lower_char(ca), lower_char(cb));
}

/// Lower-casing on code points.
pub open spec fn spec_lower_u32(u: u32) -> u32 {
    if 65 <= u && u <= 90 {
        (u + 32) as u32
    } else {
        u
    }
}

/// The code point of a lower-cased character is the lower-cased code point.
proof fn lemma_lower_char_u32(c: char)
    ensures
        lower_char(c) as u32 == spec_lower_u32(c as u32),
{
    if 65 <= (c as u32) && (c as u32) <= 90 {
        let b: u8 = ((c as u32) + 32) as u8;
        assert((b as char) as u32 == b);
    }
}

/// A profile as served and updated: every field optional, absent fields
/// left untouched by updates.
pub struct User {
    pub firstname: Option<String>,
    pub lastname: Option<String>,
    pub age: Option<i32>,
    pub gender: Option<Gender>,
    pub bio: Option<String>,
    pub profile_picture_url: Option<String>,
}

/// The mathematical content of a profile.
pub open spec fn user_view(u: User) -> (
    Option<Seq<char>>,
    Option<Seq<char>>,
    Option<int>,
    Option<Gender>,
    Option<Seq<char>>,
    Option<Seq<char>>,
) {
    (
        crate::store::opt_view(u.firstname),
        crate::store::opt_view(u.lastname),
        match u.age {
            Some(a) => Some(a as int),
            None => None,
        },
        u.gender,
        crate::store::opt_view(u.bio),
        crate::store::opt_view(u.profile_picture_url),
    )
}

/// One serialized optional text field: absent is a dash, present is the
/// length in decimal, a colon, the text, and a closing bar.
pub open spec fn fld(o: Option<Seq<char>>) -> Seq<char> {
    match o {
        None => seq!['-', '|'],
        Some(c) => crate::numeric::dec_of(c.len()) + seq![':'] + c + seq!['|'],
    }
}

/// One serialized optional age: absent is a dash, present its decimal
/// digits, then a closing bar.
pub open spec fn fage(o: Option<int>) -> Seq<char> {
    match o {
        None => seq!['-', '|'],
        Some(a) => crate::numeric::dec_of(a as nat) + seq!['|'],
    }
}

/// The stored letter of a gender value.
pub open spec fn gchar(g: Gender) -> char {
    match g {
        Gender::Male => 'M',
        Gender::Female => 'F',
        Gender::Other => 'O',
    }
}

/// One serialized optional gender.
pub open spec fn fgen(o: Option<Gender>) -> Seq<char> {
    match o {
        None => seq!['-', '|'],
        Some(g) => seq![gchar(g), '|'],
    }
}

/// The serialized snapshot of a profile: its six fields in order.
pub open spec fn spec_ser(u: User) -> Seq<char> {
    fld(crate::store::opt_view(u.firstname)) + fld(crate::store::opt_view(u.lastname)) + fage(
        match u.age {
            Some(a) => Some(a as int),
            None => None,
        },
    ) + fgen(u.gender) + fld(crate::store::opt_view(u.bio)) + fld(
        crate::store::opt_view(u.profile_picture_url),
    )
}

/// The bounds under which a profile's snapshot parses back: text fields
/// within nineteen digits of length, the age a non-negative machine value.
pub open spec fn ser_ok(u: User) -> bool {
    &&& fld_ok(crate::store::opt_view(u.firstname))
    &&& fld_ok(crate::store::opt_view(u.lastname))
    &&& (u.age matches Some(a) ==> 0 <= a)
    &&& fld_ok(crate::store::opt_view(u.bio))
    &&& fld_ok(crate::store::opt_view(u.profile_picture_url))
}

pub open spec fn fld_ok(o: Option<Seq<char>>) -> bool {
    o matches Some(c) ==> c.len() < crate::numeric::pow10(19)
}

/// Appends one serialized optional text field.
fn ser_fld(out: &mut String, o: &Option<String>)
    ensures
        final(out)@ == old(out)@ + fld(crate::store::opt_view(*o)),
{
    match o {
        None => {
            crate::strutil::push_char(out, '-');
            crate::strutil::push_char(out, '|');
            proof {
                assert(final(out)@ =~= old(out)@ + fld(crate::store::opt_view(*o)));
            }
        },
        Some(s) => {
            let d = crate::numeric::u64_to_dec(s.unicode_len() as u64);
            out.append(d.as_str());
            crate::strutil::push_char(out, ':');
            out.append(s.as_str());
            crate::strutil::push_char(out, '|');
            proof {
                assert(final(out)@ =~= old(out)@ + fld(crate::store::opt_view(*o)));
            }
        },
    }
}

/// Renders the snapshot of a profile.
pub fn serialize_profile(u: &User) -> (r: String)
    requires
        u.age matches Some(a) ==> 0 <= a,
    ensures
        r@ == spec_ser(*u),
{
    let mut r = String::new();
    ser_fld(&mut r, &u.firstname);
    ser_fld(&mut r, &u.lastname);
    match u.age {
        Some(a) => {
            let d = crate::numeric::u64_to_dec(a as u64);
            r.append(d.as_str());
            crate::strutil::push_char(&mut r, '|');
        },
        None => {
            crate::strutil::push_char(&mut r, '-');
            crate::strutil::push_char(&mut r, '|');
        },
    }
    match u.gender {
        Some(g) => {
            let c = match g {
                Gender::Male => 'M',
                Gender::Female => 'F',
                Gender::Other => 'O',
            };
            crate::strutil::push_char(&mut r, c);
            crate::strutil::push_char(&mut r, '|');
        },
        None => {
            crate::strutil::push_char(&mut r, '-');
            crate::strutil::push_char(&mut r, '|');
        },
    }
    ser_fld(&mut r, &u.bio);
    ser_fld(&mut r, &u.profile_picture_url);
    proof {
        assert(r@ =~= spec_ser(*u));
    }
    r
}

/// Where the pieces of one serialized text field sit when it starts at
/// `pos` of `s`.
proof fn lemma_fld_at(s: Seq<char>, pos: int, o: Option<Seq<char>>)
    requires
        fld_ok(o),
        0 <= pos,
        pos + fld(o).len() <= s.len(),
        s.subrange(pos, pos + fld(o).len() as int) == fld(o),
    ensures
        fld(o).len() >= 2,
        o is None ==> fld(o).len() == 2 && s[pos] == '-' && s[pos + 1] == '|',
        o matches Some(c) ==> ({
            let d = crate::numeric::dec_of(c.len());
            &&& fld(o).len() == d.len() + c.len() + 2
            &&& 1 <= d.len() <= 19
            &&& s.subrange(pos, pos + d.len() as int) == d
            &&& (forall|k: int|
                pos <= k < pos + d.len() ==> crate::numeric::is_digit(#[trigger] s[k]))
            &&& s[pos + d.len() as int] == ':'
            &&& !crate::numeric::is_digit(s[pos + d.len() as int])
            &&& s.subrange(
                pos + d.len() + 1,
                pos + d.len() + 1 + c.len() as int,
            ) == c
            &&& s[pos + d.len() + 1 + c.len() as int] == '|'
            &&& crate::numeric::dec_val(d) == c.len()
        }),
{
    let f = fld(o);
    assert(forall|i: int| 0 <= i < f.len() ==> #[trigger] s[pos + i] == f[i]) by {
        assert(forall|i: int|
            0 <= i < f.len() ==> s.subrange(pos, pos + f.len() as int)[i] == #[trigger] s[pos
                + i]);
    }
    match o {
        None => {
            assert(f =~= seq!['-', '|']);
            assert(s[pos] == f[0] && s[pos + 1] == f[1]);
        },
        Some(c) => {
            let d = crate::numeric::dec_of(c.len());
            crate::numeric::lemma_dec_of_val(c.len());
            crate::numeric::lemma_dec_of_len(c.len(), 19);
            assert(f =~= d + seq![':'] + c + seq!['|']);
            assert(forall|i: int| 0 <= i < d.len() ==> #[trigger] f[i] == d[i]);
            assert forall|k: int|
                pos <= k < pos + d.len() implies crate::numeric::is_digit(#[trigger] s[k]) by {
                assert(s[k] == f[k - pos]);
                assert(f[k - pos] == d[k - pos]);
            }
            assert(s[pos + d.len() as int] == ':') by {
                let i = d.len() as int;
                assert(s[pos + i] == f[i]);
            }
            assert((':' as u32) == 58);
            assert(s.subrange(pos, pos + d.len() as int) =~= d);
            assert forall|j: int| 0 <= j < c.len() implies s[pos + d.len() + 1 + j] == #[trigger] c[j] by {
                let i = d.len() + 1 + j;
                assert(s[pos + i] == f[i]);
                assert(f[i] == c[j]);
            }
            assert(s.subrange(pos + d.len() + 1, pos + d.len() + 1 + c.len() as int) =~= c);
            assert(s[pos + d.len() + 1 + c.len() as int] == '|') by {
                let i = d.len() + 1 + c.len() as int;
                assert(s[pos + i] == f[i]);
                assert(f[i] == '|');
            }
        },
    }
}

/// Parses one optional text field starting at `pos`: any text that the
/// serializer would put there is read back exactly.
fn parse_fld(s: &str, pos: usize) -> (r: Option<(Option<String>, usize)>)
    requires
        pos <= s@.len(),
    ensures
        (r matches Some(p) ==> pos < p.1 <= s@.len() && s@.subrange(pos as int, p.1 as int)
            == fld(crate::store::opt_view(p.0)) && fld_ok(crate::store::opt_view(p.0))),
        forall|o: Option<Seq<char>>|
            fld_ok(o) && pos + (#[trigger] fld(o)).len() <= s@.len() && s@.subrange(
                pos as int,
                pos + fld(o).len() as int,
            ) == fld(o) ==> (r matches Some(p) && crate::store::opt_view(p.0) == o && p.1 == pos
                + fld(o).len()),
{
    let n = s.unicode_len();
    if pos >= n {
        proof {
            assert forall|o: Option<Seq<char>>|
                fld_ok(o) && pos + (#[trigger] fld(o)).len() <= s@.len() && s@.subrange(
                    pos as int,
                    pos + fld(o).len() as int,
                ) == fld(o) implies false by {
                lemma_fld_at(s@, pos as int, o);
            }
        }
        return None;
    }
    let c0 = s.get_char(pos);
    if c0 == '-' {
        if pos + 1 < n && s.get_char(pos + 1) == '|' {
            proof {
                assert forall|o: Option<Seq<char>>|
                    fld_ok(o) && pos + (#[trigger] fld(o)).len() <= s@.len() && s@.subrange(
                        pos as int,
                        pos + fld(o).len() as int,
                    ) == fld(o) implies (crate::store::opt_view(None::<String>) == o && pos + 2
                    == pos + fld(o).len()) by {
                    lemma_fld_at(s@, pos as int, o);
                    if let Some(c) = o {
                        assert(crate::numeric::is_digit(s@[pos as int]));
                        assert((s@[pos as int] as u32) != 45);
                        assert(('-' as u32) == 45);
                    }
                }
            }
            proof {
                assert(s@.subrange(pos as int, pos + 2) =~= fld(
                    crate::store::opt_view(None::<String>),
                )) by {
                    assert(s@.subrange(pos as int, pos + 2)[0] == s@[pos as int]);
                    assert(s@.subrange(pos as int, pos + 2)[1] == s@[pos as int + 1]);
                }
            }
            return Some((None, pos + 2));
        }
        proof {
            assert forall|o: Option<Seq<char>>|
                fld_ok(o) && pos + (#[trigger] fld(o)).len() <= s@.len() && s@.subrange(
                    pos as int,
                    pos + fld(o).len() as int,
                ) == fld(o) implies false by {
                lemma_fld_at(s@, pos as int, o);
                if let Some(c) = o {
                    assert(crate::numeric::is_digit(s@[pos as int]));
                    assert(('-' as u32) == 45);
                }
            }
        }
        return None;
    }
    let e = crate::strutil::scan_digits(s, pos);
    proof {
        // under any witness, the digit run ends exactly at the colon
        assert forall|o: Option<Seq<char>>|
            fld_ok(o) && pos + (#[trigger] fld(o)).len() <= s@.len() && s@.subrange(
                pos as int,
                pos + fld(o).len() as int,
            ) == fld(o) implies (o matches Some(c) && e == pos
            + crate::numeric::dec_of(c.len()).len()) by {
            lemma_fld_at(s@, pos as int, o);
            if o is None {
                assert(s@[pos as int] == '-');
                assert(('-' as u32) == 45);
            }
            if let Some(c) = o {
                let d = crate::numeric::dec_of(c.len());
                let stop = pos + d.len();
                if e < stop {
                    assert(crate::numeric::is_digit(s@[e as int]));
                } else if e > stop {
                    assert(crate::numeric::is_digit(s@[stop as int]));
                }
            }
        }
    }
    if e == pos {
        proof {
            assert forall|o: Option<Seq<char>>|
                fld_ok(o) && pos + (#[trigger] fld(o)).len() <= s@.len() && s@.subrange(
                    pos as int,
                    pos + fld(o).len() as int,
                ) == fld(o) implies false by {
                lemma_fld_at(s@, pos as int, o);
            }
        }
        return None;
    }
    let lenpart = s.substring_char(pos, e);
    let lenv = match crate::numeric::parse_dec(lenpart) {
        Some(v) => v,
        None => {
            proof {
                assert forall|o: Option<Seq<char>>|
                    fld_ok(o) && pos + (#[trigger] fld(o)).len() <= s@.len() && s@.subrange(
                        pos as int,
                        pos + fld(o).len() as int,
                    ) == fld(o) implies false by {
                    lemma_fld_at(s@, pos as int, o);
                    if let Some(c) = o {
                        crate::numeric::lemma_dec_round_trip(c.len() as u64);
                        assert(lenpart@ =~= crate::numeric::dec_of(c.len()));
                    }
                }
            }
            return None;
        },
    };
    if e - pos > 1 && s.get_char(pos) == '0' {
        proof {
            assert forall|o: Option<Seq<char>>|
                fld_ok(o) && pos + (#[trigger] fld(o)).len() <= s@.len() && s@.subrange(
                    pos as int,
                    pos + fld(o).len() as int,
                ) == fld(o) implies false by {
                lemma_fld_at(s@, pos as int, o);
                if let Some(c) = o {
                    crate::numeric::lemma_dec_of_no_leading_zero(c.len());
                    let d = crate::numeric::dec_of(c.len());
                    assert(s@[pos as int] == d[0]);
                }
            }
        }
        return None;
    }
    if e >= n {
        proof {
            assert forall|o: Option<Seq<char>>|
                fld_ok(o) && pos + (#[trigger] fld(o)).len() <= s@.len() && s@.subrange(
                    pos as int,
                    pos + fld(o).len() as int,
                ) == fld(o) implies false by {
                lemma_fld_at(s@, pos as int, o);
            }
        }
        return None;
    }
    if s.get_char(e) != ':' {
        proof {
            assert forall|o: Option<Seq<char>>|
                fld_ok(o) && pos + (#[trigger] fld(o)).len() <= s@.len() && s@.subrange(
                    pos as int,
                    pos + fld(o).len() as int,
                ) == fld(o) implies false by {
                lemma_fld_at(s@, pos as int, o);
            }
        }
        return None;
    }
    let end1 = e + 1;
    let avail = n - end1;
    if avail == 0 || lenv > (avail - 1) as u64 {
        proof {
            assert forall|o: Option<Seq<char>>|
                fld_ok(o) && pos + (#[trigger] fld(o)).len() <= s@.len() && s@.subrange(
                    pos as int,
                    pos + fld(o).len() as int,
                ) == fld(o) implies false by {
                lemma_fld_at(s@, pos as int, o);
                if let Some(c) = o {
                    crate::numeric::lemma_dec_round_trip(c.len() as u64);
                    assert(lenpart@ =~= crate::numeric::dec_of(c.len()));
                    assert(lenv == c.len());
                }
            }
        }
        return None;
    }
    let l = lenv as usize;
    if s.get_char(end1 + l) != '|' {
        proof {
            assert forall|o: Option<Seq<char>>|
                fld_ok(o) && pos + (#[trigger] fld(o)).len() <= s@.len() && s@.subrange(
                    pos as int,
                    pos + fld(o).len() as int,
                ) == fld(o) implies false by {
                lemma_fld_at(s@, pos as int, o);
                if let Some(c) = o {
                    crate::numeric::lemma_dec_round_trip(c.len() as u64);
                    assert(lenpart@ =~= crate::numeric::dec_of(c.len()));
                    assert(lenv == c.len());
                }
            }
        }
        return None;
    }
    let content = s.substring_char(end1, end1 + l);
    let out = content.to_owned();
    proof {
        let d = s@.subrange(pos as int, e as int);
        assert(d.len() >= 1);
        if d.len() > 1 {
            assert(d[0] == s@[pos as int]);
            assert(s@[pos as int] != '0') by {
                if s@[pos as int] as u32 == 48 {
                    vstd::utf8::char_u32_cast(s@[pos as int], 48);
                    vstd::utf8::char_u32_cast('0', 48);
                }
                assert(('0' as u32) == 48);
            }
        }
        crate::numeric::lemma_dec_canonical(d);
        assert(crate::numeric::dec_of(lenv as nat) == d);
        assert(content@ == s@.subrange(end1 as int, end1 + l as int));
        assert(s@.subrange(pos as int, end1 + l + 1 as int) =~= fld(Some(content@))) by {
            assert(forall|i: int|
                0 <= i < end1 + l + 1 - pos ==> s@.subrange(pos as int, end1 + l + 1 as int)[i]
                    == #[trigger] s@[pos + i]);
            assert(forall|j: int|
                0 <= j < l ==> content@[j] == #[trigger] s@[end1 + j]);
            assert(forall|j: int| 0 <= j < d.len() ==> #[trigger] d[j] == s@[pos + j]);
        }
        crate::numeric::lemma_dec_val_bound(d);
        crate::numeric::lemma_pow10_monotone(d.len(), 19);
        crate::numeric::lemma_pow10_concrete();
    }
    proof {
        assert forall|o: Option<Seq<char>>|
            fld_ok(o) && pos + (#[trigger] fld(o)).len() <= s@.len() && s@.subrange(
                pos as int,
                pos + fld(o).len() as int,
            ) == fld(o) implies (crate::store::opt_view(Some(out)) == o && end1 + l + 1 == pos
            + fld(o).len()) by {
            lemma_fld_at(s@, pos as int, o);
            if let Some(c) = o {
                crate::numeric::lemma_dec_round_trip(c.len() as u64);
                assert(lenpart@ =~= crate::numeric::dec_of(c.len()));
                assert(lenv == c.len());
                assert(content@ =~= c);
            }
        }
    }
    Some((Some(out), end1 + l + 1))
}

/// Where the pieces of one serialized age sit when it starts at `pos`.
proof fn lemma_fage_at(s: Seq<char>, pos: int, o: Option<int>)
    requires
        (o matches Some(a) ==> 0 <= a <= 2147483647),
        0 <= pos,
        pos + fage(o).len() <= s.len(),
        s.subrange(pos, pos + fage(o).len() as int) == fage(o),
    ensures
        fage(o).len() >= 2,
        o is None ==> fage(o).len() == 2 && s[pos] == '-' && s[pos + 1] == '|',
        o matches Some(a) ==> ({
            let d = crate::numeric::dec_of(a as nat);
            &&& fage(o).len() == d.len() + 1
            &&& 1 <= d.len() <= 19
            &&& s.subrange(pos, pos + d.len() as int) == d
            &&& (forall|k: int|
                pos <= k < pos + d.len() ==> crate::numeric::is_digit(#[trigger] s[k]))
            &&& s[pos + d.len() as int] == '|'
            &&& !crate::numeric::is_digit(s[pos + d.len() as int])
            &&& crate::numeric::dec_val(d) == a
        }),
{
    let f = fage(o);
    assert(forall|i: int| 0 <= i < f.len() ==> #[trigger] s[pos + i] == f[i]) by {
        assert(forall|i: int|
            0 <= i < f.len() ==> s.subrange(pos, pos + f.len() as int)[i] == #[trigger] s[pos
                + i]);
    }
    match o {
        None => {
            assert(f =~= seq!['-', '|']);
            assert(s[pos] == f[0] && s[pos + 1] == f[1]);
        },
        Some(a) => {
            let d = crate::numeric::dec_of(a as nat);
            crate::numeric::lemma_dec_of_val(a as nat);
            crate::numeric::lemma_pow10_concrete();
            crate::numeric::lemma_dec_of_len(a as nat, 19);
            assert(f =~= d + seq!['|']);
            assert(forall|i: int| 0 <= i < d.len() ==> #[trigger] f[i] == d[i]);
            assert forall|k: int|
                pos <= k < pos + d.len() implies crate::numeric::is_digit(#[trigger] s[k]) by {
                assert(s[k] == f[k - pos]);
                assert(f[k - pos] == d[k - pos]);
            }
            assert(s[pos + d.len() as int] == '|') by {
                let i = d.len() as int;
                assert(s[pos + i] == f[i]);
            }
            assert(('|' as u32) == 124);
        },
    }
}

/// Parses one optional age starting at `pos`.
fn parse_age(s: &str, pos: usize) -> (r: Option<(Option<i32>, usize)>)
    requires
        pos <= s@.len(),
    ensures
        (r matches Some(p) ==> pos < p.1 <= s@.len() && s@.subrange(pos as int, p.1 as int)
            == fage(
            match p.0 {
                Some(a) => Some(a as int),
                None => None,
            },
        )),
        (r matches Some(p) ==> (p.0 matches Some(a) ==> 0 <= a)),
        forall|o: Option<int>|
            (o matches Some(a) ==> 0 <= a <= 2147483647) && pos + (#[trigger] fage(o)).len()
                <= s@.len() && s@.subrange(pos as int, pos + fage(o).len() as int) == fage(o)
                ==> (r matches Some(p) && (match p.0 {
                Some(a) => Some(a as int),
                None => None,
            }) == o && p.1 == pos + fage(o).len()),
{
    let n = s.unicode_len();
    if pos >= n {
        proof {
            assert forall|o: Option<int>|
                (o matches Some(a) ==> 0 <= a <= 2147483647) && pos + (#[trigger] fage(o)).len()
                    <= s@.len() && s@.subrange(pos as int, pos + fage(o).len() as int) == fage(o)
                implies false by {
                lemma_fage_at(s@, pos as int, o);
            }
        }
        return None;
    }
    let c0 = s.get_char(pos);
    if c0 == '-' {
        if pos + 1 < n && s.get_char(pos + 1) == '|' {
            proof {
                assert forall|o: Option<int>|
                    (o matches Some(a) ==> 0 <= a <= 2147483647) && pos + (#[trigger] fage(
                        o,
                    )).len() <= s@.len() && s@.subrange(pos as int, pos + fage(o).len() as int)
                        == fage(o) implies (o is None && pos + 2 == pos + fage(o).len()) by {
                    lemma_fage_at(s@, pos as int, o);
                    if let Some(a) = o {
                        assert(crate::numeric::is_digit(s@[pos as int]));
                        assert(('-' as u32) == 45);
                    }
                }
            }
            proof {
                assert(s@.subrange(pos as int, pos + 2) =~= fage(None)) by {
                    assert(s@.subrange(pos as int, pos + 2)[0] == s@[pos as int]);
                    assert(s@.subrange(pos as int, pos + 2)[1] == s@[pos as int + 1]);
                }
            }
            return Some((None, pos + 2));
        }
        proof {
            assert forall|o: Option<int>|
                (o matches Some(a) ==> 0 <= a <= 2147483647) && pos + (#[trigger] fage(o)).len()
                    <= s@.len() && s@.subrange(pos as int, pos + fage(o).len() as int) == fage(o)
                implies false by {
                lemma_fage_at(s@, pos as int, o);
                if let Some(a) = o {
                    assert(crate::numeric::is_digit(s@[pos as int]));
                    assert(('-' as u32) == 45);
                }
            }
        }
        return None;
    }
    let e = crate::strutil::scan_digits(s, pos);
    proof {
        assert forall|o: Option<int>|
            (o matches Some(a) ==> 0 <= a <= 2147483647) && pos + (#[trigger] fage(o)).len()
                <= s@.len() && s@.subrange(pos as int, pos + fage(o).len() as int) == fage(o)
            implies (o matches Some(a) && e == pos + crate::numeric::dec_of(a as nat).len()) by {
            lemma_fage_at(s@, pos as int, o);
            if o is None {
                assert(s@[pos as int] == '-');
                assert(('-' as u32) == 45);
            }
            if let Some(a) = o {
                let d = crate::numeric::dec_of(a as nat);
                let stop = pos + d.len();
                if e < stop {
                    assert(crate::numeric::is_digit(s@[e as int]));
                } else if e > stop {
                    assert(crate::numeric::is_digit(s@[stop as int]));
                }
            }
        }
    }
    if e == pos {
        proof {
            assert forall|o: Option<int>|
                (o matches Some(a) ==> 0 <= a <= 2147483647) && pos + (#[trigger] fage(o)).len()
                    <= s@.len() && s@.subrange(pos as int, pos + fage(o).len() as int) == fage(o)
                implies false by {
                lemma_fage_at(s@, pos as int, o);
            }
        }
        return None;
    }
    let digits = s.substring_char(pos, e);
    let v = match crate::numeric::parse_dec(digits) {
        Some(v) => v,
        None => {
            proof {
                assert forall|o: Option<int>|
                    (o matches Some(a) ==> 0 <= a <= 2147483647) && pos + (#[trigger] fage(
                        o,
                    )).len() <= s@.len() && s@.subrange(pos as int, pos + fage(o).len() as int)
                        == fage(o) implies false by {
                    lemma_fage_at(s@, pos as int, o);
                    if let Some(a) = o {
                        crate::numeric::lemma_dec_round_trip(a as u64);
                        assert(digits@ =~= crate::numeric::dec_of(a as nat));
                    }
                }
            }
            return None;
        },
    };
    if e - pos > 1 && s.get_char(pos) == '0' {
        proof {
            assert forall|o: Option<int>|
                (o matches Some(a) ==> 0 <= a <= 2147483647) && pos + (#[trigger] fage(o)).len()
                    <= s@.len() && s@.subrange(pos as int, pos + fage(o).len() as int) == fage(o)
                implies false by {
                lemma_fage_at(s@, pos as int, o);
                if let Some(a) = o {
                    crate::numeric::lemma_dec_of_no_leading_zero(a as nat);
                    let d = crate::numeric::dec_of(a as nat);
                    assert(s@[pos as int] == d[0]);
                }
            }
        }
        return None;
    }
    if e >= n || v > 2147483647 {
        proof {
            assert forall|o: Option<int>|
                (o matches Some(a) ==> 0 <= a <= 2147483647) && pos + (#[trigger] fage(o)).len()
                    <= s@.len() && s@.subrange(pos as int, pos + fage(o).len() as int) == fage(o)
                implies false by {
                lemma_fage_at(s@, pos as int, o);
                if let Some(a) = o {
                    crate::numeric::lemma_dec_round_trip(a as u64);
                    assert(digits@ =~= crate::numeric::dec_of(a as nat));
                }
            }
        }
        return None;
    }
    if s.get_char(e) != '|' {
        proof {
            assert forall|o: Option<int>|
                (o matches Some(a) ==> 0 <= a <= 2147483647) && pos + (#[trigger] fage(o)).len()
                    <= s@.len() && s@.subrange(pos as int, pos + fage(o).len() as int) == fage(o)
                implies false by {
                lemma_fage_at(s@, pos as int, o);
            }
        }
        return None;
    }
    proof {
        assert forall|o: Option<int>|
            (o matches Some(a) ==> 0 <= a <= 2147483647) && pos + (#[trigger] fage(o)).len()
                <= s@.len() && s@.subrange(pos as int, pos + fage(o).len() as int) == fage(o)
            implies (o == Some((v as i32) as int) && e + 1 == pos + fage(o).len()) by {
            lemma_fage_at(s@, pos as int, o);
            if let Some(a) = o {
                crate::numeric::lemma_pow10_concrete();
                crate::numeric::lemma_dec_round_trip(a as u64);
                assert(digits@ =~= crate::numeric::dec_of(a as nat));
                assert(v == a);
            }
        }
    }
    proof {
        let d = s@.subrange(pos as int, e as int);
        assert(d.len() >= 1);
        if d.len() > 1 {
            assert(d[0] == s@[pos as int]);
            assert(s@[pos as int] != '0') by {
                if s@[pos as int] as u32 == 48 {
                    vstd::utf8::char_u32_cast(s@[pos as int], 48);
                    vstd::utf8::char_u32_cast('0', 48);
                }
                assert(('0' as u32) == 48);
            }
        }
        crate::numeric::lemma_dec_canonical(d);
        assert(crate::numeric::dec_of(v as nat) == d);
        assert(s@.subrange(pos as int, e + 1 as int) =~= fage(Some((v as i32) as int))) by {
            assert(forall|i: int|
                0 <= i < e + 1 - pos ==> s@.subrange(pos as int, e + 1 as int)[i]
                    == #[trigger] s@[pos + i]);
            assert(forall|j: int| 0 <= j < d.len() ==> #[trigger] d[j] == s@[pos + j]);
        }
    }
    Some((Some(v as i32), e + 1))
}

/// Parses one optional gender starting at `pos`.
fn parse_gen(s: &str, pos: usize) -> (r: Option<(Option<Gender>, usize)>)
    requires
        pos <= s@.len(),
    ensures
        (r matches Some(p) ==> pos < p.1 <= s@.len() && s@.subrange(pos as int, p.1 as int)
            == fgen(p.0)),
        forall|o: Option<Gender>|
            pos + (#[trigger] fgen(o)).len() <= s@.len() && s@.subrange(
                pos as int,
                pos + fgen(o).len() as int,
            ) == fgen(o) ==> (r matches Some(p) && p.0 == o && p.1 == pos + fgen(o).len()),
{
    let n = s.unicode_len();
    proof {
        assert forall|o: Option<Gender>|
            pos + (#[trigger] fgen(o)).len() <= s@.len() && s@.subrange(
                pos as int,
                pos + fgen(o).len() as int,
            ) == fgen(o) implies (fgen(o).len() == 2 && s@[pos as int] == (match o {
            None => '-',
            Some(g) => gchar(g),
        }) && s@[pos as int + 1] == '|') by {
            let f = fgen(o);
            assert(f.len() == 2);
            assert(s@.subrange(pos as int, pos + 2)[0] == s@[pos as int]);
            assert(s@.subrange(pos as int, pos + 2)[1] == s@[pos as int + 1]);
        }
    }
    if pos >= n || n - pos < 2 {
        return None;
    }
    let c0 = s.get_char(pos);
    let c1 = s.get_char(pos + 1);
    if c1 != '|' {
        return None;
    }
    proof {
        assert(s@.subrange(pos as int, pos + 2)[0] == s@[pos as int]);
        assert(s@.subrange(pos as int, pos + 2)[1] == s@[pos as int + 1]);
    }
    if c0 == '-' {
        proof {
            assert(s@.subrange(pos as int, pos + 2) =~= fgen(None));
        }
        return Some((None, pos + 2));
    }
    if c0 == 'M' {
        proof {
            assert(s@.subrange(pos as int, pos + 2) =~= fgen(Some(Gender::Male)));
        }
        return Some((Some(Gender::Male), pos + 2));
    }
    if c0 == 'F' {
        proof {
            assert(s@.subrange(pos as int, pos + 2) =~= fgen(Some(Gender::Female)));
        }
        return Some((Some(Gender::Female), pos + 2));
    }
    if c0 == 'O' {
        proof {
            assert(s@.subrange(pos as int, pos + 2) =~= fgen(Some(Gender::Other)));
        }
        return Some((Some(Gender::Other), pos + 2));
    }
    None
}

/// Where each serialized field of a profile snapshot sits.
#[verifier::rlimit(100)]
proof fn lemma_ser_positions(u: User)
    requires
        ser_ok(u),
    ensures
        ({
            let s = spec_ser(u);
            let o1 = crate::store::opt_view(u.firstname);
            let o2 = crate::store::opt_view(u.lastname);
            let oa = (match u.age {
                Some(a) => Some(a as int),
                None => None,
            });
            let og = u.gender;
            let o5 = crate::store::opt_view(u.bio);
            let o6 = crate::store::opt_view(u.profile_picture_url);
            let p2 = fld(o1).len() as int;
            let p3 = p2 + fld(o2).len() as int;
            let p4 = p3 + fage(oa).len() as int;
            let p5 = p4 + fgen(og).len() as int;
            let p6 = p5 + fld(o5).len() as int;
            &&& s.len() == p6 + fld(o6).len() as int
            &&& s.subrange(0, p2) == fld(o1)
            &&& s.subrange(p2, p3) == fld(o2)
            &&& s.subrange(p3, p4) == fage(oa)
            &&& s.subrange(p4, p5) == fgen(og)
            &&& s.subrange(p5, p6) == fld(o5)
            &&& s.subrange(p6, s.len() as int) == fld(o6)
        }),
{
    let s = spec_ser(u);
    let o1 = crate::store::opt_view(u.firstname);
    let o2 = crate::store::opt_view(u.lastname);
    let oa = (match u.age {
        Some(a) => Some(a as int),
        None => None,
    });
    let og = u.gender;
    let o5 = crate::store::opt_view(u.bio);
    let o6 = crate::store::opt_view(u.profile_picture_url);
    let p2 = fld(o1).len() as int;
    let p3 = p2 + fld(o2).len() as int;
    let p4 = p3 + fage(oa).len() as int;
    let p5 = p4 + fgen(og).len() as int;
    let p6 = p5 + fld(o5).len() as int;
    assert(s.subrange(0, p2) =~= fld(o1));
    assert(s.subrange(p2, p3) =~= fld(o2));
    assert(s.subrange(p3, p4) =~= fage(oa));
    assert(s.subrange(p4, p5) =~= fgen(og));
    assert(s.subrange(p5, p6) =~= fld(o5));
    assert(s.subrange(p6, s.len() as int) =~= fld(o6));
}

/// A sequence cut at five interior points is the concatenation of its six
/// slices.
proof fn lemma_cat6(
    s: Seq<char>,
    p1: int,
    p2: int,
    p3: int,
    p4: int,
    p5: int,
)
    requires
        0 <= p1 <= p2 <= p3 <= p4 <= p5 <= s.len(),
    ensures
        s == s.subrange(0, p1) + s.subrange(p1, p2) + s.subrange(p2, p3) + s.subrange(p3, p4)
            + s.subrange(p4, p5) + s.subrange(p5, s.len() as int),
{
    assert(s =~= s.subrange(0, p1) + s.subrange(p1, p2) + s.subrange(p2, p3) + s.subrange(
        p3,
        p4,
    ) + s.subrange(p4, p5) + s.subrange(p5, s.len() as int));
}

/// Parses a profile snapshot: anything the serializer produced is read
/// back field for field.
#[verifier::rlimit(100)]
pub fn parse_profile(s: &str) -> (r: Option<User>)
    ensures
        (r matches Some(p) ==> s@ == spec_ser(p) && ser_ok(p)),
        forall|u: User|
            ser_ok(u) && s@ == #[trigger] spec_ser(u) ==> (r matches Some(p) && user_view(p)
                == user_view(u)),
{
    let n = s.unicode_len();
    let r1 = match parse_fld(s, 0) {
        Some(p) => p,
        None => {
            proof {
                assert forall|u: User| ser_ok(u) && s@ == #[trigger] spec_ser(u) implies false by {
                    lemma_ser_positions(u);
                }
            }
            return None;
        },
    };
    proof {
        assert forall|u: User| ser_ok(u) && s@ == #[trigger] spec_ser(u) implies (
        crate::store::opt_view(r1.0) == crate::store::opt_view(u.firstname) && r1.1 == fld(
            crate::store::opt_view(u.firstname),
        ).len()) by {
            lemma_ser_positions(u);
        }
    }
    let r2 = match parse_fld(s, r1.1) {
        Some(p) => p,
        None => {
            proof {
                assert forall|u: User| ser_ok(u) && s@ == #[trigger] spec_ser(u) implies false by {
                    lemma_ser_positions(u);
                }
            }
            return None;
        },
    };
    proof {
        assert forall|u: User| ser_ok(u) && s@ == #[trigger] spec_ser(u) implies (
        crate::store::opt_view(r2.0) == crate::store::opt_view(u.lastname) && r2.1 == fld(
            crate::store::opt_view(u.firstname),
        ).len() + fld(crate::store::opt_view(u.lastname)).len()) by {
            lemma_ser_positions(u);
        }
    }
    let r3 = match parse_age(s, r2.1) {
        Some(p) => p,
        None => {
            proof {
                assert forall|u: User| ser_ok(u) && s@ == #[trigger] spec_ser(u) implies false by {
                    lemma_ser_positions(u);
                }
            }
            return None;
        },
    };
    proof {
        assert forall|u: User| ser_ok(u) && s@ == #[trigger] spec_ser(u) implies ((match r3.0 {
            Some(a) => Some(a as int),
            None => None,
        }) == (match u.age {
            Some(a) => Some(a as int),
            None => None,
        }) && r3.1 == fld(crate::store::opt_view(u.firstname)).len() + fld(
            crate::store::opt_view(u.lastname),
        ).len() + fage(
            (match u.age {
                Some(a) => Some(a as int),
                None => None,
            }),
        ).len()) by {
            lemma_ser_positions(u);
        }
    }
    let r4 = match parse_gen(s, r3.1) {
        Some(p) => p,
        None => {
            proof {
                assert forall|u: User| ser_ok(u) && s@ == #[trigger] spec_ser(u) implies false by {
                    lemma_ser_positions(u);
                }
            }
            return None;
        },
    };
    let r5 = match parse_fld(s, r4.1) {
        Some(p) => p,
        None => {
            proof {
                assert forall|u: User| ser_ok(u) && s@ == #[trigger] spec_ser(u) implies false by {
                    lemma_ser_positions(u);
                }
            }
            return None;
        },
    };
    let r6 = match parse_fld(s, r5.1) {
        Some(p) => p,
        None => {
            proof {
                assert forall|u: User| ser_ok(u) && s@ == #[trigger] spec_ser(u) implies false by {
                    lemma_ser_positions(u);
                }
            }
            return None;
        },
    };
    if r6.1 != n {
        proof {
            assert forall|u: User| ser_ok(u) && s@ == #[trigger] spec_ser(u) implies false by {
                lemma_ser_positions(u);
            }
        }
        return None;
    }
    let out = User {
        firstname: r1.0,
        lastname: r2.0,
        age: r3.0,
        gender: r4.0,
        bio: r5.0,
        profile_picture_url: r6.0,
    };
    proof {
        lemma_cat6(s@, r1.1 as int, r2.1 as int, r3.1 as int, r4.1 as int, r5.1 as int);
        assert(s@ == spec_ser(out));
    }
    proof {
        assert forall|u: User| ser_ok(u) && s@ == #[trigger] spec_ser(u) implies user_view(out)
            == user_view(u) by {
            lemma_ser_positions(u);
        }
    }
    Some(out)
}


/// The six profile fields of a stored row, as plain values.
pub open spec fn row_user_view(r: crate::store::ProfileRow) -> (
    Option<Seq<char>>,
    Option<Seq<char>>,
    Option<int>,
    Option<Gender>,
    Option<Seq<char>>,
    Option<Seq<char>>,
) {
    (
        crate::store::opt_view(r.firstname),
        crate::store::opt_view(r.lastname),
        match r.age {
            Some(a) => Some(a as int),
            None => None,
        },
        r.gender,
        crate::store::opt_view(r.bio),
        crate::store::opt_view(r.profile_picture_url),
    )
}

/// Seconds a cached profile snapshot stays valid.
pub const PROFILE_TTL_SECONDS: u64 = 3600;

/// The cache key under which an account's profile snapshot is held.
pub open spec fn profile_key(uid: Seq<char>) -> Seq<char> {
    "user_data:"@ + uid
}

/// Builds the profile cache key for an account identifier.
pub fn make_profile_key(uid: &String) -> (r: String)
    ensures
        r@ == profile_key(uid@),
{
    let mut k = String::new();
    k.append("user_data:");
    k.append(uid.as_str());
    k
}

/// Whether the cache serves a live, well-formed snapshot under this key.
pub open spec fn snapshot_served(c: crate::cache::TtlCache, key: Seq<char>, now: u64) -> bool {
    c.live(key, now) && exists|u: User| ser_ok(u) && c.val(key) == #[trigger] spec_ser(u)
}

/// The profile of an account, straight from the durable store.
pub fn get_user_basic_data(store: &crate::store::UserStore, user_id: &String) -> (r: Option<
    User,
>)
    requires
        store.wf(),
    ensures
        match r {
            Some(u) => store.has_profile(user_id@) && user_view(u) == row_user_view(
                store.profile_of(user_id@),
            ) && ser_ok(u),
            None => !store.has_profile(user_id@),
        },
{
    match store.get_profile_row(user_id) {
        Some(row) => Some(
            User {
                firstname: row.firstname,
                lastname: row.lastname,
                age: row.age,
                gender: row.gender,
                bio: row.bio,
                profile_picture_url: row.profile_picture_url,
            },
        ),
        None => None,
    }
}

/// The cache-aside profile read: a live, well-formed snapshot is served
/// from the cache and the cache left alone; otherwise the durable store
/// answers, and a found profile is written back for an hour. A snapshot
/// that does not parse is treated as a miss.
pub fn get_profile(
    store: &crate::store::UserStore,
    cache: &mut crate::cache::TtlCache,
    account_id: &String,
    now: u64,
) -> (r: Option<User>)
    requires
        store.wf(),
        old(cache).wf(),
        now + PROFILE_TTL_SECONDS <= u64::MAX,
    ensures
        final(cache).wf(),
        forall|u: User|
            ser_ok(u) && old(cache).live(profile_key(account_id@), now) && old(cache).val(
                profile_key(account_id@),
            ) == #[trigger] spec_ser(u) ==> (r matches Some(p) && user_view(p) == user_view(u)
                && *final(cache) == *old(cache)),
        (!snapshot_served(*old(cache), profile_key(account_id@), now) && !store.has_profile(
            account_id@,
        )) ==> (r is None && *final(cache) == *old(cache)),
        (!snapshot_served(*old(cache), profile_key(account_id@), now) && store.has_profile(
            account_id@,
        )) ==> ({
            &&& r matches Some(p) && user_view(p) == row_user_view(store.profile_of(account_id@))
            &&& final(cache).has(profile_key(account_id@))
            &&& (exists|u: User|
                ser_ok(u) && (#[trigger] spec_ser(u)) == final(cache).val(
                    profile_key(account_id@),
                ) && user_view(u) == row_user_view(store.profile_of(account_id@)))
            &&& final(cache).exp_of(profile_key(account_id@)) == now + PROFILE_TTL_SECONDS
            &&& forall|k: Seq<char>|
                k != profile_key(account_id@) ==> (#[trigger] final(cache).has(k)) == old(cache).has(k)
            &&& forall|k: Seq<char>|
                k != profile_key(account_id@) && old(cache).has(k) ==> (#[trigger] final(cache).val(k)) == old(cache).val(k) && final(cache).exp_of(k) == old(cache).exp_of(k)
        }),
{
    let key = make_profile_key(account_id);
    let got = cache.get(&key, now);
    let parsed: Option<User> = match &got {
        Some(v) => parse_profile(v.as_str()),
        None => None,
    };
    match parsed {
        Some(p) => {
            proof {
                assert(snapshot_served(*old(cache), profile_key(account_id@), now));
            }
            Some(p)
        },
        None => {
            proof {
                assert(!snapshot_served(*old(cache), profile_key(account_id@), now)) by {
                    if snapshot_served(*old(cache), profile_key(account_id@), now) {
                        let u = choose|u: User|
                            ser_ok(u) && old(cache).val(profile_key(account_id@))
                                == #[trigger] spec_ser(u);
                        assert(got matches Some(v) && v@ == spec_ser(u));
                    }
                }
            }
            match get_user_basic_data(store, account_id) {
                Some(u) => {
                    let snap = serialize_profile(&u);
                    cache.set_with_ttl(key, snap, PROFILE_TTL_SECONDS, now);
                    Some(u)
                },
                None => None,
            }
        },
    }
}

/// What the profile endpoint replies: a status, the envelope fields, and
/// on success the profile.
pub struct GetUserReply {
    pub status: u16,
    pub success: bool,
    pub message: String,
    pub data: Option<User>,
}

/// Whether any field of an update request is present.
pub open spec fn any_field(user: User) -> bool {
    user.firstname is Some || user.lastname is Some || user.age is Some || user.gender is Some
        || user.bio is Some || user.profile_picture_url is Some
}

/// A present field replaces the previous value; an absent one keeps it.
pub open spec fn upd<T>(new: Option<T>, prev: Option<T>) -> Option<T> {
    if new is Some {
        new
    } else {
        prev
    }
}

/// The previous profile fields of an account, all absent when it has no
/// row yet.
pub open spec fn old_fview(st: crate::store::UserStore, uid: Seq<char>) -> (
    Option<Seq<char>>,
    Option<Seq<char>>,
    Option<int>,
    Option<Gender>,
    Option<Seq<char>>,
    Option<Seq<char>>,
) {
    if st.has_profile(uid) {
        row_user_view(st.profile_of(uid))
    } else {
        (None, None, None, None, None, None)
    }
}

/// Everything but the one profile row is untouched: other rows, and the
/// whole accounts table.
pub open spec fn others_preserved(
    pre: crate::store::UserStore,
    post: crate::store::UserStore,
    uid: Seq<char>,
) -> bool {
    &&& forall|u: Seq<char>|
        u != uid ==> (#[trigger] post.has_profile(u)) == pre.has_profile(u)
    &&& forall|u: Seq<char>|
        u != uid && pre.has_profile(u) ==> (#[trigger] post.profile_of(u)) == pre.profile_of(u)
    &&& forall|u: Seq<char>| (#[trigger] post.has_username(u)) == pre.has_username(u)
    &&& forall|u: Seq<char>|
        pre.has_username(u) ==> (#[trigger] post.id_of(u)) == pre.id_of(u) && post.password_of(u)
            == pre.password_of(u) && post.email_of(u) == pre.email_of(u)
    &&& forall|i: Seq<char>| (#[trigger] post.has_id(i)) == pre.has_id(i)
}

/// The complete effect of one authorized profile update: which fields of
/// the account's row change, which stay, what is reported, and that an
/// out-of-range age aborts the call after the name fields but before any
/// other — partial application, exactly as the statements run one by one.
pub open spec fn update_outcome(
    pre: crate::store::UserStore,
    post: crate::store::UserStore,
    user: User,
    uid: Seq<char>,
    now: u64,
    status: u16,
    msg: Seq<char>,
) -> bool {
    let uv = user_view(user);
    let old6 = old_fview(pre, uid);
    let rowex = pre.has_profile(uid) || user.firstname is Some;
    let wrote = rowex && (user.firstname is Some || user.lastname is Some);
    if !any_field(user) {
        status == 500 && post == pre
    } else if user.age matches Some(a) && a < 18 {
        &&& status == 400
        &&& msg == "Age must be greater than 18"@
        &&& if wrote {
            &&& post.has_profile(uid)
            &&& row_user_view(post.profile_of(uid)) == (
                upd(uv.0, old6.0),
                upd(uv.1, old6.1),
                old6.2,
                old6.3,
                old6.4,
                old6.5,
            )
            &&& post.profile_of(uid).updated_at == now
            &&& others_preserved(pre, post, uid)
        } else {
            post == pre
        }
    } else if user.age matches Some(a) && a > 50 {
        &&& status == 400
        &&& msg == "Age must be less than 50"@
        &&& if wrote {
            &&& post.has_profile(uid)
            &&& row_user_view(post.profile_of(uid)) == (
                upd(uv.0, old6.0),
                upd(uv.1, old6.1),
                old6.2,
                old6.3,
                old6.4,
                old6.5,
            )
            &&& post.profile_of(uid).updated_at == now
            &&& others_preserved(pre, post, uid)
        } else {
            post == pre
        }
    } else {
        &&& status == 200
        &&& msg == "User Data Updated Successfully"@
        &&& if rowex {
            &&& post.has_profile(uid)
            &&& row_user_view(post.profile_of(uid)) == (
                upd(uv.0, old6.0),
                upd(uv.1, old6.1),
                upd(uv.2, old6.2),
                upd(uv.3, old6.3),
                upd(uv.4, old6.4),
                upd(uv.5, old6.5),
            )
            &&& post.profile_of(uid).updated_at == now
            &&& others_preserved(pre, post, uid)
        } else {
            post == pre
        }
    }
}

impl User {
    /// The profile endpoint: a missing or bad session is turned away with
    /// the reason; an authorized one is answered through the cache-aside
    /// reader.
    pub fn get_user(
        store: &crate::store::UserStore,
        cache: &mut crate::cache::TtlCache,
        token: Option<&str>,
        secret: &[u8],
        now: u64,
    ) -> (r: GetUserReply)
        requires
            store.wf(),
            old(cache).wf(),
            now + PROFILE_TTL_SECONDS <= u64::MAX,
        ensures
            final(cache).wf(),
            token is None ==> r.status == 401 && !r.success && r.message@ == "Missing token"@
                && r.data is None && *final(cache) == *old(cache),
            r.status == 200 ==> r.success && r.data is Some && r.message@
                == "Token validated successfully"@,
            r.status == 404 ==> r.data is None && r.message@ == "User Data Not Found"@,
            r.status == 401 ==> r.data is None && *final(cache) == *old(cache),
            (r.status == 200 || r.status == 404) ==> (token matches Some(t) && exists|sub: Seq<
                char,
            >| #[trigger] crate::token::token_accepted(t@, secret@, now, sub)),
            forall|sub: Seq<char>, exp: u64, iat: u64|
                crate::claims::valid_sub(sub) && (exp as nat) < crate::numeric::pow10(19) && (
                iat as nat) < crate::numeric::pow10(19) && (token matches Some(t) && t@
                    == #[trigger] crate::token::spec_token(sub, exp, iat, secret@)) ==> (if now
                    < exp {
                    &&& r.status != 401
                    &&& (forall|u: User|
                        ser_ok(u) && old(cache).live(profile_key(sub), now) && old(cache).val(
                            profile_key(sub),
                        ) == #[trigger] spec_ser(u) ==> r.status == 200 && (r.data matches Some(
                            p,
                        ) && user_view(p) == user_view(u)) && *final(cache) == *old(cache))
                    &&& (!snapshot_served(*old(cache), profile_key(sub), now)
                        && !store.has_profile(sub) ==> r.status == 404 && *final(cache) == *old(cache))
                    &&& (!snapshot_served(*old(cache), profile_key(sub), now)
                        && store.has_profile(sub) ==> ({
                        &&& r.status == 200
                        &&& (r.data matches Some(p) && user_view(p) == row_user_view(
                            store.profile_of(sub),
                        ))
                        &&& final(cache).has(profile_key(sub))
                        &&& (exists|u: User|
                            ser_ok(u) && (#[trigger] spec_ser(u)) == final(cache).val(
                                profile_key(sub),
                            ) && user_view(u) == row_user_view(store.profile_of(sub)))
                        &&& final(cache).exp_of(profile_key(sub)) == now + PROFILE_TTL_SECONDS
                        &&& (forall|k: Seq<char>|
                            k != profile_key(sub) ==> (#[trigger] final(cache).has(k)) == old(cache).has(k))
                        &&& (forall|k: Seq<char>|
                            k != profile_key(sub) && old(cache).has(k) ==> (#[trigger] final(cache).val(k)) == old(cache).val(k) && final(cache).exp_of(k) == old(cache).exp_of(k))
                    }))
                } else {
                    r.status == 401 && r.message@ == "Invalid token: expired"@
                }),
    {
        let t = match token {
            Some(t) => t,
            None => {
                return GetUserReply {
                    status: 401,
                    success: false,
                    message: "Missing token".to_owned(),
                    data: None,
                };
            },
        };
        let uid = match crate::token::validate_token(t, secret, now) {
            Ok(u) => u,
            Err(e) => {
                return GetUserReply {
                    status: 401,
                    success: false,
                    message: e.message().to_owned(),
                    data: None,
                };
            },
        };
        proof {
            assert(crate::token::token_accepted(t@, secret@, now, uid@));
        }
        match get_profile(store, cache, &uid, now) {
            Some(data) => GetUserReply {
                status: 200,
                success: true,
                message: "Token validated successfully".to_owned(),
                data: Some(data),
            },
            None => GetUserReply {
                status: 404,
                success: true,
                message: "User Data Not Found".to_owned(),
                data: None,
            },
        }
    }

    /// The profile writer: an authorized caller's present fields are
    /// applied one by one; an out-of-range age rejects the call after the
    /// name fields and before the rest, leaving what was already applied.
    pub fn insert_user_data(
        store: &mut crate::store::UserStore,
        token: Option<&str>,
        secret: &[u8],
        user: &User,
        now: u64,
    ) -> (r: crate::response::Reply<()>)
        requires
            old(store).wf(),
            fld_ok(crate::store::opt_view(user.firstname)),
            fld_ok(crate::store::opt_view(user.lastname)),
            fld_ok(crate::store::opt_view(user.bio)),
            fld_ok(crate::store::opt_view(user.profile_picture_url)),
        ensures
            final(store).wf(),
            token is None ==> r.status == 401 && r.body.message@ == "Missing token"@
                && *final(store) == *old(store),
            r.status == 401 ==> *final(store) == *old(store),
            r.status != 401 ==> (token matches Some(t) && exists|sub: Seq<char>|
                #[trigger] crate::token::token_accepted(t@, secret@, now, sub)),
            forall|sub: Seq<char>, exp: u64, iat: u64|
                crate::claims::valid_sub(sub) && (exp as nat) < crate::numeric::pow10(19) && (
                iat as nat) < crate::numeric::pow10(19) && (token matches Some(t) && t@
                    == #[trigger] crate::token::spec_token(sub, exp, iat, secret@)) ==> (if now
                    < exp {
                    update_outcome(
                        *old(store),
                        *final(store),
                        *user,
                        sub,
                        now,
                        r.status,
                        r.body.message@,
                    )
                } else {
                    r.status == 401 && r.body.message@ == "Invalid token: expired"@
                }),
    {
        let t = match token {
            Some(t) => t,
            None => {
                return crate::response::Reply {
                    status: 401,
                    body: crate::response::ResponseToSend {
                        success: false,
                        message: "Missing token".to_owned(),
                        data: None,
                    },
                };
            },
        };
        let uid = match crate::token::validate_token(t, secret, now) {
            Ok(u) => u,
            Err(e) => {
                return crate::response::Reply {
                    status: 401,
                    body: crate::response::ResponseToSend {
                        success: false,
                        message: e.message().to_owned(),
                        data: None,
                    },
                };
            },
        };
        proof {
            assert(crate::token::token_accepted(t@, secret@, now, uid@));
        }
        let anyf = user.firstname.is_some() || user.lastname.is_some() || user.age.is_some()
            || user.gender.is_some() || user.bio.is_some()
            || user.profile_picture_url.is_some();
        if !anyf {
            return crate::response::handle_internal_server_error("Row Not Found");
        }
        let row0 = store.get_profile_row(&uid);
        let exists0 = row0.is_some();
        let mut row = match row0 {
            Some(rw) => rw,
            None => crate::store::ProfileRow {
                user_id: uid.clone(),
                firstname: None,
                lastname: None,
                age: None,
                gender: None,
                bio: None,
                profile_picture_url: None,
                updated_at: now,
            },
        };
        let rowex = exists0 || user.firstname.is_some();
        let mut wrote = false;
        if let Some(f) = &user.firstname {
            row.firstname = Some(f.clone());
            wrote = true;
        }
        if let Some(l) = &user.lastname {
            row.lastname = Some(l.clone());
            wrote = true;
        }
        if let Some(a) = user.age {
            if a < 18 {
                if wrote && rowex {
                    row.updated_at = now;
                    store.put_profile_row(row);
                }
                proof {
                    let pre = *old(store);
                    let post = *store;
                    let uv = user_view(*user);
                    let old6 = old_fview(pre, uid@);
                    if wrote && rowex {
                        assert(post.has_profile(uid@));
                        assert(row_user_view(post.profile_of(uid@)).0 == upd(uv.0, old6.0));
                        assert(row_user_view(post.profile_of(uid@)).1 == upd(uv.1, old6.1));
                        assert(row_user_view(post.profile_of(uid@)).2 == old6.2);
                        assert(row_user_view(post.profile_of(uid@)).3 == old6.3);
                        assert(row_user_view(post.profile_of(uid@)).4 == old6.4);
                        assert(row_user_view(post.profile_of(uid@)).5 == old6.5);
                        assert(others_preserved(pre, post, uid@));
                    } else {
                        assert(post == pre);
                    }
                    assert(update_outcome(
                        *old(store),
                        *store,
                        *user,
                        uid@,
                        now,
                        400,
                        "Age must be greater than 18"@,
                    ));
                }
                return crate::response::handle_bad_request("Age must be greater than 18");
            }
            if a > 50 {
                if wrote && rowex {
                    row.updated_at = now;
                    store.put_profile_row(row);
                }
                proof {
                    let pre = *old(store);
                    let post = *store;
                    let uv = user_view(*user);
                    let old6 = old_fview(pre, uid@);
                    if wrote && rowex {
                        assert(post.has_profile(uid@));
                        assert(row_user_view(post.profile_of(uid@)).0 == upd(uv.0, old6.0));
                        assert(row_user_view(post.profile_of(uid@)).1 == upd(uv.1, old6.1));
                        assert(row_user_view(post.profile_of(uid@)).2 == old6.2);
                        assert(row_user_view(post.profile_of(uid@)).3 == old6.3);
                        assert(row_user_view(post.profile_of(uid@)).4 == old6.4);
                        assert(row_user_view(post.profile_of(uid@)).5 == old6.5);
                        assert(others_preserved(pre, post, uid@));
                    } else {
                        assert(post == pre);
                    }
                    assert(update_outcome(
                        *old(store),
                        *store,
                        *user,
                        uid@,
                        now,
                        400,
                        "Age must be less than 50"@,
                    ));
                }
                return crate::response::handle_bad_request("Age must be less than 50");
            }
            row.age = Some(a);
        }
        if let Some(g) = user.gender {
            row.gender = Some(g);
        }
        if let Some(b) = &user.bio {
            row.bio = Some(b.clone());
        }
        if let Some(p) = &user.profile_picture_url {
            row.profile_picture_url = Some(p.clone());
        }
        if rowex {
            row.updated_at = now;
            store.put_profile_row(row);
        }
        proof {
            assert(update_outcome(
                *old(store),
                *store,
                *user,
                uid@,
                now,
                200,
                "User Data Updated Successfully"@,
            ));
        }
        crate::response::Reply {
            status: 200,
            body: crate::response::ResponseToSend {
                success: true,
                message: "User Data Updated Successfully".to_owned(),
                data: None,
            },
        }
    }
}

} // verus!
