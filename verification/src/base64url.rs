//! URL-safe base64 without padding, over characters with code points below
//! 256. Encoding and decoding are verified, and decoding an encoded string
//! is proved to give the original back.
use vstd::prelude::*;

use crate::strutil::push_char;

verus! {

/// Character codes this codec accepts as "bytes": code points below 256.
pub open spec fn byte_chars(s: Seq<char>) -> bool {
    forall|i: int| 0 <= i < s.len() ==> (#[trigger] s[i] as u32) < 256
}

/// The alphabet: values 0..64 map to 'A'..'Z', 'a'..'z', '0'..'9', '-', '_'.
pub open spec fn b64_char(v: int) -> char {
    if v < 26 {
        ((v + 65) as u8) as char
    } else if v < 52 {
        ((v + 71) as u8) as char
    } else if v < 62 {
        ((v - 4) as u8) as char
    } else if v == 62 {
        '-'
    } else {
        '_'
    }
}

/// The value of an alphabet character, or -1 for one outside the alphabet.
pub open spec fn b64_val(c: char) -> int {
    let u = c as u32;
    if 65 <= u && u <= 90 {
        u - 65
    } else if 97 <= u && u <= 122 {
        u - 71
    } else if 48 <= u && u <= 57 {
        u + 4
    } else if u == 45 {
        62
    } else if u == 95 {
        63
    } else {
        -1
    }
}

/// Characters with equal code points are equal.
pub proof fn lemma_char_eq(c1: char, c2: char)
    requires
        c1 as u32 == c2 as u32,
    ensures
        c1 == c2,
{
    vstd::utf8::char_u32_cast(c1, c1 as u32);
    vstd::utf8::char_u32_cast(c2, c2 as u32);
}

/// The alphabet maps are inverse to each other, and no alphabet character is
/// a dot (the token separator).
pub proof fn lemma_b64_char_val(v: int)
    requires
        0 <= v < 64,
    ensures
        b64_val(b64_char(v)) == v,
        b64_char(v) != '.',
        b64_char(v) != '"',
{
    if v < 26 {
        let b: u8 = (v + 65) as u8;
        assert((b as char) as u32 == b);
    } else if v < 52 {
        let b: u8 = (v + 71) as u8;
        assert((b as char) as u32 == b);
    } else if v < 62 {
        let b: u8 = (v - 4) as u8;
        assert((b as char) as u32 == b);
    }
}

/// The unpadded base64url encoding of a character sequence, three input
/// characters to four output characters, the tail shortened as usual.
pub open spec fn spec_b64(s: Seq<char>) -> Seq<char>
    decreases s.len(),
{
    if s.len() == 0 {
        Seq::<char>::empty()
    } else if s.len() == 1 {
        let b0 = s[0] as u32;
        seq![b64_char(b0 as int / 4), b64_char((b0 as int % 4) * 16)]
    } else if s.len() == 2 {
        let b0 = s[0] as u32;
        let b1 = s[1] as u32;
        seq![
            b64_char(b0 as int / 4),
            b64_char((b0 as int % 4) * 16 + b1 as int / 16),
            b64_char((b1 as int % 16) * 4),
        ]
    } else {
        let b0 = s[0] as u32;
        let b1 = s[1] as u32;
        let b2 = s[2] as u32;
        seq![
            b64_char(b0 as int / 4),
            b64_char((b0 as int % 4) * 16 + b1 as int / 16),
            b64_char((b1 as int % 16) * 4 + b2 as int / 64),
            b64_char(b2 as int % 64),
        ] + spec_b64(s.skip(3))
    }
}

/// Decoding: four alphabet characters back to three, the tail as usual.
/// `None` on a length of one modulo four or a character outside the alphabet.
pub open spec fn spec_b64_decode(t: Seq<char>) -> Option<Seq<char>>
    decreases t.len(),
{
    if t.len() == 0 {
        Some(Seq::<char>::empty())
    } else if t.len() == 1 {
        None
    } else if t.len() == 2 {
        let v0 = b64_val(t[0]);
        let v1 = b64_val(t[1]);
        if v0 >= 0 && v1 >= 0 {
            Some(seq![(((v0 * 4 + v1 / 16) as u8) as char)])
        } else {
            None
        }
    } else if t.len() == 3 {
        let v0 = b64_val(t[0]);
        let v1 = b64_val(t[1]);
        let v2 = b64_val(t[2]);
        if v0 >= 0 && v1 >= 0 && v2 >= 0 {
            Some(
                seq![
                    (((v0 * 4 + v1 / 16) as u8) as char),
                    ((((v1 % 16) * 16 + v2 / 4) as u8) as char),
                ],
            )
        } else {
            None
        }
    } else {
        let v0 = b64_val(t[0]);
        let v1 = b64_val(t[1]);
        let v2 = b64_val(t[2]);
        let v3 = b64_val(t[3]);
        if v0 >= 0 && v1 >= 0 && v2 >= 0 && v3 >= 0 {
            match spec_b64_decode(t.skip(4)) {
                Some(rest) => Some(
                    seq![
                        (((v0 * 4 + v1 / 16) as u8) as char),
                        ((((v1 % 16) * 16 + v2 / 4) as u8) as char),
                        ((((v2 % 4) * 64 + v3) as u8) as char),
                    ] + rest,
                ),
                None => None,
            }
        } else {
            None
        }
    }
}

/// Every character of an encoding is in the alphabet; in particular none is
/// a dot or a quote.
pub proof fn lemma_b64_alphabet(s: Seq<char>)
    requires
        byte_chars(s),
    ensures
        forall|i: int|
            0 <= i < spec_b64(s).len() ==> b64_val(#[trigger] spec_b64(s)[i]) >= 0
                && spec_b64(s)[i] != '.' && spec_b64(s)[i] != '"',
    decreases s.len(),
{
    let t = spec_b64(s);
    if s.len() == 0 {
    } else if s.len() == 1 {
        let b0 = s[0] as u32;
        lemma_b64_char_val(b0 as int / 4);
        lemma_b64_char_val((b0 as int % 4) * 16);
        assert(t.len() == 2 && t[0] == b64_char(b0 as int / 4) && t[1] == b64_char(
            (b0 as int % 4) * 16,
        ));
    } else if s.len() == 2 {
        let b0 = s[0] as u32;
        let b1 = s[1] as u32;
        lemma_b64_char_val(b0 as int / 4);
        lemma_b64_char_val((b0 as int % 4) * 16 + b1 as int / 16);
        lemma_b64_char_val((b1 as int % 16) * 4);
        assert(t.len() == 3 && t[0] == b64_char(b0 as int / 4) && t[1] == b64_char(
            (b0 as int % 4) * 16 + b1 as int / 16,
        ) && t[2] == b64_char((b1 as int % 16) * 4));
    } else {
        let b0 = s[0] as u32;
        let b1 = s[1] as u32;
        let b2 = s[2] as u32;
        lemma_b64_char_val(b0 as int / 4);
        lemma_b64_char_val((b0 as int % 4) * 16 + b1 as int / 16);
        lemma_b64_char_val((b1 as int % 16) * 4 + b2 as int / 64);
        lemma_b64_char_val(b2 as int % 64);
        assert(byte_chars(s.skip(3))) by {
            assert(forall|i: int|
                0 <= i < s.skip(3).len() ==> s.skip(3)[i] == #[trigger] s[i + 3]);
        }
        lemma_b64_alphabet(s.skip(3));
        let g = seq![
            b64_char(b0 as int / 4),
            b64_char((b0 as int % 4) * 16 + b1 as int / 16),
            b64_char((b1 as int % 16) * 4 + b2 as int / 64),
            b64_char(b2 as int % 64),
        ];
        assert(t =~= g + spec_b64(s.skip(3)));
        assert forall|i: int| 0 <= i < t.len() implies b64_val(#[trigger] t[i]) >= 0
            && t[i] != '.' && t[i] != '"' by {
            if i < 4 {
                assert(t[i] == g[i]);
            } else {
                assert(t[i] == spec_b64(s.skip(3))[i - 4]);
            }
        }
    }
}

/// Decoding inverts encoding, character for character.
pub proof fn lemma_b64_round_trip(s: Seq<char>)
    requires
        byte_chars(s),
    ensures
        spec_b64_decode(spec_b64(s)) == Some(s),
    decreases s.len(),
{
    let t = spec_b64(s);
    if s.len() == 0 {
        assert(spec_b64_decode(t) =~= Some(s));
    } else if s.len() == 1 {
        let b0 = s[0] as u32;
        lemma_b64_char_val(b0 as int / 4);
        lemma_b64_char_val((b0 as int % 4) * 16);
        lemma_group_recover(b0 as int, 0, 0);
        assert(t.len() == 2);
        let v0 = b64_val(t[0]);
        let v1 = b64_val(t[1]);
        assert(v0 == b0 as int / 4 && v1 == (b0 as int % 4) * 16);
        assert(v0 * 4 + v1 / 16 == b0);
        let d = ((v0 * 4 + v1 / 16) as u8) as char;
        assert(d as u32 == b0);
        lemma_char_eq(d, s[0]);
        assert(seq![d] =~= s);
        assert(spec_b64_decode(t) == Some(s));
    } else if s.len() == 2 {
        let b0 = s[0] as u32;
        let b1 = s[1] as u32;
        lemma_b64_char_val(b0 as int / 4);
        lemma_b64_char_val((b0 as int % 4) * 16 + b1 as int / 16);
        lemma_b64_char_val((b1 as int % 16) * 4);
        lemma_group_recover(b0 as int, b1 as int, 0);
        assert(t.len() == 3);
        let v0 = b64_val(t[0]);
        let v1 = b64_val(t[1]);
        let v2 = b64_val(t[2]);
        assert(v0 == b0 as int / 4 && v1 == (b0 as int % 4) * 16 + b1 as int / 16 && v2 == (
        b1 as int % 16) * 4);
        assert(v0 * 4 + v1 / 16 == b0);
        assert((v1 % 16) * 16 + v2 / 4 == b1);
        let d0 = ((v0 * 4 + v1 / 16) as u8) as char;
        let d1 = (((v1 % 16) * 16 + v2 / 4) as u8) as char;
        assert(d0 as u32 == b0 && d1 as u32 == b1);
        lemma_char_eq(d0, s[0]);
        lemma_char_eq(d1, s[1]);
        assert(seq![d0, d1] =~= s);
        assert(spec_b64_decode(t) == Some(s));
    } else {
        let b0 = s[0] as u32;
        let b1 = s[1] as u32;
        let b2 = s[2] as u32;
        lemma_b64_char_val(b0 as int / 4);
        lemma_b64_char_val((b0 as int % 4) * 16 + b1 as int / 16);
        lemma_b64_char_val((b1 as int % 16) * 4 + b2 as int / 64);
        lemma_b64_char_val(b2 as int % 64);
        lemma_group_recover(b0 as int, b1 as int, b2 as int);
        assert(byte_chars(s.skip(3))) by {
            assert(forall|i: int|
                0 <= i < s.skip(3).len() ==> s.skip(3)[i] == #[trigger] s[i + 3]);
        }
        lemma_b64_round_trip(s.skip(3));
        let g = seq![
            b64_char(b0 as int / 4),
            b64_char((b0 as int % 4) * 16 + b1 as int / 16),
            b64_char((b1 as int % 16) * 4 + b2 as int / 64),
            b64_char(b2 as int % 64),
        ];
        assert(t =~= g + spec_b64(s.skip(3)));
        assert(t.len() >= 4);
        assert(t[0] == g[0] && t[1] == g[1] && t[2] == g[2] && t[3] == g[3]);
        let v0 = b64_val(t[0]);
        let v1 = b64_val(t[1]);
        let v2 = b64_val(t[2]);
        let v3 = b64_val(t[3]);
        assert(v0 * 4 + v1 / 16 == b0);
        assert((v1 % 16) * 16 + v2 / 4 == b1);
        assert((v2 % 4) * 64 + v3 == b2);
        let d0 = ((v0 * 4 + v1 / 16) as u8) as char;
        let d1 = (((v1 % 16) * 16 + v2 / 4) as u8) as char;
        let d2 = (((v2 % 4) * 64 + v3) as u8) as char;
        assert(d0 as u32 == b0 && d1 as u32 == b1 && d2 as u32 == b2);
        lemma_char_eq(d0, s[0]);
        lemma_char_eq(d1, s[1]);
        lemma_char_eq(d2, s[2]);
        assert(t.skip(4) =~= spec_b64(s.skip(3)));
        assert(spec_b64_decode(t.skip(4)) == Some(s.skip(3)));
        assert(seq![d0, d1, d2] + s.skip(3) =~= s);
        assert(spec_b64_decode(t) == Some(s));
    }
}

/// The arithmetic at the heart of the round trip: the four six-bit values of
/// a group give back its (up to) three bytes.
pub proof fn lemma_group_recover(b0: int, b1: int, b2: int)
    requires
        0 <= b0 < 256,
        0 <= b1 < 256,
        0 <= b2 < 256,
    ensures
        (b0 / 4) * 4 + ((b0 % 4) * 16 + b1 / 16) / 16 == b0,
        (((b0 % 4) * 16 + b1 / 16) % 16) * 16 + ((b1 % 16) * 4 + b2 / 64) / 4 == b1,
        (((b1 % 16) * 4 + b2 / 64) % 4) * 64 + (b2 % 64) == b2,
{
    assert((b0 / 4) * 4 + ((b0 % 4) * 16 + b1 / 16) / 16 == b0) by (nonlinear_arith)
        requires 0 <= b0 < 256 && 0 <= b1 < 256;
    assert((((b0 % 4) * 16 + b1 / 16) % 16) * 16 + ((b1 % 16) * 4 + b2 / 64) / 4 == b1)
        by (nonlinear_arith)
        requires 0 <= b0 < 256 && 0 <= b1 < 256 && 0 <= b2 < 256;
    assert((((b1 % 16) * 4 + b2 / 64) % 4) * 64 + (b2 % 64) == b2) by (nonlinear_arith)
        requires 0 <= b1 < 256 && 0 <= b2 < 256;
}

/// One alphabet character from a six-bit value.
fn b64_char_of(v: u8) -> (c: char)
    requires
        v < 64,
    ensures
        c == b64_char(v as int),
{
    if v < 26 {
        (v + 65) as char
    } else if v < 52 {
        (v + 71) as char
    } else if v < 62 {
        (v - 4) as char
    } else if v == 62 {
        '-'
    } else {
        '_'
    }
}

/// The six-bit value of one character, or `None` outside the alphabet.
fn b64_val_of(c: char) -> (r: Option<u8>)
    ensures
        match r {
            Some(v) => v < 64 && b64_val(c) == v as int,
            None => b64_val(c) == -1,
        },
{
    let u = c as u32;
    if 65 <= u && u <= 90 {
        Some((u - 65) as u8)
    } else if 97 <= u && u <= 122 {
        Some((u - 71) as u8)
    } else if 48 <= u && u <= 57 {
        Some((u + 4) as u8)
    } else if u == 45 {
        Some(62)
    } else if u == 95 {
        Some(63)
    } else {
        None
    }
}

/// Encodes an ASCII string. The result is exactly `spec_b64` of its view.
pub fn b64url_encode(s: &str) -> (r: String)
    requires
        s.is_ascii(),
    ensures
        r@ == spec_b64(s@),
{
    let n = s.unicode_len();
    let mut out = String::new();
    let mut i: usize = 0;
    proof {
        assert(s@.skip(0) =~= s@);
        assert(Seq::<char>::empty() + spec_b64(s@) =~= spec_b64(s@));
    }
    while n - i >= 3
        invariant
            s.is_ascii(),
            n == s@.len(),
            0 <= i <= n,
            spec_b64(s@) == out@ + spec_b64(s@.skip(i as int)),
        decreases n - i,
    {
        let b0 = s.get_ascii(i);
        let b1 = s.get_ascii(i + 1);
        let b2 = s.get_ascii(i + 2);
        push_char(&mut out, b64_char_of(b0 / 4));
        push_char(&mut out, b64_char_of((b0 % 4) * 16 + b1 / 16));
        push_char(&mut out, b64_char_of((b1 % 16) * 4 + b2 / 64));
        push_char(&mut out, b64_char_of(b2 % 64));
        proof {
            let rest = s@.skip(i as int);
            assert(rest[0] == s@[i as int]);
            assert(rest[1] == s@[i as int + 1]);
            assert(rest[2] == s@[i as int + 2]);
            assert(rest.skip(3) =~= s@.skip(i as int + 3));
            assert(spec_b64(s@) =~= out@ + spec_b64(s@.skip(i as int + 3)));
        }
        i = i + 3;
    }
    if n - i == 1 {
        let b0 = s.get_ascii(i);
        push_char(&mut out, b64_char_of(b0 / 4));
        push_char(&mut out, b64_char_of((b0 % 4) * 16));
        proof {
            let rest = s@.skip(i as int);
            assert(rest[0] == s@[i as int]);
            assert(spec_b64(s@) =~= out@);
        }
    } else if n - i == 2 {
        let b0 = s.get_ascii(i);
        let b1 = s.get_ascii(i + 1);
        push_char(&mut out, b64_char_of(b0 / 4));
        push_char(&mut out, b64_char_of((b0 % 4) * 16 + b1 / 16));
        push_char(&mut out, b64_char_of((b1 % 16) * 4));
        proof {
            let rest = s@.skip(i as int);
            assert(rest[0] == s@[i as int]);
            assert(rest[1] == s@[i as int + 1]);
            assert(spec_b64(s@) =~= out@);
        }
    } else {
        proof {
            assert(s@.skip(i as int) =~= Seq::<char>::empty());
            assert(spec_b64(s@) =~= out@);
        }
    }
    out
}

/// Glues a decoded prefix onto the result of decoding the rest.
pub open spec fn glue(prefix: Seq<char>, rest: Option<Seq<char>>) -> Option<Seq<char>> {
    match rest {
        Some(r) => Some(prefix + r),
        None => None,
    }
}

/// Decodes a string; the result is exactly `spec_b64_decode` of its view.
pub fn b64url_decode(t: &str) -> (r: Option<String>)
    ensures
        match r {
            Some(out) => spec_b64_decode(t@) == Some(out@),
            None => spec_b64_decode(t@) is None,
        },
{
    let n = t.unicode_len();
    let mut out = String::new();
    let mut i: usize = 0;
    proof {
        assert(t@.skip(0) =~= t@);
        assert(glue(out@, spec_b64_decode(t@.skip(0))) == spec_b64_decode(t@));
    }
    while n - i >= 4
        invariant
            n == t@.len(),
            0 <= i <= n,
            spec_b64_decode(t@) == glue(out@, spec_b64_decode(t@.skip(i as int))),
        decreases n - i,
    {
        let c0 = t.get_char(i);
        let c1 = t.get_char(i + 1);
        let c2 = t.get_char(i + 2);
        let c3 = t.get_char(i + 3);
        proof {
            let rest = t@.skip(i as int);
            assert(rest[0] == t@[i as int]);
            assert(rest[1] == t@[i as int + 1]);
            assert(rest[2] == t@[i as int + 2]);
            assert(rest[3] == t@[i as int + 3]);
            assert(rest.skip(4) =~= t@.skip(i as int + 4));
        }
        let v0 = match b64_val_of(c0) {
            Some(v) => v,
            None => { return None; },
        };
        let v1 = match b64_val_of(c1) {
            Some(v) => v,
            None => { return None; },
        };
        let v2 = match b64_val_of(c2) {
            Some(v) => v,
            None => { return None; },
        };
        let v3 = match b64_val_of(c3) {
            Some(v) => v,
            None => { return None; },
        };
        push_char(&mut out, (v0 * 4 + v1 / 16) as char);
        push_char(&mut out, ((v1 % 16) * 16 + v2 / 4) as char);
        push_char(&mut out, ((v2 % 4) * 64 + v3) as char);
        proof {
            assert(glue(out@, spec_b64_decode(t@.skip(i as int + 4)))
                == spec_b64_decode(t@));
        }
        i = i + 4;
    }
    if n - i == 0 {
        proof {
            assert(t@.skip(i as int) =~= Seq::<char>::empty());
            assert(spec_b64_decode(t@) == Some(out@)) by {
                assert(out@ + Seq::<char>::empty() =~= out@);
            }
        }
        Some(out)
    } else if n - i == 1 {
        None
    } else if n - i == 2 {
        let c0 = t.get_char(i);
        let c1 = t.get_char(i + 1);
        proof {
            let rest = t@.skip(i as int);
            assert(rest[0] == t@[i as int]);
            assert(rest[1] == t@[i as int + 1]);
        }
        let v0 = match b64_val_of(c0) {
            Some(v) => v,
            None => { return None; },
        };
        let v1 = match b64_val_of(c1) {
            Some(v) => v,
            None => { return None; },
        };
        push_char(&mut out, (v0 * 4 + v1 / 16) as char);
        proof {
            let rest = t@.skip(i as int);
            assert(spec_b64_decode(rest) == Some(seq![out@.last()]));
            assert(spec_b64_decode(t@) == Some(out@)) by {
                assert(out@.drop_last() + seq![out@.last()] =~= out@);
            }
        }
        Some(out)
    } else {
        let c0 = t.get_char(i);
        let c1 = t.get_char(i + 1);
        let c2 = t.get_char(i + 2);
        proof {
            let rest = t@.skip(i as int);
            assert(rest[0] == t@[i as int]);
            assert(rest[1] == t@[i as int + 1]);
            assert(rest[2] == t@[i as int + 2]);
        }
        let v0 = match b64_val_of(c0) {
            Some(v) => v,
            None => { return None; },
        };
        let v1 = match b64_val_of(c1) {
            Some(v) => v,
            None => { return None; },
        };
        let v2 = match b64_val_of(c2) {
            Some(v) => v,
            None => { return None; },
        };
        let ghost before = out@;
        push_char(&mut out, (v0 * 4 + v1 / 16) as char);
        push_char(&mut out, ((v1 % 16) * 16 + v2 / 4) as char);
        proof {
            let rest = t@.skip(i as int);
            assert(spec_b64_decode(rest) == Some(seq![out@[out@.len() - 2], out@.last()]));
            assert(spec_b64_decode(t@) == Some(out@)) by {
                assert(before + seq![out@[out@.len() - 2], out@.last()] =~= out@);
            }
        }
        Some(out)
    }
}

} // verus!
