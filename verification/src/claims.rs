//! The token claims: a fixed-shape JSON object holding subject, expiry,
//! issue time and issuer. Rendering is canonical, parsing is strict, and the
//! two are proved inverse of each other.
use vstd::prelude::*;

use crate::numeric::{
    dec_of, dec_val, is_digit, lemma_dec_canonical, lemma_dec_of_no_leading_zero,
    lemma_dec_of_val, lemma_dec_round_trip, parse_dec, pow10, u64_to_dec,
};
use crate::strutil::{find_from, match_at, scan_digits};

verus! {

/// The claims carried by a session token.
pub struct Claims {
    pub sub: String,
    pub exp: u64,
    pub iat: u64,
}

/// No double quote anywhere: such a subject embeds unambiguously.
pub open spec fn no_quote(s: Seq<char>) -> bool {
    forall|i: int| 0 <= i < s.len() ==> #[trigger] s[i] != '"'
}

/// Printable ASCII without the double quote: what account identifiers are
/// made of.
pub open spec fn valid_sub(s: Seq<char>) -> bool {
    forall|i: int|
        0 <= i < s.len() ==> 32 <= (#[trigger] s[i] as u32) < 127 && s[i] != '"'
}

/// The exact claims text: subject, expiry, issue time, fixed issuer.
pub open spec fn spec_claims_json(sub: Seq<char>, exp: u64, iat: u64) -> Seq<char> {
    "{\"sub\":\""@ + sub + "\",\"exp\":"@ + dec_of(exp as nat) + ",\"iat\":"@ + dec_of(
        iat as nat,
    ) + ",\"iss\":\"Amourithm\"}"@
}

/// Index of the quote closing the subject.
pub open spec fn cl_qe(sub: Seq<char>) -> int {
    8 + sub.len() as int
}

/// Index just past the expiry digits.
pub open spec fn cl_ee(sub: Seq<char>, exp: u64) -> int {
    cl_qe(sub) + 8 + dec_of(exp as nat).len() as int
}

/// Index just past the issue-time digits.
pub open spec fn cl_ie(sub: Seq<char>, exp: u64, iat: u64) -> int {
    cl_ee(sub, exp) + 7 + dec_of(iat as nat).len() as int
}

/// Where every piece of the rendered claims text sits, and what stands
/// there: the positional facts both parser directions rest on.
pub proof fn lemma_claims_positions(sub: Seq<char>, exp: u64, iat: u64)
    requires
        no_quote(sub),
    ensures
        ({
            let s = spec_claims_json(sub, exp, iat);
            let qe = cl_qe(sub);
            let ee = cl_ee(sub, exp);
            let ie = cl_ie(sub, exp, iat);
            &&& s.len() == ie + 19
            &&& s.subrange(0, 8) == "{\"sub\":\""@
            &&& s.subrange(8, qe) == sub
            &&& s[qe] == '"'
            &&& (forall|k: int| 8 <= k < qe ==> #[trigger] s[k] != '"')
            &&& s.subrange(qe, qe + 8) == "\",\"exp\":"@
            &&& s.subrange(qe + 8, ee) == dec_of(exp as nat)
            &&& (forall|k: int| qe + 8 <= k < ee ==> is_digit(#[trigger] s[k]))
            &&& (ee - (qe + 8) > 1 ==> s[qe + 8] != '0')
            &&& 1 <= ee - (qe + 8)
            &&& !is_digit(s[ee])
            &&& s.subrange(ee, ee + 7) == ",\"iat\":"@
            &&& s.subrange(ee + 7, ie) == dec_of(iat as nat)
            &&& (forall|k: int| ee + 7 <= k < ie ==> is_digit(#[trigger] s[k]))
            &&& (ie - (ee + 7) > 1 ==> s[ee + 7] != '0')
            &&& 1 <= ie - (ee + 7)
            &&& !is_digit(s[ie])
            &&& s.subrange(ie, ie + 19) == ",\"iss\":\"Amourithm\"}"@
        }),
{
    reveal_strlit("{\"sub\":\"");
    reveal_strlit("\",\"exp\":");
    reveal_strlit(",\"iat\":");
    reveal_strlit(",\"iss\":\"Amourithm\"}");
    let l0 = "{\"sub\":\""@;
    let l1 = "\",\"exp\":"@;
    let l2 = ",\"iat\":"@;
    let l3 = ",\"iss\":\"Amourithm\"}"@;
    assert(l0.len() == 8);
    assert(l1.len() == 8);
    assert(l2.len() == 7);
    assert(l3.len() == 19);
    lemma_dec_of_val(exp as nat);
    lemma_dec_of_val(iat as nat);
    lemma_dec_of_no_leading_zero(exp as nat);
    lemma_dec_of_no_leading_zero(iat as nat);
    let s = spec_claims_json(sub, exp, iat);
    let qe = cl_qe(sub);
    let ee = cl_ee(sub, exp);
    let ie = cl_ie(sub, exp, iat);
    let de = dec_of(exp as nat);
    let di = dec_of(iat as nat);
    assert(s.len() == ie + 19);
    assert(s.subrange(0, 8) =~= l0);
    assert(s.subrange(8, qe) =~= sub);
    assert(s[qe] == l1[0]);
    assert(l1[0] == '"');
    assert(forall|k: int| 8 <= k < qe ==> s[k] == #[trigger] sub[k - 8]);
    assert(s.subrange(qe, qe + 8) =~= l1);
    assert(s.subrange(qe + 8, ee) =~= de);
    assert(forall|k: int| qe + 8 <= k < ee ==> s[k] == #[trigger] de[k - (qe + 8)]);
    if de.len() > 1 {
        assert(s[qe + 8] == de[0]);
        assert(de[0] != '0');
    }
    assert(s[ee] == l2[0]);
    assert(l2[0] == ',');
    assert(!is_digit(','));
    assert(s.subrange(ee, ee + 7) =~= l2);
    assert(s.subrange(ee + 7, ie) =~= di);
    assert(forall|k: int| ee + 7 <= k < ie ==> s[k] == #[trigger] di[k - (ee + 7)]);
    if di.len() > 1 {
        assert(s[ee + 7] == di[0]);
        assert(di[0] != '0');
    }
    assert(s[ie] == l3[0]);
    assert(l3[0] == ',');
    assert(s.subrange(ie, ie + 19) =~= l3);
}

/// Two renderings with quote-free subjects can only agree when subject,
/// expiry and issue time all agree.
pub proof fn lemma_claims_json_injective(
    sub1: Seq<char>,
    exp1: u64,
    iat1: u64,
    sub2: Seq<char>,
    exp2: u64,
    iat2: u64,
)
    requires
        no_quote(sub1),
        no_quote(sub2),
        spec_claims_json(sub1, exp1, iat1) == spec_claims_json(sub2, exp2, iat2),
    ensures
        sub1 == sub2,
        exp1 == exp2,
        iat1 == iat2,
{
    lemma_claims_positions(sub1, exp1, iat1);
    lemma_claims_positions(sub2, exp2, iat2);
    let s = spec_claims_json(sub1, exp1, iat1);
    let qe1 = cl_qe(sub1);
    let qe2 = cl_qe(sub2);
    assert(qe1 == qe2) by {
        if qe1 < qe2 {
            assert(s[qe1] == '"');
            assert(s[qe1] != '"');
        } else if qe2 < qe1 {
            assert(s[qe2] == '"');
            assert(s[qe2] != '"');
        }
    }
    assert(sub1 =~= sub2) by {
        assert(s.subrange(8, qe1) == sub1);
        assert(s.subrange(8, qe2) == sub2);
    }
    let ee1 = cl_ee(sub1, exp1);
    let ee2 = cl_ee(sub2, exp2);
    assert(ee1 == ee2) by {
        if ee1 < ee2 {
            assert(is_digit(s[ee1]));
            assert(!is_digit(s[ee1]));
        } else if ee2 < ee1 {
            assert(is_digit(s[ee2]));
            assert(!is_digit(s[ee2]));
        }
    }
    assert(dec_of(exp1 as nat) =~= dec_of(exp2 as nat)) by {
        assert(s.subrange(qe1 + 8, ee1) == dec_of(exp1 as nat));
        assert(s.subrange(qe2 + 8, ee2) == dec_of(exp2 as nat));
    }
    assert(exp1 == exp2) by {
        lemma_dec_of_val(exp1 as nat);
        lemma_dec_of_val(exp2 as nat);
        assert(dec_val(dec_of(exp1 as nat)) == dec_val(dec_of(exp2 as nat)));
    }
    let ie1 = cl_ie(sub1, exp1, iat1);
    let ie2 = cl_ie(sub2, exp2, iat2);
    assert(ie1 == ie2) by {
        if ie1 < ie2 {
            assert(is_digit(s[ie1]));
            assert(!is_digit(s[ie1]));
        } else if ie2 < ie1 {
            assert(is_digit(s[ie2]));
            assert(!is_digit(s[ie2]));
        }
    }
    assert(dec_of(iat1 as nat) =~= dec_of(iat2 as nat)) by {
        assert(s.subrange(ee1 + 7, ie1) == dec_of(iat1 as nat));
        assert(s.subrange(ee2 + 7, ie2) == dec_of(iat2 as nat));
    }
    assert(iat1 == iat2) by {
        lemma_dec_of_val(iat1 as nat);
        lemma_dec_of_val(iat2 as nat);
        assert(dec_val(dec_of(iat1 as nat)) == dec_val(dec_of(iat2 as nat)));
    }
}

/// A rendering with a printable-ASCII subject is itself ASCII.
pub proof fn lemma_claims_ascii(sub: Seq<char>, exp: u64, iat: u64)
    requires
        valid_sub(sub),
    ensures
        vstd::utf8::is_ascii_chars(spec_claims_json(sub, exp, iat)),
{
    assert(no_quote(sub));
    lemma_claims_positions(sub, exp, iat);
    reveal_strlit("{\"sub\":\"");
    reveal_strlit("\",\"exp\":");
    reveal_strlit(",\"iat\":");
    reveal_strlit(",\"iss\":\"Amourithm\"}");
    let l0 = "{\"sub\":\""@;
    let l1 = "\",\"exp\":"@;
    let l2 = ",\"iat\":"@;
    let l3 = ",\"iss\":\"Amourithm\"}"@;
    assert(vstd::utf8::is_ascii_chars(l0));
    assert(vstd::utf8::is_ascii_chars(l1));
    assert(vstd::utf8::is_ascii_chars(l2));
    assert(vstd::utf8::is_ascii_chars(l3));
    let s = spec_claims_json(sub, exp, iat);
    let qe = cl_qe(sub);
    let ee = cl_ee(sub, exp);
    let ie = cl_ie(sub, exp, iat);
    assert forall|k: int| 0 <= k < s.len() implies '\0' <= #[trigger] s[k] <= '\u{7f}' by {
        if k < 8 {
            assert(s.subrange(0, 8)[k] == s[k]);
            assert(s[k] == l0[k]);
        } else if k < qe {
            assert(s.subrange(8, qe)[k - 8] == s[k]);
            assert(s[k] == sub[k - 8]);
            assert(32 <= (s[k] as u32) < 127);
            lemma_cmp_from_u32(s[k]);
        } else if k < qe + 8 {
            assert(s.subrange(qe, qe + 8)[k - qe] == s[k]);
            assert(s[k] == l1[k - qe]);
        } else if k < ee {
            assert(is_digit(s[k]));
            lemma_cmp_from_u32(s[k]);
        } else if k < ee + 7 {
            assert(s.subrange(ee, ee + 7)[k - ee] == s[k]);
            assert(s[k] == l2[k - ee]);
        } else if k < ie {
            assert(is_digit(s[k]));
            lemma_cmp_from_u32(s[k]);
        } else {
            assert(s.subrange(ie, ie + 19)[k - ie] == s[k]);
            assert(s[k] == l3[k - ie]);
        }
    }
}

/// A character whose code point is below 128 sits in the ASCII range.
pub proof fn lemma_cmp_from_u32(c: char)
    requires
        (c as u32) < 128,
    ensures
        '\0' <= c <= '\u{7f}',
{
    vstd::utf8::char_u32_cast(c, c as u32);
    vstd::utf8::char_u32_cast('\0', 0);
    vstd::utf8::char_u32_cast('\u{7f}', 127);
}

/// Renders the claims text for the given subject and times.
pub fn render_claims(sub: &str, exp: u64, iat: u64) -> (r: String)
    ensures
        r@ == spec_claims_json(sub@, exp, iat),
{
    let mut r = String::new();
    r.append("{\"sub\":\"");
    r.append(sub);
    r.append("\",\"exp\":");
    let de = u64_to_dec(exp);
    r.append(de.as_str());
    r.append(",\"iat\":");
    let di = u64_to_dec(iat);
    r.append(di.as_str());
    r.append(",\"iss\":\"Amourithm\"}");
    proof {
        assert(r@ =~= spec_claims_json(sub@, exp, iat));
    }
    r
}

/// Parses claims text. Strict: only the exact canonical rendering of some
/// quote-free subject and in-range times is accepted, so parsing inverts
/// rendering.
pub fn parse_claims(s: &str) -> (r: Option<Claims>)
    ensures
        match r {
            Some(c) => s@ == spec_claims_json(c.sub@, c.exp, c.iat) && no_quote(c.sub@),
            None => true,
        },
        forall|sub: Seq<char>, exp: u64, iat: u64|
            valid_sub(sub) && (exp as nat) < pow10(19) && (iat as nat) < pow10(19) && s@
                == #[trigger] spec_claims_json(sub, exp, iat) ==> (r matches Some(c) && c.sub@
                == sub && c.exp == exp && c.iat == iat),
{
    proof {
        reveal_strlit("{\"sub\":\"");
        reveal_strlit("\",\"exp\":");
        reveal_strlit(",\"iat\":");
        reveal_strlit(",\"iss\":\"Amourithm\"}");
    }
    let n = s.unicode_len();
    if !match_at(s, 0, "{\"sub\":\"") {
        proof {
            assert forall|sub: Seq<char>, exp: u64, iat: u64|
                valid_sub(sub) && (exp as nat) < pow10(19) && (iat as nat) < pow10(19) && s@
                    == #[trigger] spec_claims_json(sub, exp, iat) implies false by {
                lemma_claims_positions(sub, exp, iat);
            }
        }
        return None;
    }
    let qe = match find_from(s, 8, '"') {
        Some(j) => j,
        None => {
            proof {
                assert forall|sub: Seq<char>, exp: u64, iat: u64|
                    valid_sub(sub) && (exp as nat) < pow10(19) && (iat as nat) < pow10(19) && s@
                        == #[trigger] spec_claims_json(sub, exp, iat) implies false by {
                    lemma_claims_positions(sub, exp, iat);
                    assert(s@[cl_qe(sub)] == '"');
                }
            }
            return None;
        },
    };
    proof {
        assert forall|sub: Seq<char>, exp: u64, iat: u64|
            valid_sub(sub) && (exp as nat) < pow10(19) && (iat as nat) < pow10(19) && s@
                == #[trigger] spec_claims_json(sub, exp, iat) implies qe == cl_qe(sub) by {
            lemma_claims_positions(sub, exp, iat);
            if qe < cl_qe(sub) {
                assert(s@[qe as int] != '"');
            } else if cl_qe(sub) < qe {
                assert(s@[cl_qe(sub)] == '"');
            }
        }
    }
    let subpart = s.substring_char(8, qe);
    if !match_at(s, qe, "\",\"exp\":") {
        proof {
            assert forall|sub: Seq<char>, exp: u64, iat: u64|
                valid_sub(sub) && (exp as nat) < pow10(19) && (iat as nat) < pow10(19) && s@
                    == #[trigger] spec_claims_json(sub, exp, iat) implies false by {
                lemma_claims_positions(sub, exp, iat);
            }
        }
        return None;
    }
    let exp_start = qe + 8;
    let exp_end = scan_digits(s, exp_start);
    let ghost exp_complete: bool;
    proof {
        assert forall|sub: Seq<char>, exp: u64, iat: u64|
            valid_sub(sub) && (exp as nat) < pow10(19) && (iat as nat) < pow10(19) && s@
                == #[trigger] spec_claims_json(sub, exp, iat) implies exp_end == cl_ee(sub, exp)
            by {
            lemma_claims_positions(sub, exp, iat);
            if exp_end < cl_ee(sub, exp) {
                assert(is_digit(s@[exp_end as int]));
            } else if cl_ee(sub, exp) < exp_end {
                assert(is_digit(s@[cl_ee(sub, exp)]));
                assert(!is_digit(s@[cl_ee(sub, exp)]));
            }
        }
    }
    let expstr = s.substring_char(exp_start, exp_end);
    let exp = match parse_dec(expstr) {
        Some(v) => v,
        None => {
            proof {
                assert forall|sub: Seq<char>, e: u64, iat: u64|
                    valid_sub(sub) && (e as nat) < pow10(19) && (iat as nat) < pow10(19) && s@
                        == #[trigger] spec_claims_json(sub, e, iat) implies false by {
                    lemma_claims_positions(sub, e, iat);
                    lemma_dec_round_trip(e);
                    assert(expstr@ =~= dec_of(e as nat));
                }
            }
            return None;
        },
    };
    if exp_end - exp_start > 1 && s.get_char(exp_start) == '0' {
        proof {
            assert forall|sub: Seq<char>, e: u64, iat: u64|
                valid_sub(sub) && (e as nat) < pow10(19) && (iat as nat) < pow10(19) && s@
                    == #[trigger] spec_claims_json(sub, e, iat) implies false by {
                lemma_claims_positions(sub, e, iat);
            }
        }
        return None;
    }
    if !match_at(s, exp_end, ",\"iat\":") {
        proof {
            assert forall|sub: Seq<char>, e: u64, iat: u64|
                valid_sub(sub) && (e as nat) < pow10(19) && (iat as nat) < pow10(19) && s@
                    == #[trigger] spec_claims_json(sub, e, iat) implies false by {
                lemma_claims_positions(sub, e, iat);
            }
        }
        return None;
    }
    let iat_start = exp_end + 7;
    let iat_end = scan_digits(s, iat_start);
    proof {
        assert forall|sub: Seq<char>, e: u64, iat: u64|
            valid_sub(sub) && (e as nat) < pow10(19) && (iat as nat) < pow10(19) && s@
                == #[trigger] spec_claims_json(sub, e, iat) implies iat_end == cl_ie(sub, e, iat)
            by {
            lemma_claims_positions(sub, e, iat);
            if iat_end < cl_ie(sub, e, iat) {
                assert(is_digit(s@[iat_end as int]));
            } else if cl_ie(sub, e, iat) < iat_end {
                assert(is_digit(s@[cl_ie(sub, e, iat)]));
                assert(!is_digit(s@[cl_ie(sub, e, iat)]));
            }
        }
    }
    let iatstr = s.substring_char(iat_start, iat_end);
    let iat = match parse_dec(iatstr) {
        Some(v) => v,
        None => {
            proof {
                assert forall|sub: Seq<char>, e: u64, t: u64|
                    valid_sub(sub) && (e as nat) < pow10(19) && (t as nat) < pow10(19) && s@
                        == #[trigger] spec_claims_json(sub, e, t) implies false by {
                    lemma_claims_positions(sub, e, t);
                    lemma_dec_round_trip(t);
                    assert(iatstr@ =~= dec_of(t as nat));
                }
            }
            return None;
        },
    };
    if iat_end - iat_start > 1 && s.get_char(iat_start) == '0' {
        proof {
            assert forall|sub: Seq<char>, e: u64, t: u64|
                valid_sub(sub) && (e as nat) < pow10(19) && (t as nat) < pow10(19) && s@
                    == #[trigger] spec_claims_json(sub, e, t) implies false by {
                lemma_claims_positions(sub, e, t);
            }
        }
        return None;
    }
    if !match_at(s, iat_end, ",\"iss\":\"Amourithm\"}") {
        proof {
            assert forall|sub: Seq<char>, e: u64, t: u64|
                valid_sub(sub) && (e as nat) < pow10(19) && (t as nat) < pow10(19) && s@
                    == #[trigger] spec_claims_json(sub, e, t) implies false by {
                lemma_claims_positions(sub, e, t);
            }
        }
        return None;
    }
    proof {
        reveal_strlit(",\"iss\":\"Amourithm\"}");
    }
    if n - iat_end != 19 {
        proof {
            assert forall|sub: Seq<char>, e: u64, t: u64|
                valid_sub(sub) && (e as nat) < pow10(19) && (t as nat) < pow10(19) && s@
                    == #[trigger] spec_claims_json(sub, e, t) implies false by {
                lemma_claims_positions(sub, e, t);
            }
        }
        return None;
    }
    let c = Claims { sub: subpart.to_owned(), exp, iat };
    proof {
        let subv = subpart@;
        let de = s@.subrange(exp_start as int, exp_end as int);
        let di = s@.subrange(iat_start as int, iat_end as int);
        assert(de =~= expstr@);
        assert(di =~= iatstr@);
        if exp_end - exp_start > 1 {
            assert(s@[exp_start as int] != '0');
            assert(de[0] == s@[exp_start as int]);
        }
        if iat_end - iat_start > 1 {
            assert(s@[iat_start as int] != '0');
            assert(di[0] == s@[iat_start as int]);
        }
        lemma_dec_canonical(de);
        lemma_dec_canonical(di);
        assert(dec_of(exp as nat) == de);
        assert(dec_of(iat as nat) == di);
        assert(s@ =~= spec_claims_json(subv, exp, iat)) by {
            assert(s@.subrange(0, 8) == "{\"sub\":\""@);
            assert(forall|k: int| 0 <= k < 8 ==> s@[k] == #[trigger] "{\"sub\":\""@[k]);
            assert(forall|k: int| 8 <= k < qe ==> s@[k] == #[trigger] subv[k - 8]);
            assert(s@.subrange(qe as int, qe + 8) == "\",\"exp\":"@);
            assert(forall|k: int|
                qe <= k < qe + 8 ==> s@[k] == #[trigger] "\",\"exp\":"@[k - qe]);
            assert(forall|k: int|
                exp_start <= k < exp_end ==> s@[k] == #[trigger] de[k - exp_start]);
            assert(s@.subrange(exp_end as int, exp_end + 7) == ",\"iat\":"@);
            assert(forall|k: int|
                exp_end <= k < exp_end + 7 ==> s@[k] == #[trigger] ",\"iat\":"@[k - exp_end]);
            assert(forall|k: int|
                iat_start <= k < iat_end ==> s@[k] == #[trigger] di[k - iat_start]);
            assert(s@.subrange(iat_end as int, iat_end + 19) == ",\"iss\":\"Amourithm\"}"@);
            assert(forall|k: int|
                iat_end <= k < iat_end + 19 ==> s@[k]
                    == #[trigger] ",\"iss\":\"Amourithm\"}"@[k - iat_end]);
        }
        assert(no_quote(subv));
        assert forall|sub2: Seq<char>, e2: u64, t2: u64|
            valid_sub(sub2) && (e2 as nat) < pow10(19) && (t2 as nat) < pow10(19) && s@
                == #[trigger] spec_claims_json(sub2, e2, t2) implies (subv == sub2 && exp == e2
            && iat == t2) by {
            lemma_claims_json_injective(subv, exp, iat, sub2, e2, t2);
        }
    }
    Some(c)
}

} // verus!
