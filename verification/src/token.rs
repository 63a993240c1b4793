//! The session token service: issues and validates signed, self-contained
//! tokens carrying an account identifier and expiry. The token is three
//! base64url pieces joined by dots — encoded header, encoded claims, HMAC
//! signature — with the signing itself delegated to an outside library and
//! everything around it verified.
use vstd::prelude::*;

use crate::base64url::{
    b64url_decode, b64url_encode, byte_chars, lemma_b64_alphabet, lemma_b64_round_trip, spec_b64,
    spec_b64_decode,
};
use crate::claims::{
    lemma_claims_ascii, no_quote, parse_claims, render_claims, spec_claims_json, valid_sub,
};
use crate::numeric::{lemma_pow10_concrete, pow10};
use crate::strutil::find_from;

verus! {

/// Latest clock value the token format supports; far beyond any realistic
/// wall clock, it keeps every timestamp within nineteen decimal digits.
pub const MAX_CLOCK: u64 = 999999999999999999;

/// How long a session token stays valid after issuance: 24 hours.
pub const TOKEN_TTL_SECONDS: u64 = 86400;

/// Why a token was rejected.
#[derive(PartialEq, Eq, Structural, Clone, Copy, Debug)]
pub enum TokenError {
    Malformed,
    BadSignature,
    Expired,
}

impl TokenError {
    /// The diagnostic sent with a 401 reply for this rejection.
    pub fn message(&self) -> (r: &'static str)
        ensures
            r@ == match self {
                TokenError::Malformed => "Invalid token: malformed"@,
                TokenError::BadSignature => "Invalid token: invalid signature"@,
                TokenError::Expired => "Invalid token: expired"@,
            },
    {
        match self {
            TokenError::Malformed => "Invalid token: malformed",
            TokenError::BadSignature => "Invalid token: invalid signature",
            TokenError::Expired => "Invalid token: expired",
        }
    }
}

/// The base64url HMAC-SHA256 tag of a message under a secret, as the
/// signing library renders it: a pure function of message and secret.
pub uninterp spec fn hmac_tag(message: Seq<char>, secret: Seq<u8>) -> Seq<char>;

/// Relies on jsonwebtoken::crypto::sign with the HS256 algorithm: the tag
/// depends on the message bytes and the secret alone, and signing with an
/// HMAC key never fails.
#[verifier::external_body]
fn sign_message(message: &str, secret: &[u8]) -> (r: String)
    ensures
        r@ == hmac_tag(message@, secret@),
{
    jsonwebtoken::crypto::sign(
        message.as_bytes(),
        &jsonwebtoken::EncodingKey::from_secret(secret),
        jsonwebtoken::Algorithm::HS256,
    ).unwrap_or_default()
}

/// Relies on jsonwebtoken::crypto::verify with HS256: it recomputes the tag
/// of the message under the secret and compares it with the given signature,
/// never failing for an HMAC key.
#[verifier::external_body]
fn verify_signature(signature: &str, message: &str, secret: &[u8]) -> (r: bool)
    ensures
        r == (signature@ == hmac_tag(message@, secret@)),
{
    jsonwebtoken::crypto::verify(
        signature,
        message.as_bytes(),
        &jsonwebtoken::DecodingKey::from_secret(secret),
        jsonwebtoken::Algorithm::HS256,
    ).unwrap_or(false)
}

/// The fixed token header.
pub open spec fn spec_header_json() -> Seq<char> {
    "{\"typ\":\"JWT\",\"alg\":\"HS256\"}"@
}

/// The signed part of a token: encoded header, dot, encoded claims.
pub open spec fn spec_message(sub: Seq<char>, exp: u64, iat: u64) -> Seq<char> {
    spec_b64(spec_header_json()) + "."@ + spec_b64(spec_claims_json(sub, exp, iat))
}

/// The complete token for the given claims under a secret.
pub open spec fn spec_token(sub: Seq<char>, exp: u64, iat: u64, secret: Seq<u8>) -> Seq<char> {
    spec_message(sub, exp, iat) + "."@ + hmac_tag(spec_message(sub, exp, iat), secret)
}

/// What acceptance of a token certifies: it is our header, a dot, an
/// encoding of the canonical claims for `sub`, a dot, and the HMAC tag of
/// exactly that prefix — with the expiry still ahead of `now`.
pub open spec fn token_accepted(token: Seq<char>, secret: Seq<u8>, now: u64, sub: Seq<char>) -> bool {
    exists|exp: u64, iat: u64, cpart: Seq<char>|
        #![trigger spec_b64_decode(cpart), spec_claims_json(sub, exp, iat)]
        {
            let hpart = spec_b64(spec_header_json());
            &&& token == hpart + "."@ + cpart + "."@ + hmac_tag(hpart + "."@ + cpart, secret)
            &&& spec_b64_decode(cpart) == Some(spec_claims_json(sub, exp, iat))
            &&& now < exp
        }
}

/// The revealed shape of a well-formed token: where its two dots sit and
/// what each slice holds.
pub proof fn lemma_token_structure(sub: Seq<char>, exp: u64, iat: u64, secret: Seq<u8>)
    requires
        valid_sub(sub),
    ensures
        ({
            let hh = spec_b64(spec_header_json());
            let cc = spec_b64(spec_claims_json(sub, exp, iat));
            let msg = spec_message(sub, exp, iat);
            let tok = spec_token(sub, exp, iat, secret);
            let tag = hmac_tag(msg, secret);
            &&& tok.len() == hh.len() + 1 + cc.len() + 1 + tag.len()
            &&& hh.len() >= 2
            &&& (forall|k: int| 0 <= k < hh.len() ==> #[trigger] tok[k] != '.')
            &&& tok[hh.len() as int] == '.'
            &&& (forall|k: int|
                hh.len() + 1 <= k < hh.len() + 1 + cc.len() ==> #[trigger] tok[k] != '.')
            &&& tok[hh.len() + 1 + cc.len() as int] == '.'
            &&& tok.subrange(0, hh.len() as int) == hh
            &&& tok.subrange(hh.len() as int + 1, hh.len() + 1 + cc.len() as int) == cc
            &&& tok.subrange(0, hh.len() + 1 + cc.len() as int) == msg
            &&& tok.subrange(hh.len() + cc.len() as int + 2, tok.len() as int) == tag
        }),
{
    reveal_strlit("{\"typ\":\"JWT\",\"alg\":\"HS256\"}");
    reveal_strlit(".");
    assert(spec_header_json().len() == 27);
    assert(vstd::utf8::is_ascii_chars(spec_header_json()));
    lemma_ascii_byte_chars(spec_header_json());
    lemma_b64_alphabet(spec_header_json());
    lemma_claims_ascii(sub, exp, iat);
    lemma_ascii_byte_chars(spec_claims_json(sub, exp, iat));
    lemma_b64_alphabet(spec_claims_json(sub, exp, iat));
    let hh = spec_b64(spec_header_json());
    let cc = spec_b64(spec_claims_json(sub, exp, iat));
    let msg = spec_message(sub, exp, iat);
    let tok = spec_token(sub, exp, iat, secret);
    let tag = hmac_tag(msg, secret);
    assert(hh.len() >= 2);
    assert("."@.len() == 1);
    assert("."@[0] == '.');
    assert(tok.len() == hh.len() + 1 + cc.len() + 1 + tag.len());
    assert(forall|k: int| 0 <= k < hh.len() ==> #[trigger] tok[k] == hh[k]);
    assert(forall|k: int|
        hh.len() + 1 <= k < hh.len() + 1 + cc.len() ==> #[trigger] tok[k] == cc[k - hh.len()
            - 1]);
    assert(tok[hh.len() as int] == '.');
    assert(tok[hh.len() + 1 + cc.len() as int] == '.');
    assert(tok.subrange(0, hh.len() as int) =~= hh);
    assert(tok.subrange(hh.len() as int + 1, hh.len() + 1 + cc.len() as int) =~= cc);
    assert(tok.subrange(0, hh.len() + 1 + cc.len() as int) =~= msg);
    assert(tok.subrange(hh.len() + cc.len() as int + 2, tok.len() as int) =~= tag);
}

/// An ASCII character sequence is made of characters below 256.
pub proof fn lemma_ascii_byte_chars(s: Seq<char>)
    requires
        vstd::utf8::is_ascii_chars(s),
    ensures
        byte_chars(s),
{
    assert forall|i: int| 0 <= i < s.len() implies (#[trigger] s[i] as u32) < 256 by {
        assert('\0' <= s[i] <= '\u{7f}');
    }
}

/// Issues a token for `id`: claims built from the clock handed in, signed
/// with the secret. The result is exactly the token text of those claims.
pub fn generate_token(id: &str, secret: &[u8], now: u64) -> (r: String)
    requires
        valid_sub(id@),
        now <= MAX_CLOCK,
    ensures
        r@ == spec_token(id@, (now + TOKEN_TTL_SECONDS) as u64, now, secret@),
{
    let exp = now + TOKEN_TTL_SECONDS;
    let claims = render_claims(id, exp, now);
    proof {
        reveal_strlit("{\"typ\":\"JWT\",\"alg\":\"HS256\"}");
        assert(vstd::utf8::is_ascii_chars(spec_header_json()));
        lemma_claims_ascii(id@, exp, now);
    }
    let header_b64 = b64url_encode("{\"typ\":\"JWT\",\"alg\":\"HS256\"}");
    let claims_b64 = b64url_encode(claims.as_str());
    let mut message = header_b64;
    message.append(".");
    message.append(claims_b64.as_str());
    proof {
        assert(message@ =~= spec_message(id@, exp, now));
    }
    let tag = sign_message(message.as_str(), secret);
    let mut token = message;
    token.append(".");
    token.append(tag.as_str());
    proof {
        assert(token@ =~= spec_token(id@, exp, now, secret@));
    }
    token
}

/// Validates a token against the secret and the clock handed in. Success
/// certifies the token's shape, signature and expiry (`token_accepted`);
/// and any token this service issued is accepted with its own subject
/// until its expiry, then rejected as expired.
pub fn validate_token(token: &str, secret: &[u8], now: u64) -> (r: Result<String, TokenError>)
    ensures
        (match r {
            Ok(sub) => token_accepted(token@, secret@, now, sub@) && no_quote(sub@),
            Err(_) => true,
        }),
        forall|sub: Seq<char>, exp: u64, iat: u64|
            valid_sub(sub) && (exp as nat) < pow10(19) && (iat as nat) < pow10(19) && token@
                == #[trigger] spec_token(sub, exp, iat, secret@) ==> (if now < exp {
                r matches Ok(s) && s@ == sub
            } else {
                r matches Err(e) && e is Expired
            }),
{
    let n = token.unicode_len();
    let j1 = match find_from(token, 0, '.') {
        Some(j) => j,
        None => {
            proof {
                assert forall|sub: Seq<char>, exp: u64, iat: u64|
                    valid_sub(sub) && (exp as nat) < pow10(19) && (iat as nat) < pow10(19)
                        && token@ == #[trigger] spec_token(sub, exp, iat, secret@) implies false
                    by {
                    lemma_token_structure(sub, exp, iat, secret@);
                    let hh = spec_b64(spec_header_json());
                    assert(token@[hh.len() as int] == '.');
                }
            }
            return Err(TokenError::Malformed);
        },
    };
    let j2 = match find_from(token, j1 + 1, '.') {
        Some(j) => j,
        None => {
            proof {
                assert forall|sub: Seq<char>, exp: u64, iat: u64|
                    valid_sub(sub) && (exp as nat) < pow10(19) && (iat as nat) < pow10(19)
                        && token@ == #[trigger] spec_token(sub, exp, iat, secret@) implies false
                    by {
                    lemma_token_structure(sub, exp, iat, secret@);
                    let hh = spec_b64(spec_header_json());
                    let cc = spec_b64(spec_claims_json(sub, exp, iat));
                    assert(j1 == hh.len()) by {
                        if j1 < hh.len() {
                            assert(token@[j1 as int] != '.');
                        } else if j1 > hh.len() {
                            assert(token@[hh.len() as int] == '.');
                        }
                    }
                    assert(token@[hh.len() + 1 + cc.len() as int] == '.');
                }
            }
            return Err(TokenError::Malformed);
        },
    };
    proof {
        assert forall|sub: Seq<char>, exp: u64, iat: u64|
            valid_sub(sub) && (exp as nat) < pow10(19) && (iat as nat) < pow10(19) && token@
                == #[trigger] spec_token(sub, exp, iat, secret@) implies (j1 == spec_b64(
            spec_header_json(),
        ).len() && j2 == j1 + 1 + spec_b64(spec_claims_json(sub, exp, iat)).len()) by {
            lemma_token_structure(sub, exp, iat, secret@);
            let hh = spec_b64(spec_header_json());
            let cc = spec_b64(spec_claims_json(sub, exp, iat));
            assert(j1 == hh.len()) by {
                if j1 < hh.len() {
                    assert(token@[j1 as int] != '.');
                } else if j1 > hh.len() {
                    assert(token@[hh.len() as int] == '.');
                }
            }
            assert(j2 == hh.len() + 1 + cc.len() as int) by {
                if j2 < hh.len() + 1 + cc.len() {
                    assert(token@[j2 as int] != '.');
                } else if j2 > hh.len() + 1 + cc.len() {
                    assert(token@[hh.len() + 1 + cc.len() as int] == '.');
                }
            }
        }
    }
    let hpart = token.substring_char(0, j1);
    let cpart = token.substring_char(j1 + 1, j2);
    let sig = token.substring_char(j2 + 1, n);
    let message = token.substring_char(0, j2);
    proof {
        reveal_strlit("{\"typ\":\"JWT\",\"alg\":\"HS256\"}");
        assert(vstd::utf8::is_ascii_chars(spec_header_json()));
    }
    let header_b64 = b64url_encode("{\"typ\":\"JWT\",\"alg\":\"HS256\"}");
    if !(hpart.to_owned() == header_b64) {
        proof {
            assert forall|sub: Seq<char>, exp: u64, iat: u64|
                valid_sub(sub) && (exp as nat) < pow10(19) && (iat as nat) < pow10(19) && token@
                    == #[trigger] spec_token(sub, exp, iat, secret@) implies false by {
                lemma_token_structure(sub, exp, iat, secret@);
                assert(hpart@ =~= spec_b64(spec_header_json()));
            }
        }
        return Err(TokenError::Malformed);
    }
    if !verify_signature(sig, message, secret) {
        proof {
            assert forall|sub: Seq<char>, exp: u64, iat: u64|
                valid_sub(sub) && (exp as nat) < pow10(19) && (iat as nat) < pow10(19) && token@
                    == #[trigger] spec_token(sub, exp, iat, secret@) implies false by {
                lemma_token_structure(sub, exp, iat, secret@);
                let msg = spec_message(sub, exp, iat);
                assert(message@ =~= msg);
                assert(sig@ =~= hmac_tag(msg, secret@));
            }
        }
        return Err(TokenError::BadSignature);
    }
    let claims_str = match b64url_decode(cpart) {
        Some(cs) => cs,
        None => {
            proof {
                assert forall|sub: Seq<char>, exp: u64, iat: u64|
                    valid_sub(sub) && (exp as nat) < pow10(19) && (iat as nat) < pow10(19)
                        && token@ == #[trigger] spec_token(sub, exp, iat, secret@) implies false
                    by {
                    lemma_token_structure(sub, exp, iat, secret@);
                    lemma_claims_ascii(sub, exp, iat);
                    lemma_ascii_byte_chars(spec_claims_json(sub, exp, iat));
                    lemma_b64_round_trip(spec_claims_json(sub, exp, iat));
                    assert(cpart@ =~= spec_b64(spec_claims_json(sub, exp, iat)));
                }
            }
            return Err(TokenError::Malformed);
        },
    };
    let cl = match parse_claims(claims_str.as_str()) {
        Some(c) => c,
        None => {
            proof {
                assert forall|sub: Seq<char>, exp: u64, iat: u64|
                    valid_sub(sub) && (exp as nat) < pow10(19) && (iat as nat) < pow10(19)
                        && token@ == #[trigger] spec_token(sub, exp, iat, secret@) implies false
                    by {
                    lemma_token_structure(sub, exp, iat, secret@);
                    lemma_claims_ascii(sub, exp, iat);
                    lemma_ascii_byte_chars(spec_claims_json(sub, exp, iat));
                    lemma_b64_round_trip(spec_claims_json(sub, exp, iat));
                    assert(cpart@ =~= spec_b64(spec_claims_json(sub, exp, iat)));
                    assert(claims_str@ == spec_claims_json(sub, exp, iat));
                }
            }
            return Err(TokenError::Malformed);
        },
    };
    proof {
        assert forall|sub: Seq<char>, exp: u64, iat: u64|
            valid_sub(sub) && (exp as nat) < pow10(19) && (iat as nat) < pow10(19) && token@
                == #[trigger] spec_token(sub, exp, iat, secret@) implies (cl.sub@ == sub && cl.exp
            == exp && cl.iat == iat) by {
            lemma_token_structure(sub, exp, iat, secret@);
            lemma_claims_ascii(sub, exp, iat);
            lemma_ascii_byte_chars(spec_claims_json(sub, exp, iat));
            lemma_b64_round_trip(spec_claims_json(sub, exp, iat));
            assert(cpart@ =~= spec_b64(spec_claims_json(sub, exp, iat)));
            assert(claims_str@ == spec_claims_json(sub, exp, iat));
        }
    }
    if now < cl.exp {
        proof {
            let hb = spec_b64(spec_header_json());
            assert(hpart@ == hb);
            assert(token@ =~= hpart@ + "."@ + cpart@ + "."@ + sig@) by {
                reveal_strlit(".");
            }
            assert(message@ =~= hpart@ + "."@ + cpart@) by {
                reveal_strlit(".");
            }
            assert(sig@ == hmac_tag(message@, secret@));
            assert(spec_b64_decode(cpart@) == Some(spec_claims_json(cl.sub@, cl.exp, cl.iat)));
            assert(token_accepted(token@, secret@, now, cl.sub@)) by {
                assert(token@ == hb + "."@ + cpart@ + "."@ + hmac_tag(
                    hb + "."@ + cpart@,
                    secret@,
                ));
            }
        }
        Ok(cl.sub)
    } else {
        Err(TokenError::Expired)
    }
}

/// Law: a token this service issues is accepted for its own subject at any
/// instant before its expiry — its shape, signature and claims all check
/// out (`token_accepted`).
pub proof fn lemma_issued_token_accepted(
    sub: Seq<char>,
    exp: u64,
    iat: u64,
    secret: Seq<u8>,
    now: u64,
)
    requires
        valid_sub(sub),
        now < exp,
    ensures
        token_accepted(spec_token(sub, exp, iat, secret), secret, now, sub),
{
    lemma_token_structure(sub, exp, iat, secret);
    lemma_claims_ascii(sub, exp, iat);
    lemma_ascii_byte_chars(spec_claims_json(sub, exp, iat));
    lemma_b64_round_trip(spec_claims_json(sub, exp, iat));
    let hb = spec_b64(spec_header_json());
    let cpart = spec_b64(spec_claims_json(sub, exp, iat));
    assert(spec_token(sub, exp, iat, secret) == hb + "."@ + cpart + "."@ + hmac_tag(
        hb + "."@ + cpart,
        secret,
    )) by {
        assert(spec_message(sub, exp, iat) == hb + "."@ + cpart);
    }
    assert(spec_b64_decode(cpart) == Some(spec_claims_json(sub, exp, iat)));
}

/// Clock values within the supported range keep both issue and expiry
/// timestamps inside the nineteen digits the claims text carries.
pub proof fn lemma_clock_in_range(now: u64)
    requires
        now <= MAX_CLOCK,
    ensures
        (now as nat) < pow10(19),
        ((now + TOKEN_TTL_SECONDS) as nat) < pow10(19),
        now + TOKEN_TTL_SECONDS <= u64::MAX,
{
    lemma_pow10_concrete();
}

} // verus!
