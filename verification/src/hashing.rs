//! The credential hasher: salted one-way hashing and verification, delegated
//! to the bcrypt crate behind named-result contracts.
use vstd::prelude::*;

verus! {

/// Whether `password` matches `hash` under bcrypt: what its verification
/// returns. Verification recomputes the hash from the password and the salt
/// and cost embedded in `hash`, so the outcome is a pure function of the two
/// arguments; a malformed `hash` never matches.
pub uninterp spec fn bcrypt_matches(password: Seq<char>, hash: Seq<char>) -> bool;

/// Relies on bcrypt::hash with the crate's default cost: on success the
/// returned hash string embeds salt and cost, and verifying the same
/// password against it succeeds. It fails only when the operating system's
/// randomness source does, which is fatal to the calling flow.
#[verifier::external_body]
pub fn encrypt_password(password: &str) -> (r: Option<String>)
    ensures
        match r {
            Some(h) => bcrypt_matches(password@, h@),
            None => true,
        },
{
    bcrypt::hash(password, bcrypt::DEFAULT_COST).ok()
}

/// Relies on bcrypt::verify: recomputes the hash of `password` under the
/// parameters embedded in `encrypted_pass` and compares in constant time;
/// a malformed hash reports a mismatch rather than an error.
#[verifier::external_body]
pub fn decrypt_password(password: &str, encrypted_pass: &str) -> (r: bool)
    ensures
        r == bcrypt_matches(password@, encrypted_pass@),
{
    bcrypt::verify(password, encrypted_pass).unwrap_or(false)
}

} // verus!
