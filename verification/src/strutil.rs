//! Helpers over `String` and `&str`: one trusted push, and verified scanning
//! primitives used by the token parser.
use vstd::prelude::*;

use crate::numeric::is_digit;

verus! {

/// Relies on `String::push`: appends exactly one character at the end.
#[verifier::external_body]
pub fn push_char(s: &mut String, c: char)
    ensures
        final(s)@ == old(s)@.push(c),
{
    s.push(c)
}

/// The first occurrence of `target` at or after `from`, if any.
pub fn find_from(s: &str, from: usize, target: char) -> (r: Option<usize>)
    requires
        from <= s@.len(),
    ensures
        match r {
            Some(j) => from <= j < s@.len() && s@[j as int] == target && forall|k: int|
                from <= k < j ==> #[trigger] s@[k] != target,
            None => forall|k: int| from <= k < s@.len() ==> #[trigger] s@[k] != target,
        },
{
    let n = s.unicode_len();
    let mut j = from;
    while j < n
        invariant
            from <= j <= n,
            n == s@.len(),
            forall|k: int| from <= k < j ==> #[trigger] s@[k] != target,
        decreases n - j,
    {
        if s.get_char(j) == target {
            return Some(j);
        }
        j = j + 1;
    }
    None
}

/// Whether `pat` occurs in `s` exactly at position `at`.
pub fn match_at(s: &str, at: usize, pat: &str) -> (r: bool)
    requires
        at <= s@.len(),
    ensures
        r <==> (at + pat@.len() <= s@.len() && s@.subrange(
            at as int,
            at + pat@.len(),
        ) == pat@),
{
    let m = pat.unicode_len();
    let n = s.unicode_len();
    if m > n - at {
        return false;
    }
    let mut k: usize = 0;
    while k < m
        invariant
            at + m <= n,
            n == s@.len(),
            m == pat@.len(),
            0 <= k <= m,
            forall|j: int| 0 <= j < k ==> s@[at + j] == #[trigger] pat@[j],
        decreases m - k,
    {
        if s.get_char(at + k) != pat.get_char(k) {
            proof {
                assert(s@.subrange(at as int, at + pat@.len())[k as int] == s@[at + k]);
            }
            return false;
        }
        k = k + 1;
    }
    proof {
        assert(s@.subrange(at as int, at + pat@.len()) =~= pat@);
    }
    true
}

/// The end of the run of decimal digits starting at `from`.
pub fn scan_digits(s: &str, from: usize) -> (r: usize)
    requires
        from <= s@.len(),
    ensures
        from <= r <= s@.len(),
        forall|k: int| from <= k < r ==> is_digit(#[trigger] s@[k]),
        r < s@.len() ==> !is_digit(s@[r as int]),
{
    let n = s.unicode_len();
    let mut j = from;
    while j < n
        invariant
            from <= j <= n,
            n == s@.len(),
            forall|k: int| from <= k < j ==> is_digit(#[trigger] s@[k]),
        decreases n - j,
    {
        let u = s.get_char(j) as u32;
        if u < 48 || u > 57 {
            return j;
        }
        j = j + 1;
    }
    n
}

} // verus!
