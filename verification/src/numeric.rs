//! Decimal rendering and parsing of unsigned integers, used by the token
//! claims. Rendering and parsing are proved inverse of each other.
use vstd::prelude::*;

use crate::strutil::push_char;

verus! {

/// The character for one decimal digit value.
pub open spec fn digit_char(d: int) -> char {
    ((d + 48) as u8) as char
}

/// The decimal digit string of `n`, most significant digit first, no sign,
/// no leading zero (except for `n == 0` itself).
pub open spec fn dec_of(n: nat) -> Seq<char>
    decreases n,
{
    if n < 10 {
        seq![digit_char(n as int)]
    } else {
        dec_of((n / 10) as nat).push(digit_char((n % 10) as int))
    }
}

pub open spec fn is_digit(c: char) -> bool {
    48 <= (c as u32) && (c as u32) <= 57
}

pub open spec fn digit_val(c: char) -> int {
    (c as u32) - 48
}

pub open spec fn all_digits(s: Seq<char>) -> bool {
    forall|i: int| 0 <= i < s.len() ==> is_digit(#[trigger] s[i])
}

/// The numeric value of a digit string.
pub open spec fn dec_val(s: Seq<char>) -> int
    decreases s.len(),
{
    if s.len() == 0 {
        0
    } else {
        dec_val(s.drop_last()) * 10 + digit_val(s.last())
    }
}

pub open spec fn pow10(k: nat) -> nat
    decreases k,
{
    if k == 0 {
        1
    } else {
        10 * pow10((k - 1) as nat)
    }
}

/// `dec_of` yields only digits, at least one, and `dec_val` recovers `n`.
pub proof fn lemma_dec_of_val(n: nat)
    ensures
        all_digits(dec_of(n)),
        dec_of(n).len() >= 1,
        dec_val(dec_of(n)) == n,
    decreases n,
{
    if n < 10 {
        let s = dec_of(n);
        assert(s =~= seq![digit_char(n as int)]);
        assert(s.len() == 1);
        assert(s.last() == digit_char(n as int));
        assert(s.drop_last() =~= Seq::<char>::empty());
        assert(dec_val(s.drop_last()) == 0);
        let b: u8 = (n + 48) as u8;
        assert((b as char) as u32 == b);
        assert(digit_val(digit_char(n as int)) == n);
        assert(dec_val(s) == n);
    } else {
        lemma_dec_of_val((n / 10) as nat);
        let prefix = dec_of((n / 10) as nat);
        let whole = dec_of(n);
        assert(whole =~= prefix.push(digit_char((n % 10) as int)));
        assert(whole.drop_last() =~= prefix);
        assert(digit_val(digit_char((n % 10) as int)) == n % 10);
        assert(dec_val(whole) == dec_val(prefix) * 10 + (n % 10));
        vstd::arithmetic::div_mod::lemma_fundamental_div_mod(n as int, 10);
        assert(dec_val(whole) == n);
    }
}

/// Digit-string length of `n` is bounded by the power of ten above `n`.
pub proof fn lemma_dec_of_len(n: nat, k: nat)
    requires
        k >= 1,
        n < pow10(k),
    ensures
        dec_of(n).len() <= k,
    decreases n,
{
    if n < 10 {
    } else {
        assert(pow10(k) == 10 * pow10((k - 1) as nat));
        lemma_dec_of_len((n / 10) as nat, (k - 1) as nat);
    }
}

/// A digit string's value is bounded by the power of ten of its length.
pub proof fn lemma_dec_val_bound(s: Seq<char>)
    requires
        all_digits(s),
    ensures
        0 <= dec_val(s) < pow10(s.len()),
    decreases s.len(),
{
    if s.len() == 0 {
    } else {
        assert(all_digits(s.drop_last())) by {
            assert(forall|i: int|
                0 <= i < s.len() - 1 ==> s.drop_last()[i] == #[trigger] s[i]);
        }
        lemma_dec_val_bound(s.drop_last());
        assert(pow10(s.len()) == 10 * pow10((s.len() - 1) as nat));
    }
}

/// Renders `n` in decimal; the result is exactly `dec_of(n)`.
pub fn u64_to_dec(n: u64) -> (r: String)
    ensures
        r@ == dec_of(n as nat),
    decreases n,
{
    let d: u8 = (n % 10) as u8;
    let c: char = (d + 48) as char;
    proof {
        assert(c == digit_char((n as nat % 10) as int));
    }
    if n < 10 {
        let mut s = String::new();
        push_char(&mut s, c);
        proof {
            assert(s@ =~= dec_of(n as nat));
        }
        s
    } else {
        let mut s = u64_to_dec(n / 10);
        push_char(&mut s, c);
        proof {
            assert(s@ =~= dec_of(n as nat));
        }
        s
    }
}

/// Parses a digit string of one to nineteen digits; any other input is
/// rejected. Nineteen digits always fit in a `u64`.
pub fn parse_dec(s: &str) -> (r: Option<u64>)
    ensures
        match r {
            Some(v) => 1 <= s@.len() <= 19 && all_digits(s@) && v as int == dec_val(s@),
            None => !(1 <= s@.len() <= 19 && all_digits(s@)),
        },
{
    let n = s.unicode_len();
    if n < 1 || n > 19 {
        return None;
    }
    let mut acc: u64 = 0;
    let mut i: usize = 0;
    while i < n
        invariant
            1 <= n <= 19,
            n == s@.len(),
            0 <= i <= n,
            all_digits(s@.subrange(0, i as int)),
            acc as int == dec_val(s@.subrange(0, i as int)),
            0 <= (acc as int) && (acc as int) < pow10(i as nat),
        decreases n - i,
    {
        let c = s.get_char(i);
        let u: u32 = c as u32;
        if u < 48 || u > 57 {
            proof {
                assert(!is_digit(s@[i as int]));
            }
            return None;
        }
        proof {
            lemma_dec_val_bound(s@.subrange(0, i as int));
            assert(pow10(i as nat) <= pow10(18)) by {
                lemma_pow10_monotone(i as nat, 18);
            }
            lemma_pow10_concrete();
        }
        let d: u64 = (u - 48) as u64;
        acc = acc * 10 + d;
        proof {
            let pre = s@.subrange(0, i as int);
            let cur = s@.subrange(0, i as int + 1);
            assert(cur.drop_last() =~= pre);
            assert(cur.last() == s@[i as int]);
        }
        i = i + 1;
    }
    proof {
        assert(s@.subrange(0, n as int) =~= s@);
    }
    Some(acc)
}

/// Concrete values of the two powers of ten the parser's bound rests on.
pub proof fn lemma_pow10_concrete()
    ensures
        pow10(18) == 1000000000000000000,
        pow10(19) == 10000000000000000000,
{
    assert(pow10(0) == 1);
    assert(pow10(1) == 10);
    assert(pow10(2) == 100);
    assert(pow10(3) == 1000);
    assert(pow10(4) == 10000);
    assert(pow10(5) == 100000);
    assert(pow10(6) == 1000000);
    assert(pow10(7) == 10000000);
    assert(pow10(8) == 100000000);
    assert(pow10(9) == 1000000000);
    assert(pow10(10) == 10000000000);
    assert(pow10(11) == 100000000000);
    assert(pow10(12) == 1000000000000);
    assert(pow10(13) == 10000000000000);
    assert(pow10(14) == 100000000000000);
    assert(pow10(15) == 1000000000000000);
    assert(pow10(16) == 10000000000000000);
    assert(pow10(17) == 100000000000000000);
    assert(pow10(18) == 1000000000000000000);
    assert(pow10(19) == 10000000000000000000);
}

/// `pow10` grows with its exponent.
pub proof fn lemma_pow10_monotone(a: nat, b: nat)
    requires
        a <= b,
    ensures
        pow10(a) <= pow10(b),
    decreases b,
{
    if a < b {
        lemma_pow10_monotone(a, (b - 1) as nat);
        assert(pow10(b) == 10 * pow10((b - 1) as nat));
    }
}

/// A digit character is recovered from its value.
pub proof fn lemma_digit_char_val(c: char)
    requires
        is_digit(c),
    ensures
        digit_char(digit_val(c)) == c,
{
    let b: u8 = (digit_val(c) + 48) as u8;
    assert((b as char) as u32 == b);
    crate::base64url::lemma_char_eq(digit_char(digit_val(c)), c);
}

/// The digits of a number never start with a zero unless they are just "0".
pub proof fn lemma_dec_of_no_leading_zero(n: nat)
    ensures
        dec_of(n).len() > 1 ==> dec_of(n)[0] != '0',
    decreases n,
{
    if n >= 10 {
        let q = (n / 10) as nat;
        lemma_dec_of_no_leading_zero(q);
        lemma_dec_of_val(q);
        assert(dec_of(n)[0] == dec_of(q)[0]);
        if q < 10 {
            assert(q >= 1);
            assert(dec_of(q) =~= seq![digit_char(q as int)]);
            let b: u8 = (q + 48) as u8;
            assert((b as char) as u32 == b);
            assert(digit_char(q as int) as u32 != 48);
            assert('0' as u32 == 48);
        } else {
            lemma_dec_of_val((q / 10) as nat);
            assert(dec_of(q) == dec_of((q / 10) as nat).push(digit_char((q % 10) as int)));
            assert(dec_of(q).len() > 1);
        }
    } else {
        assert(dec_of(n).len() == 1);
    }
}

/// A nonempty digit string without a leading zero is worth at least the
/// power of ten of its length.
pub proof fn lemma_dec_val_lower(s: Seq<char>)
    requires
        all_digits(s),
        s.len() >= 1,
        s[0] != '0',
    ensures
        dec_val(s) >= pow10((s.len() - 1) as nat),
    decreases s.len(),
{
    assert('0' as u32 == 48);
    if s.len() == 1 {
        assert(s.last() == s[0]);
        if s[0] as u32 == 48 {
            vstd::utf8::char_u32_cast(s[0], 48);
            vstd::utf8::char_u32_cast('0', 48);
            assert(s[0] == '0');
        }
        assert(digit_val(s[0]) >= 1);
        assert(s.drop_last() =~= Seq::<char>::empty());
        assert(dec_val(Seq::<char>::empty()) == 0);
        assert(dec_val(s) == digit_val(s[0]));
        assert(pow10(0) == 1);
    } else {
        let q = s.drop_last();
        assert(all_digits(q)) by {
            assert(forall|i: int| 0 <= i < q.len() ==> q[i] == #[trigger] s[i]);
        }
        assert(q[0] == s[0]);
        lemma_dec_val_lower(q);
        assert(digit_val(s.last()) >= 0);
        assert(pow10((s.len() - 1) as nat) == 10 * pow10((s.len() - 2) as nat));
    }
}

/// A canonical digit string is exactly the rendering of its value.
pub proof fn lemma_dec_canonical(d: Seq<char>)
    requires
        all_digits(d),
        d.len() >= 1,
        d[0] != '0' || d.len() == 1,
    ensures
        0 <= dec_val(d),
        dec_of(dec_val(d) as nat) == d,
    decreases d.len(),
{
    lemma_dec_val_bound(d);
    if d.len() == 1 {
        assert(d.last() == d[0]);
        assert(d.drop_last() =~= Seq::<char>::empty());
        assert(dec_val(d.drop_last()) == 0);
        assert(dec_val(d) == digit_val(d[0]));
        assert(digit_val(d[0]) < 10);
        lemma_digit_char_val(d[0]);
        assert(dec_of(dec_val(d) as nat) =~= seq![d[0]]);
        assert(seq![d[0]] =~= d);
    } else {
        let q = d.drop_last();
        assert(all_digits(q)) by {
            assert(forall|i: int| 0 <= i < q.len() ==> q[i] == #[trigger] d[i]);
        }
        assert(q[0] == d[0]);
        lemma_dec_canonical(q);
        lemma_dec_val_lower(q);
        let v = dec_val(d);
        assert(v == dec_val(q) * 10 + digit_val(d.last()));
        assert(dec_val(q) >= pow10((q.len() - 1) as nat));
        assert(pow10((q.len() - 1) as nat) >= 1) by {
            lemma_pow10_monotone(0, (q.len() - 1) as nat);
        }
        assert(v >= 10);
        vstd::arithmetic::div_mod::lemma_fundamental_div_mod(v, 10);
        assert(0 <= digit_val(d.last()) < 10);
        assert(v / 10 == dec_val(q) && v % 10 == digit_val(d.last())) by {
            vstd::arithmetic::div_mod::lemma_fundamental_div_mod_converse(
                v,
                10,
                dec_val(q),
                digit_val(d.last()),
            );
        }
        lemma_digit_char_val(d.last());
        assert(dec_of(v as nat) == dec_of(dec_val(q) as nat).push(d.last()));
        assert(q.push(d.last()) =~= d);
    }
}

/// Rendering then parsing gives back `n`: the digits of `n` satisfy every
/// condition `parse_dec` checks, and their value is `n`.
pub proof fn lemma_dec_round_trip(n: u64)
    requires
        (n as nat) < pow10(19),
    ensures
        1 <= dec_of(n as nat).len() <= 19,
        all_digits(dec_of(n as nat)),
        dec_val(dec_of(n as nat)) == n as int,
{
    lemma_dec_of_val(n as nat);
    lemma_dec_of_len(n as nat, 19);
}

} // verus!
