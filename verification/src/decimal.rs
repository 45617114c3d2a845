//! Decimal digits and powers of ten, for reading and writing numbers.

use vstd::arithmetic::div_mod::{lemma_basic_div, lemma_fundamental_div_mod_converse};
use vstd::prelude::*;

verus! {

pub const ZERO: u8 = 0x30;

pub const FIVE: u8 = 0x35;

pub const NINE: u8 = 0x39;

/// Ten to the power `n`.
pub open spec fn pow10(n: nat) -> nat
    decreases n,
{
    if n == 0 {
        1
    } else {
        10 * pow10((n - 1) as nat)
    }
}

/// The byte is a decimal digit.
pub open spec fn is_digit(b: u8) -> bool {
    ZERO <= b <= NINE
}

/// Every byte is a decimal digit.
pub open spec fn all_digits(s: Seq<u8>) -> bool {
    forall|i: int| 0 <= i < s.len() ==> is_digit(#[trigger] s[i])
}

/// The number that a row of digits writes; zero for the empty row.
pub open spec fn digits_value(s: Seq<u8>) -> nat
    decreases s.len(),
{
    if s.len() == 0 {
        0
    } else {
        digits_value(s.drop_last()) * 10 + (s.last() - ZERO) as nat
    }
}

/// The whole number nearest to `n` times ten to the power `scale`, a half
/// counting upwards. Nothing is rounded where `scale` is not below zero.
pub open spec fn scaled(n: nat, scale: int) -> nat {
    if scale >= 0 {
        n * pow10(scale as nat)
    } else {
        (n + 5 * pow10((-scale - 1) as nat)) / pow10((-scale) as nat)
    }
}

/// Ten to a larger power is no smaller, and no power of ten is zero.
pub proof fn lemma_pow10_grows(a: nat, b: nat)
    requires
        a <= b,
    ensures
        0 < pow10(a) <= pow10(b),
    decreases b,
{
    if a < b {
        lemma_pow10_grows(a, (b - 1) as nat);
    } else if a > 0 {
        lemma_pow10_grows((a - 1) as nat, (a - 1) as nat);
    }
}

/// Some powers of ten, written out.
pub proof fn lemma_pow10_values()
    ensures
        pow10(0) == 1,
        pow10(1) == 10,
        pow10(6) == 1_000_000,
        pow10(11) == 100_000_000_000,
        pow10(12) == 1_000_000_000_000,
        pow10(20) == 100_000_000_000_000_000_000,
{
    reveal_with_fuel(pow10, 21);
}

/// A row of digits writes no smaller a number than any of its beginnings.
pub proof fn lemma_digits_value_grows(s: Seq<u8>, n: int)
    requires
        0 <= n <= s.len(),
    ensures
        digits_value(s.take(n)) <= digits_value(s),
    decreases s.len() - n,
{
    if n < s.len() {
        assert(s.take(n + 1).drop_last() =~= s.take(n));
        lemma_digits_value_grows(s, n + 1);
    } else {
        assert(s.take(n) =~= s);
    }
}

/// A row of `n` digits writes a number below ten to the power `n`.
pub proof fn lemma_digits_bound(s: Seq<u8>)
    requires
        all_digits(s),
    ensures
        digits_value(s) < pow10(s.len()),
    decreases s.len(),
{
    if s.len() > 0 {
        let p = s.drop_last();
        assert(all_digits(p)) by {
            assert forall|i: int| 0 <= i < p.len() implies is_digit(#[trigger] p[i]) by {
            }
        }
        lemma_digits_bound(p);
    }
}

/// A row of digits cut in two: the number it writes is the number of the
/// first part, moved left by the length of the second, plus the number of
/// the second part.
pub proof fn lemma_digits_split(s: Seq<u8>, j: int)
    requires
        0 <= j <= s.len(),
    ensures
        digits_value(s) == digits_value(s.take(j)) * pow10((s.len() - j) as nat) + digits_value(
            s.skip(j),
        ),
    decreases s.len(),
{
    if j == s.len() {
        assert(s.take(j) =~= s);
        assert(digits_value(s.take(j)) * pow10((s.len() - j) as nat) == digits_value(s)) by (nonlinear_arith)
            requires
                digits_value(s.take(j)) == digits_value(s),
                pow10((s.len() - j) as nat) == 1,
        ;
    } else {
        let p = s.drop_last();
        lemma_digits_split(p, j);
        assert(p.take(j) =~= s.take(j));
        assert(s.skip(j).drop_last() =~= p.skip(j));
        let head = digits_value(s.take(j));
        let low = pow10((s.len() - 1 - j) as nat);
        assert((head * low) * 10 == head * (10 * low)) by (nonlinear_arith);
    }
}

/// Nothing times a power of ten, rounded or not, is nothing.
pub proof fn lemma_scaled_zero(scale: int)
    ensures
        scaled(0, scale) == 0,
{
    if scale < 0 {
        let k = (-scale) as nat;
        lemma_pow10_grows((k - 1) as nat, k);
        lemma_basic_div(5 * pow10((k - 1) as nat) as int, pow10(k) as int);
    }
}

/// A number of fewer than `k` digits, divided by ten to the power `k`,
/// rounds to nothing.
pub proof fn lemma_scaled_small(n: nat, digits: nat, k: nat)
    requires
        n < pow10(digits),
        digits < k,
    ensures
        scaled(n, -(k as int)) == 0,
{
    lemma_pow10_grows(digits, (k - 1) as nat);
    lemma_basic_div((n + 5 * pow10((k - 1) as nat)) as int, pow10(k) as int);
}

/// Dividing a row of digits by ten to the power `k` and rounding leaves the
/// number written by the row without its last `k` digits, and one more where
/// the first digit left out is five or above.
pub proof fn lemma_scaled_down(s: Seq<u8>, k: nat)
    requires
        all_digits(s),
        1 <= k <= s.len(),
    ensures
        scaled(digits_value(s), -(k as int)) == digits_value(s.take(s.len() - k)) + (if s[s.len() - k]
            >= FIVE {
            1nat
        } else {
            0nat
        }),
{
    let keep = s.len() - k;
    let head = digits_value(s.take(keep));
    let tail_row = s.skip(keep);
    let tail = digits_value(tail_row);
    lemma_digits_split(s, keep);
    lemma_digits_split(tail_row, 1);
    let first = tail_row.take(1);
    assert(digits_value(first) == digits_value(first.drop_last()) * 10 + (first.last() - ZERO));
    let d = (s[keep] - ZERO) as nat;
    let rest_row = tail_row.skip(1);
    let rest = digits_value(rest_row);
    assert(all_digits(rest_row)) by {
        assert forall|i: int| 0 <= i < rest_row.len() implies is_digit(#[trigger] rest_row[i]) by {
        }
    }
    lemma_digits_bound(rest_row);
    let q = pow10((k - 1) as nat);
    let p = pow10(k);
    lemma_pow10_grows(0, (k - 1) as nat);
    let n = digits_value(s);
    let up: nat = if s[keep] >= FIVE {
        1
    } else {
        0
    };
    let r: int = n + 5 * q - (head + up) * p;
    assert(0 <= r < p && n + 5 * q == (head + up) * p + r) by (nonlinear_arith)
        requires
            r == n + 5 * q - (head + up) * p,
            n == head * p + tail,
            tail == d * q + rest,
            0 <= rest < q,
            p == 10 * q,
            0 <= d <= 9,
            up == (if d >= 5 {
                1nat
            } else {
                0nat
            }),
    ;
    lemma_fundamental_div_mod_converse((n + 5 * q) as int, p as int, (head + up) as int, r);
}

/// A number that is not zero, times ten to the power twenty or more, is
/// beyond a `u64`.
pub proof fn lemma_scaled_large(n: nat, scale: nat)
    requires
        n >= 1,
        scale >= 20,
    ensures
        scaled(n, scale as int) > u64::MAX,
{
    lemma_pow10_values();
    lemma_pow10_grows(20, scale);
    assert(n * pow10(scale) >= pow10(scale)) by (nonlinear_arith)
        requires
            n >= 1,
    ;
}

} // verus!
