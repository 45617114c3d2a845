//! Reading a ratio from the bits of a 64-bit binary floating-point number.
//!
//! Such a number is a sign, eleven bits of exponent and fifty-two bits of
//! fraction. A finite one is exactly `significand / 2^shift`, so the nearest
//! whole number of millionths can be found with integers alone.

use crate::units::RATIO_ONE;
use vstd::arithmetic::div_mod::lemma_basic_div;
use vstd::arithmetic::power2::{lemma_pow2_strictly_increases, lemma_pow2_unfold, pow2, lemma2_to64,
    lemma2_to64_rest};
use vstd::prelude::*;

verus! {

/// The sign bit: one for a number below zero and for the negative zero.
pub open spec fn sign_of(bits: u64) -> int {
    bits as int / 0x8000_0000_0000_0000
}

/// The eleven bits of exponent.
pub open spec fn exponent_of(bits: u64) -> int {
    (bits as int / 0x10_0000_0000_0000) % 0x800
}

/// The fifty-two bits of fraction.
pub open spec fn fraction_of(bits: u64) -> int {
    bits as int % 0x10_0000_0000_0000
}

/// The whole number that, divided by two to the power `shift_of`, is the
/// size of a finite number.
pub open spec fn significand_of(bits: u64) -> int {
    if exponent_of(bits) == 0 {
        fraction_of(bits)
    } else {
        0x10_0000_0000_0000 + fraction_of(bits)
    }
}

/// The power of two that the significand of a finite number is divided by.
/// It is negative for numbers too large to matter here.
pub open spec fn shift_of(bits: u64) -> int {
    if exponent_of(bits) == 0 {
        1074
    } else {
        1075 - exponent_of(bits)
    }
}

/// The bits stand for a number from zero to one: finite, not below zero, not
/// above one.
pub open spec fn is_unit_ratio(bits: u64) -> bool {
    &&& exponent_of(bits) != 0x7ff
    &&& (sign_of(bits) == 0 || significand_of(bits) == 0)
    &&& (exponent_of(bits) < 1023 || (exponent_of(bits) == 1023 && fraction_of(bits) == 0))
}

/// The number of millionths nearest to the number that the bits stand for,
/// halves rounded up; none where that number is not one from zero to one.
pub open spec fn ratio_of_bits(bits: u64) -> Option<u32> {
    if is_unit_ratio(bits) {
        let shift = shift_of(bits) as nat;
        Some(((2 * significand_of(bits) * RATIO_ONE + pow2(shift)) / (pow2(shift + 1) as int)) as u32)
    } else {
        None
    }
}

/// The ratio read from the bits of a number from zero to one is the whole
/// number of millionths nearest to that number: it is off by half a
/// millionth at most, and it is not above one.
pub proof fn lemma_ratio_is_nearest(bits: u64)
    requires
        is_unit_ratio(bits),
    ensures
        ratio_of_bits(bits) is Some,
        ({
            let q = ratio_of_bits(bits)->0 as int;
            let unit = pow2(shift_of(bits) as nat) as int;
            &&& 0 <= q <= RATIO_ONE
            &&& 0 <= significand_of(bits) <= unit
            &&& 2 * q * unit - unit <= 2 * significand_of(bits) * RATIO_ONE < 2 * q * unit + unit
        }),
{
    let m = significand_of(bits);
    let shift = shift_of(bits) as nat;
    let unit = pow2(shift) as int;
    lemma2_to64();
    lemma2_to64_rest();
    lemma_pow2_unfold(shift + 1);
    assert(0 <= m <= unit) by {
        if exponent_of(bits) != 1023 && shift > 53 {
            lemma_pow2_strictly_increases(53, shift);
        }
    }
    vstd::arithmetic::power2::lemma_pow2_pos(shift);
    let x = 2 * m * RATIO_ONE + unit;
    let d = 2 * unit;
    vstd::arithmetic::div_mod::lemma_fundamental_div_mod(x, d);
    vstd::arithmetic::div_mod::lemma_mod_pos_bound(x, d);
    let q = x / d;
    assert(0 <= q <= 1_000_000 && 2 * q * unit - unit <= 2 * m * 1_000_000 < 2 * q * unit + unit)
        by (nonlinear_arith)
        requires
            x == 2 * m * 1_000_000 + unit,
            d == 2 * unit,
            x == d * q + x % d,
            0 <= x % d < d,
            0 <= m <= unit,
            unit > 0,
    ;
}

/// Two to the power `e`.
fn power_of_two(e: u64) -> (p: u128)
    requires
        e <= 80,
    ensures
        p == pow2(e as nat),
        p <= 0x1_0000_0000_0000_0000_0000,
{
    let mut p: u128 = 1;
    let mut i: u64 = 0;
    proof {
        lemma2_to64();
        lemma_pow2_adds_to_80();
    }
    while i < e
        invariant
            i <= e <= 80,
            p == pow2(i as nat),
            pow2(80) == 0x1_0000_0000_0000_0000_0000,
        decreases e - i,
    {
        proof {
            lemma_pow2_unfold((i + 1) as nat);
            if i + 1 < 80 {
                lemma_pow2_strictly_increases((i + 1) as nat, 80);
            }
        }
        p = p * 2;
        i += 1;
    }
    proof {
        if e < 80 {
            lemma_pow2_strictly_increases(e as nat, 80);
        }
    }
    p
}

/// The ratio, in millionths, that the bits of a floating-point number stand
/// for. Only a number from zero to one is a ratio.
pub fn ratio_from_bits(bits: u64) -> (r: Option<u32>)
    ensures
        r == ratio_of_bits(bits),
        r is Some ==> r->0 <= RATIO_ONE,
{
    let sign: u64 = bits / 0x8000_0000_0000_0000;
    let exponent: u64 = (bits / 0x10_0000_0000_0000) % 0x800;
    let fraction: u64 = bits % 0x10_0000_0000_0000;
    if exponent == 0x7ff {
        return None;
    }
    let significand: u64 = if exponent == 0 {
        fraction
    } else {
        0x10_0000_0000_0000 + fraction
    };
    if sign != 0 && significand != 0 {
        return None;
    }
    if exponent > 1023 || (exponent == 1023 && fraction != 0) {
        return None;
    }
    let shift: u64 = if exponent == 0 {
        1074
    } else {
        1075 - exponent
    };
    proof {
        lemma_ratio_is_nearest(bits);
        lemma_pow2_unfold((shift + 1) as nat);
    }
    let scaled: u128 = (significand as u128) * (RATIO_ONE as u128);
    if shift > 80 {
        proof {
            // Less than a quarter of a millionth is left of any significand.
            lemma_pow2_adds_to_80();
            lemma_pow2_strictly_increases(80, shift as nat);
            lemma_basic_div(2 * scaled + pow2(shift as nat), pow2((shift + 1) as nat) as int);
        }
        return Some(0);
    }
    let half: u128 = power_of_two(shift);
    let q: u128 = (2 * scaled + half) / (2 * half);
    Some(q as u32)
}

/// Two to the power eighty, written out.
proof fn lemma_pow2_adds_to_80()
    ensures
        pow2(80) == 0x1_0000_0000_0000_0000_0000,
{
    lemma2_to64();
    lemma2_to64_rest();
    vstd::arithmetic::power2::lemma_pow2_adds(64, 16);
}

} // verus!
