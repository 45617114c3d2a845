//! Writing amounts and taxes as decimal text.
//!
//! A value is written exactly: the digits before the point, and behind it as
//! many as the value needs and no trailing zero. A whole number has no point.

use crate::decimal::{lemma_pow10_grows, lemma_pow10_values, pow10};
use crate::optimize::{Plan, PlanView};
use crate::tax::{Tax, TaxView};
use crate::units::{AMOUNT_PLACES, TAX_PLACES};
use vstd::prelude::*;
use vstd::string::StringExecFns;

verus! {

/// The character that writes a digit.
pub open spec fn digit_char(d: int) -> char {
    if d == 0 {
        '0'
    } else if d == 1 {
        '1'
    } else if d == 2 {
        '2'
    } else if d == 3 {
        '3'
    } else if d == 4 {
        '4'
    } else if d == 5 {
        '5'
    } else if d == 6 {
        '6'
    } else if d == 7 {
        '7'
    } else if d == 8 {
        '8'
    } else {
        '9'
    }
}

/// A natural number in decimal digits, without leading zeros.
pub open spec fn natural_text(n: nat) -> Seq<char>
    decreases n,
{
    if n < 10 {
        seq![digit_char(n as int)]
    } else {
        natural_text(n / 10).push(digit_char((n % 10) as int))
    }
}

/// The digits behind the point of `f / 10^places`, for `f` below
/// `10^places`, without trailing zeros.
pub open spec fn fraction_text(f: nat, places: nat) -> Seq<char>
    decreases places,
{
    if f == 0 || places == 0 {
        Seq::empty()
    } else {
        let weight = pow10((places - 1) as nat);
        seq![digit_char((f / weight) as int)] + fraction_text(f % weight, (places - 1) as nat)
    }
}

/// The size of a number.
pub open spec fn magnitude(v: int) -> nat {
    if v < 0 {
        (-v) as nat
    } else {
        v as nat
    }
}

/// The number `v / 10^places` in decimal: a minus sign where it is below
/// zero, its whole part, and a point with the digits behind it where it is
/// no whole number.
pub open spec fn decimal_text(v: int, places: nat) -> Seq<char> {
    let size = magnitude(v);
    let sign = if v < 0 {
        seq!['-']
    } else {
        Seq::empty()
    };
    let tail = if size % pow10(places) == 0 {
        Seq::empty()
    } else {
        seq!['.'] + fraction_text(size % pow10(places), places)
    };
    sign + natural_text(size / pow10(places)) + tail
}

/// A tax as text: the total, and in brackets its two parts.
pub open spec fn tax_text(t: TaxView) -> Seq<char> {
    decimal_text(t.total(), TAX_PLACES as nat) + " (tax for salary: "@ + decimal_text(
        t.salary,
        TAX_PLACES as nat,
    ) + ", tax for year bonus: "@ + decimal_text(t.year_bonus, TAX_PLACES as nat) + ")"@
}

/// A plan as text, in three lines: the tax before, the tax after, and the
/// amount to move.
pub open spec fn plan_text(p: PlanView) -> Seq<char> {
    "Before: "@ + tax_text(p.before) + "\nAfter: "@ + tax_text(p.after) + "\nMovement: "@
        + decimal_text(p.movement as int, AMOUNT_PLACES as nat)
}

fn digit_str(d: u8) -> (s: &'static str)
    requires
        d < 10,
    ensures
        s@ == seq![digit_char(d as int)],
{
    proof {
        reveal_strlit("0");
        reveal_strlit("1");
        reveal_strlit("2");
        reveal_strlit("3");
        reveal_strlit("4");
        reveal_strlit("5");
        reveal_strlit("6");
        reveal_strlit("7");
        reveal_strlit("8");
        reveal_strlit("9");
    }
    let s: &'static str = if d == 0 {
        "0"
    } else if d == 1 {
        "1"
    } else if d == 2 {
        "2"
    } else if d == 3 {
        "3"
    } else if d == 4 {
        "4"
    } else if d == 5 {
        "5"
    } else if d == 6 {
        "6"
    } else if d == 7 {
        "7"
    } else if d == 8 {
        "8"
    } else {
        "9"
    };
    s
}

fn push_natural(out: &mut String, n: u128)
    ensures
        final(out)@ == old(out)@ + natural_text(n as nat),
    decreases n,
{
    if n >= 10 {
        push_natural(out, n / 10);
    }
    out.append(digit_str((n % 10) as u8));
}

fn push_fraction(out: &mut String, f: u128, places: u32, span: u128)
    requires
        span == pow10(places as nat),
        f < span,
    ensures
        final(out)@ == old(out)@ + fraction_text(f as nat, places as nat),
{
    let mut rest: u128 = f;
    let mut left: u32 = places;
    let mut weight: u128 = span;
    while rest != 0 && left > 0
        invariant
            weight == pow10(left as nat),
            rest < weight,
            out@ + fraction_text(rest as nat, left as nat) == old(out)@ + fraction_text(
                f as nat,
                places as nat,
            ),
        decreases left,
    {
        let ghost before = out@;
        weight = weight / 10;
        left = left - 1;
        let digit: u128 = rest / weight;
        assert(digit < 10) by (nonlinear_arith)
            requires
                digit == rest / weight,
                rest < 10 * weight,
                weight > 0,
        ;
        out.append(digit_str(digit as u8));
        assert(fraction_text(rest as nat, (left + 1) as nat) == seq![digit_char(digit as int)]
            + fraction_text((rest % weight) as nat, left as nat));
        rest = rest % weight;
        assert(out@ + fraction_text(rest as nat, left as nat) =~= before + (seq![
            digit_char(digit as int),
        ] + fraction_text(rest as nat, left as nat)));
    }
}

fn ten_to(places: u32) -> (span: u128)
    requires
        places <= 12,
    ensures
        span == pow10(places as nat),
        0 < span <= 1_000_000_000_000,
{
    let mut span: u128 = 1;
    let mut i: u32 = 0;
    proof {
        lemma_pow10_values();
    }
    while i < places
        invariant
            i <= places <= 12,
            span == pow10(i as nat),
            pow10(12) == 1_000_000_000_000,
        decreases places - i,
    {
        proof {
            lemma_pow10_grows((i + 1) as nat, 12);
        }
        span = span * 10;
        i += 1;
    }
    proof {
        lemma_pow10_grows(places as nat, 12);
    }
    span
}

fn push_decimal(out: &mut String, v: i128, places: u32)
    requires
        places <= 12,
    ensures
        final(out)@ == old(out)@ + decimal_text(v as int, places as nat),
{
    let span: u128 = ten_to(places);
    let size: u128 = if v < 0 {
        ((-(v + 1)) as u128) + 1
    } else {
        v as u128
    };
    if v < 0 {
        proof {
            reveal_strlit("-");
        }
        out.append("-");
    }
    let ghost signed = out@;
    push_natural(out, size / span);
    let rest: u128 = size % span;
    if rest != 0 {
        proof {
            reveal_strlit(".");
        }
        out.append(".");
        push_fraction(out, rest, places, span);
        assert(out@ =~= signed + natural_text((size / span) as nat) + (seq!['.'] + fraction_text(
            rest as nat,
            places as nat,
        )));
    }
    assert(signed =~= old(out)@ + (if v < 0 {
        seq!['-']
    } else {
        Seq::<char>::empty()
    }));
}

fn push_tax(out: &mut String, t: &Tax)
    ensures
        final(out)@ == old(out)@ + tax_text(t@),
{
    push_decimal(out, t.total(), TAX_PLACES);
    out.append(" (tax for salary: ");
    push_decimal(out, t.salary(), TAX_PLACES);
    out.append(", tax for year bonus: ");
    push_decimal(out, t.year_bonus(), TAX_PLACES);
    out.append(")");
}

/// An amount, given in millionths of one currency unit, in decimal.
pub fn amount_string(micros: u64) -> (s: String)
    ensures
        s@ == decimal_text(micros as int, AMOUNT_PLACES as nat),
{
    let mut out: String = String::new();
    push_decimal(&mut out, micros as i128, AMOUNT_PLACES);
    out
}

impl Tax {
    /// The tax as text: the total, then the tax on the salary and the tax on
    /// the bonus in brackets, each in currency units.
    pub fn to_string(&self) -> (s: String)
        ensures
            s@ == tax_text(self@),
    {
        let mut out: String = String::new();
        push_tax(&mut out, self);
        out
    }
}

impl Plan {
    /// The plan as text, in three lines: `Before:` with the tax on the
    /// record as it was given, `After:` with the lowest tax found, and
    /// `Movement:` with the amount to move.
    pub fn report(&self) -> (s: String)
        ensures
            s@ == plan_text(self@),
    {
        let mut out: String = String::from_str("Before: ");
        push_tax(&mut out, &self.before);
        out.append("\nAfter: ");
        push_tax(&mut out, &self.after);
        out.append("\nMovement: ");
        push_decimal(&mut out, self.movement as i128, AMOUNT_PLACES);
        out
    }
}

} // verus!
