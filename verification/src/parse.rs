//! Reading a record from text.
//!
//! The text is three numbers separated by commas: the monthly salary, the
//! monthly deduction and the yearly bonus. A number is written as a decimal
//! floating-point number is: an optional sign, digits with or without a
//! point, and an optional exponent, as in `2000`, `2000.5`, `.5`, `+12.` or
//! `2e3`. It is read as the nearest whole number of millionths.

use crate::decimal::{all_digits, digits_value, is_digit, lemma_digits_bound, lemma_digits_value_grows,
    lemma_pow10_grows, lemma_scaled_down, lemma_scaled_large, lemma_scaled_small, lemma_scaled_zero,
    pow10, scaled, FIVE, NINE, ZERO};
use crate::error::ParseError;
use crate::record::{Record, RecordView};
use crate::units::AMOUNT_PLACES;
use vstd::prelude::*;
use vstd::slice::slice_subrange;
use vstd::string::StringSliceAdditionalSpecFns;

verus! {

pub const COMMA: u8 = 0x2c;

pub const POINT: u8 = 0x2e;

pub const PLUS: u8 = 0x2b;

pub const MINUS: u8 = 0x2d;

pub const LOWER_E: u8 = 0x65;

pub const UPPER_E: u8 = 0x45;

/// The largest size of an exponent that is read digit by digit. A larger one
/// moves every number that is not zero out of the range of amounts.
pub const EXPONENT_CAP: u128 = 0x10_0000_0000_0000_0000_0000_0000;

/// The place of the first `b` at or after `from`; the length where there is
/// none.
pub open spec fn next_index(s: Seq<u8>, b: u8, from: int) -> int
    decreases s.len() - from,
{
    if from >= s.len() {
        s.len() as int
    } else if s[from] == b {
        from
    } else {
        next_index(s, b, from + 1)
    }
}

/// The place of the first `e` or `E` at or after `from`; the length where
/// there is none.
pub open spec fn exponent_mark(s: Seq<u8>, from: int) -> int
    decreases s.len() - from,
{
    if from >= s.len() {
        s.len() as int
    } else if s[from] == LOWER_E || s[from] == UPPER_E {
        from
    } else {
        exponent_mark(s, from + 1)
    }
}

/// One where the text starts with a sign, zero where it does not.
pub open spec fn sign_len(t: Seq<u8>) -> int {
    if t.len() > 0 && (t[0] == PLUS || t[0] == MINUS) {
        1
    } else {
        0
    }
}

/// The text starts with a minus sign.
pub open spec fn is_minus(t: Seq<u8>) -> bool {
    t.len() > 0 && t[0] == MINUS
}

/// What stands between the sign and the exponent of a token.
pub open spec fn mantissa(t: Seq<u8>) -> Seq<u8> {
    t.subrange(sign_len(t), exponent_mark(t, sign_len(t)))
}

/// What stands before the point of a token.
pub open spec fn whole_part(t: Seq<u8>) -> Seq<u8> {
    mantissa(t).subrange(0, next_index(mantissa(t), POINT, 0))
}

/// What stands behind the point of a token; nothing where it has no point.
pub open spec fn fraction_part(t: Seq<u8>) -> Seq<u8> {
    let point = next_index(mantissa(t), POINT, 0);
    if point < mantissa(t).len() {
        mantissa(t).subrange(point + 1, mantissa(t).len() as int)
    } else {
        Seq::empty()
    }
}

/// The token has an `e` or `E` behind its sign.
pub open spec fn has_exponent(t: Seq<u8>) -> bool {
    exponent_mark(t, sign_len(t)) < t.len()
}

/// What stands behind the `e` of a token that has one.
pub open spec fn exponent_text(t: Seq<u8>) -> Seq<u8> {
    t.subrange(exponent_mark(t, sign_len(t)) + 1, t.len() as int)
}

/// The digits of the exponent, without its sign.
pub open spec fn exponent_digits(t: Seq<u8>) -> Seq<u8> {
    exponent_text(t).subrange(sign_len(exponent_text(t)), exponent_text(t).len() as int)
}

/// The exponent of a token; zero where it has none.
pub open spec fn exponent_of(t: Seq<u8>) -> int {
    if !has_exponent(t) {
        0
    } else if is_minus(exponent_text(t)) {
        -(digits_value(exponent_digits(t)) as int)
    } else {
        digits_value(exponent_digits(t)) as int
    }
}

/// The token writes a number: digits before and behind the point, at least
/// one in all, and digits, at least one, in the exponent where there is one.
pub open spec fn is_number(t: Seq<u8>) -> bool {
    &&& all_digits(whole_part(t))
    &&& all_digits(fraction_part(t))
    &&& whole_part(t).len() + fraction_part(t).len() > 0
    &&& has_exponent(t) ==> exponent_digits(t).len() > 0 && all_digits(exponent_digits(t))
}

/// The digits of a token without its point.
pub open spec fn digits_of(t: Seq<u8>) -> Seq<u8> {
    whole_part(t) + fraction_part(t)
}

/// The power of ten that takes the digits of a token to millionths.
pub open spec fn scale_of(t: Seq<u8>) -> int {
    exponent_of(t) - fraction_part(t).len() + AMOUNT_PLACES
}

/// The size of the number that a token writes, as the nearest whole number
/// of millionths, a half counting upwards.
pub open spec fn micros_of(t: Seq<u8>) -> nat {
    scaled(digits_value(digits_of(t)), scale_of(t))
}

/// The amount that a token stands for. A number below zero and a number
/// beyond a `u64` of millionths are numbers that cannot be held.
pub open spec fn amount_of(t: Seq<u8>) -> Result<u64, ParseError> {
    if !is_number(t) {
        Err(ParseError::NotNumeric)
    } else if micros_of(t) > u64::MAX || (is_minus(t) && digits_value(digits_of(t)) != 0) {
        Err(ParseError::Unrepresentable)
    } else {
        Ok(micros_of(t) as u64)
    }
}

/// The record that a text stands for. The text must hold two commas, which
/// part it into three tokens; the tokens are read from left to right, and
/// the first that is no amount decides the error.
pub open spec fn record_of(text: Seq<u8>) -> Result<RecordView, ParseError> {
    let first = next_index(text, COMMA, 0);
    let second = next_index(text, COMMA, first + 1);
    let third = next_index(text, COMMA, second + 1);
    if !(first < text.len() && second < text.len() && third >= text.len()) {
        Err(ParseError::TokenCount)
    } else {
        match amount_of(text.subrange(0, first)) {
            Err(e) => Err(e),
            Ok(monthly_salary) => match amount_of(text.subrange(first + 1, second)) {
                Err(e) => Err(e),
                Ok(monthly_tax_deduction) => match amount_of(
                    text.subrange(second + 1, text.len() as int),
                ) {
                    Err(e) => Err(e),
                    Ok(year_bonus) => Ok(
                        RecordView {
                            monthly_salary: monthly_salary as nat,
                            monthly_tax_deduction: monthly_tax_deduction as nat,
                            year_bonus: year_bonus as nat,
                            movement: 0,
                        },
                    ),
                },
            },
        }
    }
}

/// No byte of `s` is `b`.
pub open spec fn has_no(s: Seq<u8>, b: u8) -> bool {
    forall|i: int| 0 <= i < s.len() ==> #[trigger] s[i] != b
}

/// Three tokens joined by commas.
pub open spec fn joined(a: Seq<u8>, b: Seq<u8>, c: Seq<u8>) -> Seq<u8> {
    a + seq![COMMA] + b + seq![COMMA] + c
}

/// The search for a byte ends at `to` where no byte from `from` up to `to` is
/// that byte and `to` is the end or holds it.
pub proof fn lemma_next_index(s: Seq<u8>, b: u8, from: int, to: int)
    requires
        0 <= from <= to <= s.len(),
        forall|i: int| from <= i < to ==> #[trigger] s[i] != b,
        to < s.len() ==> s[to] == b,
    ensures
        next_index(s, b, from) == to,
    decreases to - from,
{
    if from < to {
        lemma_next_index(s, b, from + 1, to);
    }
}

/// A text made of three tokens without a comma, joined by commas, stands for
/// the record of the three amounts, or fails as the first token that is no
/// amount fails.
pub proof fn lemma_record_of_joined(a: Seq<u8>, b: Seq<u8>, c: Seq<u8>)
    requires
        has_no(a, COMMA),
        has_no(b, COMMA),
        has_no(c, COMMA),
    ensures
        record_of(joined(a, b, c)) == (match amount_of(a) {
            Err(e) => Err(e),
            Ok(monthly_salary) => match amount_of(b) {
                Err(e) => Err(e),
                Ok(monthly_tax_deduction) => match amount_of(c) {
                    Err(e) => Err(e),
                    Ok(year_bonus) => Ok(
                        RecordView {
                            monthly_salary: monthly_salary as nat,
                            monthly_tax_deduction: monthly_tax_deduction as nat,
                            year_bonus: year_bonus as nat,
                            movement: 0,
                        },
                    ),
                },
            },
        }),
{
    let text = joined(a, b, c);
    let first = a.len() as int;
    let second = first + 1 + b.len();
    assert forall|i: int| 0 <= i < first implies #[trigger] text[i] != COMMA by {
    }
    assert forall|i: int| first + 1 <= i < second implies #[trigger] text[i] != COMMA by {
    }
    assert forall|i: int| second + 1 <= i < text.len() implies #[trigger] text[i] != COMMA by {
    }
    lemma_next_index(text, COMMA, 0, first);
    lemma_next_index(text, COMMA, first + 1, second);
    lemma_next_index(text, COMMA, second + 1, text.len() as int);
    assert(text.subrange(0, first) =~= a);
    assert(text.subrange(first + 1, second) =~= b);
    assert(text.subrange(second + 1, text.len() as int) =~= c);
}

fn find_byte(s: &[u8], b: u8, from: usize) -> (i: usize)
    requires
        from <= s@.len(),
    ensures
        i == next_index(s@, b, from as int),
        from <= i <= s@.len(),
{
    let mut i: usize = from;
    while i < s.len() && s[i] != b
        invariant
            from <= i <= s@.len(),
            next_index(s@, b, from as int) == next_index(s@, b, i as int),
        decreases s@.len() - i,
    {
        i += 1;
    }
    i
}

fn find_exponent_mark(s: &[u8], from: usize) -> (i: usize)
    requires
        from <= s@.len(),
    ensures
        i == exponent_mark(s@, from as int),
        from <= i <= s@.len(),
{
    let mut i: usize = from;
    while i < s.len() && s[i] != LOWER_E && s[i] != UPPER_E
        invariant
            from <= i <= s@.len(),
            exponent_mark(s@, from as int) == exponent_mark(s@, i as int),
        decreases s@.len() - i,
    {
        i += 1;
    }
    i
}

fn skip_sign(s: &[u8]) -> (n: usize)
    ensures
        n == sign_len(s@),
        n <= s@.len(),
{
    if s.len() > 0 && (s[0] == PLUS || s[0] == MINUS) {
        1
    } else {
        0
    }
}

fn only_digits(s: &[u8]) -> (ok: bool)
    ensures
        ok == all_digits(s@),
{
    let mut i: usize = 0;
    while i < s.len()
        invariant
            i <= s@.len(),
            forall|j: int| 0 <= j < i ==> is_digit(#[trigger] s@[j]),
        decreases s@.len() - i,
    {
        if s[i] < ZERO || s[i] > NINE {
            return false;
        }
        i += 1;
    }
    true
}

/// The number written by the first `count` digits of two rows put together,
/// unless it is above `cap`.
fn read_row(whole: &[u8], fraction: &[u8], count: usize, cap: u128) -> (r: Option<u128>)
    requires
        all_digits(whole@),
        all_digits(fraction@),
        count <= whole@.len() + fraction@.len(),
        cap <= EXPONENT_CAP,
    ensures
        match r {
            Some(v) => v == digits_value((whole@ + fraction@).take(count as int)) && v <= cap,
            None => digits_value((whole@ + fraction@).take(count as int)) > cap,
        },
{
    let ghost row = (whole@ + fraction@).take(count as int);
    let mut value: u128 = 0;
    let mut i: usize = 0;
    while i < count
        invariant
            i <= count <= whole@.len() + fraction@.len(),
            row == (whole@ + fraction@).take(count as int),
            all_digits(whole@),
            all_digits(fraction@),
            value == digits_value(row.take(i as int)),
            value <= cap <= EXPONENT_CAP,
        decreases count - i,
    {
        let digit: u8 = if i < whole.len() {
            whole[i]
        } else {
            fraction[i - whole.len()]
        };
        proof {
            assert(row.take(i + 1).drop_last() =~= row.take(i as int));
            assert(is_digit(digit));
        }
        value = value * 10 + (digit - ZERO) as u128;
        i += 1;
        if value > cap {
            proof {
                lemma_digits_value_grows(row, i as int);
            }
            return None;
        }
    }
    assert(row.take(i as int) =~= row);
    Some(value)
}

/// `n` times ten to the power `scale`, unless it is beyond a `u64`.
fn times_power_of_ten(n: u64, scale: u32) -> (r: Option<u64>)
    ensures
        match r {
            Some(v) => v == scaled(n as nat, scale as int),
            None => scaled(n as nat, scale as int) > u64::MAX,
        },
{
    let mut value: u128 = n as u128;
    let mut i: u32 = 0;
    assert(pow10(0) == 1);
    while i < scale
        invariant
            i <= scale,
            value == n * pow10(i as nat),
            value <= u64::MAX,
        decreases scale - i,
    {
        proof {
            assert(n * pow10((i + 1) as nat) == (n * pow10(i as nat)) * 10) by (nonlinear_arith)
                requires
                    pow10((i + 1) as nat) == 10 * pow10(i as nat),
            ;
        }
        value = value * 10;
        i += 1;
        if value > u64::MAX as u128 {
            proof {
                lemma_pow10_grows(i as nat, scale as nat);
                assert(n * pow10(i as nat) <= n * pow10(scale as nat)) by (nonlinear_arith)
                    requires
                        pow10(i as nat) <= pow10(scale as nat),
                ;
            }
            return None;
        }
    }
    Some(value as u64)
}

/// The exponent of a token as far as it matters.
enum Exponent {
    /// The exponent itself, no larger in size than `EXPONENT_CAP`.
    Exact(i128),
    /// An exponent below `-EXPONENT_CAP`.
    FarBelow,
    /// An exponent above `EXPONENT_CAP`.
    FarAbove,
}

/// Reads the exponent that stands behind the place `mark` of a token; none
/// where what stands there is no exponent.
fn read_exponent(token: &[u8], mark: usize) -> (r: Option<Exponent>)
    requires
        mark == exponent_mark(token@, sign_len(token@)),
        mark <= token@.len(),
    ensures
        r is Some <==> (has_exponent(token@) ==> exponent_digits(token@).len() > 0 && all_digits(
            exponent_digits(token@),
        )),
        match r {
            Some(Exponent::Exact(e)) => e == exponent_of(token@) && -EXPONENT_CAP <= e <= EXPONENT_CAP,
            Some(Exponent::FarBelow) => exponent_of(token@) < -EXPONENT_CAP,
            Some(Exponent::FarAbove) => exponent_of(token@) > EXPONENT_CAP,
            None => true,
        },
{
    if mark >= token.len() {
        return Some(Exponent::Exact(0));
    }
    let text: &[u8] = slice_subrange(token, mark + 1, token.len());
    let sign: usize = skip_sign(text);
    let digits: &[u8] = slice_subrange(text, sign, text.len());
    if digits.len() == 0 || !only_digits(digits) {
        return None;
    }
    let negative: bool = sign == 1 && text[0] == MINUS;
    let none: &[u8] = slice_subrange(digits, 0, 0);
    assert((digits@ + none@).take(digits@.len() as int) =~= digits@);
    match read_row(digits, none, digits.len(), EXPONENT_CAP) {
        Some(v) => if negative {
            Some(Exponent::Exact(-(v as i128)))
        } else {
            Some(Exponent::Exact(v as i128))
        },
        None => if negative {
            Some(Exponent::FarBelow)
        } else {
            Some(Exponent::FarAbove)
        },
    }
}

/// The rows put together are a row of digits.
proof fn lemma_row_of_digits(whole: Seq<u8>, fraction: Seq<u8>)
    requires
        all_digits(whole),
        all_digits(fraction),
    ensures
        all_digits(whole + fraction),
{
    let row = whole + fraction;
    assert forall|i: int| 0 <= i < row.len() implies is_digit(#[trigger] row[i]) by {
    }
}

/// The number written by two rows of digits put together, times ten to the
/// power `scale` and rounded; none where that is beyond a `u64`.
fn scale_row(whole: &[u8], fraction: &[u8], scale: i128) -> (r: Option<u64>)
    requires
        all_digits(whole@),
        all_digits(fraction@),
        whole@.len() + fraction@.len() <= usize::MAX,
        -2 * EXPONENT_CAP <= scale <= 2 * EXPONENT_CAP,
    ensures
        match r {
            Some(v) => v == scaled(digits_value(whole@ + fraction@), scale as int),
            None => scaled(digits_value(whole@ + fraction@), scale as int) > u64::MAX,
        },
{
    let ghost row = whole@ + fraction@;
    let ghost number = digits_value(row);
    let count: usize = whole.len() + fraction.len();
    proof {
        lemma_row_of_digits(whole@, fraction@);
        lemma_digits_bound(row);
        lemma_scaled_zero(scale as int);
        assert(row.take(count as int) =~= row);
    }
    if scale >= 0 {
        match read_row(whole, fraction, count, u64::MAX as u128) {
            None => {
                proof {
                    lemma_pow10_grows(0, scale as nat);
                    assert(number * pow10(scale as nat) >= number) by (nonlinear_arith)
                        requires
                            pow10(scale as nat) >= 1,
                    ;
                }
                None
            },
            Some(n) => {
                if n == 0 {
                    Some(0)
                } else if scale >= 20 {
                    proof {
                        lemma_scaled_large(number, scale as nat);
                    }
                    None
                } else {
                    times_power_of_ten(n as u64, scale as u32)
                }
            },
        }
    } else {
        let drop: i128 = -scale;
        if drop > count as i128 {
            proof {
                lemma_scaled_small(number, count as nat, drop as nat);
            }
            Some(0)
        } else {
            let keep: usize = count - (drop as usize);
            let next: u8 = if keep < whole.len() {
                whole[keep]
            } else {
                fraction[keep - whole.len()]
            };
            proof {
                lemma_scaled_down(row, drop as nat);
            }
            match read_row(whole, fraction, keep, u64::MAX as u128) {
                None => None,
                Some(head) => {
                    let rounded: u128 = if next >= FIVE {
                        head + 1
                    } else {
                        head
                    };
                    if rounded > u64::MAX as u128 {
                        None
                    } else {
                        Some(rounded as u64)
                    }
                },
            }
        }
    }
}

/// Reads one amount, in millionths of one currency unit.
///
/// The token is refused as no number where it is not written as a decimal
/// floating-point number is. A number is refused as one that cannot be held
/// where it is below zero or, rounded to millionths, too large for a `u64`.
pub fn parse_amount(token: &[u8]) -> (r: Result<u64, ParseError>)
    ensures
        r == amount_of(token@),
{
    let start: usize = skip_sign(token);
    let negative: bool = start == 1 && token[0] == MINUS;
    let mark: usize = find_exponent_mark(token, start);
    let body: &[u8] = slice_subrange(token, start, mark);
    let point: usize = find_byte(body, POINT, 0);
    let whole: &[u8] = slice_subrange(body, 0, point);
    let fraction: &[u8] = if point < body.len() {
        slice_subrange(body, point + 1, body.len())
    } else {
        slice_subrange(body, point, point)
    };
    if !only_digits(whole) || !only_digits(fraction) || whole.len() + fraction.len() == 0 {
        return Err(ParseError::NotNumeric);
    }
    let exponent: Exponent = match read_exponent(token, mark) {
        Some(e) => e,
        None => {
            return Err(ParseError::NotNumeric);
        },
    };
    let ghost row = digits_of(token@);
    let count: usize = whole.len() + fraction.len();
    proof {
        lemma_row_of_digits(whole@, fraction@);
        lemma_digits_bound(row);
        lemma_scaled_zero(scale_of(token@));
        assert(row.take(count as int) =~= row);
    }
    let is_zero: bool = match read_row(whole, fraction, count, 0) {
        Some(_) => true,
        None => false,
    };
    if is_zero {
        return Ok(0);
    }
    if negative {
        return Err(ParseError::Unrepresentable);
    }
    let amount: Option<u64> = match exponent {
        Exponent::Exact(e) => scale_row(
            whole,
            fraction,
            e - (fraction.len() as i128) + (AMOUNT_PLACES as i128),
        ),
        Exponent::FarBelow => {
            proof {
                lemma_scaled_small(digits_value(row), count as nat, (-scale_of(token@)) as nat);
            }
            Some(0)
        },
        Exponent::FarAbove => {
            proof {
                lemma_scaled_large(digits_value(row), scale_of(token@) as nat);
            }
            None
        },
    };
    match amount {
        Some(v) => Ok(v),
        None => Err(ParseError::Unrepresentable),
    }
}

/// Reads a record from text: the monthly salary, the monthly deduction and
/// the yearly bonus, separated by commas. Nothing has been moved in the
/// record that comes back. The contract speaks of the bytes of the text.
pub fn parse_record(arg: &str) -> (r: Result<Record, ParseError>)
    ensures
        match record_of(arg.spec_bytes()) {
            Ok(v) => r is Ok && r->Ok_0@ == v,
            Err(e) => r == Err::<Record, ParseError>(e),
        },
{
    let text: &[u8] = arg.as_bytes();
    let first: usize = find_byte(text, COMMA, 0);
    if first >= text.len() {
        return Err(ParseError::TokenCount);
    }
    let second: usize = find_byte(text, COMMA, first + 1);
    if second >= text.len() {
        return Err(ParseError::TokenCount);
    }
    let third: usize = find_byte(text, COMMA, second + 1);
    if third < text.len() {
        return Err(ParseError::TokenCount);
    }
    let monthly_salary: u64 = match parse_amount(slice_subrange(text, 0, first)) {
        Ok(v) => v,
        Err(e) => {
            return Err(e);
        },
    };
    let monthly_tax_deduction: u64 = match parse_amount(slice_subrange(text, first + 1, second)) {
        Ok(v) => v,
        Err(e) => {
            return Err(e);
        },
    };
    let year_bonus: u64 = match parse_amount(slice_subrange(text, second + 1, text.len())) {
        Ok(v) => v,
        Err(e) => {
            return Err(e);
        },
    };
    Ok(Record::new(monthly_salary, monthly_tax_deduction, year_bonus))
}

} // verus!
