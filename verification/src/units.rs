//! Fixed-point units shared by the whole crate.
//!
//! Money is held as a whole number of millionths of one currency unit, a
//! ratio as a whole number of millionths of one, and a tax, being the product
//! of the two, as a whole number of million-millionths of one currency unit.
//! Nothing is ever rounded after the inputs have been read.

use vstd::prelude::*;

verus! {

/// How many of the smallest money steps make one currency unit.
pub const MICROS_PER_UNIT: u64 = 1_000_000;

/// The ratio one (a tax of 100 percent), in millionths.
pub const RATIO_ONE: u32 = 1_000_000;

/// How many of the smallest tax steps make one currency unit.
pub const TAX_PER_UNIT: u64 = 1_000_000_000_000;

/// Decimal places of an amount: it is held in millionths.
pub const AMOUNT_PLACES: u32 = 6;

/// Decimal places of a tax: it is held in million-millionths.
pub const TAX_PLACES: u32 = 12;

/// Months in a year: a monthly salary counts this many times, and a bonus is
/// spread over this many months to find its bracket.
pub const MONTHS: u64 = 12;

/// The amount, in millionths, that one step of the search moves from the
/// bonus to the salary: ten currency units.
pub const STEP: u64 = 10_000_000;

} // verus!
