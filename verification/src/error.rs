//! Error values of the crate.

use vstd::prelude::*;

verus! {

/// Why a record given as text was refused.
#[derive(Clone, Copy, Debug, PartialEq, Eq, Structural)]
pub enum ParseError {
    /// The text does not hold exactly three comma-separated tokens.
    TokenCount,
    /// A token is not written as a decimal floating-point number is.
    NotNumeric,
    /// A token is a number, but one that no amount can hold: it is below
    /// zero or too large.
    Unrepresentable,
}

/// What is wrong with one section of a configuration.
#[derive(Clone, Copy, Debug, PartialEq, Eq, Structural)]
pub enum ConfigFault {
    /// The section itself is absent.
    MissingSection,
    /// The section is not a table, or has no `rule` entry.
    MissingRule,
    /// The `rule` entry is not an array.
    RuleNotArray,
    /// A rule is not a table with an integer `bound`.
    MissingBound,
    /// A rule has no floating-point `ratio`.
    MissingRatio,
    /// A ratio is not a number between zero and one.
    RatioOutOfRange,
    /// The section has no rule at all.
    NoRules,
}

/// Why a configuration was refused.
#[derive(Clone, Copy, Debug, PartialEq, Eq, Structural)]
pub enum ConfigError {
    /// The text is not a TOML document.
    Syntax,
    /// The `salary` section is faulty.
    Salary(ConfigFault),
    /// The `year_bonus` section is faulty.
    YearBonus(ConfigFault),
}

/// The bonus lies above every bracket of the bonus table, so no ratio is
/// defined for it.
#[derive(Clone, Copy, Debug, PartialEq, Eq, Structural)]
pub struct LookupError;

/// Nothing is left of the bonus to move: the signal that ends the search.
#[derive(Clone, Copy, Debug, PartialEq, Eq, Structural)]
pub struct InvalidBudgetError;

} // verus!
