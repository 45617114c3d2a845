//! Income tax under progressive brackets, for a salary and a yearly bonus
//! that are taxed apart, and the search for the part of the bonus that is
//! best paid out as salary.
//!
//! The salary of a year is taxed bracket by bracket, each bracket's ratio on
//! the part of the salary that falls into it. The yearly bonus is taxed as a
//! whole at the ratio of one bracket, the one that its twelfth falls into.
//! Moving a part of the bonus to the salary can lower the sum of the two:
//! [`optimize::optimize`] moves it step by step and keeps the best record.
//!
//! All numbers are whole: money in millionths of one currency unit, ratios
//! in millionths, taxes in million-millionths (see [`units`]). Numbers are
//! rounded once, where they are read, and never after that.
//!
//! - [`bracket`]: tables of brackets and the search for a bracket.
//! - [`config`], [`document`], [`binary64`]: the configuration and how it is
//!   read from a TOML document.
//! - [`record`], [`parse`], [`decimal`]: the income record and how it is read
//!   from text.
//! - [`tax`]: the tax on a record.
//! - [`optimize`]: the search.
//! - [`render`]: amounts, taxes and the result of the search as text.

pub mod binary64;
pub mod bracket;
pub mod config;
pub mod decimal;
pub mod document;
pub mod error;
pub mod optimize;
pub mod parse;
pub mod record;
pub mod render;
pub mod tax;
pub mod units;
