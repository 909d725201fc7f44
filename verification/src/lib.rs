//! Dice in tabletop notation: `4d6` is four dice of six sides each.
//!
//! [`Dice::parse`] reads a token of the form `<number>d<sides>`, and
//! [`Dice::generate`] rolls the dice with a random source of the caller and
//! returns the sum of the faces. [`roll_all`] does both for a run of tokens
//! and returns the line to print.

pub mod decimal;
pub mod notation;
pub mod report;
pub mod roll;

pub use notation::{Dice, ParseError};
pub use report::{roll_all, roll_token};
