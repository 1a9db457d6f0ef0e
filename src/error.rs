//! Errors of loading a campaign and of computing rewards.

use vstd::prelude::*;

verus! {

/// A reward computation that has no defined 128-bit result.
#[derive(Clone, Copy, Debug, PartialEq, Eq, Structural)]
pub enum ArithmeticError {
    /// The total raised is zero.
    DivisionByZero,
    /// The result, or the total raised, does not fit in 128 bits.
    Overflow,
}

/// Why a campaign could not be loaded. Nothing is submitted after one.
#[derive(Clone, Copy, Debug, PartialEq, Eq, Structural)]
pub enum LoadError {
    /// A file named by the input could not be found or opened.
    FileNotFound,
    /// A file does not have the expected structure, or its values break the
    /// campaign's rules (zero denominator, end before start).
    Malformed,
    /// A contributed amount is not a decimal number that fits in 128 bits.
    InvalidNumber,
    /// The contributor list is empty.
    NoContributors,
    /// The amounts contributed add up to more than 128 bits hold.
    TotalOverflow,
}

} // verus!
