//! Generation of a requested count of unique random integers from an
//! inclusive range, with an optional set of ignored values.
//!
//! The crate validates the four inputs (lower bound, upper bound, requested
//! count, ignore set), checks that the permitted domain is large enough,
//! draws unique values by rejection sampling over a cryptographically secure
//! random source, and offers an ascending presentation of the result.

use vstd::prelude::*;

pub mod domain;
pub mod parse;
pub mod resolve;
pub mod order;
pub mod sample;

verus! {

/// Inputs are accepted only between 1 and this bound, inclusive.
pub const MAX_INPUT: usize = 1000000;

/// A scalar input (bound or count) is acceptable on its own when it is
/// positive and at most `MAX_INPUT`.
pub open spec fn valid_scalar(n: usize) -> bool {
    1 <= n <= MAX_INPUT
}

/// Whether a scalar input is acceptable on its own.
pub fn scalar_in_range(n: usize) -> (r: bool)
    ensures
        r == valid_scalar(n),
{
    1 <= n && n <= MAX_INPUT
}

} // verus!
