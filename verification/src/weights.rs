//! Fixed-point weight arithmetic.
//!
//! A weight is a fraction of a whole, stored in parts per million: the
//! value [`WEIGHT_ONE`] stands for 1.0 (one hundred percent of a
//! composition). Accumulated weights may legitimately exceed one whole
//! unit while sums are being collected, but never [`WEIGHT_CAP`]; an
//! accumulation that would pass the cap is reported instead of wrapping.

use vstd::prelude::*;

verus! {

/// One whole unit of weight (a fraction of 1.0), in parts per million.
pub const WEIGHT_ONE: u64 = 1_000_000;

/// Largest value an accumulated weight may reach. One million portfolios
/// fully allocated to one label stay under it, so reaching it always
/// signals runaway input data rather than a real composition.
pub const WEIGHT_CAP: u64 = 1_000_000_000_000;

/// Product of two scaled fractions, truncated back to the common scale.
pub open spec fn mul_weight_spec(a: u64, b: u64) -> u64 {
    ((a * b) / (WEIGHT_ONE as int)) as u64
}

/// Multiplies two weight fractions that are each at most one whole unit.
pub fn mul_weight(a: u64, b: u64) -> (r: u64)
    requires
        a <= WEIGHT_ONE,
        b <= WEIGHT_ONE,
    ensures
        r == mul_weight_spec(a, b),
        r <= a,
        r <= b,
{
    proof {
        assert(a * b <= WEIGHT_ONE * WEIGHT_ONE) by (nonlinear_arith)
            requires a <= WEIGHT_ONE && b <= WEIGHT_ONE;
        assert((a * b) / (WEIGHT_ONE as int) <= a) by (nonlinear_arith)
            requires b <= WEIGHT_ONE && WEIGHT_ONE > 0;
        assert((a * b) / (WEIGHT_ONE as int) <= b) by (nonlinear_arith)
            requires a <= WEIGHT_ONE && WEIGHT_ONE > 0;
    }
    (a * b) / WEIGHT_ONE
}

/// Sum of a base weight and one more contribution, unless the sum would
/// pass [`WEIGHT_CAP`].
pub open spec fn add_weight_spec(a: u64, b: u64) -> Option<u64> {
    if a + b > WEIGHT_CAP {
        None
    } else {
        Some((a + b) as u64)
    }
}

/// Adds a contribution to an accumulated weight, refusing to pass the cap.
pub fn add_weight(a: u64, b: u64) -> (r: Option<u64>)
    requires
        a <= WEIGHT_CAP,
        b <= WEIGHT_CAP,
    ensures
        r == add_weight_spec(a, b),
{
    let s = a + b;
    if s > WEIGHT_CAP {
        None
    } else {
        Some(s)
    }
}

} // verus!
