//! Exact nonnegative ratios of machine integers.
//!
//! Boarding proportions and Beta-shape parameters are ratios of passenger
//! counts or of scaled platform positions; holding them as numerator and
//! denominator keeps every later computation exact.

use vstd::prelude::*;

verus! {

/// A nonnegative rational number `num / den`.
#[derive(Clone, Copy, Debug, PartialEq, Eq, Structural)]
pub struct Ratio {
    pub num: u64,
    pub den: u64,
}

impl Ratio {
    /// A ratio is well formed when its denominator is positive.
    pub open spec fn wf(self) -> bool {
        self.den >= 1
    }

    /// The ratio lies in the unit interval `[0, 1]`.
    pub open spec fn is_proportion(self) -> bool {
        self.wf() && self.num <= self.den
    }

    /// The ratio equals zero.
    pub open spec fn is_zero(self) -> bool {
        self.num == 0
    }

    /// The ratio equals one.
    pub open spec fn is_one(self) -> bool {
        self.num == self.den
    }
}

} // verus!
