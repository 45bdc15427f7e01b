//! Linear functions `y = slope * x + intercept` over fixed-point values.

use vstd::prelude::*;

verus! {

/// A linear function `f(x) = slope * x + intercept`.
///
/// Both coefficients are fixed-point values at five decimals; the
/// constructor flushes a coefficient whose magnitude is at most one
/// fixed-point unit to zero, so repeated sums cannot accumulate
/// sub-precision residue.
///
/// The fields are exposed so that specifications can state coefficient
/// arithmetic structurally; [`LinearFunction::new`] is the normalizing
/// constructor.
#[derive(Clone, Copy, Debug, Hash, PartialEq, Eq, Structural)]
pub struct LinearFunction {
    /// Slope.
    pub slope: i64,
    /// Intercept.
    pub intercept: i64,
}

/// A coefficient whose magnitude is at most one fixed-point unit, flushed
/// to zero.
pub open spec fn flushed(v: int) -> int {
    if -1 <= v <= 1 {
        0
    } else {
        v
    }
}

impl LinearFunction {
    /// The function the constructor builds from raw coefficients.
    pub open spec fn spec_new(slope: int, intercept: int) -> LinearFunction {
        LinearFunction { slope: flushed(slope) as i64, intercept: flushed(intercept) as i64 }
    }

    /// The coefficient-wise sum of two functions, normalized as the
    /// constructor normalizes.
    pub open spec fn spec_sum(self, other: LinearFunction) -> LinearFunction {
        LinearFunction::spec_new(
            self.slope as int + other.slope as int,
            self.intercept as int + other.intercept as int,
        )
    }

    /// Both coefficients are bounded by `m` in magnitude.
    pub open spec fn mag_le(self, m: int) -> bool {
        -m <= self.slope <= m && -m <= self.intercept <= m
    }

    /// Builds a linear function, flushing coefficients of at most one
    /// fixed-point unit to zero.
    pub fn new(slope: i64, intercept: i64) -> (r: Self)
        ensures
            r == LinearFunction::spec_new(slope as int, intercept as int),
    {
        Self {
            slope: if -1 <= slope && slope <= 1 {
                0
            } else {
                slope
            },
            intercept: if -1 <= intercept && intercept <= 1 {
                0
            } else {
                intercept
            },
        }
    }

    /// Returns the slope.
    pub fn slope(&self) -> (r: i64)
        ensures
            r == self.slope,
    {
        self.slope
    }

    /// Returns the intercept.
    pub fn intercept(&self) -> (r: i64)
        ensures
            r == self.intercept,
    {
        self.intercept
    }

    /// Sums this function with `other`, coefficient-wise. The sum is
    /// commutative.
    pub fn sum(&self, other: &LinearFunction) -> (r: Self)
        requires
            i64::MIN <= self.slope + other.slope <= i64::MAX,
            i64::MIN <= self.intercept + other.intercept <= i64::MAX,
        ensures
            r == self.spec_sum(*other),
            r == other.spec_sum(*self),
    {
        LinearFunction::new(self.slope + other.slope, self.intercept + other.intercept)
    }
}

} // verus!
