//! Interval valuations: a bounded sub-range inside a quantitative domain.

use vstd::prelude::*;
use crate::domain::Quantitative;
use crate::utilities::math::rounded_div;
use crate::utilities::math::round_div;
use crate::valuation::Valuation;

verus! {

/// An interval valuation: a sub-range `[min, max]` within its
/// quantitative domain.
#[derive(Clone, Copy, Debug, Hash, PartialEq, Eq, Structural)]
pub struct Interval {
    domain: Quantitative,
    min: i64,
    max: i64,
}

/// Interval errors types.
#[derive(Clone, Copy, Debug, PartialEq, Eq, Structural)]
pub enum IntervalError {
    /// The sub-range had `min > max`.
    InvalidRange { min: i64, max: i64 },
    /// The minimum lies below the domain.
    InvalidMin { min: i64, inf: i64 },
    /// The maximum lies above the domain.
    InvalidMax { max: i64, sup: i64 },
}

impl Valuation for Interval {

}

impl Interval {
    /// The valuation's domain.
    pub closed spec fn spec_domain(self) -> Quantitative {
        self.domain
    }

    /// The valuation's lower value.
    pub closed spec fn spec_min(self) -> i64 {
        self.min
    }

    /// The valuation's upper value.
    pub closed spec fn spec_max(self) -> i64 {
        self.max
    }

    /// The sub-range is ordered and lies inside the ordered domain.
    pub open spec fn wf(self) -> bool {
        self.spec_domain().spec_valid() && self.spec_domain().inf <= self.spec_min()
            <= self.spec_max() <= self.spec_domain().sup
    }

    /// Creates a new valuation; rejects an unordered sub-range first,
    /// then a minimum below the domain, then a maximum above it.
    pub fn new(domain: &Quantitative, min: i64, max: i64) -> (r: Result<Self, IntervalError>)
        requires
            domain.spec_valid(),
        ensures
            match r {
                Ok(v) => domain.inf <= min <= max <= domain.sup && v.spec_domain() == *domain
                    && v.spec_min() == min && v.spec_max() == max && v.wf(),
                Err(e) => match e {
                    IntervalError::InvalidRange { min: m, max: x } => m == min && x == max && min
                        > max,
                    IntervalError::InvalidMin { min: m, inf } => m == min && inf == domain.inf
                        && min <= max && min < domain.inf,
                    IntervalError::InvalidMax { max: x, sup } => x == max && sup == domain.sup
                        && min <= max && min >= domain.inf && max > domain.sup,
                },
            },
    {
        if min > max {
            Err(IntervalError::InvalidRange { min, max })
        } else if min < domain.inf() {
            Err(IntervalError::InvalidMin { min, inf: domain.inf() })
        } else if max > domain.sup() {
            Err(IntervalError::InvalidMax { max, sup: domain.sup() })
        } else {
            Ok(Self { domain: *domain, min, max })
        }
    }

    /// Returns the valuation's values as `(min, max)`.
    pub fn value(&self) -> (r: (i64, i64))
        ensures
            r == (self.spec_min(), self.spec_max()),
    {
        (self.min, self.max)
    }

    /// Returns the valuation's domain.
    pub fn domain(&self) -> (r: Quantitative)
        ensures
            r == self.spec_domain(),
    {
        self.domain
    }

    /// Both ends normalized onto the unit domain: their relative
    /// positions inside the source range, rounded to the fixed-point
    /// grid.
    pub fn normalize(&self) -> (r: Interval)
        requires
            self.wf(),
            !self.spec_domain().spec_degenerate(),
            -10000000000000 <= self.spec_domain().inf,
            self.spec_domain().sup <= 10000000000000,
        ensures
            r.spec_domain() == (Quantitative { inf: 0, sup: 100000 }),
            r.spec_min() == rounded_div(
                (self.spec_min() - self.spec_domain().inf) * 100000,
                self.spec_domain().sup - self.spec_domain().inf,
            ),
            r.spec_max() == rounded_div(
                (self.spec_max() - self.spec_domain().inf) * 100000,
                self.spec_domain().sup - self.spec_domain().inf,
            ),
            r.wf(),
    {
        let span: i64 = self.domain.sup - self.domain.inf;
        proof {
            crate::utilities::math::lemma_rounded_div_le(
                (self.min - self.domain.inf) * 100000,
                span as int,
                100000,
            );
            crate::utilities::math::lemma_rounded_div_le(
                (self.max - self.domain.inf) * 100000,
                span as int,
                100000,
            );
            crate::utilities::math::lemma_rounded_div_monotone(
                (self.min - self.domain.inf) * 100000,
                (self.max - self.domain.inf) * 100000,
                span as int,
            );
        }
        let min: i64 = round_div((self.min - self.domain.inf) * 100000, span);
        let max: i64 = round_div((self.max - self.domain.inf) * 100000, span);
        Interval { domain: Quantitative { inf: 0, sup: 100000 }, min, max }
    }
}

} // verus!
