//! Numeric valuations: a single value inside a quantitative domain.

use vstd::prelude::*;
use crate::domain::Quantitative;
use crate::utilities::math::rounded_div;
use crate::utilities::math::round_div;
use crate::valuation::Valuation;

verus! {

/// A numeric valuation: a value within its quantitative domain.
#[derive(Clone, Copy, Debug, Hash, PartialEq, Eq, Structural)]
pub struct Numeric {
    domain: Quantitative,
    value: i64,
}

/// Numeric errors types.
#[derive(Clone, Copy, Debug, PartialEq, Eq, Structural)]
pub enum NumericError {
    /// The value lies outside the domain's range.
    OutsideRange { value: i64, inf: i64, sup: i64 },
}

impl Valuation for Numeric {

}

impl Numeric {
    /// The valuation's domain.
    pub closed spec fn spec_domain(self) -> Quantitative {
        self.domain
    }

    /// The valuation's value.
    pub closed spec fn spec_value(self) -> i64 {
        self.value
    }

    /// The value lies inside the ordered domain.
    pub open spec fn wf(self) -> bool {
        self.spec_domain().spec_valid() && self.spec_domain().inf <= self.spec_value()
            <= self.spec_domain().sup
    }

    /// Creates a new valuation; rejects a value outside the domain.
    pub fn new(domain: &Quantitative, value: i64) -> (r: Result<Self, NumericError>)
        requires
            domain.spec_valid(),
        ensures
            match r {
                Ok(v) => domain.inf <= value <= domain.sup && v.spec_domain() == *domain
                    && v.spec_value() == value && v.wf(),
                Err(e) => e == (NumericError::OutsideRange {
                    value,
                    inf: domain.inf,
                    sup: domain.sup,
                }) && !(domain.inf <= value <= domain.sup),
            },
    {
        if value < domain.inf() || value > domain.sup() {
            Err(NumericError::OutsideRange { value, inf: domain.inf(), sup: domain.sup() })
        } else {
            Ok(Self { domain: *domain, value })
        }
    }

    /// Returns the valuation's value.
    pub fn value(&self) -> (r: i64)
        ensures
            r == self.spec_value(),
    {
        self.value
    }

    /// Returns the valuation's domain.
    pub fn domain(&self) -> (r: Quantitative)
        ensures
            r == self.spec_domain(),
    {
        self.domain
    }

    /// The value normalized onto the unit domain: its relative position
    /// inside the source range, rounded to the fixed-point grid.
    pub fn normalize(&self) -> (r: Numeric)
        requires
            self.wf(),
            !self.spec_domain().spec_degenerate(),
            -10000000000000 <= self.spec_domain().inf,
            self.spec_domain().sup <= 10000000000000,
        ensures
            r.spec_domain() == (Quantitative { inf: 0, sup: 100000 }),
            r.spec_value() == rounded_div(
                (self.spec_value() - self.spec_domain().inf) * 100000,
                self.spec_domain().sup - self.spec_domain().inf,
            ),
            r.wf(),
    {
        proof {
            crate::utilities::math::lemma_rounded_div_le(
                (self.value - self.domain.inf) * 100000,
                self.domain.sup - self.domain.inf,
                100000,
            );
        }
        let value: i64 = round_div(
            (self.value - self.domain.inf) * 100000,
            self.domain.sup - self.domain.inf,
        );
        Numeric { domain: Quantitative { inf: 0, sup: 100000 }, value }
    }

    /// The valuation reflected about its domain's middle.
    pub fn neg(&self) -> (r: Self)
        requires
            self.wf(),
        ensures
            r.spec_domain() == self.spec_domain(),
            r.spec_value() == self.spec_domain().sup + self.spec_domain().inf
                - self.spec_value(),
            r.wf(),
    {
        let value: i64 = ((self.domain.sup as i128 + self.domain.inf as i128
            - self.value as i128)) as i64;
        Self { domain: self.domain, value }
    }
}

} // verus!
