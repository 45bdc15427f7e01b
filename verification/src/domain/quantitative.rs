//! Bounded numeric ranges with intersection and set difference.

use vstd::prelude::*;
use crate::domain::Domain;

verus! {

/// A bounded range `[inf, sup]` over fixed-point values, with `inf <= sup`.
///
/// A *degenerate* range (`inf == sup`) is valid but, by design, intersects
/// nothing — not even itself.
///
/// The fields are exposed so that specifications can state intersection
/// and difference results structurally; [`Quantitative::new`] is the
/// validated constructor.
#[derive(Clone, Copy, Debug, Hash, PartialEq, Eq, Structural)]
pub struct Quantitative {
    /// Lower bound.
    pub inf: i64,
    /// Upper bound.
    pub sup: i64,
}

/// Quantitative errors types.
#[derive(Clone, Copy, Debug, PartialEq, Eq, Structural)]
pub enum QuantitativeError {
    /// The requested range had `inf > sup`.
    InvalidRange { inf: i64, sup: i64 },
}

impl Domain for Quantitative {

}

impl Quantitative {
    /// The range is ordered.
    pub open spec fn spec_valid(self) -> bool {
        self.inf <= self.sup
    }

    /// The range spans no point at all.
    pub open spec fn spec_degenerate(self) -> bool {
        self.inf == self.sup
    }

    /// The range's lower bound.
    pub open spec fn spec_inf(self) -> i64 {
        self.inf
    }

    /// The range's upper bound.
    pub open spec fn spec_sup(self) -> i64 {
        self.sup
    }

    /// The range `self` shares with `other`. A degenerate range intersects
    /// nothing, so any overlap found here spans at least one point.
    pub open spec fn spec_intersection(self, other: Self) -> Option<Self> {
        if self.inf == self.sup || other.inf == other.sup {
            None
        } else if self.inf >= other.inf {
            if self.sup <= other.sup {
                Some(self)
            } else if self.inf < other.sup {
                Some(Quantitative { inf: self.inf, sup: other.sup })
            } else {
                None
            }
        } else if self.sup > other.inf {
            if self.sup >= other.sup {
                Some(other)
            } else {
                Some(Quantitative { inf: other.inf, sup: self.sup })
            }
        } else {
            None
        }
    }

    /// The parts of `self` left after removing `other`: zero, one or two
    /// sub-ranges.
    pub open spec fn spec_difference(self, other: Self) -> Seq<Self> {
        if self.inf >= other.inf {
            if self.inf >= other.sup {
                seq![self]
            } else if self.sup > other.sup {
                seq![Quantitative { inf: other.sup, sup: self.sup }]
            } else {
                Seq::empty()
            }
        } else if self.sup > other.inf {
            if self.sup > other.sup {
                seq![
                    Quantitative { inf: self.inf, sup: other.inf },
                    Quantitative { inf: other.sup, sup: self.sup },
                ]
            } else {
                seq![Quantitative { inf: self.inf, sup: other.inf }]
            }
        } else {
            seq![self]
        }
    }

    /// Builds a range; rejects `inf > sup`.
    pub fn new(inf: i64, sup: i64) -> (r: Result<Self, QuantitativeError>)
        ensures
            inf <= sup ==> r == Ok::<Self, QuantitativeError>(Quantitative { inf, sup }),
            inf > sup ==> r == Err::<Self, QuantitativeError>(
                QuantitativeError::InvalidRange { inf, sup },
            ),
    {
        if inf > sup {
            Err(QuantitativeError::InvalidRange { inf, sup })
        } else {
            Ok(Self { inf, sup })
        }
    }

    /// Returns the lower bound.
    pub fn inf(&self) -> (r: i64)
        ensures
            r == self.spec_inf(),
    {
        self.inf
    }

    /// Returns the upper bound.
    pub fn sup(&self) -> (r: i64)
        ensures
            r == self.spec_sup(),
    {
        self.sup
    }

    /// Checks whether `value` is a valid assessment in this range.
    pub fn valid_assessment(&self, value: i64) -> (r: bool)
        ensures
            r == (self.spec_inf() <= value <= self.spec_sup()),
    {
        value >= self.inf && value <= self.sup
    }

    /// Computes the intersection with another range; `None` when either
    /// range is degenerate or the two do not overlap in more than a point.
    pub fn intersection(&self, other: &Self) -> (r: Option<Self>)
        ensures
            r == self.spec_intersection(*other),
    {
        if self.inf == self.sup || other.inf == other.sup {
            None
        } else if self.inf >= other.inf {
            if self.sup <= other.sup {
                Some(*self)
            } else if self.inf < other.sup {
                Some(Quantitative { inf: self.inf, sup: other.sup })
            } else {
                None
            }
        } else if self.sup > other.inf {
            if self.sup >= other.sup {
                Some(*other)
            } else {
                Some(Quantitative { inf: other.inf, sup: self.sup })
            }
        } else {
            None
        }
    }

    /// Computes `self` minus `other` as zero, one or two sub-ranges.
    pub fn difference(&self, other: &Self) -> (r: Vec<Self>)
        ensures
            r@ == self.spec_difference(*other),
    {
        let mut result: Vec<Self> = Vec::new();
        if self.inf >= other.inf {
            if self.inf >= other.sup {
                result.push(*self);
            } else if self.sup > other.sup {
                result.push(Quantitative { inf: other.sup, sup: self.sup });
            }
        } else if self.sup > other.inf {
            result.push(Quantitative { inf: self.inf, sup: other.inf });
            if self.sup > other.sup {
                result.push(Quantitative { inf: other.sup, sup: self.sup });
            }
        } else {
            result.push(*self);
        }
        proof {
            assert(result@ =~= self.spec_difference(*other));
        }
        result
    }
}

/// An intersection of valid ranges, where it exists, spans at least one
/// point.
pub proof fn lemma_intersection_valid(a: Quantitative, b: Quantitative)
    requires
        a.spec_valid(),
        b.spec_valid(),
    ensures
        a.spec_intersection(b) is Some ==> {
            let o = a.spec_intersection(b)->Some_0;
            o.spec_valid() && !o.spec_degenerate()
        },
{
}

/// Every part of a difference of a valid range is itself valid.
pub proof fn lemma_difference_valid(a: Quantitative, b: Quantitative)
    requires
        a.spec_valid(),
    ensures
        forall|i: int|
            0 <= i < a.spec_difference(b).len() ==> (#[trigger] a.spec_difference(
                b,
            )[i]).spec_valid(),
{
}

/// Intersection is symmetric on non-degenerate ranges: which operand the
/// overlap is computed from never changes the overlap itself.
pub proof fn lemma_intersection_symmetric(a: Quantitative, b: Quantitative)
    requires
        a.spec_valid(),
        b.spec_valid(),
    ensures
        a.spec_intersection(b) == b.spec_intersection(a),
{
}

} // verus!
