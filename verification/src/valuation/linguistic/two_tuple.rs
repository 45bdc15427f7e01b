//! Two-tuple linguistic valuations: a label index and a symbolic
//! translation.

use vstd::prelude::*;
use crate::domain::Qualitative;
use crate::domain::qualitative::name_seen;
use crate::fuzzy::Label;
use crate::utilities::math::rounded_div;
use crate::utilities::math::round_div;
use crate::utilities::math::round_decimals;
use crate::utilities::math::spec_round_decimals;
use crate::valuation::Valuation;
use crate::valuation::linguistic::Linguistic;

verus! {

/// A two-tuple linguistic valuation: a label index and a symbolic
/// translation in `[-0.5, 0.5)` that places the value between adjacent
/// labels. The translation is a fixed-point value at five decimals, the
/// precision it is rounded to on construction.
#[derive(Debug, PartialEq)]
pub struct TwoTuple {
    domain: Qualitative,
    index: usize,
    alpha: i64,
}

/// Two-tuple errors types.
#[derive(Clone, Debug, PartialEq)]
pub enum TwoTupleError {
    /// The index lies beyond the domain.
    InvalidIndex { cardinality: usize, index: usize },
    /// No label carries the name.
    InvalidName { name: String },
    /// The symbolic translation lies outside `[-0.5, 0.5)`.
    InvalidSymbolicTranslationValue { alpha: i64 },
    /// The first label admits no negative translation.
    InvalidSymbolicTranslationOnFirstLabel { alpha: i64 },
    /// The last label admits no positive translation.
    InvalidSymbolicTranslationOnLastLabel { alpha: i64 },
}

impl Linguistic for TwoTuple {

}

impl Valuation for TwoTuple {

}

/// The label index a symbolic aggregation value names: the value rounded
/// to the nearest label, never below the first.
pub open spec fn spec_delta_index(beta: int) -> int {
    let r = rounded_div(beta, 100000);
    if r < 0 {
        0
    } else {
        r
    }
}

impl TwoTuple {
    /// The valuation's domain, as its labels.
    pub closed spec fn spec_domain(self) -> Seq<Label> {
        self.domain.spec_labels()
    }

    /// The valuation's label index.
    pub closed spec fn spec_index(self) -> usize {
        self.index
    }

    /// The valuation's symbolic translation.
    pub closed spec fn spec_alpha(self) -> i64 {
        self.alpha
    }

    /// The index names a label, the translation lies in `[-0.5, 0.5)`,
    /// and the first and last labels admit no translation pointing
    /// outward.
    pub open spec fn wf(self) -> bool {
        self.spec_index() < self.spec_domain().len() && -50000 <= self.spec_alpha() < 50000 && (
        self.spec_index() == 0 ==> self.spec_alpha() >= 0) && (self.spec_index()
            == self.spec_domain().len() - 1 ==> self.spec_alpha() <= 0)
    }

    /// Creates a new valuation from a label index and a symbolic
    /// translation, rounded to five decimals. Rejects an index beyond the
    /// domain, a translation outside `[-0.5, 0.5)`, a negative
    /// translation on the first label, and a positive one on the last.
    pub fn new_by_label_index(domain: &Qualitative, index: usize, alpha: i64) -> (r: Result<
        Self,
        TwoTupleError,
    >)
        requires
            domain.spec_labels().len() >= 1,
            -1000000000000000000 <= alpha <= 1000000000000000000,
        ensures
            ({
                let a5 = spec_round_decimals(alpha as int, 5);
                let n = domain.spec_labels().len();
                match r {
                    Ok(t) => index < n && -50000 <= a5 < 50000 && (index == 0 ==> a5 >= 0) && (
                    index == n - 1 ==> a5 <= 0) && t.spec_domain() == domain.spec_labels()
                        && t.spec_index() == index && t.spec_alpha() == a5 && t.wf(),
                    Err(e) => match e {
                        TwoTupleError::InvalidIndex { cardinality, index: i } => cardinality == n
                            && i == index && index >= n,
                        TwoTupleError::InvalidSymbolicTranslationValue { alpha: a } => a == a5
                            && index < n && !(-50000 <= a5 < 50000),
                        TwoTupleError::InvalidSymbolicTranslationOnFirstLabel { alpha: a } => a
                            == a5 && index < n && -50000 <= a5 < 50000 && index == 0 && a5 < 0,
                        TwoTupleError::InvalidSymbolicTranslationOnLastLabel { alpha: a } => a
                            == a5 && index < n && -50000 <= a5 < 50000 && index == n - 1 && a5 > 0,
                        TwoTupleError::InvalidName { .. } => false,
                    },
                }
            }),
    {
        let a5: i64 = round_decimals(alpha, 5);
        if index > domain.cardinality() - 1 {
            Err(TwoTupleError::InvalidIndex { cardinality: domain.cardinality(), index })
        } else if !(-50000 <= a5 && a5 < 50000) {
            Err(TwoTupleError::InvalidSymbolicTranslationValue { alpha: a5 })
        } else if index == 0 && a5 < 0 {
            Err(TwoTupleError::InvalidSymbolicTranslationOnFirstLabel { alpha: a5 })
        } else if index == domain.cardinality() - 1 && a5 > 0 {
            Err(TwoTupleError::InvalidSymbolicTranslationOnLastLabel { alpha: a5 })
        } else {
            Ok(Self { domain: domain.clone(), index, alpha: a5 })
        }
    }

    /// Creates a new valuation from a label name and a symbolic
    /// translation; rejects a name no label carries.
    pub fn new_by_label_name(domain: &Qualitative, name: &str, alpha: i64) -> (r: Result<
        Self,
        TwoTupleError,
    >)
        requires
            domain.spec_labels().len() >= 1,
            -1000000000000000000 <= alpha <= 1000000000000000000,
        ensures
            match r {
                Ok(t) => t.spec_domain() == domain.spec_labels() && t.wf() && t.spec_alpha()
                    == spec_round_decimals(alpha as int, 5) && t.spec_index()
                    < domain.spec_labels().len() && domain.spec_labels()[t.spec_index() as int].spec_name()
                    == name@,
                Err(e) => match e {
                    TwoTupleError::InvalidName { name: n } => n@ == name@ && !name_seen(
                        domain.spec_labels(),
                        domain.spec_labels().len() as int,
                        name@,
                    ),
                    _ => true,
                },
            },
    {
        match domain.label_index(name) {
            Some(index) => TwoTuple::new_by_label_index(domain, index, alpha),
            None => Err(TwoTupleError::InvalidName { name: name.to_owned() }),
        }
    }

    /// Creates a new valuation from a symbolic aggregation value `beta`:
    /// the nearest label index, never below the first, and the remainder
    /// as the translation.
    pub fn delta(domain: &Qualitative, beta: i64) -> (r: Result<Self, TwoTupleError>)
        requires
            domain.spec_labels().len() >= 1,
            -1000000000000 <= beta <= 1000000000000,
        ensures
            ({
                let index = spec_delta_index(beta as int);
                let a5 = spec_round_decimals(beta - index * 100000, 5);
                let n = domain.spec_labels().len();
                match r {
                    Ok(t) => index < n && -50000 <= a5 < 50000 && (index == 0 ==> a5 >= 0) && (
                    index == n - 1 ==> a5 <= 0) && t.spec_domain() == domain.spec_labels()
                        && t.spec_index() == index && t.spec_alpha() == a5 && t.wf(),
                    Err(e) => match e {
                        TwoTupleError::InvalidIndex { cardinality, index: i } => cardinality == n
                            && i == index && index >= n,
                        TwoTupleError::InvalidSymbolicTranslationValue { alpha: a } => a == a5
                            && index < n && !(-50000 <= a5 < 50000),
                        TwoTupleError::InvalidSymbolicTranslationOnFirstLabel { alpha: a } => a
                            == a5 && index < n && -50000 <= a5 < 50000 && index == 0 && a5 < 0,
                        TwoTupleError::InvalidSymbolicTranslationOnLastLabel { alpha: a } => a
                            == a5 && index < n && -50000 <= a5 < 50000 && index == n - 1 && a5 > 0,
                        TwoTupleError::InvalidName { .. } => false,
                    },
                }
            }),
    {
        proof {
            if beta >= 0 {
                crate::utilities::math::lemma_rounded_div_le(beta as int, 100000, 10000000);
            }
        }
        let rounded: i64 = round_div(beta, 100000);
        let index: usize = if rounded < 0 {
            0
        } else {
            rounded as usize
        };
        proof {
            assert(index as int == spec_delta_index(beta as int));
        }
        let alpha: i64 = beta - (index as i64) * 100000;
        TwoTuple::new_by_label_index(domain, index, alpha)
    }

    /// Returns the label index.
    pub fn index(&self) -> (r: usize)
        ensures
            r == self.spec_index(),
    {
        self.index
    }

    /// Returns the symbolic translation.
    pub fn alpha(&self) -> (r: i64)
        ensures
            r == self.spec_alpha(),
    {
        self.alpha
    }

    /// Returns the label.
    pub fn label(&self) -> (r: &Label)
        requires
            self.wf(),
        ensures
            *r == self.spec_domain()[self.spec_index() as int],
    {
        self.domain.get_label_by_index(self.index).unwrap()
    }

    /// The inverse of `delta`: the index plus the translation, as one
    /// fixed-point position along the label axis.
    pub fn inverse_delta(&self) -> (r: i64)
        requires
            self.wf(),
            self.spec_domain().len() <= 1000000,
        ensures
            r == self.spec_index() * 100000 + self.spec_alpha(),
    {
        (self.index as i64) * 100000 + self.alpha
    }

    /// Returns the valuation's domain.
    pub fn domain(&self) -> (r: &Qualitative)
        ensures
            r.spec_labels() == self.spec_domain(),
    {
        &self.domain
    }

    /// The valuation reflected about the domain's middle: the position is
    /// mirrored and split into index and translation again.
    pub fn neg(&self) -> (r: Self)
        requires
            self.wf(),
            self.spec_domain().len() <= 1000000,
        ensures
            ({
                let beta = (self.spec_domain().len() - 1) * 100000 - (self.spec_index() * 100000
                    + self.spec_alpha());
                let index = spec_delta_index(beta);
                r.spec_domain() == self.spec_domain() && r.spec_index() == index && r.spec_alpha()
                    == spec_round_decimals(beta - index * 100000, 5)
            }),
    {
        let n = self.domain.cardinality();
        let beta: i64 = ((n - 1) as i64) * 100000 - self.inverse_delta();
        proof {
            if beta >= 0 {
                crate::utilities::math::lemma_rounded_div_le(beta as int, 100000, 2000000);
            }
        }
        let rounded: i64 = round_div(beta, 100000);
        let index: usize = if rounded < 0 {
            0
        } else {
            rounded as usize
        };
        proof {
            assert(index as int == spec_delta_index(beta as int));
        }
        let alpha: i64 = round_decimals(beta - (index as i64) * 100000, 5);
        Self { domain: self.domain.clone(), index, alpha }
    }
}

} // verus!
