//! Hesitant linguistic valuations: a relation over a qualitative
//! domain's label indices.

use vstd::prelude::*;
use crate::domain::Qualitative;
use crate::fuzzy::Label;
use crate::valuation::Valuation;
use crate::valuation::linguistic::Linguistic;

verus! {

/// A hesitant relation: the shape of an imprecise linguistic assessment
/// over a domain's label indices.
#[derive(Debug, PartialEq)]
pub enum HesitantRelation {
    /// Exactly the label at `index`.
    SingleValue { domain: Qualitative, index: usize },
    /// The label at `index` or any later one.
    AtLeast { domain: Qualitative, index: usize },
    /// The label at `index` or any earlier one.
    AtMost { domain: Qualitative, index: usize },
    /// Any label from `lower` to `upper`.
    Between { domain: Qualitative, lower: usize, upper: usize },
    /// Any label strictly before `index`.
    LowerThan { domain: Qualitative, index: usize },
    /// Any label strictly after `index`.
    GreaterThan { domain: Qualitative, index: usize },
}

/// Hesitant errors types.
#[derive(Clone, Debug, PartialEq)]
pub enum HesitantError {
    /// The index lies beyond what the relation allows in the domain.
    InvalidIndex { cardinality: usize, index: usize },
    /// The range had `lower >= upper`.
    InvalidRange { lower: usize, upper: usize },
    /// No label carries the name.
    InvalidName { name: String },
}

/// A hesitant linguistic valuation: a validated hesitant relation.
#[derive(Debug, PartialEq)]
pub struct Hesitant {
    relation: HesitantRelation,
}

impl Linguistic for Hesitant {

}

impl Valuation for Hesitant {

}

impl HesitantRelation {
    /// The relation's domain, as its labels.
    pub open spec fn spec_domain(self) -> Seq<Label> {
        (match self {
            HesitantRelation::SingleValue { domain, .. } => domain,
            HesitantRelation::AtLeast { domain, .. } => domain,
            HesitantRelation::AtMost { domain, .. } => domain,
            HesitantRelation::Between { domain, .. } => domain,
            HesitantRelation::LowerThan { domain, .. } => domain,
            HesitantRelation::GreaterThan { domain, .. } => domain,
        }).spec_labels()
    }

    /// The relation's indices name labels of its domain, as each variant
    /// demands: strict predecessors need a positive index, strict
    /// successors room above, and a range needs `lower < upper`.
    pub open spec fn spec_is_valid(self) -> bool {
        let n = self.spec_domain().len();
        match self {
            HesitantRelation::SingleValue { index, .. } => index < n,
            HesitantRelation::AtLeast { index, .. } => index < n,
            HesitantRelation::AtMost { index, .. } => index < n,
            HesitantRelation::Between { lower, upper, .. } => lower < upper && upper < n,
            HesitantRelation::LowerThan { index, .. } => 0 < index < n,
            HesitantRelation::GreaterThan { index, .. } => index + 1 < n,
        }
    }

    /// Validates the relation, handing it back unchanged when its indices
    /// fit the domain.
    pub fn validate(self) -> (r: Result<Self, HesitantError>)
        requires
            self is GreaterThan ==> self.spec_domain().len() >= 1,
        ensures
            match r {
                Ok(v) => v == self && self.spec_is_valid(),
                Err(e) => !self.spec_is_valid() && match e {
                    HesitantError::InvalidIndex { cardinality, .. } => cardinality
                        == self.spec_domain().len(),
                    HesitantError::InvalidRange { lower, upper } => self matches
                        HesitantRelation::Between { lower: l, upper: u, .. } && l == lower && u
                        == upper && lower >= upper,
                    HesitantError::InvalidName { .. } => false,
                },
            },
    {
        match &self {
            HesitantRelation::SingleValue { domain, index } => {
                if *index >= domain.cardinality() {
                    Err(
                        HesitantError::InvalidIndex {
                            cardinality: domain.cardinality(),
                            index: *index,
                        },
                    )
                } else {
                    Ok(self)
                }
            },
            HesitantRelation::AtLeast { domain, index } => {
                if *index >= domain.cardinality() {
                    Err(
                        HesitantError::InvalidIndex {
                            cardinality: domain.cardinality(),
                            index: *index,
                        },
                    )
                } else {
                    Ok(self)
                }
            },
            HesitantRelation::AtMost { domain, index } => {
                if *index >= domain.cardinality() {
                    Err(
                        HesitantError::InvalidIndex {
                            cardinality: domain.cardinality(),
                            index: *index,
                        },
                    )
                } else {
                    Ok(self)
                }
            },
            HesitantRelation::LowerThan { domain, index } => {
                if *index == 0 || *index >= domain.cardinality() {
                    Err(
                        HesitantError::InvalidIndex {
                            cardinality: domain.cardinality(),
                            index: *index,
                        },
                    )
                } else {
                    Ok(self)
                }
            },
            HesitantRelation::GreaterThan { domain, index } => {
                if *index >= domain.cardinality() - 1 {
                    Err(
                        HesitantError::InvalidIndex {
                            cardinality: domain.cardinality(),
                            index: *index,
                        },
                    )
                } else {
                    Ok(self)
                }
            },
            HesitantRelation::Between { domain, lower, upper } => {
                if *lower >= *upper {
                    Err(HesitantError::InvalidRange { lower: *lower, upper: *upper })
                } else if *upper >= domain.cardinality() {
                    Err(
                        HesitantError::InvalidIndex {
                            cardinality: domain.cardinality(),
                            index: *upper,
                        },
                    )
                } else {
                    Ok(self)
                }
            },
        }
    }

    /// Returns the relation's domain.
    pub fn domain(&self) -> (r: &Qualitative)
        ensures
            r.spec_labels() == self.spec_domain(),
    {
        match self {
            HesitantRelation::SingleValue { domain, .. } => domain,
            HesitantRelation::AtLeast { domain, .. } => domain,
            HesitantRelation::AtMost { domain, .. } => domain,
            HesitantRelation::Between { domain, .. } => domain,
            HesitantRelation::LowerThan { domain, .. } => domain,
            HesitantRelation::GreaterThan { domain, .. } => domain,
        }
    }
}

impl Hesitant {
    /// The underlying relation.
    pub closed spec fn spec_relation(self) -> HesitantRelation {
        self.relation
    }

    /// The index range `(first, last)` of the labels the relation covers.
    pub open spec fn spec_indexes(self) -> (usize, usize) {
        let n = self.spec_relation().spec_domain().len();
        match self.spec_relation() {
            HesitantRelation::SingleValue { index, .. } => (index, index),
            HesitantRelation::AtLeast { index, .. } => (index, (n - 1) as usize),
            HesitantRelation::AtMost { index, .. } => (0usize, index),
            HesitantRelation::Between { lower, upper, .. } => (lower, upper),
            HesitantRelation::LowerThan { index, .. } => (0usize, (index - 1) as usize),
            HesitantRelation::GreaterThan { index, .. } => ((index + 1) as usize, (n - 1) as usize),
        }
    }

    /// Creates a new valuation from a relation, validating it first.
    pub fn new(relation: HesitantRelation) -> (r: Result<Self, HesitantError>)
        requires
            relation is GreaterThan ==> relation.spec_domain().len() >= 1,
        ensures
            match r {
                Ok(v) => v.spec_relation() == relation && relation.spec_is_valid(),
                Err(_) => !relation.spec_is_valid(),
            },
    {
        let relation = relation.validate()?;
        Ok(Self { relation })
    }

    /// Returns the first and last label index the relation covers.
    pub fn indexes(&self) -> (r: (usize, usize))
        requires
            self.spec_relation().spec_is_valid(),
        ensures
            r == self.spec_indexes(),
            r.0 <= r.1 < self.spec_relation().spec_domain().len(),
    {
        match &self.relation {
            HesitantRelation::SingleValue { domain: _, index } => (*index, *index),
            HesitantRelation::AtLeast { domain, index } => (*index, domain.cardinality() - 1),
            HesitantRelation::AtMost { domain: _, index } => (0, *index),
            HesitantRelation::Between { domain: _, lower, upper } => (*lower, *upper),
            HesitantRelation::LowerThan { domain: _, index } => (0, *index - 1),
            HesitantRelation::GreaterThan { domain, index } => {
                let card = domain.cardinality();
                (*index + 1, card - 1)
            },
        }
    }

    /// Returns the names of the first and last label the relation covers.
    pub fn labels(&self) -> (r: (String, String))
        requires
            self.spec_relation().spec_is_valid(),
        ensures
            r.0@ == self.spec_relation().spec_domain()[self.spec_indexes().0 as int].spec_name(),
            r.1@ == self.spec_relation().spec_domain()[self.spec_indexes().1 as int].spec_name(),
    {
        let (lower, upper) = self.indexes();
        let domain = self.relation.domain();
        (
            domain.get_label_by_index(lower).unwrap().name().clone(),
            domain.get_label_by_index(upper).unwrap().name().clone(),
        )
    }

    /// Returns the valuation's domain.
    pub fn domain(&self) -> (r: &Qualitative)
        ensures
            r.spec_labels() == self.spec_relation().spec_domain(),
    {
        self.relation.domain()
    }
}

} // verus!
