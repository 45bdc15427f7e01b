//! Single linguistic valuations: one label of a qualitative domain.

use vstd::prelude::*;
use crate::domain::Qualitative;
use crate::domain::qualitative::name_seen;
use crate::fuzzy::Label;
use crate::valuation::Valuation;
use crate::valuation::linguistic::Linguistic;

verus! {

/// A single linguistic valuation: one label of a qualitative domain,
/// named by its index.
#[derive(Debug, PartialEq)]
pub struct Single {
    domain: Qualitative,
    index: usize,
}

/// Single errors types.
#[derive(Clone, Debug, PartialEq)]
pub enum SingleError {
    /// The index lies beyond the domain.
    InvalidIndex { cardinality: usize, index: usize },
    /// No label carries the name.
    InvalidName { name: String },
}

impl Linguistic for Single {

}

impl Valuation for Single {

}

impl Single {
    /// The valuation's domain, as its labels.
    pub closed spec fn spec_domain(self) -> Seq<Label> {
        self.domain.spec_labels()
    }

    /// The valuation's label index.
    pub closed spec fn spec_index(self) -> usize {
        self.index
    }

    /// The index names a label of the domain.
    pub open spec fn wf(self) -> bool {
        self.spec_index() < self.spec_domain().len()
    }

    /// Creates a new valuation from a label index; rejects an index
    /// beyond the domain.
    pub fn new_by_label_index(domain: &Qualitative, index: usize) -> (r: Result<
        Self,
        SingleError,
    >)
        ensures
            match r {
                Ok(v) => index < domain.spec_labels().len() && v.spec_domain()
                    == domain.spec_labels() && v.spec_index() == index && v.wf(),
                Err(e) => e == (SingleError::InvalidIndex {
                    cardinality: domain.spec_labels().len() as usize,
                    index,
                }) && index >= domain.spec_labels().len(),
            },
    {
        if index >= domain.cardinality() {
            Err(SingleError::InvalidIndex { cardinality: domain.cardinality(), index })
        } else {
            Ok(Self { domain: domain.clone(), index })
        }
    }

    /// Creates a new valuation from a label name; rejects a name no label
    /// carries.
    pub fn new_by_label_name(domain: &Qualitative, name: &str) -> (r: Result<Self, SingleError>)
        ensures
            match r {
                Ok(v) => v.spec_domain() == domain.spec_labels() && v.wf() && v.spec_index()
                    < domain.spec_labels().len() && domain.spec_labels()[v.spec_index() as int].spec_name()
                    == name@ && !name_seen(
                    domain.spec_labels(),
                    v.spec_index() as int,
                    name@,
                ),
                Err(e) => match e {
                    SingleError::InvalidName { name: n } => n@ == name@ && !name_seen(
                        domain.spec_labels(),
                        domain.spec_labels().len() as int,
                        name@,
                    ),
                    _ => false,
                },
            },
    {
        match domain.label_index(name) {
            Some(index) => Ok(Self { domain: domain.clone(), index }),
            None => Err(SingleError::InvalidName { name: name.to_owned() }),
        }
    }

    /// Returns the valuation's label index.
    pub fn index(&self) -> (r: usize)
        ensures
            r == self.spec_index(),
    {
        self.index
    }

    /// Returns the valuation's label.
    pub fn label(&self) -> (r: &Label)
        requires
            self.wf(),
        ensures
            *r == self.spec_domain()[self.spec_index() as int],
    {
        self.domain.get_label_by_index(self.index).unwrap()
    }

    /// Returns the valuation's domain.
    pub fn domain(&self) -> (r: &Qualitative)
        ensures
            r.spec_labels() == self.spec_domain(),
    {
        &self.domain
    }
}

} // verus!
