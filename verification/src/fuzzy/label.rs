//! Fuzzy labels: a standardized name bound to a membership function.

use vstd::prelude::*;
use crate::fuzzy::membership::Trapezoidal;

verus! {

/// What trimming leading and trailing whitespace leaves of a string. The
/// result depends on the characters alone.
pub uninterp spec fn trimmed_of(s: Seq<char>) -> Seq<char>;

/// The Unicode lowercase form of a string. The result depends on the
/// characters alone.
pub uninterp spec fn lowercase_of(s: Seq<char>) -> Seq<char>;

/// The standardized form of a name: trimmed, then lower-cased.
pub open spec fn standardized_of(s: Seq<char>) -> Seq<char> {
    lowercase_of(trimmed_of(s))
}

/// Relies on str::trim: removes leading and trailing whitespace, a
/// function of the characters alone.
#[verifier::external_body]
fn trim_str(s: &str) -> (r: &str)
    ensures
        r@ == trimmed_of(s@),
{
    s.trim()
}

/// Relies on str::to_lowercase: the Unicode lowercase mapping, a function
/// of the characters alone.
#[verifier::external_body]
fn lowercase_str(s: &str) -> (r: String)
    ensures
        r@ == lowercase_of(s@),
{
    s.to_lowercase()
}

/// Standardizes a name: trims it, then lower-cases it.
pub fn standardize_name(name: &str) -> (r: String)
    ensures
        r@ == standardized_of(name@),
{
    lowercase_str(trim_str(name))
}

/// Checks whether a name is standardized: equal to its own trimmed,
/// lower-cased form.
pub fn is_standardized(name: &str) -> (r: bool)
    ensures
        r == (name@ == standardized_of(name@)),
{
    let owned: String = name.to_owned();
    let standard: String = standardize_name(name);
    owned == standard
}

/// A fuzzy label: a non-empty, standardized name and a membership
/// function.
#[derive(Debug, PartialEq)]
pub struct Label {
    name: String,
    membership: Trapezoidal,
}

/// Label error types.
#[derive(Clone, Debug, PartialEq)]
pub enum LabelError {
    /// The name differs from its standardized form.
    NonStandardizedName { name: String },
    /// The name is empty.
    EmptyName,
}

impl Label {
    /// The label's name.
    pub closed spec fn spec_name(self) -> Seq<char> {
        self.name@
    }

    /// The label's membership function.
    pub closed spec fn spec_membership(self) -> Trapezoidal {
        self.membership
    }

    /// Creates a new label. Rejects a name that is not standardized, and
    /// then an empty name.
    pub fn new(name: String, membership: Trapezoidal) -> (r: Result<Self, LabelError>)
        ensures
            match r {
                Ok(l) => name@ == standardized_of(name@) && name@.len() > 0 && l.spec_name()
                    == name@ && l.spec_membership() == membership,
                Err(e) => match e {
                    LabelError::NonStandardizedName { name: n } => n@ == name@ && name@
                        != standardized_of(name@),
                    LabelError::EmptyName => name@ == standardized_of(name@) && name@.len() == 0,
                },
            },
    {
        if !is_standardized(name.as_str()) {
            Err(LabelError::NonStandardizedName { name })
        } else if name.as_str().is_empty() {
            Err(LabelError::EmptyName)
        } else {
            Ok(Self { name, membership })
        }
    }

    /// Returns the label's name.
    pub fn name(&self) -> (r: &String)
        ensures
            r@ == self.spec_name(),
    {
        &self.name
    }

    /// Returns the label's membership function.
    pub fn membership(&self) -> (r: &Trapezoidal)
        ensures
            *r == self.spec_membership(),
    {
        &self.membership
    }
}

impl Clone for Label {
    /// Cloning copies the name and the membership function.
    fn clone(&self) -> (r: Self)
        ensures
            r == *self,
    {
        Self { name: self.name.clone(), membership: self.membership }
    }
}

/// Returns the names of all the labels, in order.
pub fn get_labels_names(labels: &Vec<Label>) -> (r: Vec<String>)
    ensures
        r@.len() == labels@.len(),
        forall|i: int| 0 <= i < labels@.len() ==> (#[trigger] r@[i])@ == labels@[i].spec_name(),
{
    let n = labels.len();
    let mut r: Vec<String> = Vec::new();
    let mut k: usize = 0;
    while k < n
        invariant
            n == labels@.len(),
            0 <= k <= n,
            r@.len() == k,
            forall|i: int| 0 <= i < k ==> (#[trigger] r@[i])@ == labels@[i].spec_name(),
        decreases n - k,
    {
        r.push(labels[k].name().clone());
        k = k + 1;
    }
    r
}

} // verus!
