//! Domains in which assessments are represented.

pub mod qualitative;
pub mod quantitative;

pub use qualitative::Qualitative;
pub use qualitative::QualitativeError;
pub use quantitative::Quantitative;
pub use quantitative::QuantitativeError;

use vstd::prelude::*;

verus! {

/// Base trait for domains.
pub trait Domain {
}

} // verus!
