//! Linguistic valuations over qualitative domains.

pub mod hesitant;
pub mod single;
pub mod two_tuple;
pub mod unified;

pub use hesitant::Hesitant;
pub use hesitant::HesitantError;
pub use hesitant::HesitantRelation;
pub use single::Single;
pub use single::SingleError;
pub use two_tuple::TwoTuple;
pub use two_tuple::TwoTupleError;
pub use unified::Unified;
pub use unified::UnifiedError;

use vstd::prelude::*;

verus! {

/// Base trait for linguistic valuations.
pub trait Linguistic {
}

} // verus!
