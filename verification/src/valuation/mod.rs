//! Valuations used for assessments.

pub mod interval;
pub mod linguistic;
pub mod numeric;
pub mod unification;

pub use interval::Interval;
pub use interval::IntervalError;
pub use linguistic::Hesitant;
pub use linguistic::HesitantError;
pub use linguistic::HesitantRelation;
pub use linguistic::Linguistic;
pub use linguistic::Single;
pub use linguistic::SingleError;
pub use linguistic::TwoTuple;
pub use linguistic::TwoTupleError;
pub use linguistic::Unified;
pub use linguistic::UnifiedError;
pub use numeric::Numeric;
pub use numeric::NumericError;

use vstd::prelude::*;

verus! {

/// Base trait for valuations.
pub trait Valuation {
}

} // verus!
