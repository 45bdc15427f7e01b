//! Membership functions capture the degree of truth in a given value.

pub mod piecewise;
pub mod trapezoidal;

pub use trapezoidal::Trapezoidal;
pub use trapezoidal::TrapezoidalError;

use vstd::prelude::*;

verus! {

/// Base trait for membership functions.
pub trait Membership {
}

} // verus!
