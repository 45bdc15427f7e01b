//! Linguistic (fuzzy-set) assessments as algebraic objects.
//!
//! The library models fuzzy-set assessments and lets them be merged,
//! validated and converted between representations. Every numeric
//! quantity is a fixed-point value: an `i64` counting units of
//! `1 / 100000` — five decimal places, exactly the precision the
//! piecewise engine keys its interval maps with.
//!
//! The layers, leaf first:
//! - [`domain::Quantitative`]: a bounded range with intersection and set
//!   difference.
//! - [`fuzzy::membership::piecewise::LinearFunction`]: `y = slope * x +
//!   intercept`.
//! - [`fuzzy::membership::piecewise::PiecewiseLinearFunction`]: disjoint
//!   ranges mapped to linear functions, with additive insertion,
//!   simplification and a canonical textual form.
//! - [`fuzzy::membership::Trapezoidal`]: the atomic fuzzy-set shape, and
//!   its conversion to piecewise form.
//! - [`domain::Qualitative`]: ordered labels with the structural
//!   predicates (fuzzy partition, symmetry, uniformity, BLTS).
//! - [`valuation`]: numeric, interval and linguistic valuations over
//!   those domains, and their unification into basic linguistic term
//!   sets.

pub mod domain;
pub mod fuzzy;
pub mod utilities;
pub mod valuation;

pub use domain::Domain;
pub use valuation::Valuation;
