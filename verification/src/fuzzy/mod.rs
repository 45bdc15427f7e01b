//! Fuzzy logic utilities for linguistic assessments.

pub mod label;
pub mod membership;

pub use label::Label;
pub use label::LabelError;
