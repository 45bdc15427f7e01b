//! Shared numeric utilities.

pub mod math;
