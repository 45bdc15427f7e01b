//! Transformations of valuations into other domains.

pub mod interval;
pub mod numeric;
pub mod single;
pub mod two_tuple;
