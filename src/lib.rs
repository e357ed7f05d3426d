//! Collect a sequence of `Result`s into a single `Result` of collections,
//! keeping every error value instead of only the first one.
pub mod model;
pub mod gather;
pub mod laws;

pub use gather::{gatherr, Gatherr, IterExt};
