//! Normalisation of a host processor's cache hierarchy.
//!
//! The crate turns the textual answers of platform sources (system
//! parameters, attribute files, command output) into one uniform model of
//! performance levels with their cache sizes, and renders that model as
//! lines of text. Reading the sources is left to the caller; every function
//! here maps plain values to plain values.

pub mod text;
pub mod units;
pub mod model;
pub mod render;
pub mod probe;
