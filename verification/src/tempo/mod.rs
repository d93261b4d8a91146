//! Traces.

pub mod app;
pub mod types;

pub use types::{TempoSpan, TempoTrace};
