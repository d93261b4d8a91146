//! Logs: results and completion of LogQL queries by plain text scanning.

pub mod app;
pub mod context;
pub mod types;

pub use types::{LokiEntry, LokiStream};
