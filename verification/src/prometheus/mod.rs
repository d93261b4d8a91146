//! Metrics: the PromQL language.

pub mod app;
pub mod context;
pub mod keywords;
pub mod typed;
pub mod types;
