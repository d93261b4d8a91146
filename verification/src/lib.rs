//! Core logic of a terminal explorer for metrics, logs, traces and profiles.

pub mod app;
pub mod bignum;
pub mod collections;
pub mod durations;
pub mod edit;
pub mod errors;
pub mod frames;
pub mod journeys;
pub mod laws;
pub mod list;
pub mod listings;
pub mod logql;
pub mod loki;
pub mod lsp;
pub mod model;
pub mod numbers;
pub mod order;
pub mod prometheus;
pub mod pyroscope;
pub mod scan;
pub mod select;
pub mod suggest;
pub mod tempo;
pub mod text;
pub mod time_range;
pub mod time_range_picker;
pub mod timestamps;
pub mod util;
pub mod view;
