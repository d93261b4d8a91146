//! Log data.

use vstd::prelude::*;

verus! {

/// Log lines with the same labels.
#[derive(Debug, Clone, Default)]
pub struct LokiStream {
    pub labels: String,
    pub entries: Vec<LokiEntry>,
}

/// A log line.
#[derive(Debug, Clone, Default)]
pub struct LokiEntry {
    pub timestamp: String,
    /// Timestamp in nanoseconds
    pub timestamp_ns: String,
    pub line: String,
}

} // verus!
