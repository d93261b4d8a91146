//! Trace data.

use vstd::prelude::*;

verus! {

/// A trace as a search finds it.
#[derive(Debug, Clone, Default)]
pub struct TempoTrace {
    pub trace_id: String,
    pub root_service_name: String,
    pub root_trace_name: String,
    pub start_time_unix_nano: u64,
    pub duration_ms: u32,
}

/// A span of a trace.
#[derive(Debug, Clone, Default)]
pub struct TempoSpan {
    pub span_id: String,
    pub parent_span_id: Option<String>,
    pub name: String,
    pub service_name: String,
    pub start_time_unix_nano: u64,
    pub duration_ns: u64,
    /// Depth in the tree of spans (0 = root span)
    pub depth: usize,
    pub resource_attrs: Vec<(String, String)>,
    pub span_attrs: Vec<(String, String)>,
    /// Span kind (0 = unspecified, 1 = internal, 2 = server, 3 = client,
    /// 4 = producer, 5 = consumer)
    pub kind: i32,
    /// Whether the span ended with an error
    pub error: bool,
}

} // verus!
