//! Keyword tables of LogQL.

use crate::text::append_words;
use vstd::prelude::*;

verus! {

/// LogQL pipeline stage parsers (suggested after `|`).
pub const PARSERS: [&'static str; 12] = [
    "decolorize",
    "drop",
    "json",
    "keep",
    "label_format",
    "line_format",
    "logfmt",
    "pack",
    "pattern",
    "regexp",
    "unpack",
    "unwrap",
];

/// LogQL range aggregation functions (wrap a log query in `func({...}[dur])`).
pub const RANGE_FUNCTIONS: [&'static str; 14] = [
    "absent_over_time",
    "avg_over_time",
    "bytes_over_time",
    "bytes_rate",
    "count_over_time",
    "first_over_time",
    "last_over_time",
    "max_over_time",
    "min_over_time",
    "quantile_over_time",
    "rate",
    "stddev_over_time",
    "stdvar_over_time",
    "sum_over_time",
];

/// LogQL aggregation operators.
pub const AGGREGATION_OPS: [&'static str; 11] = [
    "avg",
    "bottomk",
    "count",
    "max",
    "min",
    "sort",
    "sort_desc",
    "stddev",
    "stdvar",
    "sum",
    "topk",
];

/// Aggregation modifiers.
pub const AGGREGATION_MODIFIERS: [&'static str; 2] = [
    "by",
    "without",
];

/// Binary operator keywords.
pub const BINARY_KEYWORDS: [&'static str; 3] = [
    "and",
    "or",
    "unless",
];

/// All keywords that can appear at expression level.
pub fn all_expression_keywords() -> (r: Vec<&'static str>)
    ensures
        r@ == RANGE_FUNCTIONS@ + AGGREGATION_OPS@ + AGGREGATION_MODIFIERS@ + BINARY_KEYWORDS@,
{
    let mut out: Vec<&'static str> = Vec::new();
    append_words(&mut out, &RANGE_FUNCTIONS);
    append_words(&mut out, &AGGREGATION_OPS);
    append_words(&mut out, &AGGREGATION_MODIFIERS);
    append_words(&mut out, &BINARY_KEYWORDS);
    out
}

/// All keywords that can appear after `|` in a pipeline.
pub fn all_pipeline_keywords() -> (r: Vec<&'static str>)
    ensures
        r@ == PARSERS@,
{
    let mut out: Vec<&'static str> = Vec::new();
    append_words(&mut out, &PARSERS);
    out
}

} // verus!
