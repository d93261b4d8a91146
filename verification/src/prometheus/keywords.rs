//! Keyword tables of PromQL.

use crate::text::append_words;
use vstd::prelude::*;

verus! {

/// PromQL aggregation operators.
pub const AGGREGATION_OPS: [&'static str; 14] = [
    "avg",
    "bottomk",
    "count",
    "count_values",
    "group",
    "limitk",
    "limit_ratio",
    "max",
    "min",
    "quantile",
    "stddev",
    "stdvar",
    "sum",
    "topk",
];

/// Aggregation modifiers.
pub const AGGREGATION_MODIFIERS: [&'static str; 2] = [
    "by",
    "without",
];

/// All PromQL built-in functions.
pub const FUNCTIONS: [&'static str; 82] = [
    "abs",
    "absent",
    "absent_over_time",
    "acos",
    "acosh",
    "asin",
    "asinh",
    "atan",
    "atanh",
    "avg_over_time",
    "ceil",
    "changes",
    "clamp",
    "clamp_max",
    "clamp_min",
    "cos",
    "cosh",
    "count_over_time",
    "day_of_month",
    "day_of_week",
    "day_of_year",
    "days_in_month",
    "deg",
    "delta",
    "deriv",
    "double_exponential_smoothing",
    "exp",
    "floor",
    "histogram_avg",
    "histogram_count",
    "histogram_fraction",
    "histogram_quantile",
    "histogram_quantiles",
    "histogram_stddev",
    "histogram_stdvar",
    "histogram_sum",
    "holt_winters",
    "hour",
    "idelta",
    "increase",
    "info",
    "irate",
    "label_join",
    "label_replace",
    "last_over_time",
    "ln",
    "log2",
    "log10",
    "mad_over_time",
    "max_over_time",
    "min_over_time",
    "minute",
    "month",
    "pi",
    "predict_linear",
    "present_over_time",
    "quantile_over_time",
    "rad",
    "rate",
    "resets",
    "round",
    "scalar",
    "sgn",
    "sin",
    "sinh",
    "sort",
    "sort_by_label",
    "sort_by_label_desc",
    "sort_desc",
    "sqrt",
    "stddev_over_time",
    "stdvar_over_time",
    "sum_over_time",
    "tan",
    "tanh",
    "time",
    "timestamp",
    "ts_of_last_over_time",
    "ts_of_max_over_time",
    "ts_of_min_over_time",
    "vector",
    "year",
];

/// Binary operator keywords.
pub const BINARY_KEYWORDS: [&'static str; 4] = [
    "and",
    "atan2",
    "or",
    "unless",
];

/// Binary expression modifier keywords.
pub const BINARY_MODIFIERS: [&'static str; 8] = [
    "bool",
    "fill",
    "fill_left",
    "fill_right",
    "group_left",
    "group_right",
    "ignoring",
    "on",
];

/// Special value literals.
pub const LITERALS: [&'static str; 2] = [
    "inf",
    "nan",
];

/// All keywords that appear as identifiers in a query expression: aggregation
/// operators and modifiers, functions, binary keywords and modifiers, literals.
pub fn all_completable_keywords() -> (r: Vec<&'static str>)
    ensures
        r@ == AGGREGATION_OPS@ + AGGREGATION_MODIFIERS@ + FUNCTIONS@ + BINARY_KEYWORDS@
            + BINARY_MODIFIERS@ + LITERALS@,
{
    let mut out: Vec<&'static str> = Vec::new();
    append_words(&mut out, &AGGREGATION_OPS);
    append_words(&mut out, &AGGREGATION_MODIFIERS);
    append_words(&mut out, &FUNCTIONS);
    append_words(&mut out, &BINARY_KEYWORDS);
    append_words(&mut out, &BINARY_MODIFIERS);
    append_words(&mut out, &LITERALS);
    out
}

} // verus!
