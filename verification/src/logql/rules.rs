//! What the analysis of a tree reports, and where.

use crate::logql::analyzer::{
    analysis, check_aggregation, check_quantile, check_range_aggregation, error_if, has_unwrap,
    warning_if, DiagnosticV, ExprType, Severity, UNWRAP_REQUIRED,
};
use crate::logql::ast::{ExprKindV, ExprV};
use crate::logql::keywords::{AGGREGATION_OPS, RANGE_FUNCTIONS};
use crate::logql::number::{outside_unit, shown};
use crate::logql::parser::{parse_of, significant_tokens, Source};
use crate::logql::reading::{
    aggregation_name, lemma_takes_number, lemma_tree_reads, opened_at, param_at, range_function,
    sign_at, takes_number, tree_at,
};
use crate::logql::tokenizer::{tokens_of, Span};
use crate::text::listed;
use vstd::prelude::*;
use vstd::string::*;
use vstd::utf8::*;

verus! {

// ── Rules ────────────────────────────────────────────────────────────────────

/// Whether an expression yields log lines: a log query, in parentheses or not.
pub open spec fn yields_logs(e: ExprV) -> bool
    decreases e,
{
    match e.kind {
        ExprKindV::LogQuery { .. } => true,
        ExprKindV::Paren(inner) => yields_logs(*inner),
        _ => false,
    }
}

/// Whether a function counts values that an `unwrap` stage has to give it.
pub open spec fn wants_unwrap(func: Seq<char>) -> bool {
    func == "avg_over_time"@ || func == "first_over_time"@ || func == "last_over_time"@ || func
        == "max_over_time"@ || func == "min_over_time"@ || func == "quantile_over_time"@ || func
        == "stddev_over_time"@ || func == "stdvar_over_time"@ || func == "sum_over_time"@
}

/// Whether a log query unwraps a label.
pub open spec fn query_unwraps(query: ExprV) -> bool {
    match query.kind {
        ExprKindV::LogQuery { pipeline, .. } => !(forall|i: int|
            0 <= i < pipeline.len() ==> !((#[trigger] pipeline[i]) is Unwrap)),
        _ => false,
    }
}

/// The span of a quantile that is not between 0 and 1.
pub open spec fn quantile_span(func: Seq<char>, param: Option<Box<ExprV>>) -> Seq<Span> {
    match param {
        Some(p) => match p.kind {
            ExprKindV::NumberLit(text) => once(
                func == "quantile_over_time"@ && outside_unit(encode_utf8(text)),
                p.span,
            ),
            _ => seq![],
        },
        None => seq![],
    }
}

/// The span, if `broken`.
pub open spec fn once(broken: bool, span: Span) -> Seq<Span> {
    if broken {
        seq![span]
    } else {
        seq![]
    }
}

/// The spans of the diagnostics of a severity, in order.
pub open spec fn spans_of(ds: Seq<DiagnosticV>, severity: Severity) -> Seq<Span>
    decreases ds.len(),
{
    if ds.len() == 0 {
        seq![]
    } else {
        spans_of(ds.drop_last(), severity) + once(ds.last().severity == severity, ds.last().span)
    }
}

/// Where the errors of a tree are: on an aggregation whose name is unknown, or that has a number
/// without taking one, or takes one without having it; on a log query where a metric is asked for.
pub open spec fn error_spans(e: ExprV) -> Seq<Span>
    decreases e,
{
    match e.kind {
        ExprKindV::RangeAggregation { func, log_query, param, .. } => once(
            !range_function(func),
            e.span,
        ) + once((func == "quantile_over_time"@) != (param is Some), e.span) + error_spans(
            *log_query,
        ) + match param {
            Some(p) => error_spans(*p),
            None => seq![],
        },
        ExprKindV::Aggregation { op, expr, param, .. } => once(!aggregation_name(op), e.span)
            + once((op == "topk"@ || op == "bottomk"@) != (param is Some), e.span) + error_spans(
            *expr,
        ) + once(yields_logs(*expr), expr.span) + match param {
            Some(p) => error_spans(*p),
            None => seq![],
        },
        ExprKindV::BinOp { lhs, rhs, .. } => error_spans(*lhs) + error_spans(*rhs) + once(
            yields_logs(*lhs),
            lhs.span,
        ) + once(yields_logs(*rhs), rhs.span),
        ExprKindV::Paren(inner) => error_spans(*inner),
        _ => seq![],
    }
}

/// Where the warnings of a tree are: on a selector without matchers, on a quantile that is not
/// between 0 and 1, and on a range aggregation that wants an `unwrap` stage without having one.
pub open spec fn warning_spans(e: ExprV) -> Seq<Span>
    decreases e,
{
    match e.kind {
        ExprKindV::LogQuery { selector, .. } => once(selector.matchers.len() == 0, selector.span),
        ExprKindV::RangeAggregation { func, log_query, param, .. } => quantile_span(func, param) + once(
            wants_unwrap(func) && !query_unwraps(*log_query),
            e.span,
        ) + warning_spans(*log_query) + match param {
            Some(p) => warning_spans(*p),
            None => seq![],
        },
        ExprKindV::Aggregation { expr, param, .. } => warning_spans(*expr) + match param {
            Some(p) => warning_spans(*p),
            None => seq![],
        },
        ExprKindV::BinOp { lhs, rhs, .. } => warning_spans(*lhs) + warning_spans(*rhs),
        ExprKindV::Paren(inner) => warning_spans(*inner),
        _ => seq![],
    }
}

// ── Proofs ───────────────────────────────────────────────────────────────────

proof fn lemma_spans_joined(x: Seq<DiagnosticV>, y: Seq<DiagnosticV>, severity: Severity)
    ensures
        spans_of(x + y, severity) == spans_of(x, severity) + spans_of(y, severity),
    decreases y.len(),
{
    if y.len() == 0 {
        assert(x + y =~= x);
        assert(spans_of(x, severity) + spans_of(y, severity) =~= spans_of(x, severity));
    } else {
        assert((x + y).drop_last() =~= x + y.drop_last());
        lemma_spans_joined(x, y.drop_last(), severity);
        assert(spans_of(x + y, severity) =~= spans_of(x, severity) + spans_of(y, severity));
    }
}

proof fn lemma_spans_once(broken: bool, message: Seq<char>, span: Span)
    ensures
        spans_of(error_if(broken, message, span), Severity::Error) == once(broken, span),
        spans_of(error_if(broken, message, span), Severity::Warning) == Seq::<Span>::empty(),
        spans_of(warning_if(broken, message, span), Severity::Warning) == once(broken, span),
        spans_of(warning_if(broken, message, span), Severity::Error) == Seq::<Span>::empty(),
{
    reveal_with_fuel(spans_of, 2);
    assert(error_if(broken, message, span).len() > 0 ==> error_if(
        broken,
        message,
        span,
    ).drop_last() =~= seq![]);
    assert(warning_if(broken, message, span).len() > 0 ==> warning_if(
        broken,
        message,
        span,
    ).drop_last() =~= seq![]);
}

pub(crate) proof fn lemma_listed_names(text: Seq<char>)
    ensures
        listed(RANGE_FUNCTIONS@, text) == range_function(text),
        listed(AGGREGATION_OPS@, text) == aggregation_name(text),
        listed(UNWRAP_REQUIRED@, text) == wants_unwrap(text),
{
    let r = RANGE_FUNCTIONS@;
    assert(r[0]@ == "absent_over_time"@ && r[1]@ == "avg_over_time"@ && r[2]@ == "bytes_over_time"@
        && r[3]@ == "bytes_rate"@ && r[4]@ == "count_over_time"@ && r[5]@ == "first_over_time"@
        && r[6]@ == "last_over_time"@ && r[7]@ == "max_over_time"@ && r[8]@ == "min_over_time"@
        && r[9]@ == "quantile_over_time"@ && r[10]@ == "rate"@ && r[11]@ == "stddev_over_time"@
        && r[12]@ == "stdvar_over_time"@ && r[13]@ == "sum_over_time"@);
    let a = AGGREGATION_OPS@;
    assert(a[0]@ == "avg"@ && a[1]@ == "bottomk"@ && a[2]@ == "count"@ && a[3]@ == "max"@ && a[4]@
        == "min"@ && a[5]@ == "sort"@ && a[6]@ == "sort_desc"@ && a[7]@ == "stddev"@ && a[8]@
        == "stdvar"@ && a[9]@ == "sum"@ && a[10]@ == "topk"@);
    let u = UNWRAP_REQUIRED@;
    assert(u[0]@ == "avg_over_time"@ && u[1]@ == "first_over_time"@ && u[2]@ == "last_over_time"@
        && u[3]@ == "max_over_time"@ && u[4]@ == "min_over_time"@ && u[5]@ == "quantile_over_time"@
        && u[6]@ == "stddev_over_time"@ && u[7]@ == "stdvar_over_time"@ && u[8]@
        == "sum_over_time"@);
}

proof fn lemma_type(e: ExprV)
    ensures
        (analysis(e).0 == ExprType::Logs) == yields_logs(e),
    decreases e,
{
    if let ExprKindV::Paren(inner) = e.kind {
        lemma_type(*inner);
    }
}

proof fn lemma_range_checks(
    func: Seq<char>,
    query: ExprV,
    param: Option<Box<ExprV>>,
    span: Span,
)
    ensures
        spans_of(check_range_aggregation(func, query, param, span), Severity::Error) == once(
            !range_function(func),
            span,
        ) + once((func == "quantile_over_time"@) != (param is Some), span),
        spans_of(check_range_aggregation(func, query, param, span), Severity::Warning) == quantile_span(
            func,
            param,
        ) + once(wants_unwrap(func) && !query_unwraps(query), span),
{
    lemma_listed_names(func);
    let unknown = "unknown range function '"@ + func + "'"@;
    let a = error_if(!listed(RANGE_FUNCTIONS@, func), unknown, span);
    let b = check_quantile(func, param, span);
    let broken = listed(UNWRAP_REQUIRED@, func) && !has_unwrap(query);
    let message = "'"@ + func + "' typically requires an unwrap stage"@;
    let c = warning_if(broken, message, span);
    lemma_spans_joined(a, b, Severity::Error);
    lemma_spans_joined(a, b, Severity::Warning);
    lemma_spans_joined(a + b, c, Severity::Error);
    lemma_spans_joined(a + b, c, Severity::Warning);
    lemma_spans_once(!listed(RANGE_FUNCTIONS@, func), unknown, span);
    lemma_spans_once(broken, message, span);
    lemma_spans_once(true, "quantile_over_time requires a quantile parameter"@, span);
    lemma_spans_once(param is Some, "'"@ + func + "' does not accept a parameter"@, span);
    if let Some(p) = param {
        if let ExprKindV::NumberLit(text) = p.kind {
            lemma_spans_once(
                outside_unit(encode_utf8(text)),
                "quantile parameter "@ + shown(encode_utf8(text))
                    + " should be between 0 and 1"@,
                p.span,
            );
        }
    }
}

proof fn lemma_aggregation_checks(op: Seq<char>, param: Option<Box<ExprV>>, span: Span)
    ensures
        spans_of(check_aggregation(op, param, span), Severity::Error) == once(
            !aggregation_name(op),
            span,
        ) + once((op == "topk"@ || op == "bottomk"@) != (param is Some), span),
        spans_of(check_aggregation(op, param, span), Severity::Warning) == Seq::<Span>::empty(),
{
    lemma_listed_names(op);
    let takes = op == "topk"@ || op == "bottomk"@;
    let unknown = "unknown aggregation operator '"@ + op + "'"@;
    let wanted = "'"@ + op + "' requires a parameter (k)"@;
    let refused = "'"@ + op + "' does not accept a parameter"@;
    let a = error_if(!listed(AGGREGATION_OPS@, op), unknown, span);
    let b = error_if(takes && param is None, wanted, span);
    let c = error_if(!takes && param is Some, refused, span);
    lemma_spans_joined(a, b, Severity::Error);
    lemma_spans_joined(a, b, Severity::Warning);
    lemma_spans_joined(a + b, c, Severity::Error);
    lemma_spans_joined(a + b, c, Severity::Warning);
    lemma_spans_once(!listed(AGGREGATION_OPS@, op), unknown, span);
    lemma_spans_once(takes && param is None, wanted, span);
    lemma_spans_once(!takes && param is Some, refused, span);
}

// ── Laws ─────────────────────────────────────────────────────────────────────

/// The errors of the analysis are where the rules are broken, and nowhere else; and so are its
/// warnings.
pub proof fn lemma_reported(e: ExprV)
    ensures
        spans_of(analysis(e).1, Severity::Error) == error_spans(e),
        spans_of(analysis(e).1, Severity::Warning) == warning_spans(e),
    decreases e,
{
    let (error, warning) = (Severity::Error, Severity::Warning);
    match e.kind {
        ExprKindV::LogQuery { selector, .. } => {
            lemma_spans_once(
                selector.matchers.len() == 0,
                "empty stream selector matches all streams"@,
                selector.span,
            );
        },
        ExprKindV::RangeAggregation { func, log_query, param, .. } => {
            lemma_range_checks(func, *log_query, param, e.span);
            lemma_reported(*log_query);
            let a = check_range_aggregation(func, *log_query, param, e.span);
            let b = analysis(*log_query).1;
            let c = match param {
                Some(p) => analysis(*p).1,
                None => seq![],
            };
            if let Some(p) = param {
                lemma_reported(*p);
            }
            lemma_spans_joined(a, b, error);
            lemma_spans_joined(a, b, warning);
            lemma_spans_joined(a + b, c, error);
            lemma_spans_joined(a + b, c, warning);
        },
        ExprKindV::Aggregation { op, expr, param, .. } => {
            lemma_aggregation_checks(op, param, e.span);
            lemma_reported(*expr);
            lemma_type(*expr);
            let message = "'"@ + op
                + "' requires a metric expression, got a log query; wrap with a range aggregation like rate(...)"@;
            let a = check_aggregation(op, param, e.span);
            let b = analysis(*expr).1;
            let c = error_if(analysis(*expr).0 == ExprType::Logs, message, expr.span);
            let d = match param {
                Some(p) => analysis(*p).1,
                None => seq![],
            };
            if let Some(p) = param {
                lemma_reported(*p);
            }
            lemma_spans_once(analysis(*expr).0 == ExprType::Logs, message, expr.span);
            lemma_spans_joined(a, b, error);
            lemma_spans_joined(a, b, warning);
            lemma_spans_joined(a + b, c, error);
            lemma_spans_joined(a + b, c, warning);
            lemma_spans_joined(a + b + c, d, error);
            lemma_spans_joined(a + b + c, d, warning);
            assert(spans_of(analysis(e).1, warning) =~= warning_spans(e));
        },
        ExprKindV::BinOp { lhs, rhs, .. } => {
            lemma_reported(*lhs);
            lemma_reported(*rhs);
            lemma_type(*lhs);
            lemma_type(*rhs);
            let left =
                "binary operation requires a metric or scalar on the left side, got a log query"@;
            let right =
                "binary operation requires a metric or scalar on the right side, got a log query"@;
            let a = analysis(*lhs).1;
            let b = analysis(*rhs).1;
            let c = error_if(analysis(*lhs).0 == ExprType::Logs, left, lhs.span);
            let d = error_if(analysis(*rhs).0 == ExprType::Logs, right, rhs.span);
            lemma_spans_once(analysis(*lhs).0 == ExprType::Logs, left, lhs.span);
            lemma_spans_once(analysis(*rhs).0 == ExprType::Logs, right, rhs.span);
            lemma_spans_joined(a, b, error);
            lemma_spans_joined(a, b, warning);
            lemma_spans_joined(a + b, c, error);
            lemma_spans_joined(a + b, c, warning);
            lemma_spans_joined(a + b + c, d, error);
            lemma_spans_joined(a + b + c, d, warning);
            assert(spans_of(analysis(e).1, warning) =~= warning_spans(e));
        },
        ExprKindV::Paren(inner) => {
            lemma_reported(*inner);
        },
        _ => {},
    }
}

/// An aggregation of a metric expression without errors by `topk` or `bottomk` has no error with a
/// number before it, and exactly one without, on the aggregation. By any other operator it is the
/// other way round.
pub proof fn lemma_arity(e: ExprV)
    requires
        e.kind is Aggregation,
        aggregation_name(e.kind->Aggregation_op),
        spans_of(analysis(*e.kind->expr).1, Severity::Error).len() == 0,
        !yields_logs(*e.kind->expr),
        match e.kind->Aggregation_param {
            Some(p) => p.kind is NumberLit,
            None => true,
        },
    ensures
        e.kind->Aggregation_op == "topk"@ || e.kind->Aggregation_op == "bottomk"@ ==> {
            &&& e.kind->Aggregation_param is Some ==> spans_of(
                analysis(e).1,
                Severity::Error,
            ).len() == 0
            &&& e.kind->Aggregation_param is None ==> spans_of(analysis(e).1, Severity::Error)
                == seq![e.span]
        },
        e.kind->Aggregation_op != "topk"@ && e.kind->Aggregation_op != "bottomk"@ ==> {
            &&& e.kind->Aggregation_param is None ==> spans_of(
                analysis(e).1,
                Severity::Error,
            ).len() == 0
            &&& e.kind->Aggregation_param is Some ==> spans_of(analysis(e).1, Severity::Error)
                == seq![e.span]
        },
{
    lemma_reported(e);
    lemma_reported(*e.kind->expr);
    let last = match e.kind->Aggregation_param {
        Some(p) => error_spans(*p),
        None => seq![],
    };
    assert(last.len() == 0);
    assert(error_spans(e) =~= once(
        (e.kind->Aggregation_op == "topk"@ || e.kind->Aggregation_op == "bottomk"@) != (
        e.kind->Aggregation_param is Some),
        e.span,
    ));
}

/// Whether all numbers before operands belong to functions that take one, and all functions are
/// known.
pub open spec fn numbers_taken(e: ExprV) -> bool
    decreases e,
{
    match e.kind {
        ExprKindV::RangeAggregation { func, log_query, param, .. } => {
            &&& range_function(func)
            &&& param is Some ==> takes_number(func)
            &&& numbers_taken(*log_query)
        },
        ExprKindV::Aggregation { op, expr, param, .. } => {
            &&& aggregation_name(op)
            &&& param is Some ==> takes_number(op)
            &&& numbers_taken(*expr)
        },
        ExprKindV::BinOp { lhs, rhs, .. } => numbers_taken(*lhs) && numbers_taken(*rhs),
        ExprKindV::Paren(inner) => numbers_taken(*inner),
        _ => true,
    }
}

proof fn lemma_numbers_taken(src: Source, e: ExprV, p: int)
    requires
        tree_at(src, e, p),
    ensures
        numbers_taken(e),
    decreases e,
{
    match e.kind {
        ExprKindV::RangeAggregation { func, log_query, param, .. } => {
            let to = choose|to: int| #[trigger]
                param_at(src, param, func, p + 1, to) && tree_at(
                    src,
                    *log_query,
                    to,
                );
            lemma_numbers_taken(src, *log_query, to);
        },
        ExprKindV::Aggregation { op, expr, grouping, param } => {
            let (q, to) = choose|q: int, to: int|
                {
                    &&& opened_at(src, grouping, p, q)
                    &&& #[trigger] param_at(src, param, op, q, to)
                    &&& tree_at(src, *expr, to)
                };
            lemma_numbers_taken(src, *expr, to);
        },
        ExprKindV::BinOp { op, lhs, rhs } => {
            let q = choose|q: int|
                p < q && #[trigger] sign_at(src, op, *lhs, q) && tree_at(
                    src,
                    *rhs,
                    q + 1,
                );
            lemma_numbers_taken(src, *lhs, p);
            lemma_numbers_taken(src, *rhs, q + 1);
        },
        ExprKindV::Paren(inner) => {
            lemma_numbers_taken(src, *inner, p + 1);
        },
        _ => {},
    }
}

/// Parser and analysis agree on which functions take a number: in the tree of a query no function
/// is unknown, and none has a number without taking one.
pub proof fn lemma_parsed_arity(b: Seq<u8>)
    requires
        valid_utf8(b),
        b.len() <= usize::MAX,
    ensures
        match parse_of(b).0 {
            Some(e) => numbers_taken(e),
            None => true,
        },
{
    lemma_tree_reads(b);
    if let Some(e) = parse_of(b).0 {
        lemma_numbers_taken(
            Source { text: b, tokens: significant_tokens(tokens_of(b)) },
            e,
            0,
        );
    }
}

/// Where a function has a number that it takes, the analysis reports no more than it does of its
/// operands.
pub proof fn lemma_taken_number(e: ExprV)
    requires
        numbers_taken(e),
    ensures
        match e.kind {
            ExprKindV::Aggregation { expr, param, .. } => param is Some ==> spans_of(
                analysis(e).1,
                Severity::Error,
            ) == error_spans(*expr) + once(yields_logs(*expr), expr.span) + error_spans(*param->0),
            ExprKindV::RangeAggregation { log_query, param, .. } => param is Some ==> spans_of(
                analysis(e).1,
                Severity::Error,
            ) == error_spans(*log_query) + error_spans(*param->0),
            _ => true,
        },
{
    lemma_reported(e);
    match e.kind {
        ExprKindV::Aggregation { op, expr, param, .. } => {
            lemma_takes_number(op);
            if param is Some {
                assert(error_spans(e) =~= error_spans(*expr) + once(yields_logs(*expr), expr.span)
                    + error_spans(*param->0));
            }
        },
        ExprKindV::RangeAggregation { func, log_query, param, .. } => {
            lemma_takes_number(func);
            if param is Some {
                assert(error_spans(e) =~= error_spans(*log_query) + error_spans(*param->0));
            }
        },
        _ => {},
    }
}

} // verus!
