//! Semantic analysis of LogQL trees.
//!
//! Walks a tree and reports unknown function names, wrong arity, type
//! mismatches and empty stream selectors.

use crate::logql::ast::{Expr, ExprKind, ExprKindV, ExprV, PipelineStage};
use crate::logql::keywords::{AGGREGATION_OPS, RANGE_FUNCTIONS};
use crate::logql::number::{is_outside_unit, outside_unit, show_number, shown};
use crate::logql::tokenizer::Span;
use crate::text::{cat3, contains_word, listed, str_eq};
use vstd::prelude::*;
use vstd::string::*;
use vstd::utf8::*;

verus! {

/// Severity of a diagnostic.
#[derive(Debug, Clone, Copy, PartialEq, Eq, Structural)]
pub enum Severity {
    Error,
    Warning,
}

/// A diagnostic and where it stands.
#[derive(Debug, Clone)]
pub struct Diagnostic {
    pub severity: Severity,
    pub message: String,
    pub span: Span,
}

/// Value of a [`Diagnostic`].
pub ghost struct DiagnosticV {
    pub severity: Severity,
    pub message: Seq<char>,
    pub span: Span,
}

impl View for Diagnostic {
    type V = DiagnosticV;

    open spec fn view(&self) -> DiagnosticV {
        DiagnosticV { severity: self.severity, message: self.message@, span: self.span }
    }
}

/// The values of diagnostics.
pub open spec fn diagnostics(v: Seq<Diagnostic>) -> Seq<DiagnosticV> {
    v.map_values(|d: Diagnostic| d@)
}

/// What an expression evaluates to.
#[derive(Debug, Clone, Copy, PartialEq, Eq, Structural)]
pub enum ExprType {
    /// A log stream
    Logs,
    /// A numeric time series
    Metric,
    /// A bare number
    Scalar,
    /// Undetermined
    Unknown,
}

/// Range functions that want an `unwrap` stage.
pub const UNWRAP_REQUIRED: [&'static str; 9] = [
    "avg_over_time",
    "first_over_time",
    "last_over_time",
    "max_over_time",
    "min_over_time",
    "quantile_over_time",
    "stddev_over_time",
    "stdvar_over_time",
    "sum_over_time",
];

// ── Rules ────────────────────────────────────────────────────────────────────

/// One error, if `broken`.
pub open spec fn error_if(broken: bool, message: Seq<char>, span: Span) -> Seq<DiagnosticV> {
    if broken {
        seq![DiagnosticV { severity: Severity::Error, message, span }]
    } else {
        seq![]
    }
}

/// One warning, if `broken`.
pub open spec fn warning_if(broken: bool, message: Seq<char>, span: Span) -> Seq<DiagnosticV> {
    if broken {
        seq![DiagnosticV { severity: Severity::Warning, message, span }]
    } else {
        seq![]
    }
}

/// `quantile_over_time` takes a parameter between 0 and 1, no other function
/// takes any.
pub open spec fn check_quantile(
    func: Seq<char>,
    param: Option<Box<ExprV>>,
    span: Span,
) -> Seq<DiagnosticV> {
    if func == "quantile_over_time"@ {
        match param {
            None => error_if(true, "quantile_over_time requires a quantile parameter"@, span),
            Some(p) => match p.kind {
                ExprKindV::NumberLit(text) => warning_if(
                    outside_unit(encode_utf8(text)),
                    "quantile parameter "@ + shown(encode_utf8(text))
                        + " should be between 0 and 1"@,
                    p.span,
                ),
                _ => seq![],
            },
        }
    } else {
        error_if(param is Some, "'"@ + func + "' does not accept a parameter"@, span)
    }
}

/// Whether a log query has an `unwrap` stage.
pub open spec fn has_unwrap(query: ExprV) -> bool {
    match query.kind {
        ExprKindV::LogQuery { pipeline, .. } => exists|i: int|
            0 <= i < pipeline.len() && #[trigger] pipeline[i] is Unwrap,
        _ => false,
    }
}

/// What a range aggregation itself is reported for.
pub open spec fn check_range_aggregation(
    func: Seq<char>,
    query: ExprV,
    param: Option<Box<ExprV>>,
    span: Span,
) -> Seq<DiagnosticV> {
    error_if(
        !listed(RANGE_FUNCTIONS@, func),
        "unknown range function '"@ + func + "'"@,
        span,
    ) + check_quantile(func, param, span) + warning_if(
        listed(UNWRAP_REQUIRED@, func) && !has_unwrap(query),
        "'"@ + func + "' typically requires an unwrap stage"@,
        span,
    )
}

/// What an aggregation is reported for before its operands are looked at.
pub open spec fn check_aggregation(
    op: Seq<char>,
    param: Option<Box<ExprV>>,
    span: Span,
) -> Seq<DiagnosticV> {
    let needs_param = op == "topk"@ || op == "bottomk"@;
    error_if(
        !listed(AGGREGATION_OPS@, op),
        "unknown aggregation operator '"@ + op + "'"@,
        span,
    ) + error_if(
        needs_param && param is None,
        "'"@ + op + "' requires a parameter (k)"@,
        span,
    ) + error_if(
        !needs_param && param is Some,
        "'"@ + op + "' does not accept a parameter"@,
        span,
    )
}

/// The type of an expression and the diagnostics of its tree.
pub open spec fn analysis(e: ExprV) -> (ExprType, Seq<DiagnosticV>)
    decreases e,
{
    match e.kind {
        ExprKindV::LogQuery { selector, .. } => (
            ExprType::Logs,
            warning_if(
                selector.matchers.len() == 0,
                "empty stream selector matches all streams"@,
                selector.span,
            ),
        ),
        ExprKindV::RangeAggregation { func, log_query, param, .. } => (
            ExprType::Metric,
            check_range_aggregation(func, *log_query, param, e.span) + analysis(*log_query).1
                + match param {
                Some(p) => analysis(*p).1,
                None => seq![],
            },
        ),
        ExprKindV::Aggregation { op, expr, param, .. } => (
            ExprType::Metric,
            check_aggregation(op, param, e.span) + analysis(*expr).1 + error_if(
                analysis(*expr).0 == ExprType::Logs,
                "'"@ + op
                    + "' requires a metric expression, got a log query; wrap with a range aggregation like rate(...)"@,
                expr.span,
            ) + match param {
                Some(p) => analysis(*p).1,
                None => seq![],
            },
        ),
        ExprKindV::BinOp { lhs, rhs, .. } => (
            if analysis(*lhs).0 == ExprType::Scalar && analysis(*rhs).0 == ExprType::Scalar {
                ExprType::Scalar
            } else {
                ExprType::Metric
            },
            analysis(*lhs).1 + analysis(*rhs).1 + error_if(
                analysis(*lhs).0 == ExprType::Logs,
                "binary operation requires a metric or scalar on the left side, got a log query"@,
                lhs.span,
            ) + error_if(
                analysis(*rhs).0 == ExprType::Logs,
                "binary operation requires a metric or scalar on the right side, got a log query"@,
                rhs.span,
            ),
        ),
        ExprKindV::NumberLit(_) => (ExprType::Scalar, seq![]),
        ExprKindV::StringLit(_) => (ExprType::Unknown, seq![]),
        ExprKindV::Paren(inner) => analysis(*inner),
    }
}

// ── Analyzer ─────────────────────────────────────────────────────────────────

fn report(diags: &mut Vec<Diagnostic>, severity: Severity, message: String, span: Span)
    ensures
        diagnostics(final(diags)@) == diagnostics(old(diags)@) + seq![
            DiagnosticV { severity, message: message@, span },
        ],
{
    let d = Diagnostic { severity, message, span };
    let ghost before = diags@;
    let ghost value = d@;
    diags.push(d);
    assert(diagnostics(diags@) =~= diagnostics(before) + seq![value]);
}

/// Whether a pipeline has an `unwrap` stage.
fn pipeline_unwraps(pipeline: &Vec<PipelineStage>) -> (r: bool)
    ensures
        r == exists|i: int| 0 <= i < pipeline.len() && (#[trigger] pipeline@[i])@ is Unwrap,
{
    let mut i: usize = 0;
    while i < pipeline.len()
        invariant
            i <= pipeline.len(),
            forall|k: int| 0 <= k < i ==> !((#[trigger] pipeline@[k])@ is Unwrap),
        decreases pipeline.len() - i,
    {
        match &pipeline[i] {
            PipelineStage::Unwrap { .. } => {
                assert(pipeline@[i as int]@ is Unwrap);
                return true;
            },
            _ => {},
        }
        i += 1;
    }
    false
}

/// Whether a log query has an `unwrap` stage.
fn query_unwraps(query: &Expr) -> (r: bool)
    ensures
        r == has_unwrap(query.value()),
{
    match &query.kind {
        ExprKind::LogQuery { pipeline, .. } => {
            let r = pipeline_unwraps(pipeline);
            proof {
                let values = pipeline@.map_values(|p: PipelineStage| p@);
                if r {
                    let i = choose|i: int|
                        0 <= i < pipeline.len() && (#[trigger] pipeline@[i])@ is Unwrap;
                    assert(values[i] is Unwrap);
                } else if has_unwrap(query.value()) {
                    let i = choose|i: int| 0 <= i < values.len() && #[trigger] values[i] is Unwrap;
                    assert(pipeline@[i]@ is Unwrap);
                }
            }
            r
        },
        _ => false,
    }
}

/// Value of an optional parameter.
pub open spec fn param_value(p: Option<Box<Expr>>) -> Option<Box<ExprV>> {
    match p {
        Some(p) => Some(Box::new((*p).value())),
        None => None,
    }
}

fn report_range_aggregation(
    func: &str,
    query: &Expr,
    param: &Option<Box<Expr>>,
    span: Span,
    diags: &mut Vec<Diagnostic>,
)
    ensures
        diagnostics(final(diags)@) == diagnostics(old(diags)@) + check_range_aggregation(
            func@,
            query.value(),
            param_value(*param),
            span,
        ),
{
    let ghost start = diagnostics(diags@);
    if !contains_word(&RANGE_FUNCTIONS, func) {
        report(diags, Severity::Error, cat3("unknown range function '", func, "'"), span);
    }
    let ghost first = error_if(
        !listed(RANGE_FUNCTIONS@, func@),
        "unknown range function '"@ + func@ + "'"@,
        span,
    );
    assert(diagnostics(diags@) =~= start + first);
    if str_eq(func, "quantile_over_time") {
        match param {
            None => {
                report(
                    diags,
                    Severity::Error,
                    "quantile_over_time requires a quantile parameter".to_string(),
                    span,
                );
            },
            Some(p) => {
                match &p.kind {
                    ExprKind::NumberLit(v) => {
                        if is_outside_unit(v.as_str()) {
                            let shown_value = show_number(v.as_str());
                            report(
                                diags,
                                Severity::Warning,
                                cat3(
                                    "quantile parameter ",
                                    shown_value.as_str(),
                                    " should be between 0 and 1",
                                ),
                                p.span,
                            );
                        }
                    },
                    _ => {},
                }
            },
        }
    } else if param.is_some() {
        report(diags, Severity::Error, cat3("'", func, "' does not accept a parameter"), span);
    }
    let ghost second = check_quantile(func@, param_value(*param), span);
    assert(diagnostics(diags@) =~= start + first + second);
    if contains_word(&UNWRAP_REQUIRED, func) && !query_unwraps(query) {
        report(
            diags,
            Severity::Warning,
            cat3("'", func, "' typically requires an unwrap stage"),
            span,
        );
    }
    assert(diagnostics(diags@) =~= start + check_range_aggregation(
        func@,
        query.value(),
        param_value(*param),
        span,
    ));
}

fn report_aggregation(
    op: &str,
    param: &Option<Box<Expr>>,
    span: Span,
    diags: &mut Vec<Diagnostic>,
)
    ensures
        diagnostics(final(diags)@) == diagnostics(old(diags)@) + check_aggregation(
            op@,
            param_value(*param),
            span,
        ),
{
    let ghost start = diagnostics(diags@);
    if !contains_word(&AGGREGATION_OPS, op) {
        report(diags, Severity::Error, cat3("unknown aggregation operator '", op, "'"), span);
    }
    let needs_param = str_eq(op, "topk") || str_eq(op, "bottomk");
    if needs_param && param.is_none() {
        report(diags, Severity::Error, cat3("'", op, "' requires a parameter (k)"), span);
    } else if !needs_param && param.is_some() {
        report(diags, Severity::Error, cat3("'", op, "' does not accept a parameter"), span);
    }
    assert(diagnostics(diags@) =~= start + check_aggregation(op@, param_value(*param), span));
}

fn report_log_operands(
    lhs: (ExprType, Span),
    rhs: (ExprType, Span),
    diags: &mut Vec<Diagnostic>,
)
    ensures
        diagnostics(final(diags)@) == diagnostics(old(diags)@) + error_if(
            lhs.0 == ExprType::Logs,
            "binary operation requires a metric or scalar on the left side, got a log query"@,
            lhs.1,
        ) + error_if(
            rhs.0 == ExprType::Logs,
            "binary operation requires a metric or scalar on the right side, got a log query"@,
            rhs.1,
        ),
{
    let ghost start = diagnostics(diags@);
    if lhs.0 == ExprType::Logs {
        report(
            diags,
            Severity::Error,
            "binary operation requires a metric or scalar on the left side, got a log query".to_string(),
            lhs.1,
        );
    }
    if rhs.0 == ExprType::Logs {
        report(
            diags,
            Severity::Error,
            "binary operation requires a metric or scalar on the right side, got a log query".to_string(),
            rhs.1,
        );
    }
    assert(diagnostics(diags@) =~= start + error_if(
        lhs.0 == ExprType::Logs,
        "binary operation requires a metric or scalar on the left side, got a log query"@,
        lhs.1,
    ) + error_if(
        rhs.0 == ExprType::Logs,
        "binary operation requires a metric or scalar on the right side, got a log query"@,
        rhs.1,
    ));
}

fn report_log_input(op: &str, inner: (ExprType, Span), diags: &mut Vec<Diagnostic>)
    ensures
        diagnostics(final(diags)@) == diagnostics(old(diags)@) + error_if(
            inner.0 == ExprType::Logs,
            "'"@ + op@
                + "' requires a metric expression, got a log query; wrap with a range aggregation like rate(...)"@,
            inner.1,
        ),
{
    let ghost start = diagnostics(diags@);
    if inner.0 == ExprType::Logs {
        report(
            diags,
            Severity::Error,
            cat3(
                "'",
                op,
                "' requires a metric expression, got a log query; wrap with a range aggregation like rate(...)",
            ),
            inner.1,
        );
    } else {
        assert(start + Seq::<DiagnosticV>::empty() =~= start);
    }
}

/// Concatenation in either grouping.
proof fn lemma_assoc(a: Seq<DiagnosticV>, b: Seq<DiagnosticV>, c: Seq<DiagnosticV>)
    ensures
        (a + b) + c == a + (b + c),
{
    assert((a + b) + c =~= a + (b + c));
}

fn analyze_param(param: &Option<Box<Expr>>, diags: &mut Vec<Diagnostic>)
    ensures
        diagnostics(final(diags)@) == diagnostics(old(diags)@) + match param_value(*param) {
            Some(p) => analysis(*p).1,
            None => seq![],
        },
    decreases param, 0int,
{
    match param {
        Some(p) => {
            analyze_expr(p, diags);
        },
        None => {
            assert(diagnostics(diags@) + Seq::<DiagnosticV>::empty() =~= diagnostics(diags@));
        },
    }
}

fn analyze_expr(expr: &Expr, diags: &mut Vec<Diagnostic>) -> (r: ExprType)
    ensures
        r == analysis(expr.value()).0,
        diagnostics(final(diags)@) == diagnostics(old(diags)@) + analysis(expr.value()).1,
    decreases expr, 1int,
{
    let ghost start = diagnostics(diags@);
    match &expr.kind {
        ExprKind::LogQuery { selector, .. } => {
            if selector.matchers.is_empty() {
                report(
                    diags,
                    Severity::Warning,
                    "empty stream selector matches all streams".to_string(),
                    selector.span,
                );
            } else {
                assert(start + Seq::<DiagnosticV>::empty() =~= start);
            }
            ExprType::Logs
        },
        ExprKind::RangeAggregation { func, log_query, param, .. } => {
            report_range_aggregation(func.as_str(), log_query, param, expr.span, diags);
            analyze_expr(log_query, diags);
            analyze_param(param, diags);
            proof {
                let a = check_range_aggregation(
                    func@,
                    log_query.value(),
                    param_value(*param),
                    expr.span,
                );
                let b = analysis(log_query.value()).1;
                let c = match param_value(*param) {
                    Some(p) => analysis(*p).1,
                    None => seq![],
                };
                lemma_assoc(start, a, b);
                lemma_assoc(start, a + b, c);
            }
            ExprType::Metric
        },
        ExprKind::Aggregation { op, expr: inner, param, .. } => {
            report_aggregation(op.as_str(), param, expr.span, diags);
            let inner_type = analyze_expr(inner, diags);
            let ghost before = diagnostics(diags@);
            report_log_input(op.as_str(), (inner_type, inner.span), diags);
            analyze_param(param, diags);
            proof {
                let a = check_aggregation(op@, param_value(*param), expr.span);
                let b = analysis(inner.value()).1;
                let c = error_if(
                    inner_type == ExprType::Logs,
                    "'"@ + op@
                        + "' requires a metric expression, got a log query; wrap with a range aggregation like rate(...)"@,
                    inner.span,
                );
                let d = match param_value(*param) {
                    Some(p) => analysis(*p).1,
                    None => seq![],
                };
                lemma_assoc(start, a, b);
                lemma_assoc(start, a + b, c);
                lemma_assoc(start, a + b + c, d);
            }
            ExprType::Metric
        },
        ExprKind::BinOp { lhs, rhs, .. } => {
            let lhs_type = analyze_expr(lhs, diags);
            let rhs_type = analyze_expr(rhs, diags);
            report_log_operands((lhs_type, lhs.span), (rhs_type, rhs.span), diags);
            proof {
                let a = analysis(lhs.value()).1;
                let b = analysis(rhs.value()).1;
                let c = error_if(
                    lhs_type == ExprType::Logs,
                    "binary operation requires a metric or scalar on the left side, got a log query"@,
                    lhs.span,
                );
                let d = error_if(
                    rhs_type == ExprType::Logs,
                    "binary operation requires a metric or scalar on the right side, got a log query"@,
                    rhs.span,
                );
                lemma_assoc(start, a, b);
                lemma_assoc(start, a + b, c);
                lemma_assoc(start, a + b + c, d);
            }
            if lhs_type == ExprType::Scalar && rhs_type == ExprType::Scalar {
                ExprType::Scalar
            } else {
                ExprType::Metric
            }
        },
        ExprKind::NumberLit(_) => {
            assert(start + Seq::<DiagnosticV>::empty() =~= start);
            ExprType::Scalar
        },
        ExprKind::StringLit(_) => {
            assert(start + Seq::<DiagnosticV>::empty() =~= start);
            ExprType::Unknown
        },
        ExprKind::Paren(inner) => analyze_expr(inner, diags),
    }
}

/// Analyze an expression and return all diagnostics.
pub fn analyze(expr: &Expr) -> (r: Vec<Diagnostic>)
    ensures
        diagnostics(r@) == analysis(expr.value()).1,
{
    let mut diags: Vec<Diagnostic> = Vec::new();
    analyze_expr(expr, &mut diags);
    assert(diagnostics(diags@) =~= analysis(expr.value()).1);
    diags
}

} // verus!
