//! Parsing of LogQL.

use explore_tui::logql::ast::{
    BinOpKind, Expr, ExprKind, FilterOp, LabelFilterOp, LabelOpKind, MatchOp, ParserKind,
    PipelineStage, StreamSelector,
};
use explore_tui::logql::parser::parse;
use explore_tui::logql::tokenizer::Span;

/// The value of a number literal, which is kept as it is written.
fn number(text: &str) -> f64 {
    text.parse().expect("expected a number")
}


fn parse_ok(input: &str) -> Expr {
    let result = parse(input);
    assert!(
        result.errors.is_empty(),
        "unexpected errors for {input:?}: {:?}",
        result.errors
    );
    result.expr.expect("expected expression")
}

fn span_text<'a>(input: &'a str, span: Span) -> &'a str {
    &input[span.start..span.end]
}

// Helper to unwrap a LogQuery expression
fn as_log_query(expr: &Expr) -> (&StreamSelector, &[PipelineStage]) {
    match &expr.kind {
        ExprKind::LogQuery { selector, pipeline } => (selector, pipeline),
        other => panic!("expected LogQuery, got {other:?}"),
    }
}

// ── Stream selectors ────────────────────────────────────────────────

#[test]
fn empty_selector() {
    let expr = parse_ok("{}");
    let (sel, pipeline) = as_log_query(&expr);
    assert!(sel.matchers.is_empty());
    assert!(pipeline.is_empty());
}

#[test]
fn single_matcher() {
    let input = r#"{job="varlogs"}"#;
    let expr = parse_ok(input);
    let (sel, _) = as_log_query(&expr);
    assert_eq!(sel.matchers.len(), 1);
    assert_eq!(sel.matchers[0].name, "job");
    assert_eq!(sel.matchers[0].op, MatchOp::Eq);
    assert_eq!(sel.matchers[0].value, "varlogs");
}

#[test]
fn multiple_matchers() {
    let input = r#"{job="varlogs", env="prod"}"#;
    let expr = parse_ok(input);
    let (sel, _) = as_log_query(&expr);
    assert_eq!(sel.matchers.len(), 2);
    assert_eq!(sel.matchers[0].name, "job");
    assert_eq!(sel.matchers[1].name, "env");
    assert_eq!(sel.matchers[1].value, "prod");
}

#[test]
fn regex_matcher() {
    let input = r#"{job=~"var.*"}"#;
    let expr = parse_ok(input);
    let (sel, _) = as_log_query(&expr);
    assert_eq!(sel.matchers[0].op, MatchOp::Re);
    assert_eq!(sel.matchers[0].value, "var.*");
}

#[test]
fn not_equal_matcher() {
    let input = r#"{job!="system"}"#;
    let expr = parse_ok(input);
    let (sel, _) = as_log_query(&expr);
    assert_eq!(sel.matchers[0].op, MatchOp::Neq);
}

#[test]
fn not_regex_matcher() {
    let input = r#"{job!~"sys.*"}"#;
    let expr = parse_ok(input);
    let (sel, _) = as_log_query(&expr);
    assert_eq!(sel.matchers[0].op, MatchOp::Nre);
}

// ── Filter pipelines ────────────────────────────────────────────────

#[test]
fn pipe_exact_filter() {
    let input = r#"{j="t"} |= "error""#;
    let expr = parse_ok(input);
    let (_, pipeline) = as_log_query(&expr);
    assert_eq!(pipeline.len(), 1);
    match &pipeline[0] {
        PipelineStage::Filter { op, pattern, .. } => {
            assert_eq!(*op, FilterOp::PipeExact);
            assert_eq!(pattern, "error");
        }
        other => panic!("expected Filter, got {other:?}"),
    }
}

#[test]
fn pipe_match_filter() {
    let input = r#"{j="t"} |~ "5\\d+""#;
    let expr = parse_ok(input);
    let (_, pipeline) = as_log_query(&expr);
    match &pipeline[0] {
        PipelineStage::Filter { op, .. } => assert_eq!(*op, FilterOp::PipeMatch),
        other => panic!("expected Filter, got {other:?}"),
    }
}

#[test]
fn multiple_filters() {
    let input = r#"{j="t"} |= "error" != "timeout""#;
    let expr = parse_ok(input);
    let (_, pipeline) = as_log_query(&expr);
    assert_eq!(pipeline.len(), 2);
    match &pipeline[0] {
        PipelineStage::Filter { op, .. } => assert_eq!(*op, FilterOp::PipeExact),
        other => panic!("expected Filter, got {other:?}"),
    }
    match &pipeline[1] {
        PipelineStage::Filter { op, pattern, .. } => {
            assert_eq!(*op, FilterOp::NotEqual);
            assert_eq!(pattern, "timeout");
        }
        other => panic!("expected Filter, got {other:?}"),
    }
}

#[test]
fn not_match_filter() {
    let input = r#"{j="t"} !~ "debug""#;
    let expr = parse_ok(input);
    let (_, pipeline) = as_log_query(&expr);
    match &pipeline[0] {
        PipelineStage::Filter { op, .. } => assert_eq!(*op, FilterOp::NotMatch),
        other => panic!("expected Filter, got {other:?}"),
    }
}

// ── Parser stages ───────────────────────────────────────────────────

#[test]
fn json_parser() {
    let input = r#"{j="t"} | json"#;
    let expr = parse_ok(input);
    let (_, pipeline) = as_log_query(&expr);
    match &pipeline[0] {
        PipelineStage::Parser { kind, params, .. } => {
            assert_eq!(*kind, ParserKind::Json);
            assert!(params.is_empty());
        }
        other => panic!("expected Parser, got {other:?}"),
    }
}

#[test]
fn logfmt_parser() {
    let input = r#"{j="t"} | logfmt"#;
    let expr = parse_ok(input);
    let (_, pipeline) = as_log_query(&expr);
    match &pipeline[0] {
        PipelineStage::Parser { kind, .. } => assert_eq!(*kind, ParserKind::Logfmt),
        other => panic!("expected Parser, got {other:?}"),
    }
}

#[test]
fn regexp_parser_with_param() {
    let input = r#"{j="t"} | regexp "(?P<ip>\\S+)""#;
    let expr = parse_ok(input);
    let (_, pipeline) = as_log_query(&expr);
    match &pipeline[0] {
        PipelineStage::Parser { kind, params, .. } => {
            assert_eq!(*kind, ParserKind::Regexp);
            assert_eq!(params.len(), 1);
        }
        other => panic!("expected Parser, got {other:?}"),
    }
}

#[test]
fn pattern_parser() {
    let input = r#"{j="t"} | pattern "<ip> - <_>""#;
    let expr = parse_ok(input);
    let (_, pipeline) = as_log_query(&expr);
    match &pipeline[0] {
        PipelineStage::Parser { kind, .. } => assert_eq!(*kind, ParserKind::Pattern),
        other => panic!("expected Parser, got {other:?}"),
    }
}

#[test]
fn unpack_parser() {
    let input = r#"{j="t"} | unpack"#;
    let expr = parse_ok(input);
    let (_, pipeline) = as_log_query(&expr);
    match &pipeline[0] {
        PipelineStage::Parser { kind, .. } => assert_eq!(*kind, ParserKind::Unpack),
        other => panic!("expected Parser, got {other:?}"),
    }
}

// ── Formatter stages ────────────────────────────────────────────────

#[test]
fn line_format_stage() {
    let input = r#"{j="t"} | line_format "{{.msg}}""#;
    let expr = parse_ok(input);
    let (_, pipeline) = as_log_query(&expr);
    match &pipeline[0] {
        PipelineStage::LineFormat { template, .. } => {
            assert_eq!(template, "{{.msg}}");
        }
        other => panic!("expected LineFormat, got {other:?}"),
    }
}

#[test]
fn label_format_stage() {
    let input = r#"{j="t"} | label_format dst=src"#;
    let expr = parse_ok(input);
    let (_, pipeline) = as_log_query(&expr);
    match &pipeline[0] {
        PipelineStage::LabelFormat { mappings, .. } => {
            assert_eq!(mappings.len(), 1);
            assert_eq!(mappings[0], ("dst".to_string(), "src".to_string()));
        }
        other => panic!("expected LabelFormat, got {other:?}"),
    }
}

// ── Label operations ────────────────────────────────────────────────

#[test]
fn drop_labels() {
    let input = r#"{j="t"} | drop level"#;
    let expr = parse_ok(input);
    let (_, pipeline) = as_log_query(&expr);
    match &pipeline[0] {
        PipelineStage::LabelOp { kind, labels, .. } => {
            assert_eq!(*kind, LabelOpKind::Drop);
            assert_eq!(labels, &["level"]);
        }
        other => panic!("expected LabelOp, got {other:?}"),
    }
}

#[test]
fn keep_multiple_labels() {
    let input = r#"{j="t"} | keep level, msg"#;
    let expr = parse_ok(input);
    let (_, pipeline) = as_log_query(&expr);
    match &pipeline[0] {
        PipelineStage::LabelOp { kind, labels, .. } => {
            assert_eq!(*kind, LabelOpKind::Keep);
            assert_eq!(labels, &["level", "msg"]);
        }
        other => panic!("expected LabelOp, got {other:?}"),
    }
}

#[test]
fn decolorize_stage() {
    let input = r#"{j="t"} | decolorize"#;
    let expr = parse_ok(input);
    let (_, pipeline) = as_log_query(&expr);
    assert!(matches!(pipeline[0], PipelineStage::Decolorize { .. }));
}

// ── Unwrap ──────────────────────────────────────────────────────────

#[test]
fn simple_unwrap() {
    let input = r#"{j="t"} | unwrap duration"#;
    let expr = parse_ok(input);
    let (_, pipeline) = as_log_query(&expr);
    match &pipeline[0] {
        PipelineStage::Unwrap {
            label, conversion, ..
        } => {
            assert_eq!(label, "duration");
            assert!(conversion.is_none());
        }
        other => panic!("expected Unwrap, got {other:?}"),
    }
}

#[test]
fn unwrap_with_conversion() {
    let input = r#"{j="t"} | unwrap duration_seconds(response_time)"#;
    let expr = parse_ok(input);
    let (_, pipeline) = as_log_query(&expr);
    match &pipeline[0] {
        PipelineStage::Unwrap {
            label, conversion, ..
        } => {
            assert_eq!(label, "response_time");
            assert_eq!(conversion.as_deref(), Some("duration_seconds"));
        }
        other => panic!("expected Unwrap, got {other:?}"),
    }
}

// ── Label filters ───────────────────────────────────────────────────

#[test]
fn label_filter_eq() {
    let input = r#"{j="t"} | json | level="error""#;
    let expr = parse_ok(input);
    let (_, pipeline) = as_log_query(&expr);
    assert_eq!(pipeline.len(), 2);
    match &pipeline[1] {
        PipelineStage::LabelFilter {
            name, op, value, ..
        } => {
            assert_eq!(name, "level");
            assert_eq!(*op, LabelFilterOp::Eq);
            assert_eq!(value, "error");
        }
        other => panic!("expected LabelFilter, got {other:?}"),
    }
}

#[test]
fn label_filter_numeric() {
    let input = r#"{j="t"} | json | status>=400"#;
    let expr = parse_ok(input);
    let (_, pipeline) = as_log_query(&expr);
    match &pipeline[1] {
        PipelineStage::LabelFilter {
            name, op, value, ..
        } => {
            assert_eq!(name, "status");
            assert_eq!(*op, LabelFilterOp::GtEq);
            assert_eq!(value, "400");
        }
        other => panic!("expected LabelFilter, got {other:?}"),
    }
}

// ── Range aggregations ──────────────────────────────────────────────

#[test]
fn parser_rate_query() {
    let input = r#"rate({job="test"}[5m])"#;
    let expr = parse_ok(input);
    match &expr.kind {
        ExprKind::RangeAggregation {
            func,
            duration,
            param,
            ..
        } => {
            assert_eq!(func, "rate");
            assert_eq!(duration, "5m");
            assert!(param.is_none());
        }
        other => panic!("expected RangeAggregation, got {other:?}"),
    }
}

#[test]
fn count_over_time() {
    let input = r#"count_over_time({job="test"}[1h])"#;
    let expr = parse_ok(input);
    match &expr.kind {
        ExprKind::RangeAggregation { func, duration, .. } => {
            assert_eq!(func, "count_over_time");
            assert_eq!(duration, "1h");
        }
        other => panic!("expected RangeAggregation, got {other:?}"),
    }
}

#[test]
fn sum_over_time_with_unwrap() {
    let input = r#"sum_over_time({j="t"} | unwrap dur [5m])"#;
    let expr = parse_ok(input);
    match &expr.kind {
        ExprKind::RangeAggregation {
            func, log_query, ..
        } => {
            assert_eq!(func, "sum_over_time");
            let (_, pipeline) = as_log_query(log_query);
            assert_eq!(pipeline.len(), 1);
            assert!(matches!(pipeline[0], PipelineStage::Unwrap { .. }));
        }
        other => panic!("expected RangeAggregation, got {other:?}"),
    }
}

#[test]
fn quantile_over_time() {
    let input = r#"quantile_over_time(0.99, {job="test"}[5m])"#;
    let expr = parse_ok(input);
    match &expr.kind {
        ExprKind::RangeAggregation {
            func,
            param,
            duration,
            ..
        } => {
            assert_eq!(func, "quantile_over_time");
            assert_eq!(duration, "5m");
            let p = param.as_ref().expect("expected param");
            match &p.kind {
                ExprKind::NumberLit(v) => assert!((number(v) - 0.99).abs() < f64::EPSILON),
                other => panic!("expected NumberLit, got {other:?}"),
            }
        }
        other => panic!("expected RangeAggregation, got {other:?}"),
    }
}

#[test]
fn bytes_rate() {
    let input = r#"bytes_rate({job="test"}[5m])"#;
    let expr = parse_ok(input);
    match &expr.kind {
        ExprKind::RangeAggregation { func, .. } => assert_eq!(func, "bytes_rate"),
        other => panic!("expected RangeAggregation, got {other:?}"),
    }
}

// ── Aggregations ────────────────────────────────────────────────────

#[test]
fn sum_by() {
    let input = r#"sum by (job) (rate({j="t"}[5m]))"#;
    let expr = parse_ok(input);
    match &expr.kind {
        ExprKind::Aggregation {
            op,
            grouping,
            param,
            ..
        } => {
            assert_eq!(op, "sum");
            let g = grouping.as_ref().expect("expected grouping");
            assert!(!g.without);
            assert_eq!(g.labels, vec!["job"]);
            assert!(param.is_none());
        }
        other => panic!("expected Aggregation, got {other:?}"),
    }
}

#[test]
fn avg_by() {
    let input = r#"avg by (host) (rate({j="t"}[5m]))"#;
    let expr = parse_ok(input);
    match &expr.kind {
        ExprKind::Aggregation { op, grouping, .. } => {
            assert_eq!(op, "avg");
            assert_eq!(grouping.as_ref().unwrap().labels, vec!["host"]);
        }
        other => panic!("expected Aggregation, got {other:?}"),
    }
}

#[test]
fn sum_without() {
    let input = r#"sum without (job) (rate({j="t"}[5m]))"#;
    let expr = parse_ok(input);
    match &expr.kind {
        ExprKind::Aggregation { grouping, .. } => {
            let g = grouping.as_ref().unwrap();
            assert!(g.without);
            assert_eq!(g.labels, vec!["job"]);
        }
        other => panic!("expected Aggregation, got {other:?}"),
    }
}

#[test]
fn aggregation_post_modifier() {
    let input = r#"sum(rate({j="t"}[5m])) by (job)"#;
    let expr = parse_ok(input);
    match &expr.kind {
        ExprKind::Aggregation { op, grouping, .. } => {
            assert_eq!(op, "sum");
            let g = grouping.as_ref().expect("expected grouping");
            assert_eq!(g.labels, vec!["job"]);
        }
        other => panic!("expected Aggregation, got {other:?}"),
    }
}

#[test]
fn topk_aggregation() {
    let input = r#"topk(10, rate({j="t"}[5m]))"#;
    let expr = parse_ok(input);
    match &expr.kind {
        ExprKind::Aggregation { op, param, .. } => {
            assert_eq!(op, "topk");
            let p = param.as_ref().expect("expected param");
            match &p.kind {
                ExprKind::NumberLit(v) => assert_eq!(number(v), 10.0),
                other => panic!("expected NumberLit, got {other:?}"),
            }
        }
        other => panic!("expected Aggregation, got {other:?}"),
    }
}

#[test]
fn bottomk_aggregation() {
    let input = r#"bottomk(5, rate({j="t"}[5m]))"#;
    let expr = parse_ok(input);
    match &expr.kind {
        ExprKind::Aggregation { op, param, .. } => {
            assert_eq!(op, "bottomk");
            let p = param.as_ref().expect("expected param");
            match &p.kind {
                ExprKind::NumberLit(v) => assert_eq!(number(v), 5.0),
                other => panic!("expected NumberLit, got {other:?}"),
            }
        }
        other => panic!("expected Aggregation, got {other:?}"),
    }
}

#[test]
fn count_aggregation() {
    let input = r#"count(rate({j="t"}[5m]))"#;
    let expr = parse_ok(input);
    match &expr.kind {
        ExprKind::Aggregation { op, grouping, .. } => {
            assert_eq!(op, "count");
            assert!(grouping.is_none());
        }
        other => panic!("expected Aggregation, got {other:?}"),
    }
}

// ── Binary operations ───────────────────────────────────────────────

#[test]
fn binary_addition() {
    let input = r#"rate({a="1"}[5m]) + rate({b="2"}[5m])"#;
    let expr = parse_ok(input);
    match &expr.kind {
        ExprKind::BinOp { op, .. } => assert_eq!(*op, BinOpKind::Add),
        other => panic!("expected BinOp, got {other:?}"),
    }
}

#[test]
fn binary_comparison_gt() {
    let input = r#"rate({j="t"}[5m]) > 100"#;
    let expr = parse_ok(input);
    match &expr.kind {
        ExprKind::BinOp { op, rhs, .. } => {
            assert_eq!(*op, BinOpKind::Gt);
            match &rhs.kind {
                ExprKind::NumberLit(v) => assert_eq!(number(v), 100.0),
                other => panic!("expected NumberLit, got {other:?}"),
            }
        }
        other => panic!("expected BinOp, got {other:?}"),
    }
}

#[test]
fn binary_and() {
    let input = r#"rate({a="1"}[5m]) > 0 and rate({b="2"}[5m]) > 0"#;
    let expr = parse_ok(input);
    match &expr.kind {
        ExprKind::BinOp { op, .. } => assert_eq!(*op, BinOpKind::And),
        other => panic!("expected BinOp(And), got {other:?}"),
    }
}

#[test]
fn binary_or() {
    let input = r#"rate({a="1"}[5m]) or rate({b="2"}[5m])"#;
    let expr = parse_ok(input);
    match &expr.kind {
        ExprKind::BinOp { op, .. } => assert_eq!(*op, BinOpKind::Or),
        other => panic!("expected BinOp(Or), got {other:?}"),
    }
}

#[test]
fn binary_unless() {
    let input = r#"rate({a="1"}[5m]) unless rate({b="2"}[5m])"#;
    let expr = parse_ok(input);
    match &expr.kind {
        ExprKind::BinOp { op, .. } => assert_eq!(*op, BinOpKind::Unless),
        other => panic!("expected BinOp(Unless), got {other:?}"),
    }
}

// ── Operator precedence ─────────────────────────────────────────────

#[test]
fn mul_before_add() {
    // 1 + 2 * 3 should parse as 1 + (2 * 3)
    let expr = parse_ok("1 + 2 * 3");
    match &expr.kind {
        ExprKind::BinOp { op, lhs, rhs } => {
            assert_eq!(*op, BinOpKind::Add);
            match &lhs.kind {
                ExprKind::NumberLit(v) => assert_eq!(number(v), 1.0),
                other => panic!("expected NumberLit, got {other:?}"),
            }
            match &rhs.kind {
                ExprKind::BinOp { op, .. } => assert_eq!(*op, BinOpKind::Mul),
                other => panic!("expected BinOp(Mul), got {other:?}"),
            }
        }
        other => panic!("expected BinOp, got {other:?}"),
    }
}

#[test]
fn pow_right_associative() {
    // 2 ^ 3 ^ 4 should parse as 2 ^ (3 ^ 4)
    let expr = parse_ok("2 ^ 3 ^ 4");
    match &expr.kind {
        ExprKind::BinOp { op, lhs, rhs } => {
            assert_eq!(*op, BinOpKind::Pow);
            match &lhs.kind {
                ExprKind::NumberLit(v) => assert_eq!(number(v), 2.0),
                other => panic!("expected NumberLit(2), got {other:?}"),
            }
            match &rhs.kind {
                ExprKind::BinOp { op, lhs, rhs } => {
                    assert_eq!(*op, BinOpKind::Pow);
                    match &lhs.kind {
                        ExprKind::NumberLit(v) => assert_eq!(number(v), 3.0),
                        other => panic!("expected NumberLit(3), got {other:?}"),
                    }
                    match &rhs.kind {
                        ExprKind::NumberLit(v) => assert_eq!(number(v), 4.0),
                        other => panic!("expected NumberLit(4), got {other:?}"),
                    }
                }
                other => panic!("expected BinOp(Pow), got {other:?}"),
            }
        }
        other => panic!("expected BinOp, got {other:?}"),
    }
}

#[test]
fn comparison_before_and() {
    // a > 0 and b > 0 parses as (a > 0) and (b > 0)
    let input = r#"rate({a="1"}[5m]) > 0 and rate({b="2"}[5m]) > 0"#;
    let expr = parse_ok(input);
    match &expr.kind {
        ExprKind::BinOp { op, lhs, rhs } => {
            assert_eq!(*op, BinOpKind::And);
            match &lhs.kind {
                ExprKind::BinOp { op, .. } => assert_eq!(*op, BinOpKind::Gt),
                other => panic!("expected BinOp(Gt), got {other:?}"),
            }
            match &rhs.kind {
                ExprKind::BinOp { op, .. } => assert_eq!(*op, BinOpKind::Gt),
                other => panic!("expected BinOp(Gt), got {other:?}"),
            }
        }
        other => panic!("expected BinOp(And), got {other:?}"),
    }
}

// ── Nested expressions ──────────────────────────────────────────────

#[test]
fn paren_expr() {
    let input = r#"(rate({j="t"}[5m]) + 1) * 2"#;
    let expr = parse_ok(input);
    match &expr.kind {
        ExprKind::BinOp { op, lhs, rhs } => {
            assert_eq!(*op, BinOpKind::Mul);
            assert!(matches!(lhs.kind, ExprKind::Paren(_)));
            match &rhs.kind {
                ExprKind::NumberLit(v) => assert_eq!(number(v), 2.0),
                other => panic!("expected NumberLit, got {other:?}"),
            }
        }
        other => panic!("expected BinOp, got {other:?}"),
    }
}

#[test]
fn complex_nested() {
    let input = r#"sum by (job) (rate({j="t"} |= "error" | json [5m]))"#;
    let expr = parse_ok(input);
    match &expr.kind {
        ExprKind::Aggregation {
            op,
            expr: inner,
            grouping,
            ..
        } => {
            assert_eq!(op, "sum");
            assert_eq!(
                grouping.as_ref().unwrap().labels,
                vec!["job"]
            );
            match &inner.kind {
                ExprKind::RangeAggregation {
                    func, log_query, ..
                } => {
                    assert_eq!(func, "rate");
                    let (_, pipeline) = as_log_query(log_query);
                    assert_eq!(pipeline.len(), 2);
                }
                other => panic!("expected RangeAggregation, got {other:?}"),
            }
        }
        other => panic!("expected Aggregation, got {other:?}"),
    }
}

#[test]
fn mul_precedence_in_binary() {
    // a + b * c  should be a + (b * c)
    let input =
        r#"rate({a="1"}[5m]) + rate({b="2"}[5m]) * rate({c="3"}[5m])"#;
    let expr = parse_ok(input);
    match &expr.kind {
        ExprKind::BinOp { op, rhs, .. } => {
            assert_eq!(*op, BinOpKind::Add);
            match &rhs.kind {
                ExprKind::BinOp { op, .. } => assert_eq!(*op, BinOpKind::Mul),
                other => panic!("expected BinOp(Mul), got {other:?}"),
            }
        }
        other => panic!("expected BinOp, got {other:?}"),
    }
}

// ── Error recovery ──────────────────────────────────────────────────

#[test]
fn error_recovery_bad_syntax() {
    let input = r#"{j="t"} | json | bad$syntax | logfmt"#;
    let result = parse(input);
    assert!(!result.errors.is_empty(), "expected errors");
    let expr = result.expr.expect("expected partial AST");
    let (_, pipeline) = as_log_query(&expr);
    // json and logfmt should be present, bad$syntax skipped
    let parser_kinds: Vec<_> = pipeline
        .iter()
        .filter_map(|s| match s {
            PipelineStage::Parser { kind, .. } => Some(*kind),
            _ => None,
        })
        .collect();
    assert!(
        parser_kinds.contains(&ParserKind::Json),
        "json should be parsed"
    );
    assert!(
        parser_kinds.contains(&ParserKind::Logfmt),
        "logfmt should be parsed after error recovery"
    );
}

#[test]
fn error_recovery_trailing_pipe() {
    let input = r#"{j="t"} | json |"#;
    let result = parse(input);
    assert!(!result.errors.is_empty());
    // Should still produce partial AST with json parsed
    let expr = result.expr.expect("expected partial AST");
    let (_, pipeline) = as_log_query(&expr);
    assert!(
        pipeline.iter().any(|s| matches!(s, PipelineStage::Parser { kind: ParserKind::Json, .. })),
        "json should be parsed"
    );
}

#[test]
fn parser_empty_input() {
    let result = parse("");
    assert!(result.expr.is_none());
    assert!(result.errors.is_empty());
}

#[test]
fn number_literal() {
    let expr = parse_ok("42");
    match &expr.kind {
        ExprKind::NumberLit(v) => assert_eq!(number(v), 42.0),
        other => panic!("expected NumberLit, got {other:?}"),
    }
}

#[test]
fn string_literal() {
    let expr = parse_ok(r#""hello""#);
    match &expr.kind {
        ExprKind::StringLit(v) => assert_eq!(v, "hello"),
        other => panic!("expected StringLit, got {other:?}"),
    }
}

// ── Span accuracy ───────────────────────────────────────────────────

#[test]
fn span_selector() {
    let input = r#"{job="varlogs"}"#;
    let expr = parse_ok(input);
    assert_eq!(span_text(input, expr.span), input);
    let (sel, _) = as_log_query(&expr);
    assert_eq!(span_text(input, sel.span), input);
}

#[test]
fn span_matcher() {
    let input = r#"{job="varlogs"}"#;
    let expr = parse_ok(input);
    let (sel, _) = as_log_query(&expr);
    let m = &sel.matchers[0];
    assert_eq!(span_text(input, m.span), r#"job="varlogs""#);
}

#[test]
fn span_filter_stage() {
    let input = r#"{j="t"} |= "error""#;
    let expr = parse_ok(input);
    let (_, pipeline) = as_log_query(&expr);
    assert_eq!(span_text(input, pipeline[0].span()), r#"|= "error""#);
}

#[test]
fn span_range_aggregation() {
    let input = r#"rate({job="test"}[5m])"#;
    let expr = parse_ok(input);
    assert_eq!(span_text(input, expr.span), input);
}

#[test]
fn span_aggregation_with_by() {
    let input = r#"sum by (job) (rate({j="t"}[5m]))"#;
    let expr = parse_ok(input);
    assert_eq!(span_text(input, expr.span), input);
}

#[test]
fn span_binary_op() {
    let input = "1 + 2";
    let expr = parse_ok(input);
    assert_eq!(span_text(input, expr.span), "1 + 2");
    match &expr.kind {
        ExprKind::BinOp { lhs, rhs, .. } => {
            assert_eq!(span_text(input, lhs.span), "1");
            assert_eq!(span_text(input, rhs.span), "2");
        }
        other => panic!("expected BinOp, got {other:?}"),
    }
}

#[test]
fn span_paren() {
    let input = "(42)";
    let expr = parse_ok(input);
    assert_eq!(span_text(input, expr.span), "(42)");
}

#[test]
fn span_log_query_with_pipeline() {
    let input = r#"{j="t"} |= "error" | json"#;
    let expr = parse_ok(input);
    assert_eq!(span_text(input, expr.span), input);
}

#[test]
fn span_pipe_stage() {
    let input = r#"{j="t"} | json"#;
    let expr = parse_ok(input);
    let (_, pipeline) = as_log_query(&expr);
    assert_eq!(span_text(input, pipeline[0].span()), "| json");
}

// ── Duration parsing ────────────────────────────────────────────────

#[test]
fn duration_hours() {
    let input = r#"rate({j="t"}[1h])"#;
    let expr = parse_ok(input);
    match &expr.kind {
        ExprKind::RangeAggregation { duration, .. } => assert_eq!(duration, "1h"),
        other => panic!("expected RangeAggregation, got {other:?}"),
    }
}

#[test]
fn duration_composite() {
    let input = r#"rate({j="t"}[1h30m])"#;
    let expr = parse_ok(input);
    match &expr.kind {
        ExprKind::RangeAggregation { duration, .. } => {
            assert_eq!(duration, "1h30m");
        }
        other => panic!("expected RangeAggregation, got {other:?}"),
    }
}

// ── Realistic queries ───────────────────────────────────────────────

#[test]
fn realistic_rate_with_pipeline() {
    let input = r#"rate({job="varlogs"} |= "error" | json [5m])"#;
    let expr = parse_ok(input);
    match &expr.kind {
        ExprKind::RangeAggregation {
            func,
            log_query,
            duration,
            ..
        } => {
            assert_eq!(func, "rate");
            assert_eq!(duration, "5m");
            let (sel, pipeline) = as_log_query(log_query);
            assert_eq!(sel.matchers[0].value, "varlogs");
            assert_eq!(pipeline.len(), 2);
        }
        other => panic!("expected RangeAggregation, got {other:?}"),
    }
}

#[test]
fn realistic_sum_count_over_time() {
    let input = r#"sum by (job) (count_over_time({app="api"}[1h]))"#;
    let expr = parse_ok(input);
    match &expr.kind {
        ExprKind::Aggregation {
            op,
            expr: inner,
            grouping,
            ..
        } => {
            assert_eq!(op, "sum");
            assert_eq!(grouping.as_ref().unwrap().labels, vec!["job"]);
            match &inner.kind {
                ExprKind::RangeAggregation { func, duration, .. } => {
                    assert_eq!(func, "count_over_time");
                    assert_eq!(duration, "1h");
                }
                other => panic!("expected RangeAggregation, got {other:?}"),
            }
        }
        other => panic!("expected Aggregation, got {other:?}"),
    }
}

#[test]
fn realistic_logfmt_pipeline() {
    let input = r#"{job="syslog"} | logfmt | level="error" | line_format "{{.msg}}""#;
    let expr = parse_ok(input);
    let (sel, pipeline) = as_log_query(&expr);
    assert_eq!(sel.matchers[0].value, "syslog");
    assert_eq!(pipeline.len(), 3);
    assert!(matches!(pipeline[0], PipelineStage::Parser { kind: ParserKind::Logfmt, .. }));
    assert!(matches!(pipeline[1], PipelineStage::LabelFilter { .. }));
    assert!(matches!(pipeline[2], PipelineStage::LineFormat { .. }));
}

#[test]
fn complex_multi_filter_pipeline() {
    let input =
        r#"{job="app"} |= "error" != "timeout" |~ "5\\d{2}" | json | line_format "{{.msg}}""#;
    let expr = parse_ok(input);
    let (_, pipeline) = as_log_query(&expr);
    assert_eq!(pipeline.len(), 5);
}

#[test]
fn aggregation_multiple_labels() {
    let input = r#"sum by (job, namespace, pod) (rate({j="t"}[5m]))"#;
    let expr = parse_ok(input);
    match &expr.kind {
        ExprKind::Aggregation { grouping, .. } => {
            let g = grouping.as_ref().unwrap();
            assert_eq!(g.labels, vec!["job", "namespace", "pod"]);
        }
        other => panic!("expected Aggregation, got {other:?}"),
    }
}

#[test]
fn binary_subtraction() {
    let input = r#"rate({a="1"}[5m]) - rate({b="2"}[5m])"#;
    let expr = parse_ok(input);
    match &expr.kind {
        ExprKind::BinOp { op, .. } => assert_eq!(*op, BinOpKind::Sub),
        other => panic!("expected BinOp, got {other:?}"),
    }
}

#[test]
fn binary_division() {
    let input = r#"rate({a="1"}[5m]) / rate({b="2"}[5m])"#;
    let expr = parse_ok(input);
    match &expr.kind {
        ExprKind::BinOp { op, .. } => assert_eq!(*op, BinOpKind::Div),
        other => panic!("expected BinOp, got {other:?}"),
    }
}

#[test]
fn binary_modulo() {
    let input = "10 % 3";
    let expr = parse_ok(input);
    match &expr.kind {
        ExprKind::BinOp { op, .. } => assert_eq!(*op, BinOpKind::Mod),
        other => panic!("expected BinOp, got {other:?}"),
    }
}

#[test]
fn binary_cmp_eq() {
    let input = r#"rate({j="t"}[5m]) == 0"#;
    let expr = parse_ok(input);
    match &expr.kind {
        ExprKind::BinOp { op, .. } => assert_eq!(*op, BinOpKind::CmpEq),
        other => panic!("expected BinOp, got {other:?}"),
    }
}

#[test]
fn binary_neq() {
    let input = r#"rate({j="t"}[5m]) != 0"#;
    let expr = parse_ok(input);
    match &expr.kind {
        ExprKind::BinOp { op, .. } => assert_eq!(*op, BinOpKind::Neq),
        other => panic!("expected BinOp, got {other:?}"),
    }
}
