//! Spans of trees, errors and diagnostics, and completions offered.

use explore_tui::collections::AssocMap;
use explore_tui::logql::analyzer::analyze;
use explore_tui::logql::ast::{Expr, ExprKind};
use explore_tui::logql::completions::{
    compute_completion_items, detect_cursor_context, function_docs, pipeline_docs,
};
use explore_tui::logql::keywords::{all_pipeline_keywords, AGGREGATION_OPS, RANGE_FUNCTIONS};
use explore_tui::logql::parser::parse;
use explore_tui::logql::tokenizer::{classify_keyword, tokenize, KeywordKind, Span};

const QUERIES: [&str; 12] = [
    "",
    "é",
    "{é}",
    r#"{job="é", x=~"y"} |= "𝄞" | json | label_format a="b", c=d | unwrap bytes(z)"#,
    r#"sum by (a, b) (rate({j="t"} |~ "é" [5m])) / 2"#,
    r#"topk(10, rate({j="t"}[5m]))"#,
    r#"sum({j="t"})"#,
    r#"{j="t"} | foo"#,
    r#"{j="t" | = é"#,
    r#"quantile_over_time(2, {j="t"}[5m]) + "#,
    "((1 + 2) ^ 3",
    r#"{a="unclosed é"#,
];

fn assert_maps_back(query: &str, span: Span) {
    assert!(span.start <= span.end, "{query:?} {span:?}");
    assert!(query.get(span.start..span.end).is_some(), "{query:?} {span:?}");
}

#[test]
fn spans_map_back_to_the_query() {
    for query in QUERIES {
        for token in tokenize(query) {
            assert_maps_back(query, token.span);
        }
        let result = parse(query);
        for error in &result.errors {
            assert_maps_back(query, error.span);
        }
        if let Some(expr) = &result.expr {
            assert_maps_back(query, expr.span);
            for diag in analyze(expr) {
                assert_maps_back(query, diag.span);
            }
        }
    }
}

#[test]
fn offered_completions_start_with_what_was_typed() {
    let mut names: AssocMap<String, Vec<String>> = AssocMap::new();
    names.insert(
        String::new(),
        vec!["Pod".into(), "path".into(), "job".into()],
    );
    for (query, typed) in [("{p", "p"), ("{P", "p"), ("SU", "su"), ("rate({a=\"b\"}[1", "1")] {
        for max in 0..4 {
            let ctx = detect_cursor_context(query, query.chars().count());
            let items = compute_completion_items(&ctx, &names, &AssocMap::new(), max);
            assert!(items.len() <= max);
            assert!(max == 0 || !items.is_empty(), "{query}");
            for item in items {
                assert!(item.label.to_lowercase().starts_with(typed), "{query}");
            }
        }
    }
}

#[test]
fn cache_lists_its_keys() {
    let mut map: AssocMap<String, Vec<String>> = AssocMap::new();
    assert!(map.keys().is_empty());
    map.insert("a".into(), vec![]);
    map.insert("b".into(), vec!["1".into()]);
    map.insert("a".into(), vec!["2".into()]);
    assert_eq!(map.keys(), [&"a".to_string(), &"b".to_string()]);
    assert_eq!(map.get(&"a".to_string()), Some(&vec!["2".to_string()]));
    assert!(!map.contains_key(&"c".to_string()));
    map.clear();
    assert!(map.get(&"a".to_string()).is_none());
}

#[test]
fn smaller_limit_cuts_the_tail() {
    let mut names: AssocMap<String, Vec<String>> = AssocMap::new();
    names.insert(String::new(), vec!["b".into(), "a".into(), "c".into()]);
    for query in ["{", "s", "{a=\"b\"} | ", "rate({a=\"b\"}[1", "", "{a="] {
        let ctx = detect_cursor_context(query, query.chars().count());
        let all = compute_completion_items(&ctx, &names, &AssocMap::new(), 100);
        assert!(all.windows(2).all(|pair| pair[0].sort_priority <= pair[1].sort_priority));
        for max in 0..4 {
            let some = compute_completion_items(&ctx, &names, &AssocMap::new(), max);
            assert_eq!(some.len(), max.min(all.len()), "{query}");
            assert!(some.iter().zip(&all).all(|(a, b)| a.label == b.label));
        }
    }
}

#[test]
fn every_function_and_keyword_is_documented() {
    let none: AssocMap<String, Vec<String>> = AssocMap::new();
    for word in all_pipeline_keywords().into_iter().chain(RANGE_FUNCTIONS).chain(AGGREGATION_OPS) {
        let pipeline = matches!(
            classify_keyword(word),
            KeywordKind::PipelineParser
                | KeywordKind::PipelineFormatter
                | KeywordKind::PipelineLabelOp
                | KeywordKind::FilterKeyword
        );
        let query = if pipeline {
            format!("{{a=\"b\"}} | {word}")
        } else {
            word.to_string()
        };
        let ctx = detect_cursor_context(&query, query.chars().count());
        let items = compute_completion_items(&ctx, &none, &AssocMap::new(), 100);
        let item = items.iter().find(|i| i.label == word).unwrap();
        assert!(item.documentation.as_ref().is_some_and(|d| !d.is_empty()), "{word}");
        let category = match classify_keyword(word) {
            KeywordKind::RangeFunction => "Range function",
            KeywordKind::AggregationOp => "Aggregation",
            KeywordKind::PipelineParser => "Parser",
            KeywordKind::PipelineFormatter => "Formatter",
            KeywordKind::PipelineLabelOp => "Label operation",
            _ => "Unwrap",
        };
        assert_eq!(item.detail.as_deref(), Some(category), "{word}");
    }
}

fn assert_nested(expr: &Expr) {
    let inside = |inner: Span| {
        assert!(expr.span.start <= inner.start && inner.end <= expr.span.end, "{expr:?}");
    };
    match &expr.kind {
        ExprKind::LogQuery { selector, pipeline } => {
            inside(selector.span);
            for m in &selector.matchers {
                assert!(selector.span.start <= m.span.start && m.span.end <= selector.span.end);
            }
            for stage in pipeline {
                inside(stage.span());
            }
        }
        ExprKind::RangeAggregation { log_query, param, .. } => {
            inside(log_query.span);
            assert_nested(log_query);
            if let Some(p) = param {
                inside(p.span);
            }
        }
        ExprKind::Aggregation { expr: e, grouping, param, .. } => {
            inside(e.span);
            assert_nested(e);
            if let Some(g) = grouping {
                inside(g.span);
            }
            if let Some(p) = param {
                inside(p.span);
            }
        }
        ExprKind::BinOp { lhs, rhs, .. } => {
            inside(lhs.span);
            inside(rhs.span);
            assert_nested(lhs);
            assert_nested(rhs);
        }
        ExprKind::Paren(e) => {
            inside(e.span);
            assert_nested(e);
        }
        ExprKind::NumberLit(_) | ExprKind::StringLit(_) => {}
    }
}

#[test]
fn spans_of_nodes_lie_inside_their_parents() {
    for query in QUERIES {
        if let Some(expr) = parse(query).expr {
            assert_nested(&expr);
        }
    }
}

#[test]
fn copies_of_trees_are_the_same() {
    for query in QUERIES {
        let result = parse(query);
        if let Some(expr) = &result.expr {
            assert_eq!(format!("{:?}", expr.clone()), format!("{expr:?}"));
            assert_eq!(format!("{:?}", expr.kind.clone()), format!("{:?}", expr.kind));
        }
    }
}

#[test]
fn documentation_by_name() {
    assert_eq!(function_docs("sum"), Some(("Aggregation", "Calculate the sum over dimensions")));
    assert_eq!(function_docs("by"), None);
    assert_eq!(
        pipeline_docs("drop"),
        Some(("Label operation", "Remove specified labels from the stream"))
    );
    assert_eq!(pipeline_docs("rate"), None);
}
