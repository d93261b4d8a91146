//! Completion of LogQL.

use explore_tui::collections::AssocMap;
use explore_tui::logql::completions::{
    completion_labels, compute_completion_items, detect_cursor_context, CompletionItem,
    CompletionKind, CursorContext,
};

fn ctx(query: &str, pos: usize) -> CursorContext {
    detect_cursor_context(query, pos)
}

fn items(
    ctx: &CursorContext,
    names: &AssocMap<String, Vec<String>>,
    values: &AssocMap<(String, String), Vec<String>>,
    max: usize,
) -> Vec<CompletionItem> {
    compute_completion_items(ctx, names, values, max)
}

fn labels(completions: &[CompletionItem]) -> Vec<String> {
    completion_labels(completions)
}

// ── Context detection: empty / expression ──────────────────────────

#[test]
fn context_empty_query() {
    match ctx("", 0) {
        CursorContext::Expression { prefix } => assert!(prefix.is_empty()),
        other => panic!("expected Expression, got {other:?}"),
    }
}

#[test]
fn context_expression_prefix() {
    match ctx("ra", 2) {
        CursorContext::Expression { prefix } => assert_eq!(prefix, "ra"),
        other => panic!("expected Expression, got {other:?}"),
    }
}

#[test]
fn context_expression_full_function_name() {
    match ctx("rate", 4) {
        CursorContext::Expression { prefix } => assert_eq!(prefix, "rate"),
        other => panic!("expected Expression, got {other:?}"),
    }
}

// ── Context detection: label name ──────────────────────────────────

#[test]
fn context_opening_brace() {
    match ctx("{", 1) {
        CursorContext::LabelName { prefix, selector } => {
            assert!(prefix.is_empty());
            assert!(selector.is_empty());
        }
        other => panic!("expected LabelName, got {other:?}"),
    }
}

#[test]
fn context_partial_label_name() {
    match ctx("{jo", 3) {
        CursorContext::LabelName { prefix, .. } => assert_eq!(prefix, "jo"),
        other => panic!("expected LabelName, got {other:?}"),
    }
}

#[test]
fn context_after_comma_in_braces() {
    match ctx(r#"{job="varlogs","#, 15) {
        CursorContext::LabelName { prefix, selector } => {
            assert!(prefix.is_empty());
            assert_eq!(selector, r#"{job="varlogs"}"#);
        }
        other => panic!("expected LabelName, got {other:?}"),
    }
}

#[test]
fn context_nested_in_rate() {
    match ctx("rate({", 6) {
        CursorContext::LabelName { prefix, selector } => {
            assert!(prefix.is_empty());
            assert!(selector.is_empty());
        }
        other => panic!("expected LabelName, got {other:?}"),
    }
}

#[test]
fn context_label_name_in_rate_with_matchers() {
    match ctx(r#"rate({job="varlogs","#, 20) {
        CursorContext::LabelName { prefix, selector } => {
            assert!(prefix.is_empty());
            assert_eq!(selector, r#"{job="varlogs"}"#);
        }
        other => panic!("expected LabelName, got {other:?}"),
    }
}

// ── Context detection: operator suppression ────────────────────────

#[test]
fn context_after_eq_suppressed() {
    assert!(matches!(ctx("{job=", 5), CursorContext::Nothing));
}

#[test]
fn context_after_neq_suppressed() {
    assert!(matches!(ctx("{job!=", 6), CursorContext::Nothing));
}

#[test]
fn context_after_regex_suppressed() {
    assert!(matches!(ctx("{job=~", 6), CursorContext::Nothing));
}

#[test]
fn context_after_notmatch_suppressed() {
    assert!(matches!(ctx("{job!~", 6), CursorContext::Nothing));
}

// ── Context detection: label value ─────────────────────────────────

#[test]
fn context_label_value_basic() {
    match ctx(r#"{job="no"#, 8) {
        CursorContext::LabelValue {
            label,
            prefix,
            selector,
        } => {
            assert_eq!(label, "job");
            assert_eq!(prefix, "no");
            assert!(selector.is_empty());
        }
        other => panic!("expected LabelValue, got {other:?}"),
    }
}

#[test]
fn context_label_value_empty_prefix() {
    match ctx(r#"{job=""#, 6) {
        CursorContext::LabelValue {
            label, prefix, ..
        } => {
            assert_eq!(label, "job");
            assert!(prefix.is_empty());
        }
        other => panic!("expected LabelValue, got {other:?}"),
    }
}

#[test]
fn context_label_value_regex_operator() {
    match ctx(r#"{job=~"no"#, 9) {
        CursorContext::LabelValue {
            label, prefix, ..
        } => {
            assert_eq!(label, "job");
            assert_eq!(prefix, "no");
        }
        other => panic!("expected LabelValue, got {other:?}"),
    }
}

#[test]
fn context_label_value_with_prior_matchers() {
    match ctx(r#"{job="varlogs", env=""#, 21) {
        CursorContext::LabelValue {
            label, selector, ..
        } => {
            assert_eq!(label, "env");
            assert_eq!(selector, r#"{job="varlogs"}"#);
        }
        other => panic!("expected LabelValue, got {other:?}"),
    }
}

#[test]
fn context_unclosed_string_outside_braces_is_none() {
    match ctx(r#"{job="varlogs"} |= "err"#, 23) {
        CursorContext::Nothing => {}
        other => panic!("expected None, got {other:?}"),
    }
}

// ── Context detection: duration ────────────────────────────────────

#[test]
fn context_duration_empty() {
    match ctx(r#"rate({job="varlogs"}["#, 21) {
        CursorContext::Duration { prefix } => assert!(prefix.is_empty()),
        other => panic!("expected Duration, got {other:?}"),
    }
}

#[test]
fn context_duration_with_prefix() {
    match ctx(r#"rate({job="varlogs"}[5"#, 22) {
        CursorContext::Duration { prefix } => assert_eq!(prefix, "5"),
        other => panic!("expected Duration, got {other:?}"),
    }
}

// ── Context detection: pipeline ────────────────────────────────────

#[test]
fn context_pipeline_after_pipe() {
    match ctx(r#"{job="varlogs"} | "#, 18) {
        CursorContext::PipelineStage { prefix } => assert!(prefix.is_empty()),
        other => panic!("expected PipelineStage, got {other:?}"),
    }
}

#[test]
fn context_pipeline_with_prefix() {
    match ctx(r#"{job="varlogs"} | js"#, 20) {
        CursorContext::PipelineStage { prefix } => assert_eq!(prefix, "js"),
        other => panic!("expected PipelineStage, got {other:?}"),
    }
}

#[test]
fn context_pipeline_after_filter_stage() {
    match ctx(r#"{job="varlogs"} |= "error" | "#, 29) {
        CursorContext::PipelineStage { prefix } => assert!(prefix.is_empty()),
        other => panic!("expected PipelineStage, got {other:?}"),
    }
}

#[test]
fn context_pipeline_no_space_after_pipe() {
    match ctx(r#"{job="varlogs"} |js"#, 19) {
        CursorContext::PipelineStage { prefix } => assert_eq!(prefix, "js"),
        other => panic!("expected PipelineStage, got {other:?}"),
    }
}

// ── Context detection: by/without ──────────────────────────────────

#[test]
fn context_label_list_by() {
    match ctx("sum by (jo", 10) {
        CursorContext::LabelName { prefix, selector } => {
            assert_eq!(prefix, "jo");
            assert!(selector.is_empty());
        }
        other => panic!("expected LabelName in by(), got {other:?}"),
    }
}

#[test]
fn context_label_list_without() {
    match ctx(r#"sum(rate({j="t"}[5m])) without (ins"#, 35) {
        CursorContext::LabelName { prefix, selector } => {
            assert_eq!(prefix, "ins");
            assert!(selector.is_empty());
        }
        other => panic!("expected LabelName in without(), got {other:?}"),
    }
}

#[test]
fn context_by_after_comma() {
    match ctx("sum by (job, ", 13) {
        CursorContext::LabelName { prefix, .. } => assert!(prefix.is_empty()),
        other => panic!("expected LabelName, got {other:?}"),
    }
}

// ── Completion items: label names ──────────────────────────────────

#[test]
fn complete_label_names_basic() {
    let mut cache: AssocMap<String, Vec<String>> = AssocMap::new();
    cache.insert(
        String::new(),
        vec!["job".into(), "instance".into(), "env".into()],
    );
    let c = CursorContext::LabelName {
        prefix: "j".into(),
        selector: String::new(),
    };
    let result = items(&c, &cache, &AssocMap::new(), 10);
    assert_eq!(labels(&result), vec!["job"]);
    assert_eq!(result[0].kind, CompletionKind::LabelName);
    assert_eq!(result[0].detail.as_deref(), Some("Label"));
}

#[test]
fn complete_label_names_with_selector() {
    let selector = r#"{job="varlogs"}"#.to_string();
    let mut cache: AssocMap<String, Vec<String>> = AssocMap::new();
    cache.insert(String::new(), vec!["job".into(), "instance".into()]);
    cache.insert(selector.clone(), vec!["pod".into(), "container".into()]);

    let c = CursorContext::LabelName {
        prefix: String::new(),
        selector: selector.clone(),
    };
    let result = items(&c, &cache, &AssocMap::new(), 10);
    assert_eq!(labels(&result), vec!["container", "pod"]);
}

// ── Completion items: label values ─────────────────────────────────

#[test]
fn complete_label_values_filtered() {
    let mut cache: AssocMap<(String, String), Vec<String>> = AssocMap::new();
    cache.insert(
        ("job".into(), String::new()),
        vec![
            "node".into(),
            "prometheus".into(),
            "alertmanager".into(),
        ],
    );
    let c = CursorContext::LabelValue {
        label: "job".into(),
        prefix: "pro".into(),
        selector: String::new(),
    };
    let result = items(&c, &AssocMap::new(), &cache, 10);
    assert_eq!(labels(&result), vec!["prometheus"]);
    assert_eq!(result[0].kind, CompletionKind::LabelValue);
}

// ── Completion items: pipeline ─────────────────────────────────────

#[test]
fn complete_pipeline_all_shown() {
    let c = CursorContext::PipelineStage {
        prefix: String::new(),
    };
    let result = items(&c, &AssocMap::new(), &AssocMap::new(), 20);
    let l = labels(&result);
    assert!(l.contains(&"json".to_string()));
    assert!(l.contains(&"logfmt".to_string()));
    assert!(l.contains(&"unwrap".to_string()));
    assert!(l.contains(&"line_format".to_string()));
    assert!(l.contains(&"drop".to_string()));
}

#[test]
fn complete_pipeline_filtered() {
    let c = CursorContext::PipelineStage {
        prefix: "js".into(),
    };
    let result = items(&c, &AssocMap::new(), &AssocMap::new(), 10);
    assert_eq!(labels(&result), vec!["json"]);
}

#[test]
fn complete_pipeline_has_documentation() {
    let c = CursorContext::PipelineStage {
        prefix: "json".into(),
    };
    let result = items(&c, &AssocMap::new(), &AssocMap::new(), 10);
    assert_eq!(result.len(), 1);
    assert_eq!(result[0].detail.as_deref(), Some("Parser"));
    assert!(result[0].documentation.is_some());
    assert!(result[0]
        .documentation
        .as_ref()
        .unwrap()
        .contains("JSON"));
}

#[test]
fn complete_pipeline_semantic_ranking() {
    let c = CursorContext::PipelineStage {
        prefix: String::new(),
    };
    let result = items(&c, &AssocMap::new(), &AssocMap::new(), 20);
    let l = labels(&result);
    // Parsers should come before formatters, which come before label ops
    let json_pos = l.iter().position(|s| s == "json").unwrap();
    let line_format_pos = l.iter().position(|s| s == "line_format").unwrap();
    let drop_pos = l.iter().position(|s| s == "drop").unwrap();
    let unwrap_pos = l.iter().position(|s| s == "unwrap").unwrap();
    assert!(json_pos < line_format_pos);
    assert!(line_format_pos < drop_pos);
    assert!(drop_pos < unwrap_pos);
}

// ── Completion items: expression ───────────────────────────────────

#[test]
fn complete_expression_filtered() {
    let c = CursorContext::Expression {
        prefix: "ra".into(),
    };
    let result = items(&c, &AssocMap::new(), &AssocMap::new(), 10);
    let l = labels(&result);
    assert!(l.contains(&"rate".to_string()));
    assert!(l.iter().all(|s| s.starts_with("ra")));
}

#[test]
fn complete_expression_has_documentation() {
    let c = CursorContext::Expression {
        prefix: "rate".into(),
    };
    let result = items(&c, &AssocMap::new(), &AssocMap::new(), 10);
    assert!(!result.is_empty());
    let rate_item = result.iter().find(|i| i.label == "rate").unwrap();
    assert_eq!(rate_item.kind, CompletionKind::Function);
    assert_eq!(rate_item.detail.as_deref(), Some("Range function"));
    assert!(rate_item.documentation.is_some());
}

#[test]
fn complete_expression_includes_aggregations() {
    let c = CursorContext::Expression {
        prefix: "su".into(),
    };
    let result = items(&c, &AssocMap::new(), &AssocMap::new(), 10);
    let l = labels(&result);
    assert!(l.contains(&"sum".to_string()));
    assert!(l.contains(&"sum_over_time".to_string()));
}

#[test]
fn complete_expression_semantic_ranking() {
    let c = CursorContext::Expression {
        prefix: "s".into(),
    };
    let result = items(&c, &AssocMap::new(), &AssocMap::new(), 30);
    // Range functions should come before aggregation ops
    let sum_over_time_idx = result
        .iter()
        .position(|i| i.label == "sum_over_time")
        .unwrap();
    let sum_idx = result.iter().position(|i| i.label == "sum").unwrap();
    assert!(
        sum_over_time_idx < sum_idx,
        "range functions should rank before aggregation ops"
    );
}

#[test]
fn complete_empty_expression_returns_empty() {
    let c = CursorContext::Expression {
        prefix: String::new(),
    };
    let result = items(&c, &AssocMap::new(), &AssocMap::new(), 10);
    assert!(result.is_empty());
}

// ── Completion items: duration ─────────────────────────────────────

#[test]
fn complete_durations_all() {
    let c = CursorContext::Duration {
        prefix: String::new(),
    };
    let result = items(&c, &AssocMap::new(), &AssocMap::new(), 20);
    let l = labels(&result);
    assert!(l.contains(&"5m".to_string()));
    assert!(l.contains(&"1h".to_string()));
    assert!(l.contains(&"1d".to_string()));
    assert!(result[0].kind == CompletionKind::Duration);
}

#[test]
fn complete_durations_filtered() {
    let c = CursorContext::Duration {
        prefix: "1".into(),
    };
    let result = items(&c, &AssocMap::new(), &AssocMap::new(), 20);
    let l = labels(&result);
    assert!(l.contains(&"1m".to_string()));
    assert!(l.contains(&"1h".to_string()));
    assert!(l.contains(&"1d".to_string()));
    // "5m" should NOT be included
    assert!(!l.contains(&"5m".to_string()));
}

#[test]
fn complete_durations_have_descriptions() {
    let c = CursorContext::Duration {
        prefix: "5m".into(),
    };
    let result = items(&c, &AssocMap::new(), &AssocMap::new(), 10);
    assert_eq!(result.len(), 1);
    assert_eq!(result[0].label, "5m");
    assert_eq!(result[0].detail.as_deref(), Some("5 minutes"));
}

// ── Completion items: limits and edge cases ────────────────────────

#[test]
fn complete_respects_max_limit() {
    let c = CursorContext::PipelineStage {
        prefix: String::new(),
    };
    let result = items(&c, &AssocMap::new(), &AssocMap::new(), 3);
    assert!(result.len() <= 3);
}

#[test]
fn complete_none_returns_empty() {
    let c = CursorContext::Nothing;
    let result = items(&c, &AssocMap::new(), &AssocMap::new(), 10);
    assert!(result.is_empty());
}

#[test]
fn convenience_labels_function() {
    let completions = vec![
        CompletionItem {
            label: "json".into(),
            detail: None,
            documentation: None,
            kind: CompletionKind::PipelineKeyword,
            sort_priority: 0,
        },
        CompletionItem {
            label: "logfmt".into(),
            detail: None,
            documentation: None,
            kind: CompletionKind::PipelineKeyword,
            sort_priority: 1,
        },
    ];
    assert_eq!(completion_labels(&completions), vec!["json", "logfmt"]);
}
