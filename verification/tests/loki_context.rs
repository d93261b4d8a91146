//! Completion of log queries.

use explore_tui::collections::AssocMap;
use explore_tui::loki::context::{compute_completions, detect_context, CompletionCtx};

#[test]
fn detect_context_label_name_in_braces() {
    let ctx = detect_context("{jo", 3);
    assert!(
        matches!(ctx, CompletionCtx::LabelName { ref prefix, .. } if prefix == "jo"),
        "got {:?}",
        ctx
    );
}

#[test]
fn detect_context_label_value() {
    let ctx = detect_context(r#"{job="no"#, 8);
    assert!(
        matches!(ctx, CompletionCtx::LabelValue { ref label, ref prefix, .. }
            if label == "job" && prefix == "no"),
        "got {:?}",
        ctx
    );
}

#[test]
fn detect_context_after_operator_suppressed() {
    let ctx = detect_context("{job=", 5);
    assert!(matches!(ctx, CompletionCtx::Nothing), "got {:?}", ctx);
}

#[test]
fn detect_context_pipeline_stage() {
    let ctx = detect_context(r#"{job="varlogs"} | js"#, 20);
    assert!(
        matches!(ctx, CompletionCtx::PipelineStage { ref prefix } if prefix == "js"),
        "got {:?}",
        ctx
    );
}

#[test]
fn detect_context_pipeline_stage_empty_prefix() {
    let ctx = detect_context(r#"{job="varlogs"} | "#, 18);
    assert!(
        matches!(ctx, CompletionCtx::PipelineStage { ref prefix } if prefix.is_empty()),
        "got {:?}",
        ctx
    );
}

#[test]
fn detect_context_expression() {
    let ctx = detect_context("ra", 2);
    assert!(
        matches!(ctx, CompletionCtx::Expression { ref prefix } if prefix == "ra"),
        "got {:?}",
        ctx
    );
}

#[test]
fn detect_context_empty_no_completions() {
    let ctx = detect_context("", 0);
    assert!(
        matches!(ctx, CompletionCtx::Expression { ref prefix } if prefix.is_empty())
    );
    let results = compute_completions(
        &ctx,
        &AssocMap::new(),
        &AssocMap::new(),
        10,
    );
    assert!(results.is_empty());
}

#[test]
fn detect_context_bracket_suppresses() {
    let ctx = detect_context(r#"rate({job="varlogs"}[5"#, 22);
    assert!(matches!(ctx, CompletionCtx::Nothing), "got {:?}", ctx);
}

#[test]
fn completions_pipeline_filter() {
    let ctx = CompletionCtx::PipelineStage {
        prefix: "js".into(),
    };
    let results = compute_completions(&ctx, &AssocMap::new(), &AssocMap::new(), 10);
    assert!(results.contains(&"json".to_string()), "{results:?}");
    assert!(!results.contains(&"logfmt".to_string()));
}

#[test]
fn completions_pipeline_all_shown_empty_prefix() {
    let ctx = CompletionCtx::PipelineStage {
        prefix: String::new(),
    };
    let results = compute_completions(&ctx, &AssocMap::new(), &AssocMap::new(), 20);
    assert!(results.contains(&"json".to_string()));
    assert!(results.contains(&"logfmt".to_string()));
    assert!(results.contains(&"unwrap".to_string()));
}

#[test]
fn completions_expression_filter() {
    let ctx = CompletionCtx::Expression {
        prefix: "ra".into(),
    };
    let results = compute_completions(&ctx, &AssocMap::new(), &AssocMap::new(), 10);
    assert!(results.contains(&"rate".to_string()), "{results:?}");
}

#[test]
fn completions_label_names() {
    let mut cache: AssocMap<String, Vec<String>> = AssocMap::new();
    cache.insert(
        String::new(),
        vec!["job".into(), "instance".into(), "env".into()],
    );
    let ctx = CompletionCtx::LabelName {
        prefix: "j".into(),
        selector: String::new(),
    };
    let results = compute_completions(&ctx, &cache, &AssocMap::new(), 10);
    assert_eq!(results, vec!["job"]);
}

#[test]
fn completions_label_values() {
    let mut cache: AssocMap<(String, String), Vec<String>> = AssocMap::new();
    cache.insert(
        ("job".into(), String::new()),
        vec!["node".into(), "prometheus".into(), "alertmanager".into()],
    );
    let ctx = CompletionCtx::LabelValue {
        label: "job".into(),
        prefix: "pro".into(),
        selector: String::new(),
    };
    let results = compute_completions(&ctx, &AssocMap::new(), &cache, 10);
    assert_eq!(results, vec!["prometheus"]);
}

#[test]
fn log_label_value_behind_white_space() {
    match detect_context(r#"{job= "no"#, 9) {
        CompletionCtx::LabelValue { label, prefix, .. } => {
            assert_eq!(label, "job");
            assert_eq!(prefix, "no");
        }
        other => panic!("expected LabelValue, got {other:?}"),
    }
}
