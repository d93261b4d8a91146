//! Completion of metric queries.

use explore_tui::collections::AssocMap;
use explore_tui::prometheus::context::{compute_completions, detect_context, extract_label_selector, CompletionCtx};

#[test]
fn detect_context_metric_or_keyword() {
    let ctx = detect_context("ra", 2);
    assert!(matches!(ctx, CompletionCtx::MetricOrKeyword { prefix } if prefix == "ra"));
}

#[test]
fn detect_context_empty_prefix_no_completions() {
    let ctx = detect_context("", 0);
    assert!(matches!(ctx, CompletionCtx::MetricOrKeyword { ref prefix } if prefix.is_empty()));
    let results = compute_completions(&ctx, &[], &AssocMap::<String,Vec<String>>::new(), &AssocMap::<(String,String),Vec<String>>::new(), 10);
    assert!(results.is_empty());
}

#[test]
fn detect_context_label_name() {
    let ctx = detect_context("up{jo", 5);
    assert!(
        matches!(ctx, CompletionCtx::LabelName { ref prefix, .. } if prefix == "jo"),
        "expected LabelName context, got {:?}",
        ctx
    );
}

#[test]
fn detect_context_label_name_selector_populated() {
    // When namespace is already set, the selector for completing the next
    // label name should include it.
    let ctx = detect_context(r#"up{namespace="prod","#, 20);
    match ctx {
        CompletionCtx::LabelName { ref prefix, ref selector } => {
            assert!(prefix.is_empty());
            assert_eq!(selector, r#"up{namespace="prod"}"#);
        }
        other => panic!("expected LabelName, got {other:?}"),
    }
}

#[test]
fn detect_context_label_name_in_by_no_selector() {
    // by(…) has no {…} context, so selector must be empty.
    let ctx = detect_context("sum by (job", 11);
    match ctx {
        CompletionCtx::LabelName { ref selector, .. } => {
            assert!(selector.is_empty(), "expected empty selector in by(), got {selector:?}");
        }
        other => panic!("expected LabelName, got {other:?}"),
    }
}

#[test]
fn context_detect_context_label_value() {
    let ctx = detect_context(r#"up{job="no"#, 10);
    assert!(
        matches!(ctx, CompletionCtx::LabelValue { ref label, ref prefix, .. }
            if label == "job" && prefix == "no"),
        "got {:?}",
        ctx
    );
}

#[test]
fn detect_context_label_value_selector_populated() {
    // When namespace is already set, the selector for pod completions should
    // include namespace="prod".
    let query = r#"up{namespace="prod",pod=""#;
    let ctx = detect_context(query, query.chars().count());
    match ctx {
        CompletionCtx::LabelValue { ref label, ref selector, .. } => {
            assert_eq!(label, "pod");
            assert_eq!(selector, r#"up{namespace="prod"}"#);
        }
        other => panic!("expected LabelValue, got {other:?}"),
    }
}

#[test]
fn extract_label_selector_with_metric() {
    let before = r#"up{namespace="prod",pod=""#;
    assert_eq!(extract_label_selector(before), r#"up{namespace="prod"}"#);
}

#[test]
fn extract_label_selector_no_prior_matchers() {
    // Only one matcher and it's incomplete — nothing to build a selector from.
    let before = r#"{job=""#;
    assert_eq!(extract_label_selector(before), String::new());
}

#[test]
fn extract_label_selector_multiple_matchers() {
    let before = r#"metric{a="1",b!~"x.*",c=""#;
    assert_eq!(extract_label_selector(before), r#"metric{a="1",b!~"x.*"}"#);
}

#[test]
fn detect_context_after_operator_no_completion() {
    let ctx = detect_context("up{job=", 7);
    assert!(matches!(ctx, CompletionCtx::Nothing), "got {:?}", ctx);
}

#[test]
fn detect_context_by_clause() {
    let ctx = detect_context("sum by (jo", 10);
    assert!(
        matches!(ctx, CompletionCtx::LabelName { ref prefix, .. } if prefix == "jo"),
        "expected LabelName in by(), got {:?}",
        ctx
    );
}

#[test]
fn detect_context_without_clause() {
    let ctx = detect_context("sum(up) without (ins", 20);
    assert!(
        matches!(ctx, CompletionCtx::LabelName { ref prefix, .. } if prefix == "ins"),
        "expected LabelName in without(), got {:?}",
        ctx
    );
}

#[test]
fn detect_context_on_clause() {
    let ctx = detect_context("metric1 + on (jo", 16);
    assert!(
        matches!(ctx, CompletionCtx::LabelName { ref prefix, .. } if prefix == "jo"),
        "expected LabelName in on(), got {:?}",
        ctx
    );
}

#[test]
fn detect_context_group_left_clause() {
    let ctx = detect_context("a * group_left (ins", 19);
    assert!(
        matches!(ctx, CompletionCtx::LabelName { ref prefix, .. } if prefix == "ins"),
        "expected LabelName in group_left(), got {:?}",
        ctx
    );
}

#[test]
fn detect_context_in_bracket_suppresses_completion() {
    let ctx = detect_context("rate(http_requests_total[5", 25);
    assert!(matches!(ctx, CompletionCtx::Nothing), "expected None inside [], got {:?}", ctx);
}

#[test]
fn detect_context_after_closed_bracket_restores_completion() {
    let ctx = detect_context("rate(http_requests_total[5m])", 29);
    assert!(
        matches!(ctx, CompletionCtx::MetricOrKeyword { .. }),
        "expected MetricOrKeyword after closed brackets, got {:?}",
        ctx
    );
}

#[test]
fn detect_context_by_with_multiple_labels() {
    let ctx = detect_context("sum by (job, ", 13);
    assert!(
        matches!(ctx, CompletionCtx::LabelName { ref prefix, .. } if prefix.is_empty()),
        "expected LabelName with empty prefix after comma, got {:?}",
        ctx
    );
}

#[test]
fn completions_filter_keywords() {
    let ctx = CompletionCtx::MetricOrKeyword { prefix: "ra".into() };
    let results = compute_completions(&ctx, &[], &AssocMap::<String,Vec<String>>::new(), &AssocMap::<(String,String),Vec<String>>::new(), 10);
    assert!(results.contains(&"rate".to_string()), "{results:?}");
    assert!(!results.iter().any(|r| !r.starts_with("ra")));
}

#[test]
fn completions_include_metric_names() {
    let metrics = vec![
        "rate_total".to_string(),
        "requests_total".to_string(),
        "up".to_string(),
    ];
    let ctx = CompletionCtx::MetricOrKeyword { prefix: "re".into() };
    let results = compute_completions(&ctx, &metrics, &AssocMap::<String,Vec<String>>::new(), &AssocMap::<(String,String),Vec<String>>::new(), 10);
    assert!(results.contains(&"requests_total".to_string()), "{results:?}");
    assert!(!results.contains(&"up".to_string()));
}

#[test]
fn completions_label_name() {
    let mut cache: AssocMap<String, Vec<String>> = AssocMap::new();
    cache.insert(
        String::new(),
        vec!["job".to_string(), "instance".to_string(), "env".to_string()],
    );
    let ctx = CompletionCtx::LabelName { prefix: "j".into(), selector: String::new() };
    let results = compute_completions(&ctx, &[], &cache, &AssocMap::<(String,String),Vec<String>>::new(), 10);
    assert_eq!(results, vec!["job"]);
}

#[test]
fn completions_label_name_with_selector() {
    // Only the labels cached under the specific selector should be returned.
    let selector = r#"up{namespace="prod"}"#.to_string();
    let mut cache: AssocMap<String, Vec<String>> = AssocMap::new();
    cache.insert(String::new(), vec!["job".into(), "instance".into(), "namespace".into()]);
    cache.insert(selector.clone(), vec!["pod".into(), "container".into()]);

    let ctx = CompletionCtx::LabelName { prefix: String::new(), selector: selector.clone() };
    let results = compute_completions(&ctx, &[], &cache, &AssocMap::<(String,String),Vec<String>>::new(), 10);
    assert_eq!(results, vec!["container", "pod"]);

    // Unfiltered context still returns the full list.
    let ctx_all = CompletionCtx::LabelName { prefix: String::new(), selector: String::new() };
    let results_all = compute_completions(&ctx_all, &[], &cache, &AssocMap::<(String,String),Vec<String>>::new(), 10);
    assert!(results_all.contains(&"job".to_string()));
}

#[test]
fn completions_label_value() {
    let mut cache: AssocMap<(String, String), Vec<String>> = AssocMap::new();
    cache.insert(("job".into(), String::new()), vec![
        "node".to_string(),
        "prometheus".to_string(),
        "alertmanager".to_string(),
    ]);
    let ctx = CompletionCtx::LabelValue {
        label: "job".into(),
        prefix: "pro".into(),
        selector: String::new(),
    };
    let results = compute_completions(&ctx, &[], &AssocMap::<String,Vec<String>>::new(), &cache, 10);
    assert_eq!(results, vec!["prometheus"]);
}

#[test]
fn completions_label_value_with_selector() {
    // Values cached under a specific selector should be served when that
    // selector is active, and not served for a different selector.
    let selector = r#"up{namespace="prod"}"#.to_string();
    let mut cache: AssocMap<(String, String), Vec<String>> = AssocMap::new();
    cache.insert(("pod".into(), selector.clone()), vec![
        "app-1".to_string(),
        "app-2".to_string(),
    ]);

    let ctx_match = CompletionCtx::LabelValue {
        label: "pod".into(),
        prefix: String::new(),
        selector: selector.clone(),
    };
    assert_eq!(
        compute_completions(&ctx_match, &[], &AssocMap::<String,Vec<String>>::new(), &cache, 10),
        vec!["app-1", "app-2"]
    );

    // Different selector → no cached values yet.
    let ctx_other = CompletionCtx::LabelValue {
        label: "pod".into(),
        prefix: String::new(),
        selector: String::new(),
    };
    assert!(compute_completions(&ctx_other, &[], &AssocMap::<String,Vec<String>>::new(), &cache, 10).is_empty());
}

#[test]
fn label_value_behind_white_space() {
    for query in [r#"up{job= "no"#, r#"up{job =~ "no"#, "up{job !=\t\"no", r#"up{a="1", job = "no"#] {
        match detect_context(query, query.chars().count()) {
            CompletionCtx::LabelValue { label, prefix, .. } => {
                assert_eq!(label, "job", "{query}");
                assert_eq!(prefix, "no", "{query}");
            }
            other => panic!("expected LabelValue, got {other:?}"),
        }
    }
}
