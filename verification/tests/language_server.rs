//! The language server.

use explore_tui::logql::analyzer::Severity;
use explore_tui::lsp::completion::ItemKind;
use explore_tui::lsp::diagnostics::run_diagnostics;
use explore_tui::lsp::position::lines_in_range;
use explore_tui::lsp::{
    byte_to_lsp_position, lsp_position_to_byte, LabelValuesUpdateParams, LabelsUpdateParams,
    LogQLBackend, Position, Range,
};

fn at(line: u32, character: u32) -> Position {
    Position { line, character }
}

fn span(start: u32, end: u32) -> Range {
    Range {
        start: at(0, start),
        end: at(0, end),
    }
}

#[test]
fn position_counts_utf16_units() {
    // 'é' has one unit, '𝄞' two.
    let text = "aé𝄞b\ncd";
    assert_eq!(byte_to_lsp_position(text, 0), at(0, 0));
    assert_eq!(byte_to_lsp_position(text, 3), at(0, 2));
    assert_eq!(byte_to_lsp_position(text, 7), at(0, 4));
    assert_eq!(byte_to_lsp_position(text, 9), at(1, 0));
    assert_eq!(byte_to_lsp_position(text, 99), at(1, 2));
}

#[test]
fn position_of_every_boundary_leads_back() {
    let text = "{a=\"é\"}\n|= \"𝄞\"\n\nx";
    assert!(lines_in_range(text));
    for (offset, _) in text.char_indices() {
        let position = byte_to_lsp_position(text, offset);
        assert_eq!(lsp_position_to_byte(text, position), offset);
    }
    let end = byte_to_lsp_position(text, text.len());
    assert_eq!(lsp_position_to_byte(text, end), text.len());
}

#[test]
fn position_behind_the_document_is_its_end() {
    assert_eq!(lsp_position_to_byte("ab\ncd", at(9, 0)), 3);
    assert_eq!(lsp_position_to_byte("ab\ncd", at(1, 9)), 5);
    // A column behind its line counts on in the next one.
    assert_eq!(lsp_position_to_byte("ab\ncd", at(0, 4)), 4);
    // Inside a character of two units its end is taken.
    assert_eq!(lsp_position_to_byte("𝄞b", at(0, 1)), 4);
}

#[test]
fn diagnostics_of_a_clean_document() {
    assert!(run_diagnostics(r#"rate({job="a"}[5m])"#).is_empty());
    assert!(run_diagnostics("").is_empty());
}

#[test]
fn diagnostics_have_places_and_severities() {
    let parse = run_diagnostics(r#"{job="é" x"#);
    assert_eq!(parse[0].severity, Severity::Error);
    assert_eq!(parse[0].message, "expected matcher operator, found Eof");
    assert_eq!(parse[0].range, span(10, 10));
    let warning = run_diagnostics("{}");
    assert_eq!(warning.len(), 1);
    assert_eq!(warning[0].severity, Severity::Warning);
    assert_eq!(warning[0].message, "empty stream selector matches all streams");
    assert_eq!(warning[0].range, span(0, 2));
}

#[test]
fn completion_of_an_unknown_document() {
    let backend = LogQLBackend::new();
    assert!(backend.completion("file:///a", at(0, 0)).is_none());
    assert_eq!(backend.document_text("file:///a"), None);
}

#[test]
fn completion_replaces_the_word() {
    let mut backend = LogQLBackend::new();
    assert!(!backend.did_open("a".into(), "sum(ra".into(), 1).is_empty());
    let items = backend.completion("a", at(0, 6)).unwrap();
    assert_eq!(items[0].label, "rate");
    assert_eq!(items[0].kind, ItemKind::Function);
    assert_eq!(items[0].sort_text, "0010");
    assert_eq!(items[0].range, span(4, 6));
    assert_eq!(items[0].detail.as_deref(), Some("Range function"));
}

#[test]
fn completion_of_labels_told_to_the_server() {
    let mut backend = LogQLBackend::new();
    backend.handle_labels_update(LabelsUpdateParams {
        selector: String::new(),
        names: vec!["pod".into(), "Job".into()],
    });
    backend.handle_labels_update(LabelsUpdateParams {
        selector: r#"{a="1"}"#.into(),
        names: vec!["container".into()],
    });
    backend.handle_label_values_update(LabelValuesUpdateParams {
        label: "job".into(),
        selector: String::new(),
        values: vec!["vär".into(), "web".into()],
    });
    backend.did_open("a".into(), "{".into(), 1);
    let names: Vec<String> = backend
        .completion("a", at(0, 1))
        .unwrap()
        .into_iter()
        .map(|i| i.label)
        .collect();
    assert_eq!(names, ["Job", "pod"]);

    backend.did_open("b".into(), r#"{a="1","#.into(), 1);
    let scoped = backend.completion("b", at(0, 7)).unwrap();
    assert_eq!(scoped[0].label, "container");
    assert_eq!(scoped[0].kind, ItemKind::Field);

    backend.did_open("c".into(), r#"{job="vä"#.into(), 1);
    let values = backend.completion("c", at(0, 8)).unwrap();
    assert_eq!(values.len(), 1);
    assert_eq!(values[0].label, "vär");
    assert_eq!(values[0].kind, ItemKind::Value);
    assert_eq!(values[0].range, span(6, 8));
}

#[test]
fn labels_told_again_take_the_place_of_old_ones() {
    let mut backend = LogQLBackend::new();
    for name in ["old", "new"] {
        backend.handle_labels_update(LabelsUpdateParams {
            selector: String::new(),
            names: vec![name.into()],
        });
    }
    backend.did_open("a".into(), "{".into(), 1);
    let items = backend.completion("a", at(0, 1)).unwrap();
    assert_eq!(items.len(), 1);
    assert_eq!(items[0].label, "new");
}

#[test]
fn last_change_stands() {
    let mut backend = LogQLBackend::new();
    backend.did_open("a".into(), "{}".into(), 1);
    backend.did_open("b".into(), "b".into(), 1);
    let diagnostics = backend.did_change("a".into(), vec!["(".into(), r#"{x="1"}"#.into()], 2);
    assert_eq!(diagnostics.map(|d| d.len()), Some(0));
    assert_eq!(backend.document_text("a").as_deref(), Some(r#"{x="1"}"#));
    assert_eq!(backend.document_text("b").as_deref(), Some("b"));
    assert!(backend.did_change("a".into(), vec![], 3).is_none());
    assert_eq!(backend.document_text("a").as_deref(), Some(r#"{x="1"}"#));
}

#[test]
fn nothing_to_complete() {
    let mut backend = LogQLBackend::new();
    backend.did_open("a".into(), "{job=".into(), 1);
    assert!(backend.completion("a", at(0, 5)).is_none());
}
