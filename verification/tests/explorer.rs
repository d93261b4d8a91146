//! What holds across the events of the explorer.

use explore_tui::app::{event_ready, ExploreTui};
use explore_tui::errors::{choose_message, extract_error_message};
use explore_tui::loki::{LokiEntry, LokiStream};
use explore_tui::model::{
    Command, Datasource, Event, HistoryEntryView, HttpError, LokiDiagnosticView, Model, Reply,
    Request,
};
use explore_tui::prometheus::types::{
    PrometheusData, PrometheusResponse, PrometheusStringListResponse, PrometheusVectorItem,
};
use explore_tui::tempo::{TempoSpan, TempoTrace};
use explore_tui::view::{normalize_ds_type, view_ready, ScreenView, ViewModel};

struct Explorer {
    model: Model,
}

impl Explorer {
    fn new() -> Self {
        Explorer {
            model: Model::default(),
        }
    }

    /// An explorer with three datasources, of which one is of traces.
    fn loaded() -> Self {
        let mut e = Explorer::new();
        e.send(Event::Configure {
            url: "http://g".into(),
            token: "t".into(),
        });
        e.send(Event::DatasourcesLoaded(Ok(Some(vec![
            datasource(1, "Metrics", "prometheus"),
            datasource(2, "Other", "mysql"),
            datasource(3, "Traces", "tempo"),
            datasource(4, "Profiles", "phlare"),
        ]))));
        e
    }

    fn send(&mut self, event: Event) -> Command {
        assert!(event_ready(&self.model, &event));
        ExploreTui.update(event, &mut self.model)
    }

    fn view(&self) -> ViewModel<'_> {
        assert!(view_ready(&self.model));
        ExploreTui.view(&self.model)
    }

    fn type_text(&mut self, text: &str) {
        for c in text.chars() {
            self.send(Event::QueryInput(c));
        }
    }
}

fn datasource(id: u64, name: &str, ds_type: &str) -> Datasource {
    Datasource {
        id,
        uid: format!("uid{id}"),
        name: name.into(),
        ds_type: ds_type.into(),
        url: String::new(),
        is_default: id == 1,
        access: "proxy".into(),
    }
}

fn names(data: &[&str]) -> Option<PrometheusStringListResponse> {
    Some(PrometheusStringListResponse {
        status: "success".into(),
        data: data.iter().map(|s| s.to_string()).collect(),
    })
}

fn rejected(body: &str) -> HttpError {
    HttpError {
        text: "HTTP error 400".into(),
        body: Some(body.as_bytes().to_vec()),
    }
}

fn request(url: &str, reply: Reply) -> Request {
    Request {
        url: url.into(),
        authorization: "Bearer t".into(),
        reply,
    }
}

// ── Errors ───────────────────────────────────────────────────────────────────

#[test]
fn error_message_of_a_json_body() {
    assert_eq!(extract_error_message(&rejected(r#"{"error":"bad","message":"m"}"#)), "bad");
    assert_eq!(extract_error_message(&rejected(r#"{"message":"m"}"#)), "m");
    assert_eq!(
        extract_error_message(&rejected(r#"{"error":7}"#)),
        r#"HTTP error 400: {"error":7}"#
    );
}

#[test]
fn error_message_of_other_bodies() {
    assert_eq!(extract_error_message(&rejected("  denied \n")), "HTTP error 400: denied");
    assert_eq!(extract_error_message(&rejected(" \t")), "HTTP error 400");
    let broken = HttpError {
        text: "HTTP error 400".into(),
        body: Some(vec![0xff, 0xfe]),
    };
    assert_eq!(extract_error_message(&broken), "HTTP error 400");
    let timeout = HttpError {
        text: "Timeout".into(),
        body: None,
    };
    assert_eq!(extract_error_message(&timeout), "Timeout");
}

#[test]
fn error_message_chosen_from_members() {
    let err = rejected("text");
    assert_eq!(choose_message(&err, Some("e".into()), Some("m".into())), "e");
    assert_eq!(choose_message(&err, None, Some("m".into())), "m");
    assert_eq!(choose_message(&err, None, None), "HTTP error 400: text");
}

#[test]
fn failed_load_keeps_the_datasources() {
    let mut e = Explorer::loaded();
    e.send(Event::FetchDatasources);
    assert!(e.view().loading);
    e.send(Event::DatasourcesLoaded(Err(rejected(r#"{"message":"no"}"#))));
    assert_eq!(e.view().error.as_deref(), Some("no"));
    assert_eq!(e.view().datasources.len(), 3);
}

// ── Datasources ──────────────────────────────────────────────────────────────

#[test]
fn datasources_are_asked_for() {
    let mut e = Explorer::new();
    let cmd = e.send(Event::Configure {
        url: "http://g".into(),
        token: "t".into(),
    });
    assert_eq!(cmd, Command::FetchDatasources);
    assert_eq!(e.view().time_range, "1h");
    let cmd = e.send(Event::FetchDatasources);
    assert_eq!(
        cmd,
        Command::RenderAndFetch(vec![request("http://g/api/datasources", Reply::Datasources)])
    );
}

#[test]
fn types_of_datasources() {
    assert_eq!(normalize_ds_type("phlare"), "pyroscope");
    assert_eq!(normalize_ds_type("grafana-pyroscope-datasource"), "pyroscope");
    assert_eq!(normalize_ds_type("loki"), "loki");
    let e = Explorer::loaded();
    let types: Vec<String> = e.view().datasources.into_iter().map(|d| d.ds_type).collect();
    assert_eq!(types, ["prometheus", "tempo", "pyroscope"]);
}

#[test]
fn select_next_and_previous_lead_back() {
    let mut e = Explorer::loaded();
    for start in 0..3 {
        assert_eq!(e.view().selected_index, start);
        e.send(Event::SelectNext);
        e.send(Event::SelectPrevious);
        assert_eq!(e.view().selected_index, start);
        e.send(Event::SelectPrevious);
        e.send(Event::SelectNext);
        assert_eq!(e.view().selected_index, start);
        e.send(Event::SelectNext);
    }
    e.send(Event::EnterQuery);
    e.send(Event::SelectNext);
    assert_eq!(e.view().selected_index, 0);
}

#[test]
fn favourites_come_first() {
    let mut e = Explorer::loaded();
    e.send(Event::ToggleFavourite("uid4".into()));
    assert_eq!(e.view().datasources[0].name, "Profiles");
    assert!(e.view().datasources[0].is_favourite);
    assert_eq!(e.view().datasources[1].name, "Metrics");
    e.send(Event::ToggleFavourite("uid4".into()));
    assert_eq!(e.view().datasources[0].name, "Metrics");
    e.send(Event::FavouritesLoaded(vec!["uid3".into(), "uid3".into()]));
    assert_eq!(e.view().datasources[0].name, "Traces");
}

#[test]
fn filter_typed_and_taken_back() {
    let mut e = Explorer::loaded();
    e.send(Event::DatasourceFilterFocus);
    e.send(Event::DatasourceFilterInput('R'));
    assert_eq!(e.view().datasources.len(), 3);
    e.send(Event::DatasourceFilterInput('f'));
    assert_eq!(e.view().datasources.len(), 1);
    e.send(Event::DatasourceFilterBackspace);
    assert_eq!(e.view().datasource_filter, "R");
    assert_eq!(e.view().datasources.len(), 3);
    e.send(Event::DatasourceFilterInput('#'));
    assert!(e.view().datasources.is_empty());
    assert_eq!(e.view().selected_datasource_name, None);
    assert_eq!(e.send(Event::EnterQuery), Command::Render);
    assert_eq!(e.view().screen, ScreenView::DatasourceList);
    e.send(Event::DatasourceFilterClear);
    assert_eq!(e.view().datasource_filter, "");
    assert!(!e.view().datasource_filter_focused);
}

#[test]
fn unknown_datasource_keeps_the_selection() {
    let mut e = Explorer::loaded();
    e.send(Event::SelectNext);
    e.send(Event::SelectDatasource {
        uid: "gone".into(),
        name: String::new(),
    });
    assert_eq!(e.view().selected_index, 1);
    e.send(Event::SelectDatasource {
        uid: "gone".into(),
        name: "Profiles".into(),
    });
    assert_eq!(e.view().selected_datasource_name.as_deref(), Some("Profiles"));
}

#[test]
fn history_panel() {
    let mut e = Explorer::loaded();
    let entry = |query: &str| HistoryEntryView {
        query: query.into(),
        datasource_name: String::new(),
        datasource_uid: String::new(),
        datasource_type: "prometheus".into(),
        time_ago: "5m ago".into(),
        service_name: String::new(),
        profile_type: String::new(),
        time_range: String::new(),
    };
    e.send(Event::HistorySelectNext);
    assert_eq!(e.view().history_selected_index, 0);
    e.send(Event::HistoryEntriesLoaded(vec![entry("a"), entry("b")]));
    e.send(Event::DatasourceFilterFocus);
    e.send(Event::HistoryPanelFocus);
    assert!(e.view().history_panel_focused && !e.view().datasource_filter_focused);
    e.send(Event::HistorySelectPrev);
    assert_eq!(e.view().history_selected_index, 1);
    e.send(Event::HistorySelectNext);
    assert_eq!(e.view().history_selected_index, 0);
    e.send(Event::HistoryPanelBlur);
    assert!(!e.view().history_panel_focused);
}

#[test]
fn quit_does_nothing_more() {
    assert_eq!(Explorer::loaded().send(Event::Quit), Command::Done);
}

// ── Query screen ─────────────────────────────────────────────────────────────

#[test]
fn query_names_are_asked_for() {
    let mut e = Explorer::loaded();
    let cmd = e.send(Event::EnterQuery);
    assert_eq!(
        cmd,
        Command::RenderAndFetch(vec![
            request(
                "http://g/api/datasources/proxy/1/api/v1/label/__name__/values",
                Reply::MetricNames
            ),
            request(
                "http://g/api/datasources/proxy/1/api/v1/labels",
                Reply::LabelNames(String::new())
            ),
        ])
    );
    assert!(e.view().completions_loading);
}

#[test]
fn query_is_sent_encoded() {
    let mut e = Explorer::loaded();
    e.send(Event::EnterQuery);
    e.type_text("a é");
    let cmd = e.send(Event::ExecuteQuery);
    assert_eq!(
        cmd,
        Command::RenderAndFetch(vec![request(
            "http://g/api/datasources/proxy/1/api/v1/query?query=a%20%C3%A9",
            Reply::QueryResult
        )])
    );
    assert!(e.view().query_loading);
    e.send(Event::QueryResultLoaded(Ok(Some(PrometheusResponse {
        status: "success".into(),
        data: PrometheusData {
            result_type: "vector".into(),
            result: vec![
                PrometheusVectorItem {
                    metric: vec![("b".into(), "1".into())],
                    value: (0, "x".into()),
                },
                PrometheusVectorItem {
                    metric: vec![("a".into(), "2".into()), ("b".into(), "3".into())],
                    value: (0, "y".into()),
                },
            ],
        },
    }))));
    let view = e.view();
    let table = view.query_results.unwrap();
    assert_eq!(table.columns, ["a", "b", "value"]);
    assert_eq!(table.rows, [["", "1", "x"], ["2", "3", "y"]]);
}

#[test]
fn query_without_a_selected_datasource_cannot_run() {
    let mut e = Explorer::loaded();
    e.send(Event::EnterQuery);
    e.send(Event::DatasourceFilterInput('#'));
    assert!(!event_ready(&e.model, &Event::ExecuteQuery));
    assert_eq!(Explorer::new().send(Event::ExecuteQuery), Command::Render);
}

#[test]
fn query_error_is_shown() {
    let mut e = Explorer::loaded();
    e.send(Event::EnterQuery);
    e.send(Event::QueryResultLoaded(Err(rejected(r#"{"error":"parse error"}"#))));
    assert_eq!(e.view().query_error.as_deref(), Some("parse error"));
}

#[test]
fn query_character_typed_and_taken_back() {
    let mut e = Explorer::loaded();
    e.send(Event::EnterQuery);
    e.type_text("aéb");
    e.send(Event::CursorLeft);
    e.send(Event::QueryInput('𝄞'));
    assert_eq!(e.view().query, "aé𝄞b");
    e.send(Event::QueryBackspace);
    assert_eq!(e.view().query, "aéb");
    assert_eq!(e.view().cursor_pos, 2);
}

#[test]
fn query_completions_match_the_word() {
    let mut e = Explorer::loaded();
    e.send(Event::EnterQuery);
    e.send(Event::MetricNamesLoaded(Ok(names(&["Rate_b", "up"]))));
    e.send(Event::LabelNamesLoaded(String::new(), Ok(names(&["pod", "job"]))));
    assert!(!e.view().completions_loading);
    e.type_text("RATE");
    assert_eq!(e.view().completions, ["Rate_b", "rate"]);
    e.send(Event::CompletionNext);
    assert_eq!(e.view().completion_index, Some(0));
    e.send(Event::CompletionAccept);
    assert_eq!(e.view().query, "Rate_b");
    e.send(Event::CompletionDismiss);
    assert!(e.view().completions.is_empty());
    e.type_text("{");
    assert_eq!(e.view().completions, ["__name__", "job", "pod"]);
}

#[test]
fn query_label_values_are_asked_for_once() {
    let mut e = Explorer::loaded();
    e.send(Event::EnterQuery);
    e.type_text("up{job=\"");
    let cmd = e.send(Event::TriggerCompletions);
    assert_eq!(
        cmd,
        Command::RenderAndFetch(vec![request(
            "http://g/api/datasources/proxy/1/api/v1/label/job/values",
            Reply::LabelValues("job".into(), String::new())
        )])
    );
    e.send(Event::LabelValuesLoaded("job".into(), String::new(), Ok(names(&["b", "a"]))));
    assert_eq!(e.view().completions, ["a", "b"]);
    assert_eq!(e.send(Event::TriggerCompletions), Command::Render);
}

// ── Traces ───────────────────────────────────────────────────────────────────

#[test]
fn trace_query_is_edited_by_bytes() {
    let mut e = Explorer::loaded();
    e.send(Event::EnterTempo);
    e.send(Event::TempoQueryInput('é'));
    e.send(Event::TempoQueryInput('b'));
    assert_eq!(e.view().tempo_cursor_pos, 3);
    e.send(Event::TempoQueryCursorLeft);
    e.send(Event::TempoQueryCursorLeft);
    assert_eq!(e.view().tempo_cursor_pos, 0);
    e.send(Event::TempoQueryCursorRight);
    assert_eq!(e.view().tempo_cursor_pos, 2);
    e.send(Event::TempoQueryInput('x'));
    e.send(Event::TempoQueryBackspace);
    assert_eq!(e.view().tempo_query, "éb");
    assert_eq!(e.view().tempo_cursor_pos, 2);
}

#[test]
fn trace_is_opened_and_filtered() {
    let mut e = Explorer::loaded();
    e.send(Event::EnterTempo);
    e.send(Event::TempoExecuteQuery);
    e.send(Event::TempoResultLoaded(Ok(vec![TempoTrace {
        trace_id: "abc".into(),
        root_service_name: "svc".into(),
        root_trace_name: "GET".into(),
        start_time_unix_nano: 1,
        duration_ms: 2,
    }])));
    e.send(Event::TempoOpenTrace);
    assert_eq!(e.view().screen, ScreenView::TempoTraceDetail);
    assert_eq!(e.view().trace_detail_trace_id, "abc");
    let span = |name: &str| TempoSpan {
        span_id: String::new(),
        parent_span_id: None,
        name: name.into(),
        service_name: "svc".into(),
        start_time_unix_nano: 0,
        duration_ns: 0,
        depth: 0,
        resource_attrs: vec![],
        span_attrs: vec![],
        kind: 0,
        error: false,
    };
    e.send(Event::TempoTraceDetailLoaded(Ok(vec![span("one"), span("two"), span("two b")])));
    e.send(Event::TempoTraceDetailPrev);
    assert_eq!(e.view().trace_detail_selected, 2);
    e.send(Event::TempoTraceDetailFilterInput('w'));
    e.send(Event::TempoTraceDetailNext);
    e.send(Event::TempoTraceDetailNext);
    assert_eq!(e.view().trace_detail_selected, 0);
    e.send(Event::BackFromTraceDetail);
    assert_eq!(e.view().screen, ScreenView::TempoMode);
}

// ── Logs ─────────────────────────────────────────────────────────────────────

#[test]
fn log_rows_run_over_all_streams() {
    let mut e = Explorer::loaded();
    e.send(Event::EnterLoki);
    e.send(Event::LokiQueryChanged("{a=\"b\"}".into()));
    e.send(Event::LokiExecuteQuery);
    assert!(e.view().loki_loading);
    let entry = |line: &str| LokiEntry {
        timestamp: String::new(),
        timestamp_ns: "1".into(),
        line: line.into(),
    };
    e.send(Event::LokiResultLoaded(Ok(vec![
        LokiStream {
            labels: "{a=\"1\"}".into(),
            entries: vec![entry("x")],
        },
        LokiStream {
            labels: "{a=\"2\"}".into(),
            entries: vec![entry("y"), entry("z")],
        },
    ])));
    e.send(Event::LokiSelectPrevRow);
    assert_eq!(e.view().loki_selected_row, 2);
    e.send(Event::LokiOpenContext);
    assert!(e.view().loki_context_open);
    assert_eq!(e.view().loki_context_labels, "{a=\"2\"}");
    e.send(Event::LokiContextLoaded(Ok((vec![entry("y"), entry("z")], 1))));
    assert_eq!(e.view().loki_context_highlight_index, 1);
    e.send(Event::LokiCloseContext);
    assert!(!e.view().loki_context_open);
    e.send(Event::LokiSelectNextRow);
    assert_eq!(e.view().loki_selected_row, 0);
    e.send(Event::LokiDiagnosticsUpdated(vec![LokiDiagnosticView {
        severity: "error".into(),
        message: "m".into(),
        start_byte: 0,
        end_byte: 1,
    }]));
    assert_eq!(e.view().loki_diagnostics.len(), 1);
}

// ── Time range picker ────────────────────────────────────────────────────────

#[test]
fn picked_absolute_range_is_kept() {
    let mut e = Explorer::loaded();
    e.send(Event::TimeRangePickerOpen {
        now_unix_ms: 7_200_000,
    });
    e.send(Event::TimeRangePickerToggleFocus);
    e.send(Event::TimeRangePickerCustomInput('2'));
    e.send(Event::TimeRangePickerCustomBackspace);
    e.send(Event::TimeRangePickerCustomInput('1'));
    e.send(Event::TimeRangePickerCommit {
        now_unix_ms: 7_200_000,
    });
    assert_eq!(e.view().time_range, "1970-01-01 01:00:00/1970-01-01 02:00:00");
    assert!(!e.view().time_range_picker_open);
}

#[test]
fn picker_field_with_other_text_is_not_ready() {
    let mut e = Explorer::loaded();
    e.send(Event::TimeRangePickerToggleFocus);
    e.model.picker.abs_from = "é".into();
    assert!(!event_ready(&e.model, &Event::TimeRangePickerCustomInput('1')));
    assert!(event_ready(&e.model, &Event::TimeRangePickerCustomInput('x')));
}

#[test]
fn state_and_view_can_be_printed() {
    let e = Explorer::loaded();
    assert!(format!("{:?}", e.model).contains("Profiles"));
    assert!(format!("{:?}", e.view()).contains("pyroscope"));
    assert_eq!(ScreenView::default(), ScreenView::DatasourceList);
    let item = PrometheusVectorItem {
        metric: vec![("a".into(), "b".into())],
        value: (1, "2".into()),
    };
    assert_eq!(format!("{:?}", item.clone()), format!("{item:?}"));
}
