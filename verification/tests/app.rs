//! The explorer, event by event.

use explore_tui::app::{event_ready, ExploreTui};
use explore_tui::model::{Command, Datasource, Event, HttpError, Model, Request};
use explore_tui::prometheus::app::percent_encode;
use explore_tui::prometheus::types::{PrometheusStringListResponse, PrometheusVectorItem};
use explore_tui::pyroscope::{build_flamegraph_view, FlameGraph, FlamegraphNav, Level};
use explore_tui::view::{
    build_query_results_view, view_ready, PyroscopeSubScreenView, ScreenView, ViewModel,
};

/// What the explorer asks of its surroundings.
enum Effect {
    Render,
    Http(Request),
}

/// The explorer with its state.
struct Core {
    app: ExploreTui,
    model: Model,
}

impl Core {
    fn process_event(&mut self, event: Event) -> Vec<Effect> {
        assert!(event_ready(&self.model, &event));
        match self.app.update(event, &mut self.model) {
            Command::Done => vec![],
            Command::Render => vec![Effect::Render],
            Command::FetchDatasources => self.process_event(Event::FetchDatasources),
            Command::RenderAndFetch(requests) => {
                let mut effects = vec![Effect::Render];
                effects.extend(requests.into_iter().map(Effect::Http));
                effects
            }
        }
    }

    fn view(&self) -> ViewModel<'_> {
        assert!(view_ready(&self.model));
        self.app.view(&self.model)
    }
}

fn make_core() -> Core {
    Core {
        app: ExploreTui,
        model: Model::default(),
    }
}

fn make_datasources() -> Vec<Datasource> {
    vec![
        Datasource {
            id: 1,
            uid: "uid1".into(),
            name: "Prometheus".into(),
            ds_type: "prometheus".into(),
            url: "http://prom:9090".into(),
            is_default: true,
            access: "proxy".into(),
        },
        Datasource {
            id: 2,
            uid: "uid2".into(),
            name: "Loki".into(),
            ds_type: "loki".into(),
            url: "http://loki:3100".into(),
            is_default: false,
            access: "proxy".into(),
        },
        Datasource {
            id: 3,
            uid: "uid3".into(),
            name: "Prometheus2".into(),
            ds_type: "prometheus".into(),
            url: "http://prom2:9090".into(),
            is_default: false,
            access: "proxy".into(),
        },
    ]
}

fn make_datasources_with_pyroscope() -> Vec<Datasource> {
    let mut ds = make_datasources();
    ds.push(Datasource {
        id: 4,
        uid: "uid4".into(),
        name: "Pyroscope".into(),
        ds_type: "grafana-pyroscope-datasource".into(),
        url: "http://pyroscope:4040".into(),
        is_default: false,
        access: "proxy".into(),
    });
    ds.push(Datasource {
        id: 5,
        uid: "uid5".into(),
        name: "Phlare".into(),
        ds_type: "phlare".into(),
        url: "http://phlare:4100".into(),
        is_default: false,
        access: "proxy".into(),
    });
    ds
}

#[test]
fn configure_triggers_fetch() {
    let mut core = make_core();
    let effects = core.process_event(Event::Configure {
        url: "http://localhost:3000".into(),
        token: "test-token".into(),
    });
    assert!(effects.iter().any(|e| matches!(e, Effect::Http(_))));
}

#[test]
fn select_next_wraps_around() {
    let mut core = make_core();
    let response = Some(make_datasources());
    core.process_event(Event::DatasourcesLoaded(Ok(response)));
    assert_eq!(core.view().selected_index, 0);
    core.process_event(Event::SelectNext);
    assert_eq!(core.view().selected_index, 1);
    core.process_event(Event::SelectNext);
    assert_eq!(core.view().selected_index, 2);
    core.process_event(Event::SelectNext);
    assert_eq!(core.view().selected_index, 0);
}

#[test]
fn select_previous_wraps_around() {
    let mut core = make_core();
    let response = Some(make_datasources());
    core.process_event(Event::DatasourcesLoaded(Ok(response)));
    core.process_event(Event::SelectPrevious);
    assert_eq!(core.view().selected_index, 2);
}

#[test]
fn error_state_on_failed_load() {
    let mut core = make_core();
    core.process_event(Event::DatasourcesLoaded(Err(HttpError {
        text: "connection refused".into(),
        body: None,
    })));
    let vm = core.view();
    assert!(vm.error.is_some());
    assert!(!vm.loading);
}

#[test]
fn view_reflects_loaded_datasources() {
    let mut core = make_core();
    let response = Some(make_datasources());
    core.process_event(Event::DatasourcesLoaded(Ok(response)));
    let vm = core.view();
    assert_eq!(vm.datasources.len(), 3);
    assert_eq!(vm.datasources[0].name, "Prometheus");
    assert!(vm.datasources[0].is_default);
}

#[test]
fn filters_supported_datasources() {
    let mut core = make_core();
    let response = Some(make_datasources());
    core.process_event(Event::DatasourcesLoaded(Ok(response)));
    let vm = core.view();
    assert!(vm.datasources.iter().all(|ds| {
        ds.ds_type == "prometheus"
            || ds.ds_type == "pyroscope"
            || ds.ds_type == "loki"
            || ds.ds_type == "tempo"
    }));
    assert!(vm.datasources.iter().any(|ds| ds.ds_type == "loki"));
}

#[test]
fn pyroscope_filter_includes_pyroscope_datasources() {
    let mut core = make_core();
    let response = Some(make_datasources_with_pyroscope());
    core.process_event(Event::DatasourcesLoaded(Ok(response)));
    let vm = core.view();
    assert!(vm.datasources.iter().any(|ds| ds.ds_type == "pyroscope"));
}

#[test]
fn enter_pyroscope_series_loaded() {
    let mut core = make_core();
    core.process_event(Event::Configure {
        url: "http://localhost:3000".into(),
        token: "test-token".into(),
    });
    let response = Some(make_datasources_with_pyroscope());
    core.process_event(Event::DatasourcesLoaded(Ok(response)));

    // Select the pyroscope datasource (index 3 after filtering: Prometheus, Loki, Prometheus2, Pyroscope, Phlare)
    core.process_event(Event::SelectNext);
    core.process_event(Event::SelectNext);
    core.process_event(Event::SelectNext);

    core.process_event(Event::EnterPyroscope {
        now_unix_ms: 1_000_000,
    });
    assert_eq!(core.view().screen, ScreenView::PyroscopeMode);

    let series = vec![
        ("svc-a".into(), "cpu:cpu:nanoseconds:cpu:nanoseconds".into()),
        (
            "svc-a".into(),
            "memory:alloc_objects:count:space:bytes".into(),
        ),
    ];
    core.process_event(Event::PyroscopeSeriesLoaded(Ok(series)));

    let vm = core.view();
    // Two distinct profile types extracted from the series
    assert_eq!(vm.pyroscope_profile_types.len(), 2);
    // Filtered to the first profile type (alphabetically), so 1 visible service
    assert_eq!(vm.pyroscope_series.len(), 1);
}

#[test]
fn pyroscope_profile_type_cycling() {
    let mut core = make_core();
    core.process_event(Event::Configure {
        url: "http://localhost:3000".into(),
        token: "test-token".into(),
    });
    let response = Some(make_datasources_with_pyroscope());
    core.process_event(Event::DatasourcesLoaded(Ok(response)));
    core.process_event(Event::SelectNext);
    core.process_event(Event::SelectNext);
    core.process_event(Event::SelectNext);
    core.process_event(Event::EnterPyroscope {
        now_unix_ms: 1_000_000,
    });

    let series = vec![
        ("svc-a".into(), "cpu:cpu:nanoseconds:cpu:nanoseconds".into()),
        ("svc-b".into(), "cpu:cpu:nanoseconds:cpu:nanoseconds".into()),
        (
            "svc-a".into(),
            "memory:alloc_objects:count:space:bytes".into(),
        ),
    ];
    core.process_event(Event::PyroscopeSeriesLoaded(Ok(series)));

    // First profile type selected (alphabetically: cpu:...)
    let vm = core.view();
    assert_eq!(vm.pyroscope_profile_type_index, 0);
    assert_eq!(vm.pyroscope_series.len(), 2); // svc-a and svc-b under cpu

    // Cycle to next profile type
    core.process_event(Event::PyroscopeProfileTypeNext);
    let vm = core.view();
    assert_eq!(vm.pyroscope_profile_type_index, 1);
    assert_eq!(vm.pyroscope_series.len(), 1); // only svc-a under memory

    // Cycle back
    core.process_event(Event::PyroscopeProfileTypePrev);
    assert_eq!(core.view().pyroscope_profile_type_index, 0);
}

#[test]
fn pyroscope_service_filter() {
    let mut core = make_core();
    core.process_event(Event::Configure {
        url: "http://localhost:3000".into(),
        token: "test-token".into(),
    });
    let response = Some(make_datasources_with_pyroscope());
    core.process_event(Event::DatasourcesLoaded(Ok(response)));
    core.process_event(Event::SelectNext);
    core.process_event(Event::SelectNext);
    core.process_event(Event::SelectNext);
    core.process_event(Event::EnterPyroscope {
        now_unix_ms: 1_000_000,
    });

    let series = vec![
        ("alpha".into(), "cpu:cpu:nanoseconds:cpu:nanoseconds".into()),
        ("beta".into(), "cpu:cpu:nanoseconds:cpu:nanoseconds".into()),
        ("gamma".into(), "cpu:cpu:nanoseconds:cpu:nanoseconds".into()),
    ];
    core.process_event(Event::PyroscopeSeriesLoaded(Ok(series)));

    assert_eq!(core.view().pyroscope_series.len(), 3);

    // Type filter
    core.process_event(Event::PyroscopeServiceFilterInput('b'));
    assert_eq!(core.view().pyroscope_series.len(), 1);
    assert_eq!(core.view().pyroscope_series[0].0, "beta");

    // Clear filter
    core.process_event(Event::PyroscopeServiceFilterClear);
    assert_eq!(core.view().pyroscope_series.len(), 3);
}

#[test]
fn build_flamegraph_view_basic() {
    let fg = FlameGraph {
        names: vec!["total".into(), "func_a".into(), "func_b".into()],
        levels: vec![
            Level {
                values: vec![0, 100, 0, 0],
            },
            Level {
                values: vec![0, 60, 10, 1, 60, 40, 5, 2],
            },
        ],
        total: 100,
        max_self: 10,
    };
    let nav = FlamegraphNav::default();
    let view = build_flamegraph_view(&fg, &nav);

    assert_eq!(view.root_samples, 100);
    assert_eq!(view.levels.len(), 2);
    // Root level has 1 visible frame (the total frame)
    assert_eq!(view.levels[0].frames.len(), 1);
    assert_eq!(view.levels[0].frames[0].name, "total");
    // Level 1 has 2 frames
    assert_eq!(view.levels[1].frames.len(), 2);
    // Selected frame is root level frame 0 (sel_level=0, sel_frame=0)
    assert!(view.levels[0].frames[0].is_selected);
    let total_pct =
        view.levels[0].frames[0].total_samples as f64 / view.root_samples as f64 * 100.0;
    assert!((total_pct - 100.0).abs() < 1e-9);
}

#[test]
fn percent_encode_basic() {
    assert_eq!(percent_encode("up"), "up");
    assert_eq!(
        percent_encode("rate(http_requests_total[5m])"),
        "rate%28http_requests_total%5B5m%5D%29"
    );
    assert_eq!(percent_encode("foo bar"), "foo%20bar");
}

#[test]
fn build_query_results_view_basic() {
    let results = vec![PrometheusVectorItem {
        metric: vec![
            ("job".into(), "node".into()),
            ("instance".into(), "localhost:9100".into()),
        ],
        value: (1234567890.0_f64.to_bits(), "1".into()),
    }];
    let view = build_query_results_view(&results);
    assert_eq!(view.columns, vec!["instance", "job", "value"]);
    assert_eq!(view.rows[0], vec!["localhost:9100", "node", "1"]);
}

#[test]
fn enter_query_with_filter_opens_correct_datasource() {
    // Regression: when a datasource filter is active, EnterQuery must open
    // the highlighted (filtered) datasource, not the one at the same index
    // in the unfiltered list.
    let mut core = make_core();
    core.process_event(Event::Configure {
        url: "http://localhost:3000".into(),
        token: "test-token".into(),
    });
    // Datasources: [Prometheus(0), Loki(1), Prometheus2(2)]
    let response = Some(make_datasources());
    core.process_event(Event::DatasourcesLoaded(Ok(response)));

    // Filter to only "Prometheus2" — index 0 in the filtered view maps to
    // raw index 2, not raw index 0 (Prometheus).
    core.process_event(Event::DatasourceFilterInput('2'));
    assert_eq!(core.view().datasources.len(), 1);
    assert_eq!(core.view().datasources[0].name, "Prometheus2");
    assert_eq!(core.view().selected_index, 0);

    core.process_event(Event::EnterQuery);

    // After entering query mode the selected datasource must be Prometheus2.
    let vm = core.view();
    assert_eq!(vm.screen, ScreenView::QueryMode);
    assert_eq!(vm.selected_datasource_name.as_deref(), Some("Prometheus2"));
}

#[test]
fn enter_pyroscope_with_filter_opens_correct_datasource() {
    // Regression: same index-remapping bug as enter_query, but for Pyroscope.
    let mut core = make_core();
    core.process_event(Event::Configure {
        url: "http://localhost:3000".into(),
        token: "test-token".into(),
    });
    // Datasources: [Prometheus(0), Loki(1), Prometheus2(2), Pyroscope(3), Phlare(4)]
    let response = Some(make_datasources_with_pyroscope());
    core.process_event(Event::DatasourcesLoaded(Ok(response)));

    // Filter to show only "Pyroscope" — the single result sits at selected_index 0,
    // which in the unfiltered list would incorrectly resolve to Prometheus.
    core.process_event(Event::DatasourceFilterInput('P'));
    core.process_event(Event::DatasourceFilterInput('y'));
    core.process_event(Event::DatasourceFilterInput('r'));
    assert_eq!(core.view().datasources[0].name, "Pyroscope");
    assert_eq!(core.view().selected_index, 0);

    core.process_event(Event::EnterPyroscope {
        now_unix_ms: 1_000_000,
    });

    let vm = core.view();
    assert_eq!(vm.screen, ScreenView::PyroscopeMode);
    assert_eq!(vm.selected_datasource_name.as_deref(), Some("Pyroscope"));
}

#[test]
fn enter_query_switches_screen() {
    let mut core = make_core();
    core.process_event(Event::Configure {
        url: "http://localhost:3000".into(),
        token: "test-token".into(),
    });
    let response = Some(make_datasources());
    core.process_event(Event::DatasourcesLoaded(Ok(response)));
    assert_eq!(core.view().screen, ScreenView::DatasourceList);
    core.process_event(Event::EnterQuery);
    assert_eq!(core.view().screen, ScreenView::QueryMode);
    core.process_event(Event::BackToDatasources);
    assert_eq!(core.view().screen, ScreenView::DatasourceList);
}

#[test]
fn query_input_and_backspace() {
    let mut core = make_core();
    core.process_event(Event::EnterQuery);
    core.process_event(Event::QueryInput('u'));
    core.process_event(Event::QueryInput('p'));
    assert_eq!(core.view().query, "up");
    assert_eq!(core.view().cursor_pos, 2);
    core.process_event(Event::QueryBackspace);
    assert_eq!(core.view().query, "u");
    assert_eq!(core.view().cursor_pos, 1);
}

#[test]
fn cursor_movement_and_insert() {
    let mut core = make_core();
    core.process_event(Event::EnterQuery);
    for c in ['a', 'b', 'c'] {
        core.process_event(Event::QueryInput(c));
    }
    assert_eq!(core.view().query, "abc");
    assert_eq!(core.view().cursor_pos, 3);
    core.process_event(Event::CursorLeft);
    core.process_event(Event::CursorLeft);
    assert_eq!(core.view().cursor_pos, 1);
    core.process_event(Event::QueryInput('X'));
    assert_eq!(core.view().query, "aXbc");
    assert_eq!(core.view().cursor_pos, 2);
    core.process_event(Event::CursorHome);
    assert_eq!(core.view().cursor_pos, 0);
    core.process_event(Event::CursorEnd);
    assert_eq!(core.view().cursor_pos, 4);
    core.process_event(Event::CursorRight);
    assert_eq!(core.view().cursor_pos, 4);
    core.process_event(Event::CursorHome);
    core.process_event(Event::CursorLeft);
    assert_eq!(core.view().cursor_pos, 0);
}

#[test]
fn query_delete_forward() {
    let mut core = make_core();
    core.process_event(Event::EnterQuery);
    for c in ['a', 'b', 'c'] {
        core.process_event(Event::QueryInput(c));
    }
    core.process_event(Event::QueryDelete);
    assert_eq!(core.view().query, "abc");
    core.process_event(Event::CursorHome);
    core.process_event(Event::CursorRight);
    core.process_event(Event::QueryDelete);
    assert_eq!(core.view().query, "ac");
    assert_eq!(core.view().cursor_pos, 1);
}

#[test]
fn completion_accept_replaces_word() {
    let mut core = make_core();
    core.process_event(Event::Configure {
        url: "http://localhost:3000".into(),
        token: "test-token".into(),
    });
    let response = Some(make_datasources());
    core.process_event(Event::DatasourcesLoaded(Ok(response)));
    core.process_event(Event::EnterQuery);

    let names_resp = Some(PrometheusStringListResponse {
            status: "success".into(),
            data: vec!["rate_total".into()],
        });
    core.process_event(Event::MetricNamesLoaded(Ok(names_resp)));
    let labels_resp = Some(PrometheusStringListResponse {
            status: "success".into(),
            data: vec![],
        });
    core.process_event(Event::LabelNamesLoaded(String::new(), Ok(labels_resp)));

    core.process_event(Event::QueryInput('r'));
    core.process_event(Event::QueryInput('a'));
    assert_eq!(core.view().query, "ra");
    assert!(!core.view().completions.is_empty(), "expected completions");

    core.process_event(Event::CompletionNext);
    core.process_event(Event::CompletionAccept);

    let vm = core.view();
    assert_ne!(vm.query, "ra", "query should be updated after accept");
    assert!(!vm.query.starts_with("ra") || vm.query.len() > 2);
}

// Helper: extract HTTP request URLs from a list of effects.
fn http_urls(effects: &[Effect]) -> Vec<String> {
    effects
        .iter()
        .filter_map(|e| {
            if let Effect::Http(req) = e {
                Some(req.url.clone())
            } else {
                None
            }
        })
        .collect()
}

#[test]
fn pyroscope_history_restore_sets_expected_state() {
    // Simulate restoring a pyroscope history entry via the direct-load path.
    // Expected outcome:
    //   - datasource: Pyroscope (id=4, uid=uid4)
    //   - time range: "2h" (from history, not the default "1h")
    //   - selected service: "my-svc"
    //   - selected profile type: "process_cpu:cpu:nanoseconds:cpu:nanoseconds"
    //   - sub-screen: Flamegraph (no series load required)
    let mut core = make_core();
    core.process_event(Event::Configure {
        url: "http://grafana".into(),
        token: "tok".into(),
    });
    let resp = Some(make_datasources_with_pyroscope());
    core.process_event(Event::DatasourcesLoaded(Ok(resp)));

    // Step 1: select the right datasource
    core.process_event(Event::SelectDatasource {
        uid: "uid4".into(),
        name: "Pyroscope".into(),
    });

    // Step 2: restore the stored time range
    core.process_event(Event::PyroscopeSetTimeRange("2h".into()));

    // Step 3: jump directly to flamegraph — no series fetch needed
    core.process_event(Event::PyroscopeDirectLoad {
        service_name: "my-svc".into(),
        profile_type: "process_cpu:cpu:nanoseconds:cpu:nanoseconds".into(),
    });

    let vm = core.view();
    // Correct datasource active
    assert_eq!(vm.datasources[vm.selected_index].uid, "uid4");
    assert_eq!(vm.datasources[vm.selected_index].id, 4);
    // Time range from history preserved
    assert_eq!(vm.time_range, "2h");
    // Landed directly on Flamegraph sub-screen
    assert_eq!(vm.pyroscope_sub_screen, PyroscopeSubScreenView::Flamegraph);
    // Flamegraph is loading (TUI will spawn the fetch)
    assert!(vm.pyroscope_flamegraph_loading);
    // Series are NOT loading
    assert!(!vm.pyroscope_series_loading);
    // Correct service and profile type
    assert_eq!(vm.pyroscope_selected_service, "my-svc");
    assert_eq!(
        vm.pyroscope_selected_profile_type,
        "process_cpu:cpu:nanoseconds:cpu:nanoseconds"
    );
}

#[test]
fn select_datasource_by_uid_uses_correct_ds_despite_favourites() {
    // Regression: when a favourite reorders the sorted view, restoring a
    // history entry by UID must still fire HTTP requests to the correct
    // datasource, not to whichever datasource happens to sit at the same
    // *sorted* position.
    //
    // Setup: after filtering, model.datasources = [prom1(id=1), prom2(id=3)].
    // prom2 (uid3) is marked as favourite → sorted view = [prom2, prom1].
    // SelectDatasource { uid: "uid1" } targets prom1 (raw index 0).
    // EnterQuery must produce HTTP requests to /proxy/1/…, not /proxy/3/…
    let mut core = make_core();
    core.process_event(Event::Configure {
        url: "http://grafana".into(),
        token: "tok".into(),
    });
    let response = Some(make_datasources());
    core.process_event(Event::DatasourcesLoaded(Ok(response)));
    // Make prom2 the favourite — it now appears first in the sorted view.
    core.process_event(Event::FavouritesLoaded(vec!["uid3".into()]));

    core.process_event(Event::SelectDatasource {
        uid: "uid1".into(),
        name: "Prometheus".into(),
    });
    let urls = http_urls(&core.process_event(Event::EnterQuery));

    assert!(
        urls.iter().any(|u| u.contains("/proxy/1/")),
        "expected requests to prom1 (id=1), got: {urls:?}"
    );
    assert!(
        urls.iter().all(|u| !u.contains("/proxy/3/")),
        "must not query prom2 (id=3), got: {urls:?}"
    );
}

#[test]
fn select_datasource_name_fallback_for_empty_uid() {
    // Regression: history entries written before uid tracking was added have
    // an empty datasource_uid.  SelectDatasource must fall back to name
    // matching so the correct datasource is used.
    //
    // The cursor starts on prom1 (index 0).  We request prom2 by name with
    // an empty uid.  EnterQuery must target prom2 (id=3).
    let mut core = make_core();
    core.process_event(Event::Configure {
        url: "http://grafana".into(),
        token: "tok".into(),
    });
    let response = Some(make_datasources());
    core.process_event(Event::DatasourcesLoaded(Ok(response)));

    core.process_event(Event::SelectDatasource {
        uid: String::new(), // empty – simulates a pre-uid history entry
        name: "Prometheus2".into(),
    });
    let urls = http_urls(&core.process_event(Event::EnterQuery));

    assert!(
        urls.iter().any(|u| u.contains("/proxy/3/")),
        "expected prom2 (id=3) via name fallback, got: {urls:?}"
    );
    assert!(
        urls.iter().all(|u| !u.contains("/proxy/1/")),
        "must not query prom1 (id=1), got: {urls:?}"
    );
}
