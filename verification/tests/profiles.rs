//! Profiles: services, flamegraphs, timelines and heatmaps.

use explore_tui::app::{event_ready, ExploreTui};
use explore_tui::model::{Datasource, Event, Model};
use explore_tui::pyroscope::{
    build_flamegraph_view, build_heatmap_view, build_sandwich_view, build_timeline_view,
    compute_varying_label_keys_exemplars, parse_time_range, FlameGraph, FlamegraphNav, HeatmapSlot,
    Level, ProfileUnit, TimelineExemplar, TimelinePoint, TimelineSeries,
};
use explore_tui::view::{view_ready, PyroscopeSubScreenView, ViewModel};

fn graph(total: i64, names: &[&str], levels: &[&[i64]]) -> FlameGraph {
    FlameGraph {
        names: names.iter().map(|s| s.to_string()).collect(),
        levels: levels
            .iter()
            .map(|v| Level {
                values: v.to_vec(),
            })
            .collect(),
        total,
        max_self: 0,
    }
}

fn exemplar(value: i64, labels: &[(&str, &str)]) -> TimelineExemplar {
    TimelineExemplar {
        labels: labels
            .iter()
            .map(|(k, v)| (k.to_string(), v.to_string()))
            .collect(),
        profile_id: String::new(),
        span_id: String::new(),
        value,
        timestamp_ms: 0,
    }
}

fn point(timestamp_ms: i64, value: f64) -> TimelinePoint {
    TimelinePoint {
        timestamp_ms,
        timestamp_bits: (timestamp_ms as f64).to_bits(),
        value_bits: value.to_bits(),
    }
}

fn send(model: &mut Model, event: Event) {
    assert!(event_ready(model, &event));
    ExploreTui.update(event, model);
}

fn view(model: &Model) -> ViewModel<'_> {
    assert!(view_ready(model));
    ExploreTui.view(model)
}

fn profile_model() -> Model {
    let mut m = Model::default();
    send(
        &mut m,
        Event::DatasourcesLoaded(Ok(Some(vec![
            Datasource {
                id: 1,
                uid: "u1".into(),
                name: "P".into(),
                ds_type: "phlare".into(),
                url: String::new(),
                is_default: true,
                access: String::new(),
            },
            Datasource {
                id: 2,
                uid: "u2".into(),
                name: "T".into(),
                ds_type: "tempo".into(),
                url: String::new(),
                is_default: false,
                access: String::new(),
            },
            Datasource {
                id: 3,
                uid: "u3".into(),
                name: "T2".into(),
                ds_type: "tempo".into(),
                url: String::new(),
                is_default: false,
                access: String::new(),
            },
        ]))),
    );
    send(&mut m, Event::EnterPyroscope { now_unix_ms: 0 });
    m
}

fn series(pairs: &[(&str, &str)]) -> Vec<(String, String)> {
    pairs
        .iter()
        .map(|(s, t)| (s.to_string(), t.to_string()))
        .collect()
}

#[test]
fn units_of_profile_types() {
    let unit = ProfileUnit::from_profile_type_id("cpu:cpu:nanoseconds:cpu:nanoseconds");
    assert_eq!(unit, ProfileUnit::Nanoseconds);
    assert_eq!(unit.label(), "ns");
    assert_eq!(ProfileUnit::from_profile_type_id("a:b:bytes").label(), "bytes");
    assert_eq!(ProfileUnit::from_profile_type_id("a:b:short:c:d").label(), "count");
    assert_eq!(ProfileUnit::from_profile_type_id("").label(), "count");
}

#[test]
fn ranges_of_profiles() {
    assert_eq!(parse_time_range("2h"), Some(7200));
    assert_eq!(parse_time_range("3m"), Some(180));
    assert_eq!(parse_time_range("1d"), Some(86400));
    assert_eq!(parse_time_range("5s"), None);
    assert_eq!(parse_time_range("h"), None);
}

#[test]
fn usual_profile_type_is_preferred() {
    let mut m = profile_model();
    let usual = "process_cpu:cpu:nanoseconds:cpu:nanoseconds";
    send(
        &mut m,
        Event::PyroscopeSeriesLoaded(Ok(series(&[("a", "memory:x"), ("b", usual), ("c", "cpu:x")]))),
    );
    assert_eq!(m.series.profile_types, ["cpu:x", "memory:x", usual]);
    assert_eq!(view(&m).pyroscope_profile_type_index, 2);
    // A reload keeps the selection as far as it goes.
    send(
        &mut m,
        Event::PyroscopeSeriesLoaded(Ok(series(&[("a", "memory:x"), ("c", "cpu:x")]))),
    );
    assert_eq!(view(&m).pyroscope_profile_type_index, 0);
    send(&mut m, Event::PyroscopeSeriesLoaded(Err("down".into())));
    assert_eq!(view(&m).pyroscope_series_error.as_deref(), Some("down"));
    assert_eq!(view(&m).pyroscope_series.len(), 1);
}

#[test]
fn first_cpu_type_is_next_best() {
    let mut m = profile_model();
    send(
        &mut m,
        Event::PyroscopeSeriesLoaded(Ok(series(&[("a", "block:x"), ("b", "cpus:x"), ("c", "cpu:x")]))),
    );
    assert_eq!(m.series.profile_types, ["block:x", "cpu:x", "cpus:x"]);
    assert_eq!(view(&m).pyroscope_profile_type_index, 1);
}

#[test]
fn service_is_selected_by_name() {
    let mut m = profile_model();
    send(
        &mut m,
        Event::PyroscopeSeriesLoaded(Ok(series(&[("a", "t1"), ("b", "t1"), ("c", "t2")]))),
    );
    send(
        &mut m,
        Event::PyroscopeSelectByName {
            service_name: "b".into(),
            profile_type: "t1".into(),
        },
    );
    assert_eq!(view(&m).pyroscope_selected_service, "b");
    assert_eq!(view(&m).pyroscope_sub_screen, PyroscopeSubScreenView::Flamegraph);
    send(
        &mut m,
        Event::PyroscopeSelectByName {
            service_name: "c".into(),
            profile_type: "gone".into(),
        },
    );
    assert_eq!(view(&m).pyroscope_selected_service, "b");
    send(&mut m, Event::BackToServiceList);
    assert!(!view(&m).pyroscope_series_loading);
}

#[test]
fn views_load_what_they_lack() {
    let mut m = profile_model();
    send(&mut m, Event::PyroscopeSelectView(2));
    assert!(m.heatmap.loading && m.timeline.loading && !m.span_heatmap.loading);
    send(&mut m, Event::PyroscopeTimelineLoaded(Err("x".into())));
    send(&mut m, Event::PyroscopeSelectView(1));
    assert!(!m.timeline.loading);
    send(&mut m, Event::PyroscopeSelectView(7));
    assert_eq!(view(&m).pyroscope_sub_screen, PyroscopeSubScreenView::Timeline);
    send(&mut m, Event::PyroscopeSelectView(3));
    assert!(m.span_heatmap.loading);
    send(&mut m, Event::PyroscopeSelectView(0));
    assert_eq!(view(&m).pyroscope_sub_screen, PyroscopeSubScreenView::Flamegraph);
}

// ── Flamegraph ───────────────────────────────────────────────────────────────

#[test]
fn gaps_become_offsets() {
    let mut fg = graph(
        100,
        &["a"],
        &[&[0, 100, 0, 0], &[10, 20, 0, 0, 5, 30, 0, 0, 0, 7, 0, 0]],
    );
    assert!(fg.deltas_in_range());
    fg.normalize_deltas();
    assert_eq!(fg.levels[1].values, [10, 20, 0, 0, 35, 30, 0, 0, 65, 7, 0, 0]);
}

#[test]
fn moves_stay_in_the_graph() {
    let fg = graph(
        100,
        &["root", "a", "b"],
        &[&[0, 100, 0, 0], &[0, 60, 60, 1, 60, 40, 40, 2]],
    );
    let mut nav = FlamegraphNav::default();
    nav.move_up(&fg);
    assert_eq!((nav.sel_level, nav.sel_frame), (1, 0));
    nav.move_right(&fg);
    assert_eq!((nav.sel_level, nav.sel_frame), (1, 1));
    nav.move_right(&fg);
    assert_eq!((nav.sel_level, nav.sel_frame), (1, 1));
    nav.zoom_in(&fg);
    assert_eq!((nav.root_level, nav.root_frame), (1, 1));
    let shown = build_flamegraph_view(&fg, &nav);
    assert_eq!(shown.root_samples, 40);
    assert_eq!(shown.levels.len(), 1);
    assert_eq!(shown.levels[0].frames.len(), 1);
    assert_eq!(shown.levels[0].frames[0].x_start, 0);
    assert_eq!(shown.selected_name, "b");
    assert_eq!(shown.selected_self_samples, 40);
    nav.zoom_out();
    assert_eq!(nav.root_level, 0);
    nav.move_left(&fg);
    assert_eq!((nav.sel_level, nav.sel_frame), (1, 0));
    nav.move_down(&fg);
    assert_eq!((nav.sel_level, nav.sel_frame), (0, 0));
    nav.move_down(&fg);
    assert_eq!((nav.sel_level, nav.sel_frame), (0, 0));
}

#[test]
fn sandwich_toggles_on_the_selected_frame() {
    let mut m = profile_model();
    send(
        &mut m,
        Event::PyroscopeFlamegraphLoaded(Ok(Some(graph(
            100,
            &["root", "a"],
            &[&[0, 100, 0, 0], &[10, 60, 60, 1]],
        )))),
    );
    assert!(view(&m).flamegraph.is_some());
    send(&mut m, Event::FlameMoveUp);
    send(&mut m, Event::FlameSandwich);
    {
        let shown = view(&m);
        let sandwich = shown.sandwich_view.unwrap();
        assert_eq!(sandwich.target_name, "a");
        assert_eq!(sandwich.target_samples, 60);
        assert_eq!(sandwich.callers[0].frames[0].name, "root");
        assert!(sandwich.callees.is_empty());
    }
    send(&mut m, Event::FlameMoveDown);
    send(&mut m, Event::FlameSandwich);
    assert_eq!(m.flame.sandwich_name.as_deref(), Some("root"));
    send(&mut m, Event::FlameSandwich);
    assert_eq!(m.flame.sandwich_name, None);
    send(&mut m, Event::FlameSandwich);
    send(&mut m, Event::FlameSandwichClear);
    assert_eq!(m.flame.sandwich_name, None);
    send(&mut m, Event::FlamegraphViewportChars(10));
    assert_eq!(m.flame.nav.viewport_chars, 10);
}

#[test]
fn sandwich_of_an_unknown_function() {
    let fg = graph(10, &["root"], &[&[0, 10, 10, 0]]);
    assert!(build_sandwich_view(&fg, "gone", "ns".into()).is_none());
}

// ── Timeline and heatmaps ────────────────────────────────────────────────────

#[test]
fn timeline_groups_by_time() {
    let list = vec![
        TimelineSeries {
            labels: vec![("pod".into(), "1".into()), ("ns".into(), "x".into())],
            points: vec![point(20, 1.0), point(10, 2.0)],
            exemplars: vec![],
        },
        TimelineSeries {
            labels: vec![("pod".into(), "2".into()), ("ns".into(), "x".into())],
            points: vec![point(20, 4.0)],
            exemplars: vec![],
        },
    ];
    let shown = build_timeline_view(&list).unwrap();
    let slots: Vec<(i64, f64)> = shown
        .slots
        .iter()
        .map(|s| {
            (
                s.timestamp_ms,
                s.value_bits.iter().map(|b| f64::from_bits(*b)).sum(),
            )
        })
        .collect();
    assert_eq!(slots, [(10, 2.0), (20, 5.0)]);
    assert_eq!((shown.start_ms, shown.end_ms), (10, 20));
    assert_eq!(shown.varying_label_keys, ["pod"]);
    assert!(build_timeline_view(&vec![]).is_none());
}

#[test]
fn exemplars_sorted_by_value() {
    let list = vec![TimelineSeries {
        labels: vec![],
        points: vec![point(1, 1.0)],
        exemplars: vec![
            exemplar(1, &[("pod", "a")]),
            exemplar(5, &[("pod", "b")]),
            exemplar(3, &[("pod", "b")]),
        ],
    }];
    let shown = build_timeline_view(&list).unwrap();
    let values: Vec<i64> = shown.exemplars.iter().map(|e| e.value).collect();
    assert_eq!(values, [5, 3, 1]);
    assert_eq!(shown.varying_label_keys, ["pod"]);
}

#[test]
fn varying_keys_of_exemplars() {
    let one = vec![exemplar(1, &[("z", "1"), ("a", "2")])];
    assert_eq!(compute_varying_label_keys_exemplars(&one), ["z", "a"]);
    let two = vec![
        exemplar(1, &[("z", "1"), ("a", "2")]),
        exemplar(1, &[("z", "2"), ("a", "2")]),
    ];
    assert_eq!(compute_varying_label_keys_exemplars(&two), ["z"]);
    assert!(compute_varying_label_keys_exemplars(&vec![]).is_empty());
}

#[test]
fn heatmap_merges_slots_of_one_time() {
    let slot = |timestamp_ms: i64, counts: Vec<i32>| HeatmapSlot {
        timestamp_ms,
        step_ms: 10,
        y_min_bits: vec![0.0_f64.to_bits(), 1.0_f64.to_bits()],
        counts,
        exemplars: vec![exemplar(timestamp_ms, &[])],
    };
    let slots = vec![slot(30, vec![1, 2]), slot(20, vec![5, 0]), slot(30, vec![i32::MAX, 1])];
    let shown = build_heatmap_view(&slots).unwrap();
    assert_eq!(shown.columns, [vec![0, 5], vec![3, i32::MAX]]);
    assert_eq!(shown.max_count, i32::MAX);
    assert_eq!((shown.start_ms, shown.end_ms, shown.step_ms), (10, 30, 10));
    assert_eq!(shown.n_buckets, 2);
    assert_eq!(shown.exemplars.len(), 3);
    assert!(build_heatmap_view(&vec![]).is_none());
}

#[test]
fn exemplars_are_selected_around() {
    let mut m = profile_model();
    send(&mut m, Event::PyroscopeSelectView(1));
    send(
        &mut m,
        Event::PyroscopeTimelineLoaded(Ok(vec![TimelineSeries {
            labels: vec![],
            points: vec![],
            exemplars: vec![exemplar(1, &[]), exemplar(2, &[])],
        }])),
    );
    send(&mut m, Event::ExemplarSelectPrev);
    assert_eq!(view(&m).pyroscope_exemplar_index, 1);
    send(&mut m, Event::ExemplarSelectNext);
    assert_eq!(view(&m).pyroscope_exemplar_index, 0);
    send(&mut m, Event::ExemplarDetailOpen);
    assert!(view(&m).exemplar_detail_open);
}

#[test]
fn traces_of_spans() {
    let mut m = profile_model();
    send(&mut m, Event::SpanHeatmapOpenTempoPicker);
    send(&mut m, Event::SpanHeatmapTempoPickerPrev);
    assert_eq!(view(&m).tempo_picker_index, 1);
    assert_eq!(view(&m).tempo_datasources[1].name, "T2");
    send(&mut m, Event::ToggleFavourite("u3".into()));
    assert_eq!(view(&m).tempo_datasources[0].name, "T2");
    send(
        &mut m,
        Event::SpanHeatmapTempoResultLoaded {
            span_id: "s".into(),
            trace_id: String::new(),
        },
    );
    assert!(view(&m).span_trace_lookup.keys().is_empty());
    send(
        &mut m,
        Event::SpanHeatmapTempoBatchLoaded(vec![("s".into(), "t".into()), ("r".into(), "q".into())]),
    );
    assert_eq!(view(&m).span_trace_lookup.get(&"s".to_string()), Some(&"t".to_string()));
    assert_eq!(view(&m).span_trace_lookup.keys().len(), 2);
    send(&mut m, Event::SpanHeatmapClearResults);
    assert!(!view(&m).span_trace_lookup.contains_key(&"s".to_string()));
}

#[test]
fn direct_callers_stand_in_the_last_row() {
    // root > long > mid > target and root > short > target
    let fg = graph(
        100,
        &["root", "long", "short", "mid", "target"],
        &[
            &[0, 100, 0, 0],
            &[0, 60, 0, 1, 60, 40, 0, 2],
            &[0, 60, 0, 3, 60, 40, 40, 4],
            &[0, 60, 60, 4],
        ],
    );
    let sandwich = build_sandwich_view(&fg, "target", "ns".into()).unwrap();
    let names: Vec<Vec<&str>> = sandwich
        .callers
        .iter()
        .map(|row| row.frames.iter().map(|f| f.name.as_str()).collect())
        .collect();
    assert_eq!(names, [vec!["root"], vec!["long"], vec!["mid", "short"]]);
}

#[test]
fn frame_of_one_character_is_moved_to() {
    // 400 samples on 200 characters: 2 samples take one character.
    let fg = graph(
        400,
        &["r", "a", "b"],
        &[&[0, 400, 0, 0], &[0, 397, 397, 1, 397, 1, 1, 1, 398, 2, 2, 2]],
    );
    let mut nav = FlamegraphNav {
        sel_level: 1,
        ..FlamegraphNav::default()
    };
    assert!(nav.right_in_range(&fg));
    nav.move_right(&fg);
    assert_eq!(nav.sel_frame, 2);
    assert!(nav.left_in_range(&fg));
    nav.move_left(&fg);
    assert_eq!(nav.sel_frame, 0);
}

#[test]
fn frames_behind_the_target_do_not_matter() {
    // The last frame ends at an offset that cannot be counted.
    let fg = graph(
        100,
        &["r", "a"],
        &[&[0, 100, 0, 0], &[0, 40, 0, 1, 40, 40, 0, 1, -1, -1, 0, 1]],
    );
    let mut nav = FlamegraphNav {
        sel_level: 1,
        ..FlamegraphNav::default()
    };
    assert!(nav.right_in_range(&fg));
    nav.move_right(&fg);
    assert_eq!(nav.sel_frame, 1);
    assert!(!nav.right_in_range(&fg));
    assert!(nav.left_in_range(&fg) && nav.down_in_range(&fg) && nav.zoom_in_range(&fg));
    nav.sel_frame = 9;
    assert!(!nav.left_in_range(&fg));
}

#[test]
fn up_and_down_leads_back() {
    let fg = graph(
        100,
        &["r", "a", "b"],
        &[
            &[0, 100, 0, 0],
            &[0, 50, 0, 1, 50, 50, 0, 2],
            &[10, 20, 20, 1, 60, 30, 30, 2],
        ],
    );
    for frame in 0..2 {
        let start = FlamegraphNav {
            sel_level: 1,
            sel_frame: frame,
            ..FlamegraphNav::default()
        };
        let mut nav = start;
        assert!(nav.up_in_range(&fg));
        nav.move_up(&fg);
        assert_eq!((nav.sel_level, nav.sel_frame), (2, frame));
        assert!(nav.down_in_range(&fg));
        nav.move_down(&fg);
        assert_eq!(nav, start);
    }
}

#[test]
fn right_and_left_leads_back() {
    let fg = graph(
        100,
        &["r", "a"],
        &[&[0, 100, 0, 0], &[0, 40, 0, 1, 40, 0, 0, 1, 40, 60, 0, 1]],
    );
    let start = FlamegraphNav {
        sel_level: 1,
        ..FlamegraphNav::default()
    };
    let mut nav = start;
    nav.move_right(&fg);
    assert_eq!(nav.sel_frame, 2);
    nav.move_left(&fg);
    assert_eq!(nav, start);
}
