//! What is shown of the state.

use crate::app::ExploreTui;
use crate::collections::{AssocMap, StringSet};
use crate::loki::{LokiEntry, LokiStream};
use crate::model::{
    Datasource, HistoryEntryView, LokiDiagnosticView, Model, PyroscopeSubScreen, Screen,
};
use crate::order::{places, sort_strings, sorted_texts, texts};
use crate::prometheus::app::{completions, get_completions};
use crate::prometheus::types::PrometheusVectorItem;
use crate::pyroscope::flamegraph::{flamegraph_shows, view_in_range};
use crate::pyroscope::heatmap::{heatmap_fits, heatmap_in_range, heatmap_shows};
use crate::pyroscope::sandwich::{
    occurrences_of, sandwich_shows, sandwich_view_fits, try_build_sandwich_view,
};
use crate::pyroscope::timeline::{all_points, timeline_shows};
use crate::pyroscope::units::{unit_label, unit_of};
use crate::pyroscope::{
    build_flamegraph_view, build_heatmap_view, build_sandwich_view, build_timeline_view, flamegraph,
    FlamegraphView, HeatmapView, ProfileUnit, SandwichView, TimelineView,
};
use crate::select::{
    clamp_index, clamped, favourites_first, filtered_pyroscope_series_indices,
    listed_datasources, listed_series, order_favourites, sorted_datasource_indices,
    tempo_datasource_indices, tempo_datasources,
};
use crate::suggest::{drop_repeats, without_repeats};
use crate::tempo::{TempoSpan, TempoTrace};
use crate::text::{opt_text, str_eq};
use vstd::prelude::*;
use vstd::string::*;

verus! {

// ── Types ────────────────────────────────────────────────────────────────────

/// A datasource as it is shown.
#[derive(Debug, Clone)]
pub struct DatasourceView {
    pub id: u64,
    pub uid: String,
    pub name: String,
    pub ds_type: String,
    pub url: String,
    pub is_default: bool,
    pub is_favourite: bool,
}

/// The screens.
#[derive(Debug, Clone, Copy, PartialEq, Eq, Structural)]
pub enum ScreenView {
    DatasourceList,
    QueryMode,
    PyroscopeMode,
    TempoMode,
    TempoTraceDetail,
    LokiMode,
}

impl Default for ScreenView {
    fn default() -> (r: Self)
        ensures
            r == ScreenView::DatasourceList,
    {
        ScreenView::DatasourceList
    }
}

/// The screens of profiles.
#[derive(Debug, Clone, Copy, PartialEq, Eq, Structural)]
pub enum PyroscopeSubScreenView {
    ServiceList,
    Flamegraph,
    Timeline,
    ProfileHeatmap,
    SpanHeatmap,
}

impl Default for PyroscopeSubScreenView {
    fn default() -> (r: Self)
        ensures
            r == PyroscopeSubScreenView::ServiceList,
    {
        PyroscopeSubScreenView::ServiceList
    }
}

/// Query results as a table.
#[derive(Debug, Clone)]
pub struct QueryResultsView {
    pub columns: Vec<String>,
    pub rows: Vec<Vec<String>>,
}

/// What is shown of the state.
#[derive(Debug)]
pub struct ViewModel<'a> {
    pub datasources: Vec<DatasourceView>,
    pub loading: bool,
    pub error: &'a Option<String>,
    pub selected_index: usize,
    pub datasource_filter: &'a String,
    pub datasource_filter_focused: bool,
    pub history_entries: &'a Vec<HistoryEntryView>,
    pub history_panel_focused: bool,
    pub history_selected_index: usize,
    pub screen: ScreenView,
    pub query: &'a String,
    pub cursor_pos: usize,
    pub query_loading: bool,
    pub query_error: &'a Option<String>,
    pub query_results: Option<QueryResultsView>,
    pub selected_datasource_name: Option<String>,
    pub completions: Vec<String>,
    pub completion_index: Option<usize>,
    pub completions_loading: bool,
    pub time_range: &'a String,
    pub time_range_picker_open: bool,
    pub time_range_picker_index: usize,
    /// 0 = preset list, 1 = absolute From, 2 = absolute To
    pub time_range_picker_focus: u8,
    pub time_range_picker_abs_from: &'a String,
    pub time_range_picker_abs_to: &'a String,
    pub time_range_picker_from_cursor: usize,
    pub time_range_picker_to_cursor: usize,
    pub pyroscope_sub_screen: PyroscopeSubScreenView,
    pub pyroscope_series_loading: bool,
    pub pyroscope_series_error: &'a Option<String>,
    /// Services and profile types, as they are shown
    pub pyroscope_series: Vec<(String, String)>,
    pub pyroscope_profile_types: &'a Vec<String>,
    pub pyroscope_profile_type_index: usize,
    pub pyroscope_profile_type_dropdown_open: bool,
    pub pyroscope_service_filter: &'a String,
    pub pyroscope_service_filter_focused: bool,
    pub pyroscope_series_index: usize,
    pub pyroscope_selected_service: &'a String,
    pub pyroscope_selected_profile_type: &'a String,
    pub pyroscope_flamegraph_loading: bool,
    pub pyroscope_flamegraph_error: &'a Option<String>,
    pub flamegraph: Option<FlamegraphView>,
    pub sandwich_view: Option<SandwichView>,
    pub pyroscope_timeline_loading: bool,
    pub pyroscope_timeline_error: &'a Option<String>,
    pub timeline: Option<TimelineView<'a>>,
    pub pyroscope_heatmap_loading: bool,
    pub pyroscope_heatmap_error: &'a Option<String>,
    pub heatmap: Option<HeatmapView<'a>>,
    pub pyroscope_span_heatmap_loading: bool,
    pub pyroscope_span_heatmap_error: &'a Option<String>,
    pub span_heatmap: Option<HeatmapView<'a>>,
    pub pyroscope_exemplar_index: usize,
    pub exemplar_detail_open: bool,
    pub tempo_datasource_picker_open: bool,
    pub tempo_picker_index: usize,
    pub tempo_datasources: Vec<DatasourceView>,
    pub span_trace_loading: bool,
    pub span_trace_lookup: &'a AssocMap<String, String>,
    pub tempo_query: &'a String,
    pub tempo_cursor_pos: usize,
    pub tempo_loading: bool,
    pub tempo_error: &'a Option<String>,
    pub tempo_results: &'a Vec<TempoTrace>,
    pub tempo_results_selected: usize,
    pub trace_detail_trace_id: &'a String,
    pub trace_detail_spans: &'a Vec<TempoSpan>,
    pub trace_detail_loading: bool,
    pub trace_detail_error: &'a Option<String>,
    pub trace_detail_selected: usize,
    pub trace_detail_filter: &'a String,
    pub trace_detail_filter_focused: bool,
    pub trace_detail_attr_scroll: usize,
    pub loki_loading: bool,
    pub loki_error: &'a Option<String>,
    pub loki_results: &'a Vec<LokiStream>,
    pub loki_selected_row: usize,
    pub loki_context_open: bool,
    pub loki_context_loading: bool,
    pub loki_context_error: &'a Option<String>,
    pub loki_context_entries: &'a Vec<LokiEntry>,
    pub loki_context_highlight_index: usize,
    pub loki_context_labels: &'a String,
    pub loki_diagnostics: &'a Vec<LokiDiagnosticView>,
}

// ── Datasources ──────────────────────────────────────────────────────────────

/// The name under which a type of datasource is shown.
pub open spec fn normalized_type(ds_type: Seq<char>) -> Seq<char> {
    if ds_type == "grafana-pyroscope-datasource"@ || ds_type == "phlare"@ {
        "pyroscope"@
    } else {
        ds_type
    }
}

/// The name under which a type of datasource is shown.
pub fn normalize_ds_type(ds_type: &str) -> (r: &str)
    ensures
        r@ == normalized_type(ds_type@),
{
    if str_eq(ds_type, "grafana-pyroscope-datasource") || str_eq(ds_type, "phlare") {
        "pyroscope"
    } else {
        ds_type
    }
}

/// Whether `v` shows a datasource.
pub open spec fn datasource_shows(
    ds: Datasource,
    favourites: Set<Seq<char>>,
    v: DatasourceView,
) -> bool {
    &&& v.id == ds.id
    &&& v.uid@ == ds.uid@
    &&& v.name@ == ds.name@
    &&& v.ds_type@ == normalized_type(ds.ds_type@)
    &&& v.url@ == ds.url@
    &&& v.is_default == ds.is_default
    &&& v.is_favourite == favourites.contains(ds.uid@)
}

/// Whether `views` show the datasources at `indices`, in that order.
pub open spec fn datasources_show(
    ds: Seq<Datasource>,
    favourites: Set<Seq<char>>,
    indices: Seq<int>,
    views: Seq<DatasourceView>,
) -> bool {
    &&& views.len() == indices.len()
    &&& forall|k: int|
        0 <= k < views.len() ==> datasource_shows(ds[indices[k]], favourites, #[trigger] views[k])
}

fn view_datasource(ds: &Datasource, favourites: &StringSet) -> (r: DatasourceView)
    ensures
        datasource_shows(*ds, favourites@, r),
{
    DatasourceView {
        id: ds.id,
        uid: ds.uid.clone(),
        name: ds.name.clone(),
        ds_type: normalize_ds_type(ds.ds_type.as_str()).to_string(),
        url: ds.url.clone(),
        is_default: ds.is_default,
        is_favourite: favourites.contains(ds.uid.as_str()),
    }
}

fn view_datasources(ds: &Vec<Datasource>, favourites: &StringSet, indices: &Vec<usize>) -> (r: Vec<
    DatasourceView,
>)
    requires
        forall|k: int| 0 <= k < indices.len() ==> #[trigger] indices@[k] < ds.len(),
    ensures
        datasources_show(ds@, favourites@, places(indices@), r@),
        r.len() == indices.len(),
{
    let mut out: Vec<DatasourceView> = Vec::new();
    let mut i: usize = 0;
    while i < indices.len()
        invariant
            i <= indices.len(),
            forall|k: int| 0 <= k < indices.len() ==> #[trigger] indices@[k] < ds.len(),
            out.len() == i,
            forall|k: int|
                0 <= k < i ==> datasource_shows(
                    ds@[places(indices@)[k]],
                    favourites@,
                    #[trigger] out@[k],
                ),
        decreases indices.len() - i,
    {
        assert(indices@[i as int] < ds.len());
        out.push(view_datasource(&ds[indices[i]], favourites));
        i += 1;
    }
    assert(places(indices@).len() == indices.len());
    out
}

// ── Query results ────────────────────────────────────────────────────────────

/// The value of a label; empty without that label.
pub open spec fn label_value(metric: Seq<(String, String)>, key: Seq<char>) -> Seq<char>
    decreases metric.len(),
{
    if metric.len() == 0 {
        seq![]
    } else if metric[0].0@ == key {
        metric[0].1@
    } else {
        label_value(metric.drop_first(), key)
    }
}

/// The label names of all samples, sample by sample.
pub open spec fn label_names(results: Seq<PrometheusVectorItem>) -> Seq<Seq<char>>
    decreases results.len(),
{
    if results.len() == 0 {
        seq![]
    } else {
        label_names(results.drop_last()) + results.last().metric@.map_values(
            |p: (String, String)| p.0@,
        )
    }
}

/// The columns: all label names, each once, in the order of text.
pub open spec fn label_columns(results: Seq<PrometheusVectorItem>) -> Seq<Seq<char>> {
    without_repeats(sorted_texts(label_names(results)))
}

/// A row: the labels of a sample, and its value.
pub open spec fn result_row(columns: Seq<Seq<char>>, item: PrometheusVectorItem) -> Seq<Seq<char>> {
    columns.map_values(|key: Seq<char>| label_value(item.metric@, key)).push(item.value.1@)
}

/// The rows of all samples.
pub open spec fn result_rows(results: Seq<PrometheusVectorItem>) -> Seq<Seq<Seq<char>>> {
    results.map_values(|item: PrometheusVectorItem| result_row(label_columns(results), item))
}

/// The texts of rows.
pub open spec fn row_texts(rows: Seq<Vec<String>>) -> Seq<Seq<Seq<char>>> {
    rows.map_values(|row: Vec<String>| texts(row@))
}

/// Whether `v` is the table of some results.
pub open spec fn results_show(results: Seq<PrometheusVectorItem>, v: QueryResultsView) -> bool {
    &&& texts(v.columns@) == label_columns(results).push("value"@)
    &&& row_texts(v.rows@) == result_rows(results)
}

fn find_label(metric: &Vec<(String, String)>, key: &str) -> (r: String)
    ensures
        r@ == label_value(metric@, key@),
{
    let mut i: usize = 0;
    assert(metric@.skip(0) =~= metric@);
    while i < metric.len()
        invariant
            i <= metric.len(),
            label_value(metric@, key@) == label_value(metric@.skip(i as int), key@),
        decreases metric.len() - i,
    {
        assert(metric@.skip(i as int)[0] == metric@[i as int]);
        assert(metric@.skip(i as int).drop_first() =~= metric@.skip(i + 1));
        if str_eq(metric[i].0.as_str(), key) {
            return metric[i].1.clone();
        }
        i += 1;
    }
    let r = String::new();
    assert(r@ =~= seq![]);
    r
}

fn collect_label_names(results: &Vec<PrometheusVectorItem>) -> (r: Vec<String>)
    ensures
        texts(r@) == label_names(results@),
{
    let mut out: Vec<String> = Vec::new();
    let mut i: usize = 0;
    assert(texts(out@) =~= seq![]);
    assert(results@.take(0) =~= seq![]);
    while i < results.len()
        invariant
            i <= results.len(),
            texts(out@) == label_names(results@.take(i as int)),
        decreases results.len() - i,
    {
        let metric = &results[i].metric;
        let ghost names = metric@.map_values(|p: (String, String)| p.0@);
        let ghost before = texts(out@);
        let mut k: usize = 0;
        assert(before + names.take(0) =~= before);
        while k < metric.len()
            invariant
                k <= metric.len(),
                names == metric@.map_values(|p: (String, String)| p.0@),
                texts(out@) == before + names.take(k as int),
            decreases metric.len() - k,
        {
            let ghost so_far = texts(out@);
            out.push(metric[k].0.clone());
            assert(texts(out@) =~= so_far.push(metric@[k as int].0@));
            assert(names.take(k + 1) =~= names.take(k as int).push(names[k as int]));
            k += 1;
        }
        assert(names.take(k as int) =~= names);
        assert(results@.take(i + 1).drop_last() =~= results@.take(i as int));
        i += 1;
    }
    assert(results@.take(i as int) =~= results@);
    out
}

fn make_row(columns: &Vec<String>, item: &PrometheusVectorItem) -> (r: Vec<String>)
    ensures
        texts(r@) == result_row(texts(columns@), *item),
{
    let mut row: Vec<String> = Vec::new();
    let mut i: usize = 0;
    while i < columns.len()
        invariant
            i <= columns.len(),
            row.len() == i,
            forall|k: int|
                0 <= k < i ==> (#[trigger] row@[k])@ == label_value(item.metric@, columns@[k]@),
        decreases columns.len() - i,
    {
        row.push(find_label(&item.metric, columns[i].as_str()));
        i += 1;
    }
    row.push(item.value.1.clone());
    assert(texts(row@) =~= result_row(texts(columns@), *item));
    row
}

/// The table of some results: a column for each label and one for the value.
pub fn build_query_results_view(results: &Vec<PrometheusVectorItem>) -> (r: QueryResultsView)
    ensures
        results_show(results@, r),
{
    let mut names = collect_label_names(results);
    sort_strings(&mut names);
    let mut columns = drop_repeats(&names);
    let ghost keys = label_columns(results@);
    let mut rows: Vec<Vec<String>> = Vec::new();
    let mut i: usize = 0;
    while i < results.len()
        invariant
            i <= results.len(),
            texts(columns@) == keys,
            rows.len() == i,
            forall|k: int|
                0 <= k < i ==> texts((#[trigger] rows@[k])@) == result_row(keys, results@[k]),
        decreases results.len() - i,
    {
        rows.push(make_row(&columns, &results[i]));
        i += 1;
    }
    columns.push("value".to_string());
    assert(texts(columns@) =~= keys.push("value"@));
    assert(row_texts(rows@) =~= result_rows(results@));
    QueryResultsView { columns, rows }
}

// ── The whole view ───────────────────────────────────────────────────────────

/// Whether `post` is the screen `pre`.
pub open spec fn screen_shows(pre: Screen, post: ScreenView) -> bool {
    match pre {
        Screen::DatasourceList => post == ScreenView::DatasourceList,
        Screen::QueryMode => post == ScreenView::QueryMode,
        Screen::PyroscopeMode => post == ScreenView::PyroscopeMode,
        Screen::TempoMode => post == ScreenView::TempoMode,
        Screen::TempoTraceDetail => post == ScreenView::TempoTraceDetail,
        Screen::LokiMode => post == ScreenView::LokiMode,
    }
}

/// Whether `post` is the screen of profiles `pre`.
pub open spec fn sub_screen_shows(pre: PyroscopeSubScreen, post: PyroscopeSubScreenView) -> bool {
    match pre {
        PyroscopeSubScreen::ServiceList => post == PyroscopeSubScreenView::ServiceList,
        PyroscopeSubScreen::Flamegraph => post == PyroscopeSubScreenView::Flamegraph,
        PyroscopeSubScreen::Timeline => post == PyroscopeSubScreenView::Timeline,
        PyroscopeSubScreen::ProfileHeatmap => post == PyroscopeSubScreenView::ProfileHeatmap,
        PyroscopeSubScreen::SpanHeatmap => post == PyroscopeSubScreenView::SpanHeatmap,
    }
}

/// The label of the unit of the profile that is open.
pub open spec fn profile_units(m: Model) -> Seq<char> {
    unit_label(unit_of(m.series.selected_profile_type@))
}

/// What is shown as it stands in the state.
pub open spec fn copied_shows(m: Model, v: ViewModel<'_>) -> bool {
    &&& v.loading == m.datasources.loading
    &&& *v.error == m.datasources.error
    &&& *v.datasource_filter == m.datasources.filter
    &&& v.datasource_filter_focused == m.datasources.filter_focused
    &&& *v.history_entries == m.history.entries
    &&& v.history_panel_focused == m.history.panel_focused
    &&& *v.query == m.promql.query
    &&& v.cursor_pos == m.promql.cursor_pos
    &&& v.query_loading == m.promql.loading
    &&& *v.query_error == m.promql.error
    &&& v.completion_index == m.completion.index
    &&& *v.time_range == m.time_range
    &&& v.time_range_picker_open == m.picker.open
    &&& v.time_range_picker_index == m.picker.index
    &&& v.time_range_picker_focus == m.picker.focus
    &&& *v.time_range_picker_abs_from == m.picker.abs_from
    &&& *v.time_range_picker_abs_to == m.picker.abs_to
    &&& v.time_range_picker_from_cursor == m.picker.from_cursor
    &&& v.time_range_picker_to_cursor == m.picker.to_cursor
    &&& v.pyroscope_series_loading == m.series.loading
    &&& *v.pyroscope_series_error == m.series.error
    &&& *v.pyroscope_profile_types == m.series.profile_types
    &&& v.pyroscope_profile_type_index == m.series.profile_type_index
    &&& v.pyroscope_profile_type_dropdown_open == m.series.dropdown_open
    &&& *v.pyroscope_service_filter == m.series.filter
    &&& v.pyroscope_service_filter_focused == m.series.filter_focused
    &&& *v.pyroscope_selected_service == m.series.selected_service
    &&& *v.pyroscope_selected_profile_type == m.series.selected_profile_type
    &&& v.pyroscope_flamegraph_loading == m.flame.loading
    &&& *v.pyroscope_flamegraph_error == m.flame.error
    &&& v.pyroscope_timeline_loading == m.timeline.loading
    &&& *v.pyroscope_timeline_error == m.timeline.error
    &&& v.pyroscope_heatmap_loading == m.heatmap.loading
    &&& *v.pyroscope_heatmap_error == m.heatmap.error
    &&& v.pyroscope_span_heatmap_loading == m.span_heatmap.loading
    &&& *v.pyroscope_span_heatmap_error == m.span_heatmap.error
    &&& v.pyroscope_exemplar_index == m.exemplar_index
    &&& v.exemplar_detail_open == m.exemplar_detail_open
    &&& v.tempo_datasource_picker_open == m.span_traces.picker_open
    &&& v.span_trace_loading == m.span_traces.loading
    &&& *v.span_trace_lookup == m.span_traces.lookup
    &&& *v.tempo_query == m.tempo.query
    &&& v.tempo_cursor_pos == m.tempo.cursor_pos
    &&& v.tempo_loading == m.tempo.loading
    &&& *v.tempo_error == m.tempo.error
    &&& *v.tempo_results == m.tempo.results
    &&& v.tempo_results_selected == m.tempo.selected
    &&& *v.trace_detail_trace_id == m.trace.trace_id
    &&& *v.trace_detail_spans == m.trace.spans
    &&& v.trace_detail_loading == m.trace.loading
    &&& *v.trace_detail_error == m.trace.error
    &&& v.trace_detail_selected == m.trace.selected
    &&& *v.trace_detail_filter == m.trace.filter
    &&& v.trace_detail_filter_focused == m.trace.filter_focused
    &&& v.trace_detail_attr_scroll == m.trace.attr_scroll
    &&& v.loki_loading == m.loki.loading
    &&& *v.loki_error == m.loki.error
    &&& *v.loki_results == m.loki.results
    &&& v.loki_selected_row == m.loki.selected_row
    &&& v.loki_context_open == m.log_context.open
    &&& v.loki_context_loading == m.log_context.loading
    &&& *v.loki_context_error == m.log_context.error
    &&& *v.loki_context_entries == m.log_context.entries
    &&& v.loki_context_highlight_index == m.log_context.highlight_index
    &&& *v.loki_context_labels == m.log_context.labels
    &&& *v.loki_diagnostics == m.loki.diagnostics
}

/// What is shown of lists: the datasources as `listed_datasources` has them, the
/// services as `listed_series`, with places cut to those lists.
pub open spec fn lists_show(m: Model, v: ViewModel<'_>) -> bool {
    let ds = m.datasources.items@;
    let favourites = m.datasources.favourites@;
    let shown = listed_datasources(m);
    let place = clamped(m.datasources.selected_index as int, shown.len() as int);
    let series = listed_series(m);
    let tempo = tempo_datasources(ds);
    &&& datasources_show(ds, favourites, shown, v.datasources@)
    &&& v.selected_index == place
    &&& opt_text(v.selected_datasource_name) == (if shown.len() == 0 {
        None
    } else {
        Some(ds[shown[place]].name@)
    })
    &&& v.history_selected_index == clamped(
        m.history.selected_index as int,
        m.history.entries@.len() as int,
    )
    &&& series_show(m, series, v.pyroscope_series@)
    &&& v.pyroscope_series_index == clamped(m.series.index as int, series.len() as int)
    &&& datasources_show(ds, favourites, favourites_first(ds, favourites, tempo), v.tempo_datasources@)
    &&& v.tempo_picker_index == clamped(m.span_traces.picker_index as int, tempo.len() as int)
}

/// Whether `pairs` are the services and profile types at `indices`.
pub open spec fn series_show(m: Model, indices: Seq<int>, pairs: Seq<(String, String)>) -> bool {
    &&& pairs.len() == indices.len()
    &&& forall|k: int|
        0 <= k < pairs.len() ==> {
            &&& (#[trigger] pairs[k]).0@ == m.series.items@[indices[k]].service_name@
            &&& pairs[k].1@ == m.series.items@[indices[k]].profile_type_id@
        }
}

/// What is shown of a query: its results as a table, and completions.
pub open spec fn query_shows(m: Model, v: ViewModel<'_>) -> bool {
    &&& match (m.promql.results, v.query_results) {
        (Some(results), Some(table)) => results_show(results@, table),
        (None, None) => true,
        _ => false,
    }
    &&& texts(v.completions@) == completions(m)
    &&& v.completions_loading == (m.completion.metric_names_loading
        || m.completion.label_names_loading)
}

/// What is shown of a profile.
pub open spec fn profile_shows(m: Model, v: ViewModel<'_>) -> bool {
    &&& match (m.flame.graph, v.flamegraph) {
        (Some(fg), Some(view)) => flamegraph_shows(fg, m.flame.nav, profile_units(m), view),
        (None, None) => true,
        _ => false,
    }
    &&& sandwich_shown(m, v.sandwich_view)
    &&& match v.timeline {
        Some(view) => all_points(m.timeline.series@).len() > 0 && timeline_shows(
            m.timeline.series@,
            view,
        ),
        None => all_points(m.timeline.series@).len() == 0,
    }
    &&& match v.heatmap {
        Some(view) => m.heatmap.slots@.len() > 0 && heatmap_shows(m.heatmap.slots@, view),
        None => m.heatmap.slots@.len() == 0,
    }
    &&& match v.span_heatmap {
        Some(view) => m.span_heatmap.slots@.len() > 0 && heatmap_shows(
            m.span_heatmap.slots@,
            view,
        ),
        None => m.span_heatmap.slots@.len() == 0,
    }
}

/// The sandwich view is that of the function that it is open for, where that
/// occurs in the flamegraph.
pub open spec fn sandwich_shown(m: Model, v: Option<SandwichView>) -> bool {
    match (m.flame.sandwich_name, m.flame.graph) {
        (Some(name), Some(fg)) => {
            &&& v is Some <==> occurrences_of(fg, name@).len() > 0
            &&& v is Some ==> sandwich_shows(fg, name@, profile_units(m), v->0)
        },
        _ => v is None,
    }
}

/// Whether `v` shows the state.
pub open spec fn shows(m: Model, v: ViewModel<'_>) -> bool {
    &&& screen_shows(m.screen, v.screen)
    &&& sub_screen_shows(m.sub_screen, v.pyroscope_sub_screen)
    &&& copied_shows(m, v)
    &&& lists_show(m, v)
    &&& query_shows(m, v)
    &&& profile_shows(m, v)
}

/// Whether the state can be shown: what is counted for it stays in range.
pub open spec fn view_fits(m: Model) -> bool {
    &&& match m.flame.graph {
        Some(fg) => {
            &&& flamegraph::view_fits(fg, m.flame.nav)
            &&& match m.flame.sandwich_name {
                Some(name) => sandwich_view_fits(fg, name@),
                None => true,
            }
        },
        None => true,
    }
    &&& heatmap_fits(m.heatmap.slots@)
    &&& heatmap_fits(m.span_heatmap.slots@)
}

/// Whether the state can be shown.
pub fn view_ready(m: &Model) -> (r: bool)
    ensures
        r == view_fits(*m),
{
    let flame = match &m.flame.graph {
        Some(fg) => view_in_range(fg, &m.flame.nav) && match &m.flame.sandwich_name {
            Some(name) => try_build_sandwich_view(fg, name.as_str(), String::new()).is_some(),
            None => true,
        },
        None => true,
    };
    flame && heatmap_in_range(&m.heatmap.slots) && heatmap_in_range(&m.span_heatmap.slots)
}

fn view_screen(screen: Screen) -> (r: ScreenView)
    ensures
        screen_shows(screen, r),
{
    match screen {
        Screen::DatasourceList => ScreenView::DatasourceList,
        Screen::QueryMode => ScreenView::QueryMode,
        Screen::PyroscopeMode => ScreenView::PyroscopeMode,
        Screen::TempoMode => ScreenView::TempoMode,
        Screen::TempoTraceDetail => ScreenView::TempoTraceDetail,
        Screen::LokiMode => ScreenView::LokiMode,
    }
}

fn view_sub_screen(screen: PyroscopeSubScreen) -> (r: PyroscopeSubScreenView)
    ensures
        sub_screen_shows(screen, r),
{
    match screen {
        PyroscopeSubScreen::ServiceList => PyroscopeSubScreenView::ServiceList,
        PyroscopeSubScreen::Flamegraph => PyroscopeSubScreenView::Flamegraph,
        PyroscopeSubScreen::Timeline => PyroscopeSubScreenView::Timeline,
        PyroscopeSubScreen::ProfileHeatmap => PyroscopeSubScreenView::ProfileHeatmap,
        PyroscopeSubScreen::SpanHeatmap => PyroscopeSubScreenView::SpanHeatmap,
    }
}

fn view_series(m: &Model, indices: &Vec<usize>) -> (r: Vec<(String, String)>)
    requires
        forall|k: int| 0 <= k < indices.len() ==> #[trigger] indices@[k] < m.series.items.len(),
    ensures
        series_show(*m, places(indices@), r@),
{
    let mut out: Vec<(String, String)> = Vec::new();
    let mut i: usize = 0;
    while i < indices.len()
        invariant
            i <= indices.len(),
            forall|k: int| 0 <= k < indices.len() ==> #[trigger] indices@[k] < m.series.items.len(),
            out.len() == i,
            forall|k: int|
                0 <= k < i ==> {
                    &&& (#[trigger] out@[k]).0@ == m.series.items@[places(
                        indices@,
                    )[k]].service_name@
                    &&& out@[k].1@ == m.series.items@[places(indices@)[k]].profile_type_id@
                },
        decreases indices.len() - i,
    {
        assert(indices@[i as int] < m.series.items.len());
        let item = &m.series.items[indices[i]];
        out.push((item.service_name.clone(), item.profile_type_id.clone()));
        i += 1;
    }
    assert(places(indices@).len() == indices.len());
    out
}

fn view_flamegraph(m: &Model) -> (r: Option<FlamegraphView>)
    requires
        view_fits(*m),
    ensures
        match (m.flame.graph, r) {
            (Some(fg), Some(view)) => flamegraph_shows(fg, m.flame.nav, profile_units(*m), view),
            (None, None) => true,
            _ => false,
        },
{
    match &m.flame.graph {
        Some(fg) => {
            let mut view = build_flamegraph_view(fg, &m.flame.nav);
            let unit = ProfileUnit::from_profile_type_id(m.series.selected_profile_type.as_str());
            view.units = unit.label().to_string();
            Some(view)
        },
        None => None,
    }
}

fn view_sandwich(m: &Model) -> (r: Option<SandwichView>)
    requires
        view_fits(*m),
    ensures
        sandwich_shown(*m, r),
{
    match (&m.flame.sandwich_name, &m.flame.graph) {
        (Some(name), Some(fg)) => {
            let unit = ProfileUnit::from_profile_type_id(m.series.selected_profile_type.as_str());
            build_sandwich_view(fg, name.as_str(), unit.label().to_string())
        },
        _ => None,
    }
}

impl ExploreTui {
    /// What is shown of a state.
    pub fn view<'a>(&self, model: &'a Model) -> (v: ViewModel<'a>)
        requires
            view_fits(*model),
        ensures
            shows(*model, v),
    {
        let ds = &model.datasources.items;
        let favourites = &model.datasources.favourites;
        let indices = sorted_datasource_indices(model);
        let selected_index = clamp_index(model.datasources.selected_index, indices.len());
        let datasources = view_datasources(ds, favourites, &indices);
        let selected_datasource_name = if selected_index < indices.len() {
            let i = indices[selected_index];
            assert(places(indices@)[selected_index as int] == i);
            Some(ds[i].name.clone())
        } else {
            None
        };
        let query_results = match &model.promql.results {
            Some(results) => Some(build_query_results_view(results)),
            None => None,
        };
        let completions = get_completions(model);
        let completions_loading = model.completion.metric_names_loading
            || model.completion.label_names_loading;
        let flamegraph = view_flamegraph(model);
        let sandwich_view = view_sandwich(model);
        let timeline = build_timeline_view(&model.timeline.series);
        let heatmap = build_heatmap_view(&model.heatmap.slots);
        let span_heatmap = build_heatmap_view(&model.span_heatmap.slots);
        let shown_series = filtered_pyroscope_series_indices(model);
        let pyroscope_series_index = clamp_index(model.series.index, shown_series.len());
        let pyroscope_series = view_series(model, &shown_series);
        let history_selected_index = clamp_index(
            model.history.selected_index,
            model.history.entries.len(),
        );
        let tempo = tempo_datasource_indices(ds);
        let tempo_order = order_favourites(ds, favourites, &tempo);
        let tempo_datasources = view_datasources(ds, favourites, &tempo_order);
        let tempo_picker_index = clamp_index(model.span_traces.picker_index, tempo.len());
        let screen = view_screen(model.screen);
        let pyroscope_sub_screen = view_sub_screen(model.sub_screen);
        ViewModel {
            datasources,
            loading: model.datasources.loading,
            error: &model.datasources.error,
            selected_index,
            datasource_filter: &model.datasources.filter,
            datasource_filter_focused: model.datasources.filter_focused,
            history_entries: &model.history.entries,
            history_panel_focused: model.history.panel_focused,
            history_selected_index,
            screen,
            query: &model.promql.query,
            cursor_pos: model.promql.cursor_pos,
            query_loading: model.promql.loading,
            query_error: &model.promql.error,
            query_results,
            selected_datasource_name,
            completions,
            completion_index: model.completion.index,
            completions_loading,
            time_range: &model.time_range,
            time_range_picker_open: model.picker.open,
            time_range_picker_index: model.picker.index,
            time_range_picker_focus: model.picker.focus,
            time_range_picker_abs_from: &model.picker.abs_from,
            time_range_picker_abs_to: &model.picker.abs_to,
            time_range_picker_from_cursor: model.picker.from_cursor,
            time_range_picker_to_cursor: model.picker.to_cursor,
            pyroscope_sub_screen,
            pyroscope_series_loading: model.series.loading,
            pyroscope_series_error: &model.series.error,
            pyroscope_series,
            pyroscope_profile_types: &model.series.profile_types,
            pyroscope_profile_type_index: model.series.profile_type_index,
            pyroscope_profile_type_dropdown_open: model.series.dropdown_open,
            pyroscope_service_filter: &model.series.filter,
            pyroscope_service_filter_focused: model.series.filter_focused,
            pyroscope_series_index,
            pyroscope_selected_service: &model.series.selected_service,
            pyroscope_selected_profile_type: &model.series.selected_profile_type,
            pyroscope_flamegraph_loading: model.flame.loading,
            pyroscope_flamegraph_error: &model.flame.error,
            flamegraph,
            sandwich_view,
            pyroscope_timeline_loading: model.timeline.loading,
            pyroscope_timeline_error: &model.timeline.error,
            timeline,
            pyroscope_heatmap_loading: model.heatmap.loading,
            pyroscope_heatmap_error: &model.heatmap.error,
            heatmap,
            pyroscope_span_heatmap_loading: model.span_heatmap.loading,
            pyroscope_span_heatmap_error: &model.span_heatmap.error,
            span_heatmap,
            pyroscope_exemplar_index: model.exemplar_index,
            exemplar_detail_open: model.exemplar_detail_open,
            tempo_datasource_picker_open: model.span_traces.picker_open,
            tempo_picker_index,
            tempo_datasources,
            span_trace_loading: model.span_traces.loading,
            span_trace_lookup: &model.span_traces.lookup,
            tempo_query: &model.tempo.query,
            tempo_cursor_pos: model.tempo.cursor_pos,
            tempo_loading: model.tempo.loading,
            tempo_error: &model.tempo.error,
            tempo_results: &model.tempo.results,
            tempo_results_selected: model.tempo.selected,
            trace_detail_trace_id: &model.trace.trace_id,
            trace_detail_spans: &model.trace.spans,
            trace_detail_loading: model.trace.loading,
            trace_detail_error: &model.trace.error,
            trace_detail_selected: model.trace.selected,
            trace_detail_filter: &model.trace.filter,
            trace_detail_filter_focused: model.trace.filter_focused,
            trace_detail_attr_scroll: model.trace.attr_scroll,
            loki_loading: model.loki.loading,
            loki_error: &model.loki.error,
            loki_results: &model.loki.results,
            loki_selected_row: model.loki.selected_row,
            loki_context_open: model.log_context.open,
            loki_context_loading: model.log_context.loading,
            loki_context_error: &model.log_context.error,
            loki_context_entries: &model.log_context.entries,
            loki_context_highlight_index: model.log_context.highlight_index,
            loki_context_labels: &model.log_context.labels,
            loki_diagnostics: &model.loki.diagnostics,
        }
    }
}

} // verus!
