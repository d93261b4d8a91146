//! What events do to each other, and what they leave alone.

use crate::app::step;
use crate::list::datasources_loaded;
use crate::loki::app::total_rows;
use crate::loki::types::{LokiEntry, LokiStream};
use crate::model::{Command, Datasource, Event, HttpError, Model, PyroscopeSubScreen, Screen};
use crate::prometheus::app::{query_edited, result_loaded, with_input};
use crate::pyroscope::app::exemplars_shown;
use crate::select::{filtered, lemma_next_prev, listed_series, next_of, prev_of, tempo_datasources};
use crate::prometheus::types::PrometheusResponse;
use crate::pyroscope::flamegraph::FlameGraph;
use crate::pyroscope::heatmap::HeatmapSlot;
use crate::pyroscope::timeline::TimelineSeries;
use crate::tempo::app::shown_spans;
use crate::tempo::types::{TempoSpan, TempoTrace};
use crate::text::{opt_text, trimmed};
use crate::time_range::{datetime_ns, lemma_absolute_resolves, resolved_ns, PRESETS};
use crate::time_range_picker::{picked_range, picker_opened, preset_place, range_committed};
use vstd::arithmetic::div_mod::*;
use vstd::prelude::*;
use vstd::string::*;

verus! {

// ── Lists ────────────────────────────────────────────────────────────────────

/// The place behind `i` of `n`, and behind the last the first.
pub open spec fn behind(i: int, n: int) -> int {
    if i == n - 1 {
        0
    } else {
        i + 1
    }
}

proof fn lemma_behind(i: int, n: int)
    requires
        0 <= i < n,
    ensures
        next_of(i, n) == behind(i, n),
        behind(prev_of(i, n), n) == i,
        0 <= prev_of(i, n) < n,
{
    if i < n - 1 {
        lemma_small_mod((i + 1) as nat, n as nat);
    } else {
        lemma_mod_self_0(n);
    }
    if i > 0 {
        lemma_mod_add_multiples_vanish(i - 1, n);
        lemma_small_mod((i - 1) as nat, n as nat);
    } else {
        lemma_small_mod((n - 1) as nat, n as nat);
    }
}

/// On each list the events that move on select the place behind, from the last the first; those
/// that move back undo that. Nothing else changes.
pub proof fn lemma_moves_on(a: Model, b: Model, event: Event, cmd: Command)
    requires
        step(event, a, b, cmd),
    ensures
        event is SelectNext && a.screen == Screen::DatasourceList
            && a.datasources.selected_index < filtered(a).len() ==> b.datasources.selected_index
            == behind(a.datasources.selected_index as int, filtered(a).len() as int),
        event is HistorySelectNext && a.history.selected_index < a.history.entries@.len()
            ==> b.history.selected_index == behind(
            a.history.selected_index as int,
            a.history.entries@.len() as int,
        ),
        event is TempoSelectNext && a.tempo.selected < a.tempo.results@.len() ==> b.tempo.selected
            == behind(a.tempo.selected as int, a.tempo.results@.len() as int),
        event is TempoTraceDetailNext && a.trace.selected < shown_spans(a) ==> b.trace.selected
            == behind(a.trace.selected as int, shown_spans(a)),
        event is LokiSelectNextRow && a.loki.selected_row < total_rows(a) ==> b.loki.selected_row
            == behind(a.loki.selected_row as int, total_rows(a)),
        event is PyroscopeSeriesNext && a.series.index < listed_series(a).len() ==> b.series.index
            == behind(a.series.index as int, listed_series(a).len() as int),
        event is PyroscopeProfileTypeNext && a.series.profile_type_index
            < a.series.profile_types@.len() ==> b.series.profile_type_index == behind(
            a.series.profile_type_index as int,
            a.series.profile_types@.len() as int,
        ),
        event is ExemplarSelectNext && a.exemplar_index < exemplars_shown(a) ==> b.exemplar_index
            == behind(a.exemplar_index as int, exemplars_shown(a)),
        event is SpanHeatmapTempoPickerNext && a.span_traces.picker_index < tempo_datasources(
            a.datasources.items@,
        ).len() ==> b.span_traces.picker_index == behind(
            a.span_traces.picker_index as int,
            tempo_datasources(a.datasources.items@).len() as int,
        ),
        event is TimeRangePickerNext && a.picker.focus == 0 && a.picker.index < PRESETS@.len()
            ==> b.picker.index == behind(a.picker.index as int, PRESETS@.len() as int),
{
    if event is SelectNext && a.datasources.selected_index < filtered(a).len() {
        lemma_behind(a.datasources.selected_index as int, filtered(a).len() as int);
    }
    if a.history.selected_index < a.history.entries@.len() {
        lemma_behind(a.history.selected_index as int, a.history.entries@.len() as int);
    }
    if a.tempo.selected < a.tempo.results@.len() {
        lemma_behind(a.tempo.selected as int, a.tempo.results@.len() as int);
    }
    if a.trace.selected < shown_spans(a) {
        lemma_behind(a.trace.selected as int, shown_spans(a));
    }
    if a.loki.selected_row < total_rows(a) {
        lemma_behind(a.loki.selected_row as int, total_rows(a));
    }
    if a.series.index < listed_series(a).len() {
        lemma_behind(a.series.index as int, listed_series(a).len() as int);
    }
    if a.series.profile_type_index < a.series.profile_types@.len() {
        lemma_behind(
            a.series.profile_type_index as int,
            a.series.profile_types@.len() as int,
        );
    }
    if a.exemplar_index < exemplars_shown(a) {
        lemma_behind(a.exemplar_index as int, exemplars_shown(a));
    }
    let n = tempo_datasources(a.datasources.items@).len() as int;
    if a.span_traces.picker_index < n {
        lemma_behind(a.span_traces.picker_index as int, n);
    }
    if a.picker.index < PRESETS@.len() {
        lemma_behind(a.picker.index as int, PRESETS@.len() as int);
    }
}

/// Moving on and back again in the history changes nothing, nor does moving back and on.
pub proof fn lemma_history_there_and_back(
    a: Model,
    b: Model,
    c: Model,
    d: Model,
    e: Model,
    cmd: Command,
)
    requires
        a.history.selected_index < a.history.entries@.len(),
        step(Event::HistorySelectNext, a, b, cmd),
        step(Event::HistorySelectPrev, b, c, cmd),
        step(Event::HistorySelectPrev, a, d, cmd),
        step(Event::HistorySelectNext, d, e, cmd),
    ensures
        c == a,
        e == a,
{
    lemma_next_prev(a.history.selected_index as int, a.history.entries@.len() as int);
}

/// Moving on and back again in the list of traces changes nothing, nor does moving back and on.
pub proof fn lemma_traces_there_and_back(
    a: Model,
    b: Model,
    c: Model,
    d: Model,
    e: Model,
    cmd: Command,
)
    requires
        a.tempo.selected < a.tempo.results@.len(),
        step(Event::TempoSelectNext, a, b, cmd),
        step(Event::TempoSelectPrev, b, c, cmd),
        step(Event::TempoSelectPrev, a, d, cmd),
        step(Event::TempoSelectNext, d, e, cmd),
    ensures
        c == a,
        e == a,
{
    lemma_next_prev(a.tempo.selected as int, a.tempo.results@.len() as int);
}

/// Moving on and back again in the log lines changes nothing, nor does moving back and on.
pub proof fn lemma_rows_there_and_back(
    a: Model,
    b: Model,
    c: Model,
    d: Model,
    e: Model,
    cmd: Command,
)
    requires
        a.loki.selected_row < total_rows(a),
        step(Event::LokiSelectNextRow, a, b, cmd),
        step(Event::LokiSelectPrevRow, b, c, cmd),
        step(Event::LokiSelectPrevRow, a, d, cmd),
        step(Event::LokiSelectNextRow, d, e, cmd),
    ensures
        c == a,
        e == a,
{
    assert(total_rows(b) == total_rows(a));
    assert(total_rows(d) == total_rows(a));
    lemma_next_prev(a.loki.selected_row as int, total_rows(a));
}

/// Moving on and back again in the list of services changes nothing, nor does moving back and on.
pub proof fn lemma_services_there_and_back(
    a: Model,
    b: Model,
    c: Model,
    d: Model,
    e: Model,
    cmd: Command,
)
    requires
        a.series.index < listed_series(a).len(),
        step(Event::PyroscopeSeriesNext, a, b, cmd),
        step(Event::PyroscopeSeriesPrev, b, c, cmd),
        step(Event::PyroscopeSeriesPrev, a, d, cmd),
        step(Event::PyroscopeSeriesNext, d, e, cmd),
    ensures
        c == a,
        e == a,
{
    assert(listed_series(b) == listed_series(a));
    assert(listed_series(d) == listed_series(a));
    lemma_next_prev(a.series.index as int, listed_series(a).len() as int);
}

/// Moving on and back again in the exemplars changes nothing, nor does moving back and on.
pub proof fn lemma_exemplars_there_and_back(
    a: Model,
    b: Model,
    c: Model,
    d: Model,
    e: Model,
    cmd: Command,
)
    requires
        a.exemplar_index < exemplars_shown(a),
        step(Event::ExemplarSelectNext, a, b, cmd),
        step(Event::ExemplarSelectPrev, b, c, cmd),
        step(Event::ExemplarSelectPrev, a, d, cmd),
        step(Event::ExemplarSelectNext, d, e, cmd),
    ensures
        c == a,
        e == a,
{
    assert(exemplars_shown(b) == exemplars_shown(a));
    assert(exemplars_shown(d) == exemplars_shown(a));
    lemma_next_prev(a.exemplar_index as int, exemplars_shown(a));
}

/// Moving on and back again in the datasources of traces changes nothing, nor does moving back and
/// on.
pub proof fn lemma_trace_sources_there_and_back(
    a: Model,
    b: Model,
    c: Model,
    d: Model,
    e: Model,
    cmd: Command,
)
    requires
        a.span_traces.picker_index < tempo_datasources(a.datasources.items@).len(),
        step(Event::SpanHeatmapTempoPickerNext, a, b, cmd),
        step(Event::SpanHeatmapTempoPickerPrev, b, c, cmd),
        step(Event::SpanHeatmapTempoPickerPrev, a, d, cmd),
        step(Event::SpanHeatmapTempoPickerNext, d, e, cmd),
    ensures
        c == a,
        e == a,
{
    lemma_next_prev(
        a.span_traces.picker_index as int,
        tempo_datasources(a.datasources.items@).len() as int,
    );
}

/// Moving on and back again in the ranges that the picker offers changes nothing, nor does moving
/// back and on.
pub proof fn lemma_presets_there_and_back(
    a: Model,
    b: Model,
    c: Model,
    d: Model,
    e: Model,
    cmd: Command,
)
    requires
        a.picker.index < PRESETS@.len(),
        step(Event::TimeRangePickerNext, a, b, cmd),
        step(Event::TimeRangePickerPrev, b, c, cmd),
        step(Event::TimeRangePickerPrev, a, d, cmd),
        step(Event::TimeRangePickerNext, d, e, cmd),
    ensures
        c == a,
        e == a,
{
    lemma_next_prev(a.picker.index as int, PRESETS@.len() as int);
}

// ── Panels ───────────────────────────────────────────────────────────────────

/// Which panels are open and which inputs have the focus.
pub open spec fn panels(m: Model) -> Seq<bool> {
    seq![
        m.datasources.filter_focused,
        m.history.panel_focused,
        m.series.dropdown_open,
        m.series.filter_focused,
        m.exemplar_detail_open,
        m.span_traces.picker_open,
        m.trace.filter_focused,
        m.span_traces.loading,
        m.picker.open,
    ]
}

/// Whether panel `k` is open in `b`, closed in `c`, and all others are as in `a`, but for `other`.
pub open spec fn only_panel(a: Model, b: Model, c: Model, k: int, other: int) -> bool {
    &&& panels(b)[k]
    &&& !panels(c)[k]
    &&& forall|j: int|
        0 <= j < 9 && j != k && j != other ==> #[trigger] panels(b)[j] == panels(a)[j]
            && panels(c)[j] == panels(a)[j]
    &&& a.screen == c.screen
    &&& a.sub_screen == c.sub_screen
}

/// Opening and leaving the filter of datasources does that, and nothing to other panels.
pub proof fn lemma_filter_open_and_close(a: Model, b: Model, c: Model, cmd: Command)
    requires
        step(Event::DatasourceFilterFocus, a, b, cmd),
        step(Event::DatasourceFilterBlur, b, c, cmd),
    ensures
        only_panel(a, b, c, 0, 0),
{
}

/// Opening and leaving the history does that. It takes the focus from the filter of datasources,
/// and does nothing to other panels.
pub proof fn lemma_history_panel_open_and_close(a: Model, b: Model, c: Model, cmd: Command)
    requires
        step(Event::HistoryPanelFocus, a, b, cmd),
        step(Event::HistoryPanelBlur, b, c, cmd),
    ensures
        only_panel(a, b, c, 1, 0),
        !panels(b)[0],
{
}

/// Opening and leaving the types of profiles does that, and nothing to other panels.
pub proof fn lemma_dropdown_open_and_close(a: Model, b: Model, c: Model, cmd: Command)
    requires
        step(Event::PyroscopeProfileTypeDropdownOpen, a, b, cmd),
        step(Event::PyroscopeProfileTypeDropdownClose, b, c, cmd),
    ensures
        only_panel(a, b, c, 2, 2),
{
}

/// Opening and leaving the filter of services does that, and nothing to other panels.
pub proof fn lemma_service_filter_open_and_close(a: Model, b: Model, c: Model, cmd: Command)
    requires
        step(Event::PyroscopeServiceFilterFocus, a, b, cmd),
        step(Event::PyroscopeServiceFilterBlur, b, c, cmd),
    ensures
        only_panel(a, b, c, 3, 3),
{
}

/// Opening and leaving the details of an exemplar does that, and nothing to other panels.
pub proof fn lemma_exemplar_detail_open_and_close(a: Model, b: Model, c: Model, cmd: Command)
    requires
        step(Event::ExemplarDetailOpen, a, b, cmd),
        step(Event::ExemplarDetailClose, b, c, cmd),
    ensures
        only_panel(a, b, c, 4, 4),
{
}

/// Opening and leaving the datasources of traces does that, and nothing to other panels.
pub proof fn lemma_trace_sources_open_and_close(a: Model, b: Model, c: Model, cmd: Command)
    requires
        step(Event::SpanHeatmapOpenTempoPicker, a, b, cmd),
        step(Event::SpanHeatmapCloseTempoPicker, b, c, cmd),
    ensures
        only_panel(a, b, c, 5, 5),
{
}

/// Opening and leaving the filter of spans does that, and nothing to other panels.
pub proof fn lemma_span_filter_open_and_close(a: Model, b: Model, c: Model, cmd: Command)
    requires
        step(Event::TempoTraceDetailFilterFocus, a, b, cmd),
        step(Event::TempoTraceDetailFilterBlur, b, c, cmd),
    ensures
        only_panel(a, b, c, 6, 6),
{
}

/// Opening and leaving the traces of spans does that, and nothing to other panels.
pub proof fn lemma_span_traces_open_and_close(a: Model, b: Model, c: Model, cmd: Command)
    requires
        step(Event::SpanHeatmapTempoLoadingStarted, a, b, cmd),
        step(Event::SpanHeatmapTempoLoadingDone, b, c, cmd),
    ensures
        only_panel(a, b, c, 7, 7),
{
}

/// Opening the picker and closing it again does that, and nothing to the rest.
pub proof fn lemma_picker_open_and_close(
    a: Model,
    b: Model,
    c: Model,
    now_unix_ms: i64,
    cmd: Command,
)
    requires
        step(Event::TimeRangePickerOpen { now_unix_ms }, a, b, cmd),
        step(Event::TimeRangePickerClose, b, c, cmd),
    ensures
        b.picker.open,
        !c.picker.open,
        c == (Model { picker: c.picker, ..a }),
{
    assert(picker_opened(a, b, now_unix_ms));
    assert(b == (Model { picker: b.picker, ..a }));
}

/// A frame that is shown as a sandwich and toggled again is not.
pub proof fn lemma_sandwich_twice(a: Model, b: Model, c: Model, x: Command, y: Command)
    requires
        a.flame.sandwich_name is None,
        step(Event::FlameSandwich, a, b, x),
        step(Event::FlameSandwich, b, c, y),
    ensures
        c.flame.sandwich_name is None,
        c == (Model { flame: c.flame, ..a }),
{
}

// ── Requests and replies ─────────────────────────────────────────────────────

/// Whether something is being loaded: datasources, query results, services, flamegraph, timeline,
/// both heatmaps, traces, spans, logs, and the context of a log line.
pub open spec fn loading(m: Model) -> Seq<bool> {
    seq![
        m.datasources.loading,
        m.promql.loading,
        m.series.loading,
        m.flame.loading,
        m.timeline.loading,
        m.heatmap.loading,
        m.span_heatmap.loading,
        m.tempo.loading,
        m.trace.loading,
        m.loki.loading,
        m.log_context.loading,
    ]
}

/// The errors shown beside what is being loaded.
pub open spec fn errors(m: Model) -> Seq<Option<Seq<char>>> {
    seq![
        opt_text(m.datasources.error),
        opt_text(m.promql.error),
        opt_text(m.series.error),
        opt_text(m.flame.error),
        opt_text(m.timeline.error),
        opt_text(m.heatmap.error),
        opt_text(m.span_heatmap.error),
        opt_text(m.tempo.error),
        opt_text(m.trace.error),
        opt_text(m.loki.error),
        opt_text(m.log_context.error),
    ]
}

/// Whether the reply on `k` of what is being loaded has ended that, shows its error if it is one,
/// and has done nothing to the rest.
pub open spec fn replied(a: Model, b: Model, k: int, error: Option<Seq<char>>) -> bool {
    &&& !loading(b)[k]
    &&& error is Some ==> errors(b)[k] == error
    &&& forall|j: int|
        0 <= j < 11 && j != k ==> #[trigger] loading(b)[j] == loading(a)[j] && errors(b)[j]
            == errors(a)[j]
    &&& a.screen == b.screen
    &&& a.sub_screen == b.sub_screen
}

/// A reply with services ends the loading of that alone. With an error, which is then shown, what
/// was there stays.
pub proof fn lemma_series_reply(
    a: Model,
    b: Model,
    result: Result<Vec<(String, String)>, String>,
    cmd: Command,
)
    requires
        step(Event::PyroscopeSeriesLoaded(result), a, b, cmd),
    ensures
        match result {
            Ok(found) => {
                &&& replied(a, b, 2, None)
                &&& b.series.items@.len() == found@.len()
                &&& b.series.index == 0
            },
            Err(e) => replied(a, b, 2, Some(e@)) && b.series.items == a.series.items,
        },
{
}

/// A reply with a flamegraph ends the loading of that alone. With an error, which is then shown,
/// what was there stays.
pub proof fn lemma_flamegraph_reply(
    a: Model,
    b: Model,
    result: Result<Option<FlameGraph>, String>,
    cmd: Command,
)
    requires
        step(Event::PyroscopeFlamegraphLoaded(result), a, b, cmd),
    ensures
        match result {
            Ok(found) => replied(a, b, 3, None) && (b.flame.graph is Some <==> found is Some),
            Err(e) => replied(a, b, 3, Some(e@)) && b.flame.graph == a.flame.graph,
        },
{
}

/// A reply with a timeline ends the loading of that alone. With an error, which is then shown, what
/// was there stays.
pub proof fn lemma_timeline_reply(
    a: Model,
    b: Model,
    result: Result<Vec<TimelineSeries>, String>,
    cmd: Command,
)
    requires
        step(Event::PyroscopeTimelineLoaded(result), a, b, cmd),
    ensures
        match result {
            Ok(found) => replied(a, b, 4, None) && b.timeline.series == found,
            Err(e) => replied(a, b, 4, Some(e@)) && b.timeline.series == a.timeline.series,
        },
{
}

/// A reply with a heatmap of profiles ends the loading of that alone. With an error, which is then
/// shown, what was there stays.
pub proof fn lemma_heatmap_reply(
    a: Model,
    b: Model,
    result: Result<Vec<HeatmapSlot>, String>,
    cmd: Command,
)
    requires
        step(Event::PyroscopeHeatmapLoaded(result), a, b, cmd),
    ensures
        match result {
            Ok(found) => replied(a, b, 5, None) && b.heatmap.slots == found,
            Err(e) => replied(a, b, 5, Some(e@)) && b.heatmap.slots == a.heatmap.slots,
        },
{
}

/// A reply with a heatmap of spans ends the loading of that alone. With an error, which is then
/// shown, what was there stays.
pub proof fn lemma_span_heatmap_reply(
    a: Model,
    b: Model,
    result: Result<Vec<HeatmapSlot>, String>,
    cmd: Command,
)
    requires
        step(Event::PyroscopeSpanHeatmapLoaded(result), a, b, cmd),
    ensures
        match result {
            Ok(found) => replied(a, b, 6, None) && b.span_heatmap.slots == found,
            Err(e) => replied(a, b, 6, Some(e@)) && b.span_heatmap.slots == a.span_heatmap.slots,
        },
{
}

/// A reply with traces ends the loading of that alone. With an error, which is then shown, what was
/// there stays.
pub proof fn lemma_traces_reply(
    a: Model,
    b: Model,
    result: Result<Vec<TempoTrace>, String>,
    cmd: Command,
)
    requires
        step(Event::TempoResultLoaded(result), a, b, cmd),
    ensures
        match result {
            Ok(found) => {
                &&& replied(a, b, 7, None)
                &&& errors(b)[7] is None
                &&& b.tempo.results == found
                &&& b.tempo.selected == 0
            },
            Err(e) => replied(a, b, 7, Some(e@)) && b.tempo.results == a.tempo.results,
        },
{
}

/// A reply with spans ends the loading of that alone. With an error, which is then shown, what was
/// there stays.
pub proof fn lemma_spans_reply(
    a: Model,
    b: Model,
    result: Result<Vec<TempoSpan>, String>,
    cmd: Command,
)
    requires
        step(Event::TempoTraceDetailLoaded(result), a, b, cmd),
    ensures
        match result {
            Ok(found) => {
                &&& replied(a, b, 8, None)
                &&& errors(b)[8] is None
                &&& b.trace.spans == found
                &&& b.trace.selected == 0
            },
            Err(e) => replied(a, b, 8, Some(e@)) && b.trace.spans == a.trace.spans,
        },
{
}

/// A reply with logs ends the loading of that alone. With an error, which is then shown, what was
/// there stays.
pub proof fn lemma_logs_reply(
    a: Model,
    b: Model,
    result: Result<Vec<LokiStream>, String>,
    cmd: Command,
)
    requires
        step(Event::LokiResultLoaded(result), a, b, cmd),
    ensures
        match result {
            Ok(found) => {
                &&& replied(a, b, 9, None)
                &&& errors(b)[9] is None
                &&& b.loki.results == found
                &&& b.loki.selected_row == 0
            },
            Err(e) => replied(a, b, 9, Some(e@)) && b.loki.results == a.loki.results,
        },
{
}

/// A reply with the context of a log line ends the loading of that alone. With an error, which is
/// then shown, what was there stays.
pub proof fn lemma_context_reply(
    a: Model,
    b: Model,
    result: Result<(Vec<LokiEntry>, usize), String>,
    cmd: Command,
)
    requires
        step(Event::LokiContextLoaded(result), a, b, cmd),
    ensures
        match result {
            Ok(found) => {
                &&& replied(a, b, 10, None)
                &&& errors(b)[10] is None
                &&& b.log_context.entries == found.0
                &&& b.log_context.highlight_index == found.1
            },
            Err(e) => replied(a, b, 10, Some(e@)) && b.log_context.entries == a.log_context.entries,
        },
{
}

/// A reply with datasources ends the loading of that alone; one with an error leaves them.
pub proof fn lemma_datasources_reply(
    a: Model,
    b: Model,
    found: Result<Option<Vec<Datasource>>, HttpError>,
    cmd: Command,
)
    requires
        step(Event::DatasourcesLoaded(found), a, b, cmd),
    ensures
        !loading(b)[0],
        b == (Model { datasources: b.datasources, ..a }),
        found is Err ==> errors(b)[0] is Some && b.datasources.items == a.datasources.items,
{
    assert(datasources_loaded(a, b, found));
}

/// A reply with query results ends the loading of that alone; one with an error leaves them.
pub proof fn lemma_results_reply(
    a: Model,
    b: Model,
    found: Result<Option<PrometheusResponse>, HttpError>,
    cmd: Command,
)
    requires
        step(Event::QueryResultLoaded(found), a, b, cmd),
    ensures
        !loading(b)[1],
        b == (Model { promql: b.promql, ..a }),
        b.promql.query == a.promql.query,
        found is Err ==> errors(b)[1] is Some && b.promql.results == a.promql.results,
        found is Ok ==> b.promql.results is Some,
{
    assert(result_loaded(a, b, found));
}

/// The events that ask for something start the loading of it, and take the error there away.
pub proof fn lemma_requests(
    a: Model,
    b: Model,
    c: Model,
    d: Model,
    e: Model,
    f: Model,
    cmd: Command,
    other: Command,
)
    requires
        step(Event::FetchDatasources, a, b, cmd),
        a.datasources.items@.len() > 0,
        step(Event::ExecuteQuery, a, c, other),
        step(Event::TempoOpenTrace, a, d, Command::Render),
        trimmed(a.tempo.query@).len() > 0,
        step(Event::TempoExecuteQuery, a, e, Command::Render),
        trimmed(a.loki.query@).len() > 0,
        step(Event::LokiExecuteQuery, a, f, Command::Render),
    ensures
        loading(b)[0] && errors(b)[0] is None,
        loading(c)[1] && errors(c)[1] is None && c.promql.results is None,
        loading(d)[8] && errors(d)[8] is None && d.trace.spans@.len() == 0,
        loading(e)[7] && errors(e)[7] is None && e.tempo.results@.len() == 0,
        loading(f)[9] && errors(f)[9] is None && f.loki.results@.len() == 0,
{
}

/// The view that a number stands for: flamegraph, timeline, heatmap of profiles, heatmap of spans.
pub open spec fn view_of(idx: usize) -> Option<PyroscopeSubScreen> {
    if idx == 0 {
        Some(PyroscopeSubScreen::Flamegraph)
    } else if idx == 1 {
        Some(PyroscopeSubScreen::Timeline)
    } else if idx == 2 {
        Some(PyroscopeSubScreen::ProfileHeatmap)
    } else if idx == 3 {
        Some(PyroscopeSubScreen::SpanHeatmap)
    } else {
        None
    }
}

/// A view that is selected is shown, and loaded if it has nothing to show and has not failed; a
/// number without a view selects none.
pub proof fn lemma_select_view(a: Model, b: Model, idx: usize, cmd: Command)
    requires
        step(Event::PyroscopeSelectView(idx), a, b, cmd),
    ensures
        match view_of(idx) {
            Some(shown) => b.sub_screen == shown,
            None => b == a,
        },
        b.screen == a.screen,
        idx == 1 || idx == 2 ==> b.timeline.loading == (a.timeline.loading || (
        a.timeline.series@.len() == 0 && a.timeline.error is None)),
        idx == 2 ==> b.heatmap.loading == (a.heatmap.loading || (a.heatmap.slots@.len() == 0
            && a.heatmap.error is None)),
        idx == 3 ==> b.span_heatmap.loading == (a.span_heatmap.loading || (
        a.span_heatmap.slots@.len() == 0 && a.span_heatmap.error is None)),
        idx != 1 && idx != 2 ==> b.timeline == a.timeline,
        idx != 2 ==> b.heatmap == a.heatmap,
        idx != 3 ==> b.span_heatmap == a.span_heatmap,
{
}

/// The events that leave a screen lead to the list of datasources, and from the spans of a trace to
/// the traces; they change nothing else.
pub proof fn lemma_back(a: Model, b: Model, event: Event, cmd: Command)
    requires
        step(event, a, b, cmd),
        event is BackToDatasources || event is BackFromTempo || event is BackFromLoki
            || event is BackFromPyroscope || event is BackFromTraceDetail,
    ensures
        b == (Model { screen: b.screen, ..a }),
        b.screen == if event is BackFromTraceDetail {
            Screen::TempoMode
        } else {
            Screen::DatasourceList
        },
{
}

/// A range that is committed is loaded anew on the screen that shows it: profiles, logs or traces.
pub proof fn lemma_committed_range_loads(a: Model, b: Model, event: Event, cmd: Command)
    requires
        event is TimeRangePickerCommit,
        step(event, a, b, cmd),
    ensures
        a.screen == Screen::PyroscopeMode ==> b.series.loading && b.series.error is None,
        a.screen == Screen::LokiMode ==> b.loki.loading && b.loki.error is None,
        a.screen == Screen::TempoMode ==> b.tempo.loading && b.tempo.error is None,
        a.screen != Screen::PyroscopeMode ==> b.series == a.series,
        a.screen != Screen::LokiMode ==> b.loki == a.loki,
        a.screen != Screen::TempoMode ==> b.tempo == a.tempo,
        !b.picker.open,
{
}

/// A screen that is entered starts empty: no query, no results, no error, nothing loading.
pub proof fn lemma_entered_empty(a: Model, logs: Model, traces: Model, cmd: Command)
    requires
        step(Event::EnterLoki, a, logs, cmd),
        step(Event::EnterTempo, a, traces, cmd),
    ensures
        logs.screen == Screen::LokiMode,
        logs.loki.query@.len() == 0 && logs.loki.cursor_pos == 0 && logs.loki.results@.len() == 0,
        logs.loki.error is None && !logs.loki.loading && logs.loki.selected_row == 0,
        !logs.log_context.open,
        traces.screen == Screen::TempoMode,
        traces.tempo.query@.len() == 0 && traces.tempo.cursor_pos == 0,
        traces.tempo.results@.len() == 0 && traces.tempo.selected == 0,
        traces.tempo.error is None && !traces.tempo.loading,
{
}

/// A profile that is opened shows the selected service with its flamegraph being loaded, and
/// nothing of the profile before it.
pub proof fn lemma_opened_profile(a: Model, b: Model, event: Event, cmd: Command)
    requires
        event is PyroscopeSelectSeries,
        a.series.index < listed_series(a).len(),
        step(event, a, b, cmd),
    ensures
        ({
            let item = a.series.items@[listed_series(a)[a.series.index as int]];
            &&& b.series.selected_service@ == item.service_name@
            &&& b.series.selected_profile_type@ == item.profile_type_id@
        }),
        b.sub_screen == PyroscopeSubScreen::Flamegraph,
        loading(b)[3] && errors(b)[3] is None && b.flame.graph is None,
        b.timeline.series@.len() == 0 && !b.timeline.loading,
        b.heatmap.slots@.len() == 0 && !b.heatmap.loading,
        b.span_heatmap.slots@.len() == 0 && !b.span_heatmap.loading,
        b.flame.nav.root_level == 0 && b.flame.nav.sel_level == 0 && b.flame.nav.sel_frame == 0,
{
}

// ── Scrolling ────────────────────────────────────────────────────────────────

/// A line down and up again is no scrolling; up from the first line neither.
pub proof fn lemma_scroll(a: Model, b: Model, c: Model, x: Command, y: Command)
    requires
        a.trace.attr_scroll < usize::MAX,
        step(Event::TempoTraceDetailAttrScrollDown, a, b, x),
        step(Event::TempoTraceDetailAttrScrollUp, b, c, y),
    ensures
        b.trace.attr_scroll == a.trace.attr_scroll + 1,
        c == a,
{
}

// ── Time ranges ──────────────────────────────────────────────────────────────

/// The picker opened on a range that it offers and committed as it is keeps the range.
pub proof fn lemma_open_and_commit(
    a: Model,
    b: Model,
    c: Model,
    k: int,
    now_unix_ms: i64,
    commit: Event,
    cmd: Command,
)
    requires
        0 <= k < PRESETS@.len(),
        a.time_range@ == PRESETS@[k]@,
        step(Event::TimeRangePickerOpen { now_unix_ms }, a, b, cmd),
        commit is TimeRangePickerCommit,
        step(commit, b, c, cmd),
    ensures
        c.time_range@ == a.time_range@,
{
    assert(picker_opened(a, b, now_unix_ms));
    assert(preset_place(a.time_range@, b.picker.index as int));
    assert(range_committed(b, c));
    assert(picked_range(b.picker) == PRESETS@[b.picker.index as int]@);
}

/// Two datetimes that are committed from the fields are the range that is resolved, whatever the
/// time is.
pub proof fn lemma_committed_datetimes(a: Model, b: Model, commit: Event, cmd: Command, now_ns: int)
    requires
        a.picker.focus != 0,
        datetime_ns(trimmed(a.picker.abs_from@)) is Some,
        datetime_ns(trimmed(a.picker.abs_to@)) is Some,
        !trimmed(a.picker.abs_from@).contains('/'),
        commit is TimeRangePickerCommit,
        step(commit, a, b, cmd),
    ensures
        resolved_ns(b.time_range@, now_ns) == (
            datetime_ns(trimmed(a.picker.abs_from@))->0,
            datetime_ns(trimmed(a.picker.abs_to@))->0,
        ),
{
    assert(range_committed(a, b));
    lemma_absolute_resolves(trimmed(a.picker.abs_from@), trimmed(a.picker.abs_to@), now_ns);
}

/// The focus of the picker goes from the ranges to the first field, to the second, and back to the
/// ranges.
pub proof fn lemma_focus_goes_round(a: Model, b: Model, c: Model, d: Model, cmd: Command)
    requires
        a.picker.focus == 0,
        step(Event::TimeRangePickerToggleFocus, a, b, cmd),
        step(Event::TimeRangePickerToggleFocus, b, c, cmd),
        step(Event::TimeRangePickerToggleFocus, c, d, cmd),
    ensures
        b.picker.focus == 1 && b.picker.from_cursor == 0,
        c.picker.focus == 2 && c.picker.to_cursor == 0,
        d.picker.focus == 0,
        d == (Model { picker: d.picker, ..a }),
        d.picker.index == a.picker.index,
        d.picker.abs_from == a.picker.abs_from,
        d.picker.abs_to == a.picker.abs_to,
{
}

// ── Editing ──────────────────────────────────────────────────────────────────

/// A character typed into the query can be deleted from before it too.
pub proof fn lemma_type_and_delete(
    a: Model,
    b: Model,
    c: Model,
    d: Model,
    typed: char,
    cmd: Command,
)
    requires
        a.wf(),
        step(Event::QueryInput(typed), a, b, cmd),
        step(Event::CursorLeft, b, c, cmd),
        step(Event::QueryDelete, c, d, cmd),
    ensures
        d.promql.query@ == a.promql.query@,
        d.promql.cursor_pos == a.promql.cursor_pos,
{
    assert(query_edited(
        a,
        b,
        with_input(a.promql, typed),
        a.promql.cursor_pos + 1,
    ));
    assert(d.promql.query@ =~= a.promql.query@);
}

/// The cursor goes right and left again without a change, unless it is at the end; and home and end
/// are the ends of the query.
pub proof fn lemma_cursor_moves(
    a: Model,
    b: Model,
    c: Model,
    home: Model,
    end: Model,
    cmd: Command,
)
    requires
        a.promql.cursor_pos < a.promql.query@.len(),
        step(Event::CursorRight, a, b, cmd),
        step(Event::CursorLeft, b, c, cmd),
        step(Event::CursorHome, a, home, cmd),
        step(Event::CursorEnd, a, end, cmd),
    ensures
        b.promql.cursor_pos == a.promql.cursor_pos + 1,
        c == a,
        home == (Model { promql: home.promql, ..a }),
        home.promql.cursor_pos == 0,
        end.promql.cursor_pos == a.promql.query@.len(),
        home.promql.query == a.promql.query,
        end.promql.query == a.promql.query,
{
}

} // verus!
