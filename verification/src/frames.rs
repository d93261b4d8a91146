//! What events leave alone.

use crate::app::{
    exemplar_changes, flame_changes, is_exemplar_event, is_flame_event, is_list_event,
    is_loki_event, is_picker_event, is_profile_event, is_query_event, is_series_event,
    is_tempo_event, list_changes, loki_changes, picker_changes, profile_changes, query_changes,
    series_changes, tempo_changes,
};
use crate::model::{Command, Event, Model};
use vstd::prelude::*;

verus! {

/// Events on the screens of traces leave alone all but those screens.
#[verifier::rlimit(60)]
pub proof fn lemma_tempo_frame(event: Event, a: Model, b: Model, cmd: Command)
    requires
        is_tempo_event(event),
        tempo_changes(event, a, b, cmd),
    ensures
        b == (Model { screen: b.screen, tempo: b.tempo, trace: b.trace, ..a }),
{
}

/// Events on the screen of logs leave alone all but that screen.
#[verifier::rlimit(60)]
pub proof fn lemma_loki_frame(event: Event, a: Model, b: Model, cmd: Command)
    requires
        is_loki_event(event),
        loki_changes(event, a, b, cmd),
    ensures
        b == (Model { screen: b.screen, loki: b.loki, log_context: b.log_context, ..a }),
{
}

/// Events in the flamegraph leave alone all but the flamegraph, and the graph itself.
#[verifier::rlimit(60)]
pub proof fn lemma_flame_frame(event: Event, a: Model, b: Model, cmd: Command)
    requires
        is_flame_event(event),
        flame_changes(event, a, b, cmd),
    ensures
        b == (Model { flame: b.flame, ..a }),
        b.flame.graph == a.flame.graph,
        b.flame.loading == a.flame.loading,
        b.flame.error == a.flame.error,
{
}

/// Events on exemplars leave alone all but those, the traces of spans, and the list of services to
/// which they lead back.
#[verifier::rlimit(60)]
pub proof fn lemma_exemplar_frame(event: Event, a: Model, b: Model, cmd: Command)
    requires
        is_exemplar_event(event),
        exemplar_changes(event, a, b, cmd),
    ensures
        b == (Model {
            screen: b.screen,
            sub_screen: b.sub_screen,
            series: b.series,
            exemplar_index: b.exemplar_index,
            exemplar_detail_open: b.exemplar_detail_open,
            span_traces: b.span_traces,
            ..a
        }),
        b.series.items == a.series.items,
        b.series.index == a.series.index,
{
}

/// Events in the views of a profile leave alone all but those views.
#[verifier::rlimit(60)]
pub proof fn lemma_profile_frame(event: Event, a: Model, b: Model, cmd: Command)
    requires
        is_profile_event(event),
        profile_changes(event, a, b, cmd),
    ensures
        b == (Model {
            sub_screen: b.sub_screen,
            flame: b.flame,
            timeline: b.timeline,
            heatmap: b.heatmap,
            span_heatmap: b.span_heatmap,
            exemplar_index: b.exemplar_index,
            ..a
        }),
{
}

/// Events on the list of services leave alone the queries, the logs, the traces and the picker.
#[verifier::rlimit(60)]
pub proof fn lemma_series_frame(event: Event, a: Model, b: Model, cmd: Command)
    requires
        is_series_event(event),
        series_changes(event, a, b, cmd),
    ensures
        b == (Model {
            datasources: b.datasources,
            screen: b.screen,
            sub_screen: b.sub_screen,
            time_range: b.time_range,
            series: b.series,
            flame: b.flame,
            timeline: b.timeline,
            heatmap: b.heatmap,
            span_heatmap: b.span_heatmap,
            ..a
        }),
        b.datasources.items == a.datasources.items,
        b.datasources.favourites == a.datasources.favourites,
{
}

/// Events in the picker of time ranges leave alone all but that, and what is loaded anew.
#[verifier::rlimit(60)]
pub proof fn lemma_picker_frame(event: Event, a: Model, b: Model, cmd: Command)
    requires
        is_picker_event(event),
        picker_changes(event, a, b, cmd),
    ensures
        b == (Model {
            picker: b.picker,
            time_range: b.time_range,
            series: b.series,
            loki: b.loki,
            tempo: b.tempo,
            ..a
        }),
        !(event is TimeRangePickerCommit) ==> b == (Model { picker: b.picker, ..a }),
        b.series.items == a.series.items,
        b.loki.results == a.loki.results,
        b.tempo.results == a.tempo.results,
{
}

/// Events on the query screen leave alone all but that, and which datasource is selected.
#[verifier::rlimit(60)]
pub proof fn lemma_query_frame(event: Event, a: Model, b: Model, cmd: Command)
    requires
        is_query_event(event),
        query_changes(event, a, b, cmd),
    ensures
        b == (Model {
            datasources: b.datasources,
            screen: b.screen,
            promql: b.promql,
            completion: b.completion,
            ..a
        }),
        b.datasources.items == a.datasources.items,
        b.datasources.favourites == a.datasources.favourites,
        !(event is EnterQuery) ==> b.datasources == a.datasources,
        !(event is EnterQuery) && !(event is BackToDatasources) ==> b.screen == a.screen,
{
}

/// Events on the list of datasources leave alone all but that, the history, and how the server is
/// reached.
#[verifier::rlimit(60)]
pub proof fn lemma_list_frame(event: Event, a: Model, b: Model, cmd: Command)
    requires
        is_list_event(event),
        list_changes(event, a, b, cmd),
    ensures
        b == (Model {
            grafana_url: b.grafana_url,
            grafana_token: b.grafana_token,
            time_range: b.time_range,
            datasources: b.datasources,
            history: b.history,
            ..a
        }),
        !(event is Configure) ==> b.grafana_url == a.grafana_url && b.grafana_token
            == a.grafana_token && b.time_range == a.time_range,
        !(event is DatasourcesLoaded) ==> b.datasources.items == a.datasources.items,
{
}

} // verus!
