//! What every event does.

use crate::edit::without_last;
use crate::list::{
    configured, datasource_filter, datasource_selected, datasources_asked_for, datasources_loaded,
    entry_selected, favourites_set, filter_cleared, named_selected, toggled,
};
use crate::loki::app::{
    context_closed, context_loaded, context_opened, log_query_started, loki_entered, row_selected,
    rows_fit, rows_in_range, streams_loaded, total_rows,
};
use crate::model::{
    Command, CompletionState, DatasourceState, Event, HistoryState, LokiState, Model, PickerState,
    Screen, SeriesState, SpanTraceState,
};
use crate::order::texts;
use crate::prometheus::app::{
    backspaced, completion_accepted, completion_selected, cursor_moved, deleted, history_shown,
    label_names_loaded, label_values_loaded, left_of, metric_names_loaded, names_asked_for,
    next_completion, prev_completion, query_edited, query_entered, query_sent, result_loaded,
    right_of, with_input,
};
use crate::pyroscope::app::{
    can_move_down, can_move_left, can_move_right, can_move_up, can_zoom_in, directly_opened,
    exemplar_after,
    exemplar_selected, exemplars_shown, flamegraph_fits, flamegraph_loaded, heatmap_with,
    moved_down, moved_left, moved_right, moved_up, named_opened, pyroscope_entered,
    sandwich_toggled, selected_opened, series_loaded, service_filter, service_list_shown,
    service_selected, span_looked_up, tempo_selected, timeline_loaded, trace_ids, traces_known,
    type_selected, with_filter_focus, with_nav, with_traces, with_view, without_sandwich,
    zoomed_in,
};
use crate::pyroscope::flamegraph::FlamegraphNav;
use crate::select::{
    active, active_datasource, filtered, listed_series, next_of, prev_of, tempo_datasources,
};
use crate::tempo::app::{
    line_down, line_up, one_left, one_right, scrolled, search_started, shown_spans, span_filter,
    span_filter_focus, span_selected, spans_loaded, tempo_backspace, tempo_cursor, tempo_entered,
    tempo_input, trace_opened, trace_selected, traces_loaded,
};
use crate::time_range::PRESETS;
use crate::time_range_picker::{
    commit_fits, commit_in_range, digit_after, digit_before, focus_toggled, focused_cursor,
    input_fits, input_in_range, open_fits, open_in_range, picker_cursor, picker_opened,
    preset_selected, range_committed, typed_over,
};
use crate::{list, loki, prometheus, pyroscope, tempo, time_range_picker};
use vstd::prelude::*;
use vstd::string::*;

verus! {

/// The explorer.
#[derive(Debug, Clone, Copy, Default)]
pub struct ExploreTui;

/// Whether an event can be handled in a state: what it counts and computes stays
/// in range.
pub open spec fn event_fits(m: Model, event: Event) -> bool {
    match event {
        Event::QueryInput(_) => m.promql.cursor_pos < usize::MAX,
        Event::ExecuteQuery => m.datasources.items@.len() > 0 ==> active(m) is Some,
        Event::TimeRangePickerOpen { now_unix_ms } => open_fits(m.time_range@, now_unix_ms),
        Event::TimeRangePickerCustomInput(c) => input_fits(m.picker, c),
        Event::TimeRangePickerCommit { .. } => commit_fits(m.picker),
        Event::PyroscopeFlamegraphLoaded(result) => flamegraph_fits(result),
        Event::FlameMoveLeft => can_move_left(m),
        Event::FlameMoveRight => can_move_right(m),
        Event::FlameMoveUp => can_move_up(m),
        Event::FlameMoveDown => can_move_down(m),
        Event::FlameZoomIn => can_zoom_in(m),
        Event::LokiSelectNextRow => rows_fit(m),
        Event::LokiSelectPrevRow => rows_fit(m),
        Event::LokiOpenContext => rows_fit(m),
        _ => true,
    }
}

/// Whether an event can be handled.
pub fn event_ready(m: &Model, event: &Event) -> (r: bool)
    ensures
        r == event_fits(*m, *event),
{
    match event {
        Event::QueryInput(_) => m.promql.cursor_pos < usize::MAX,
        Event::ExecuteQuery => m.datasources.items.len() == 0 || active_datasource(m).is_some(),
        Event::TimeRangePickerOpen { now_unix_ms } => open_in_range(
            m.time_range.as_str(),
            *now_unix_ms,
        ),
        Event::TimeRangePickerCustomInput(c) => input_in_range(&m.picker, *c),
        Event::TimeRangePickerCommit { .. } => commit_in_range(&m.picker),
        Event::PyroscopeFlamegraphLoaded(Ok(Some(fg))) => fg.deltas_in_range(),
        Event::FlameMoveLeft => match &m.flame.graph {
            Some(fg) => m.flame.nav.left_in_range(fg),
            None => true,
        },
        Event::FlameMoveRight => match &m.flame.graph {
            Some(fg) => m.flame.nav.right_in_range(fg),
            None => true,
        },
        Event::FlameMoveUp => match &m.flame.graph {
            Some(fg) => m.flame.nav.up_in_range(fg),
            None => true,
        },
        Event::FlameZoomIn => match &m.flame.graph {
            Some(fg) => m.flame.nav.zoom_in_range(fg),
            None => true,
        },
        Event::FlameMoveDown => match &m.flame.graph {
            Some(fg) => m.flame.nav.down_in_range(fg),
            None => true,
        },
        Event::LokiSelectNextRow | Event::LokiSelectPrevRow | Event::LokiOpenContext => {
            rows_in_range(m)
        },
        _ => true,
    }
}

/// Whether an event does nothing but change the state, which is then shown.
pub open spec fn only_renders(event: Event) -> bool {
    match event {
        Event::Configure { .. } => false,
        Event::FetchDatasources => false,
        Event::Quit => false,
        Event::EnterQuery => false,
        Event::TriggerCompletions => false,
        Event::CompletionAccept => false,
        Event::ExecuteQuery => false,
        _ => true,
    }
}

/// Events on the list of datasources.
pub open spec fn is_list_event(event: Event) -> bool {
    match event {
        Event::Configure { .. } | Event::FetchDatasources | Event::DatasourcesLoaded(_)
        | Event::SelectNext | Event::SelectPrevious | Event::Quit | Event::DatasourceFilterFocus
        | Event::DatasourceFilterBlur | Event::DatasourceFilterInput(_)
        | Event::DatasourceFilterBackspace | Event::DatasourceFilterClear
        | Event::SelectDatasource { .. } | Event::FavouritesLoaded(_)
        | Event::ToggleFavourite(_) | Event::HistoryEntriesLoaded(_) | Event::HistoryPanelFocus
        | Event::HistoryPanelBlur | Event::HistorySelectNext | Event::HistorySelectPrev => true,
        _ => false,
    }
}

/// What events on the list of datasources do.
pub open spec fn list_changes(event: Event, pre: Model, post: Model, cmd: Command) -> bool {
    match event {
        Event::Configure { url, token } => {
            &&& cmd == Command::FetchDatasources
            &&& configured(pre, post, url, token)
        },
        Event::FetchDatasources => datasources_asked_for(pre, post, cmd),
        Event::DatasourcesLoaded(result) => datasources_loaded(pre, post, result),
        Event::SelectNext => datasource_selected(
            pre,
            post,
            next_of(pre.datasources.selected_index as int, filtered(pre).len() as int),
        ),
        Event::SelectPrevious => datasource_selected(
            pre,
            post,
            prev_of(pre.datasources.selected_index as int, filtered(pre).len() as int),
        ),
        Event::Quit => cmd == Command::Done && post == pre,
        Event::DatasourceFilterFocus => post == (Model {
            datasources: DatasourceState { filter_focused: true, ..pre.datasources },
            ..pre
        }),
        Event::DatasourceFilterBlur => post == (Model {
            datasources: DatasourceState { filter_focused: false, ..pre.datasources },
            ..pre
        }),
        Event::DatasourceFilterInput(c) => datasource_filter(
            pre,
            post,
            pre.datasources.filter@.push(c),
        ),
        Event::DatasourceFilterBackspace => datasource_filter(
            pre,
            post,
            without_last(pre.datasources.filter@),
        ),
        Event::DatasourceFilterClear => filter_cleared(pre, post),
        Event::SelectDatasource { uid, name } => named_selected(pre, post, uid@, name@),
        Event::FavouritesLoaded(uids) => favourites_set(pre, post, texts(uids@).to_set()),
        Event::ToggleFavourite(uid) => favourites_set(
            pre,
            post,
            toggled(pre.datasources.favourites@, uid@),
        ),
        Event::HistoryEntriesLoaded(entries) => post == (Model {
            history: HistoryState { entries, selected_index: 0, ..pre.history },
            ..pre
        }),
        Event::HistoryPanelFocus => post == (Model {
            history: HistoryState { panel_focused: true, ..pre.history },
            datasources: DatasourceState { filter_focused: false, ..pre.datasources },
            ..pre
        }),
        Event::HistoryPanelBlur => post == (Model {
            history: HistoryState { panel_focused: false, ..pre.history },
            ..pre
        }),
        Event::HistorySelectNext => entry_selected(
            pre,
            post,
            next_of(pre.history.selected_index as int, pre.history.entries@.len() as int),
        ),
        Event::HistorySelectPrev => entry_selected(
            pre,
            post,
            prev_of(pre.history.selected_index as int, pre.history.entries@.len() as int),
        ),
        _ => false,
    }
}

fn update_list(event: Event, model: &mut Model) -> (r: Result<Command, Event>)
    requires
        old(model).wf(),
        event_fits(*old(model), event),
    ensures
        final(model).wf(),
        match r {
            Ok(cmd) => {
                &&& is_list_event(event)
                &&& only_renders(event) ==> cmd == Command::Render
                &&& list_changes(event, *old(model), *final(model), cmd)
            },
            Err(e) => {
                &&& !is_list_event(event)
                &&& e == event
                &&& *final(model) == *old(model)
            },
        },
{
    let cmd = match event {
        Event::Configure { url, token } => list::handle_configure(model, url, token),
        Event::FetchDatasources => list::handle_fetch_datasources(model),
        Event::DatasourcesLoaded(result) => list::handle_datasources_loaded(model, result),
        Event::SelectNext => list::handle_select_next(model),
        Event::SelectPrevious => list::handle_select_previous(model),
        Event::Quit => Command::Done,
        Event::DatasourceFilterFocus => list::handle_filter_focused(model, true),
        Event::DatasourceFilterBlur => list::handle_filter_focused(model, false),
        Event::DatasourceFilterInput(c) => list::handle_filter_input(model, c),
        Event::DatasourceFilterBackspace => list::handle_filter_backspace(model),
        Event::DatasourceFilterClear => list::handle_filter_clear(model),
        Event::SelectDatasource { uid, name } => list::handle_select_datasource(
            model,
            uid,
            name,
        ),
        Event::FavouritesLoaded(uids) => list::handle_favourites_loaded(model, uids),
        Event::ToggleFavourite(uid) => list::handle_toggle_favourite(model, uid),
        Event::HistoryEntriesLoaded(entries) => list::handle_history_entries_loaded(
            model,
            entries,
        ),
        Event::HistoryPanelFocus => list::handle_history_panel_focus(model),
        Event::HistoryPanelBlur => list::handle_history_panel_blur(model),
        Event::HistorySelectNext => list::handle_history_select_next(model),
        Event::HistorySelectPrev => list::handle_history_select_prev(model),
        _ => {
            return Err(event);
        },
    };
    Ok(cmd)
}

/// Events on the query screen.
pub open spec fn is_query_event(event: Event) -> bool {
    match event {
        Event::EnterQuery | Event::QueryInput(_) | Event::QueryBackspace | Event::QueryDelete
        | Event::TriggerCompletions | Event::CursorLeft | Event::CursorRight | Event::CursorHome
        | Event::CursorEnd | Event::MetricNamesLoaded(_) | Event::LabelNamesLoaded(_, _)
        | Event::LabelValuesLoaded(_, _, _) | Event::CompletionNext | Event::CompletionPrev
        | Event::CompletionAccept | Event::CompletionDismiss | Event::ExecuteQuery
        | Event::QueryResultLoaded(_) | Event::BackToDatasources | Event::HistoryNavigate(_) => true,
        _ => false,
    }
}

/// What events on the query screen do.
pub open spec fn query_changes(event: Event, pre: Model, post: Model, cmd: Command) -> bool {
    match event {
        Event::EnterQuery => query_entered(pre, post, cmd),
        Event::QueryInput(c) => query_edited(
            pre,
            post,
            with_input(pre.promql, c),
            pre.promql.cursor_pos + 1,
        ),
        Event::QueryBackspace => query_edited(
            pre,
            post,
            backspaced(pre.promql),
            left_of(pre.promql.cursor_pos),
        ),
        Event::QueryDelete => query_edited(
            pre,
            post,
            deleted(pre.promql),
            pre.promql.cursor_pos as int,
        ),
        Event::TriggerCompletions => post == pre && names_asked_for(pre, cmd),
        Event::CursorLeft => cursor_moved(pre, post, left_of(pre.promql.cursor_pos)),
        Event::CursorRight => cursor_moved(pre, post, right_of(pre.promql)),
        Event::CursorHome => cursor_moved(pre, post, 0),
        Event::CursorEnd => cursor_moved(pre, post, pre.promql.query@.len() as int),
        Event::MetricNamesLoaded(resp) => metric_names_loaded(pre, post, resp),
        Event::LabelNamesLoaded(selector, resp) => label_names_loaded(
            pre,
            post,
            selector@,
            resp,
        ),
        Event::LabelValuesLoaded(label, selector, resp) => label_values_loaded(
            pre,
            post,
            label@,
            selector@,
            resp,
        ),
        Event::CompletionNext => completion_selected(pre, post, next_completion(pre)),
        Event::CompletionPrev => completion_selected(pre, post, prev_completion(pre)),
        Event::CompletionAccept => completion_accepted(pre, post, cmd),
        Event::CompletionDismiss => post == (Model {
            completion: CompletionState { dismissed: true, index: None, ..pre.completion },
            ..pre
        }),
        Event::ExecuteQuery => query_sent(pre, post, cmd),
        Event::QueryResultLoaded(resp) => result_loaded(pre, post, resp),
        Event::BackToDatasources => post == (Model { screen: Screen::DatasourceList, ..pre }),
        Event::HistoryNavigate(query) => history_shown(pre, post, query),
        _ => false,
    }
}

fn update_query(event: Event, model: &mut Model) -> (r: Result<Command, Event>)
    requires
        old(model).wf(),
        event_fits(*old(model), event),
    ensures
        final(model).wf(),
        match r {
            Ok(cmd) => {
                &&& is_query_event(event)
                &&& only_renders(event) ==> cmd == Command::Render
                &&& query_changes(event, *old(model), *final(model), cmd)
            },
            Err(e) => {
                &&& !is_query_event(event)
                &&& e == event
                &&& *final(model) == *old(model)
            },
        },
{
    let cmd = match event {
        Event::EnterQuery => prometheus::app::handle_enter_query(model),
        Event::QueryInput(c) => prometheus::app::handle_query_input(model, c),
        Event::QueryBackspace => prometheus::app::handle_query_backspace(model),
        Event::QueryDelete => prometheus::app::handle_query_delete(model),
        Event::TriggerCompletions => prometheus::app::handle_trigger_completions(model),
        Event::CursorLeft => prometheus::app::handle_cursor_left(model),
        Event::CursorRight => prometheus::app::handle_cursor_right(model),
        Event::CursorHome => prometheus::app::handle_cursor_home(model),
        Event::CursorEnd => prometheus::app::handle_cursor_end(model),
        Event::MetricNamesLoaded(resp) => prometheus::app::handle_metric_names_loaded(
            model,
            resp,
        ),
        Event::LabelNamesLoaded(selector, resp) => prometheus::app::handle_label_names_loaded(
            model,
            selector,
            resp,
        ),
        Event::LabelValuesLoaded(label, selector, resp) => prometheus::app::handle_label_values_loaded(
            model,
            label,
            selector,
            resp,
        ),
        Event::CompletionNext => prometheus::app::handle_completion_next(model),
        Event::CompletionPrev => prometheus::app::handle_completion_prev(model),
        Event::CompletionAccept => prometheus::app::handle_completion_accept(model),
        Event::CompletionDismiss => prometheus::app::handle_completion_dismiss(model),
        Event::ExecuteQuery => prometheus::app::handle_execute_query(model),
        Event::QueryResultLoaded(resp) => prometheus::app::handle_query_result_loaded(
            model,
            resp,
        ),
        Event::BackToDatasources => prometheus::app::handle_back_to_datasources(model),
        Event::HistoryNavigate(query) => prometheus::app::handle_history_navigate(model, query),
        _ => {
            return Err(event);
        },
    };
    Ok(cmd)
}

/// Events in the time range picker.
pub open spec fn is_picker_event(event: Event) -> bool {
    match event {
        Event::TimeRangePickerOpen { .. } | Event::TimeRangePickerClose
        | Event::TimeRangePickerNext | Event::TimeRangePickerPrev
        | Event::TimeRangePickerToggleFocus | Event::TimeRangePickerCustomInput(_)
        | Event::TimeRangePickerCustomBackspace | Event::TimeRangePickerCursorLeft
        | Event::TimeRangePickerCursorRight | Event::TimeRangePickerCommit { .. } => true,
        _ => false,
    }
}

/// What events in the time range picker do.
pub open spec fn picker_changes(event: Event, pre: Model, post: Model, cmd: Command) -> bool {
    match event {
        Event::TimeRangePickerOpen { now_unix_ms } => picker_opened(pre, post, now_unix_ms),
        Event::TimeRangePickerClose => post == (Model {
            picker: PickerState { open: false, ..pre.picker },
            ..pre
        }),
        Event::TimeRangePickerNext => preset_selected(
            pre,
            post,
            next_of(pre.picker.index as int, PRESETS@.len() as int),
        ),
        Event::TimeRangePickerPrev => preset_selected(
            pre,
            post,
            prev_of(pre.picker.index as int, PRESETS@.len() as int),
        ),
        Event::TimeRangePickerToggleFocus => post == (Model {
            picker: focus_toggled(pre.picker),
            ..pre
        }),
        Event::TimeRangePickerCustomInput(c) => typed_over(pre, post, c),
        Event::TimeRangePickerCustomBackspace => picker_cursor(
            pre,
            post,
            digit_before(focused_cursor(pre.picker)),
        ),
        Event::TimeRangePickerCursorLeft => picker_cursor(
            pre,
            post,
            digit_before(focused_cursor(pre.picker)),
        ),
        Event::TimeRangePickerCursorRight => picker_cursor(
            pre,
            post,
            digit_after(focused_cursor(pre.picker)),
        ),
        Event::TimeRangePickerCommit { .. } => range_committed(pre, post),
        _ => false,
    }
}

fn update_picker(event: Event, model: &mut Model) -> (r: Result<Command, Event>)
    requires
        old(model).wf(),
        event_fits(*old(model), event),
    ensures
        final(model).wf(),
        match r {
            Ok(cmd) => {
                &&& is_picker_event(event)
                &&& only_renders(event) ==> cmd == Command::Render
                &&& picker_changes(event, *old(model), *final(model), cmd)
            },
            Err(e) => {
                &&& !is_picker_event(event)
                &&& e == event
                &&& *final(model) == *old(model)
            },
        },
{
    let cmd = match event {
        Event::TimeRangePickerOpen { now_unix_ms } => time_range_picker::handle_open(
            model,
            now_unix_ms,
        ),
        Event::TimeRangePickerClose => time_range_picker::handle_close(model),
        Event::TimeRangePickerNext => time_range_picker::handle_next(model),
        Event::TimeRangePickerPrev => time_range_picker::handle_prev(model),
        Event::TimeRangePickerToggleFocus => time_range_picker::handle_toggle_focus(model),
        Event::TimeRangePickerCustomInput(c) => time_range_picker::handle_custom_input(model, c),
        Event::TimeRangePickerCustomBackspace => time_range_picker::handle_custom_backspace(
            model,
        ),
        Event::TimeRangePickerCursorLeft => time_range_picker::handle_cursor_left(model),
        Event::TimeRangePickerCursorRight => time_range_picker::handle_cursor_right(model),
        Event::TimeRangePickerCommit { now_unix_ms } => time_range_picker::handle_commit(
            model,
            now_unix_ms,
        ),
        _ => {
            return Err(event);
        },
    };
    Ok(cmd)
}

/// Events on the list of services.
pub open spec fn is_series_event(event: Event) -> bool {
    match event {
        Event::EnterPyroscope { .. } | Event::PyroscopeDirectLoad { .. }
        | Event::PyroscopeSeriesLoaded(_) | Event::PyroscopeSeriesNext
        | Event::PyroscopeSeriesPrev | Event::PyroscopeProfileTypeNext
        | Event::PyroscopeProfileTypePrev | Event::PyroscopeProfileTypeDropdownOpen
        | Event::PyroscopeProfileTypeDropdownClose | Event::PyroscopeServiceFilterFocus
        | Event::PyroscopeServiceFilterBlur | Event::PyroscopeServiceFilterInput(_)
        | Event::PyroscopeServiceFilterBackspace | Event::PyroscopeServiceFilterClear
        | Event::PyroscopeSelectSeries { .. } | Event::PyroscopeSetTimeRange(_)
        | Event::PyroscopeSelectByName { .. } => true,
        _ => false,
    }
}

/// What events on the list of services do.
pub open spec fn series_changes(event: Event, pre: Model, post: Model, cmd: Command) -> bool {
    match event {
        Event::EnterPyroscope { .. } => pyroscope_entered(pre, post),
        Event::PyroscopeDirectLoad { service_name, profile_type } => directly_opened(
            pre,
            post,
            service_name@,
            profile_type@,
        ),
        Event::PyroscopeSeriesLoaded(result) => series_loaded(pre, post, result),
        Event::PyroscopeSeriesNext => service_selected(
            pre,
            post,
            next_of(pre.series.index as int, listed_series(pre).len() as int),
        ),
        Event::PyroscopeSeriesPrev => service_selected(
            pre,
            post,
            prev_of(pre.series.index as int, listed_series(pre).len() as int),
        ),
        Event::PyroscopeProfileTypeNext => type_selected(
            pre,
            post,
            next_of(pre.series.profile_type_index as int, pre.series.profile_types@.len() as int),
        ),
        Event::PyroscopeProfileTypePrev => type_selected(
            pre,
            post,
            prev_of(pre.series.profile_type_index as int, pre.series.profile_types@.len() as int),
        ),
        Event::PyroscopeProfileTypeDropdownOpen => post == (Model {
            series: SeriesState { dropdown_open: true, ..pre.series },
            ..pre
        }),
        Event::PyroscopeProfileTypeDropdownClose => post == (Model {
            series: SeriesState { dropdown_open: false, ..pre.series },
            ..pre
        }),
        Event::PyroscopeServiceFilterFocus => post == with_filter_focus(pre, true),
        Event::PyroscopeServiceFilterBlur => post == with_filter_focus(pre, false),
        Event::PyroscopeServiceFilterInput(c) => service_filter(
            pre,
            post,
            pre.series.filter@.push(c),
        ),
        Event::PyroscopeServiceFilterBackspace => service_filter(
            pre,
            post,
            without_last(pre.series.filter@),
        ),
        Event::PyroscopeServiceFilterClear => service_filter(
            with_filter_focus(pre, false),
            post,
            seq![],
        ),
        Event::PyroscopeSelectSeries { .. } => selected_opened(pre, post),
        Event::PyroscopeSetTimeRange(range) => post == (Model { time_range: range, ..pre }),
        Event::PyroscopeSelectByName { service_name, profile_type } => named_opened(
            pre,
            post,
            service_name@,
            profile_type@,
        ),
        _ => false,
    }
}

fn update_series(event: Event, model: &mut Model) -> (r: Result<Command, Event>)
    requires
        old(model).wf(),
        event_fits(*old(model), event),
    ensures
        final(model).wf(),
        match r {
            Ok(cmd) => {
                &&& is_series_event(event)
                &&& only_renders(event) ==> cmd == Command::Render
                &&& series_changes(event, *old(model), *final(model), cmd)
            },
            Err(e) => {
                &&& !is_series_event(event)
                &&& e == event
                &&& *final(model) == *old(model)
            },
        },
{
    let cmd = match event {
        Event::EnterPyroscope { .. } => pyroscope::app::handle_enter_pyroscope(model),
        Event::PyroscopeDirectLoad { service_name, profile_type } => pyroscope::app::handle_pyroscope_direct_load(
            model,
            service_name,
            profile_type,
        ),
        Event::PyroscopeSeriesLoaded(result) => pyroscope::app::handle_pyroscope_series_loaded(
            model,
            result,
        ),
        Event::PyroscopeSeriesNext => pyroscope::app::handle_pyroscope_series_next(model),
        Event::PyroscopeSeriesPrev => pyroscope::app::handle_pyroscope_series_prev(model),
        Event::PyroscopeProfileTypeNext => pyroscope::app::handle_pyroscope_profile_type_next(
            model,
        ),
        Event::PyroscopeProfileTypePrev => pyroscope::app::handle_pyroscope_profile_type_prev(
            model,
        ),
        Event::PyroscopeProfileTypeDropdownOpen => pyroscope::app::handle_profile_type_dropdown(
            model,
            true,
        ),
        Event::PyroscopeProfileTypeDropdownClose => pyroscope::app::handle_profile_type_dropdown(
            model,
            false,
        ),
        Event::PyroscopeServiceFilterFocus => pyroscope::app::handle_service_filter_focused(
            model,
            true,
        ),
        Event::PyroscopeServiceFilterBlur => pyroscope::app::handle_service_filter_focused(
            model,
            false,
        ),
        Event::PyroscopeServiceFilterInput(c) => pyroscope::app::handle_pyroscope_service_filter_input(
            model,
            c,
        ),
        Event::PyroscopeServiceFilterBackspace => pyroscope::app::handle_pyroscope_service_filter_backspace(
            model,
        ),
        Event::PyroscopeServiceFilterClear => {
            model.series.filter_focused = false;
            pyroscope::app::handle_pyroscope_service_filter_clear(model)
        },
        Event::PyroscopeSelectSeries { .. } => pyroscope::app::handle_pyroscope_select_series(
            model,
        ),
        Event::PyroscopeSetTimeRange(range) => pyroscope::app::handle_pyroscope_set_time_range(
            model,
            range,
        ),
        Event::PyroscopeSelectByName { service_name, profile_type } => pyroscope::app::handle_pyroscope_select_by_name(
            model,
            service_name,
            profile_type,
        ),
        _ => {
            return Err(event);
        },
    };
    Ok(cmd)
}

/// Events in the views of a profile.
pub open spec fn is_profile_event(event: Event) -> bool {
    match event {
        Event::PyroscopeFlamegraphLoaded(_) | Event::PyroscopeTimelineLoaded(_)
        | Event::PyroscopeHeatmapLoaded(_) | Event::PyroscopeSpanHeatmapLoaded(_)
        | Event::PyroscopeSelectView(_) => true,
        _ => false,
    }
}

/// What events in the views of a profile do.
pub open spec fn profile_changes(event: Event, pre: Model, post: Model, cmd: Command) -> bool {
    match event {
        Event::PyroscopeFlamegraphLoaded(result) => flamegraph_loaded(
            without_sandwich(pre),
            post,
            result,
        ),
        Event::PyroscopeTimelineLoaded(result) => timeline_loaded(pre, post, result),
        Event::PyroscopeHeatmapLoaded(result) => post == (Model {
            heatmap: heatmap_with(pre.heatmap, result),
            exemplar_index: exemplar_after(pre.exemplar_index, result),
            ..pre
        }),
        Event::PyroscopeSpanHeatmapLoaded(result) => post == (Model {
            span_heatmap: heatmap_with(pre.span_heatmap, result),
            exemplar_index: exemplar_after(pre.exemplar_index, result),
            ..pre
        }),
        Event::PyroscopeSelectView(idx) => post == with_view(pre, idx),
        _ => false,
    }
}

fn update_profile(event: Event, model: &mut Model) -> (r: Result<Command, Event>)
    requires
        old(model).wf(),
        event_fits(*old(model), event),
    ensures
        final(model).wf(),
        match r {
            Ok(cmd) => {
                &&& is_profile_event(event)
                &&& only_renders(event) ==> cmd == Command::Render
                &&& profile_changes(event, *old(model), *final(model), cmd)
            },
            Err(e) => {
                &&& !is_profile_event(event)
                &&& e == event
                &&& *final(model) == *old(model)
            },
        },
{
    let cmd = match event {
        Event::PyroscopeFlamegraphLoaded(result) => {
            model.flame.sandwich_name = None;
            pyroscope::app::handle_pyroscope_flamegraph_loaded(model, result)
        },
        Event::PyroscopeTimelineLoaded(result) => pyroscope::app::handle_pyroscope_timeline_loaded(
            model,
            result,
        ),
        Event::PyroscopeHeatmapLoaded(result) => pyroscope::app::handle_pyroscope_heatmap_loaded(
            model,
            result,
        ),
        Event::PyroscopeSpanHeatmapLoaded(result) => pyroscope::app::handle_pyroscope_span_heatmap_loaded(
            model,
            result,
        ),
        Event::PyroscopeSelectView(idx) => pyroscope::app::handle_pyroscope_select_view(
            model,
            idx,
        ),
        _ => {
            return Err(event);
        },
    };
    Ok(cmd)
}

/// Events on exemplars and the traces of spans.
pub open spec fn is_exemplar_event(event: Event) -> bool {
    match event {
        Event::ExemplarSelectNext | Event::ExemplarSelectPrev | Event::ExemplarDetailOpen
        | Event::ExemplarDetailClose | Event::SpanHeatmapClearResults
        | Event::SpanHeatmapTempoLoadingStarted | Event::SpanHeatmapTempoLoadingDone
        | Event::SpanHeatmapOpenTempoPicker | Event::SpanHeatmapCloseTempoPicker
        | Event::SpanHeatmapTempoPickerNext | Event::SpanHeatmapTempoPickerPrev
        | Event::SpanHeatmapTempoResultLoaded { .. } | Event::SpanHeatmapTempoBatchLoaded(_)
        | Event::BackToServiceList | Event::BackFromPyroscope => true,
        _ => false,
    }
}

/// What events on exemplars and the traces of spans do.
pub open spec fn exemplar_changes(event: Event, pre: Model, post: Model, cmd: Command) -> bool {
    match event {
        Event::ExemplarSelectNext => exemplar_selected(
            pre,
            post,
            next_of(pre.exemplar_index as int, exemplars_shown(pre)),
        ),
        Event::ExemplarSelectPrev => exemplar_selected(
            pre,
            post,
            prev_of(pre.exemplar_index as int, exemplars_shown(pre)),
        ),
        Event::ExemplarDetailOpen => post == (Model { exemplar_detail_open: true, ..pre }),
        Event::ExemplarDetailClose => post == (Model { exemplar_detail_open: false, ..pre }),
        Event::SpanHeatmapClearResults => traces_known(pre, post, Map::empty()),
        Event::SpanHeatmapTempoLoadingStarted => post == (Model {
            span_traces: SpanTraceState { loading: true, ..pre.span_traces },
            ..pre
        }),
        Event::SpanHeatmapTempoLoadingDone => post == (Model {
            span_traces: SpanTraceState { loading: false, ..pre.span_traces },
            ..pre
        }),
        Event::SpanHeatmapOpenTempoPicker => post == (Model {
            span_traces: SpanTraceState { picker_open: true, picker_index: 0, ..pre.span_traces },
            ..pre
        }),
        Event::SpanHeatmapCloseTempoPicker => post == (Model {
            span_traces: SpanTraceState { picker_open: false, ..pre.span_traces },
            ..pre
        }),
        Event::SpanHeatmapTempoPickerNext => tempo_selected(
            pre,
            post,
            next_of(
                pre.span_traces.picker_index as int,
                tempo_datasources(pre.datasources.items@).len() as int,
            ),
        ),
        Event::SpanHeatmapTempoPickerPrev => tempo_selected(
            pre,
            post,
            prev_of(
                pre.span_traces.picker_index as int,
                tempo_datasources(pre.datasources.items@).len() as int,
            ),
        ),
        Event::SpanHeatmapTempoResultLoaded { span_id, trace_id } => span_looked_up(
            pre,
            post,
            span_id@,
            trace_id@,
        ),
        Event::SpanHeatmapTempoBatchLoaded(pairs) => traces_known(
            pre,
            post,
            with_traces(trace_ids(pre.span_traces), pairs@),
        ),
        Event::BackToServiceList => service_list_shown(pre, post),
        Event::BackFromPyroscope => post == (Model { screen: Screen::DatasourceList, ..pre }),
        _ => false,
    }
}

fn update_exemplar(event: Event, model: &mut Model) -> (r: Result<Command, Event>)
    requires
        old(model).wf(),
        event_fits(*old(model), event),
    ensures
        final(model).wf(),
        match r {
            Ok(cmd) => {
                &&& is_exemplar_event(event)
                &&& only_renders(event) ==> cmd == Command::Render
                &&& exemplar_changes(event, *old(model), *final(model), cmd)
            },
            Err(e) => {
                &&& !is_exemplar_event(event)
                &&& e == event
                &&& *final(model) == *old(model)
            },
        },
{
    let cmd = match event {
        Event::ExemplarSelectNext => pyroscope::app::handle_exemplar_select_next(model),
        Event::ExemplarSelectPrev => pyroscope::app::handle_exemplar_select_prev(model),
        Event::ExemplarDetailOpen => pyroscope::app::handle_exemplar_detail(model, true),
        Event::ExemplarDetailClose => pyroscope::app::handle_exemplar_detail(model, false),
        Event::SpanHeatmapClearResults => pyroscope::app::handle_span_traces_clear(model),
        Event::SpanHeatmapTempoLoadingStarted => pyroscope::app::handle_span_traces_loading(
            model,
            true,
        ),
        Event::SpanHeatmapTempoLoadingDone => pyroscope::app::handle_span_traces_loading(
            model,
            false,
        ),
        Event::SpanHeatmapOpenTempoPicker => pyroscope::app::handle_tempo_picker_open(model),
        Event::SpanHeatmapCloseTempoPicker => pyroscope::app::handle_tempo_picker_close(model),
        Event::SpanHeatmapTempoPickerNext => pyroscope::app::handle_tempo_picker_next(model),
        Event::SpanHeatmapTempoPickerPrev => pyroscope::app::handle_tempo_picker_prev(model),
        Event::SpanHeatmapTempoResultLoaded { span_id, trace_id } => pyroscope::app::handle_span_trace_found(
            model,
            span_id,
            trace_id,
        ),
        Event::SpanHeatmapTempoBatchLoaded(pairs) => pyroscope::app::handle_span_traces_found(
            model,
            pairs,
        ),
        Event::BackToServiceList => pyroscope::app::handle_back_to_service_list(model),
        Event::BackFromPyroscope => pyroscope::app::handle_back_from_pyroscope(model),
        _ => {
            return Err(event);
        },
    };
    Ok(cmd)
}

/// Events in the flamegraph.
pub open spec fn is_flame_event(event: Event) -> bool {
    match event {
        Event::FlameMoveLeft | Event::FlameMoveRight | Event::FlameMoveUp | Event::FlameMoveDown
        | Event::FlameZoomIn | Event::FlameZoomOut | Event::FlamegraphViewportChars(_)
        | Event::FlameSandwich | Event::FlameSandwichClear => true,
        _ => false,
    }
}

/// What events in the flamegraph do.
pub open spec fn flame_changes(event: Event, pre: Model, post: Model, cmd: Command) -> bool {
    match event {
        Event::FlameMoveLeft => post == moved_left(pre),
        Event::FlameMoveRight => post == moved_right(pre),
        Event::FlameMoveUp => post == moved_up(pre),
        Event::FlameMoveDown => post == moved_down(pre),
        Event::FlameZoomIn => post == zoomed_in(pre),
        Event::FlameZoomOut => post == with_nav(pre, pre.flame.nav.zoomed_out()),
        Event::FlamegraphViewportChars(chars) => post == with_nav(
            pre,
            FlamegraphNav { viewport_chars: chars, ..pre.flame.nav },
        ),
        Event::FlameSandwich => sandwich_toggled(pre, post),
        Event::FlameSandwichClear => post == without_sandwich(pre),
        _ => false,
    }
}

fn update_flame(event: Event, model: &mut Model) -> (r: Result<Command, Event>)
    requires
        old(model).wf(),
        event_fits(*old(model), event),
    ensures
        final(model).wf(),
        match r {
            Ok(cmd) => {
                &&& is_flame_event(event)
                &&& only_renders(event) ==> cmd == Command::Render
                &&& flame_changes(event, *old(model), *final(model), cmd)
            },
            Err(e) => {
                &&& !is_flame_event(event)
                &&& e == event
                &&& *final(model) == *old(model)
            },
        },
{
    let cmd = match event {
        Event::FlameMoveLeft => pyroscope::app::handle_flame_move_left(model),
        Event::FlameMoveRight => pyroscope::app::handle_flame_move_right(model),
        Event::FlameMoveUp => pyroscope::app::handle_flame_move_up(model),
        Event::FlameMoveDown => pyroscope::app::handle_flame_move_down(model),
        Event::FlameZoomIn => pyroscope::app::handle_flame_zoom_in(model),
        Event::FlameZoomOut => pyroscope::app::handle_flame_zoom_out(model),
        Event::FlamegraphViewportChars(chars) => pyroscope::app::handle_flamegraph_viewport_chars(
            model,
            chars,
        ),
        Event::FlameSandwich => pyroscope::app::handle_flame_sandwich(model),
        Event::FlameSandwichClear => pyroscope::app::handle_flame_sandwich_clear(model),
        _ => {
            return Err(event);
        },
    };
    Ok(cmd)
}

/// Events on the screens of traces.
pub open spec fn is_tempo_event(event: Event) -> bool {
    match event {
        Event::EnterTempo | Event::TempoQueryInput(_) | Event::TempoQueryBackspace
        | Event::TempoQueryCursorLeft | Event::TempoQueryCursorRight | Event::TempoExecuteQuery
        | Event::TempoResultLoaded(_) | Event::BackFromTempo | Event::TempoSelectNext
        | Event::TempoSelectPrev | Event::TempoOpenTrace | Event::TempoTraceDetailLoaded(_)
        | Event::TempoTraceDetailNext | Event::TempoTraceDetailPrev
        | Event::TempoTraceDetailFilterFocus | Event::TempoTraceDetailFilterBlur
        | Event::TempoTraceDetailFilterInput(_) | Event::TempoTraceDetailFilterBackspace
        | Event::TempoTraceDetailAttrScrollDown | Event::TempoTraceDetailAttrScrollUp
        | Event::BackFromTraceDetail => true,
        _ => false,
    }
}

/// What events on the screens of traces do.
pub open spec fn tempo_changes(event: Event, pre: Model, post: Model, cmd: Command) -> bool {
    match event {
        Event::EnterTempo => tempo_entered(pre, post),
        Event::TempoQueryInput(c) => tempo_input(pre, post, c),
        Event::TempoQueryBackspace => tempo_backspace(pre, post),
        Event::TempoQueryCursorLeft => tempo_cursor(
            pre,
            post,
            one_left(pre.tempo.query@, pre.tempo.cursor_pos as int),
        ),
        Event::TempoQueryCursorRight => tempo_cursor(
            pre,
            post,
            one_right(pre.tempo.query@, pre.tempo.cursor_pos as int),
        ),
        Event::TempoExecuteQuery => search_started(pre, post),
        Event::TempoResultLoaded(result) => traces_loaded(pre, post, result),
        Event::BackFromTempo => post == (Model { screen: Screen::DatasourceList, ..pre }),
        Event::TempoSelectNext => trace_selected(
            pre,
            post,
            next_of(pre.tempo.selected as int, pre.tempo.results@.len() as int),
        ),
        Event::TempoSelectPrev => trace_selected(
            pre,
            post,
            prev_of(pre.tempo.selected as int, pre.tempo.results@.len() as int),
        ),
        Event::TempoOpenTrace => trace_opened(pre, post),
        Event::TempoTraceDetailLoaded(result) => spans_loaded(pre, post, result),
        Event::TempoTraceDetailNext => span_selected(
            pre,
            post,
            next_of(pre.trace.selected as int, shown_spans(pre)),
        ),
        Event::TempoTraceDetailPrev => span_selected(
            pre,
            post,
            prev_of(pre.trace.selected as int, shown_spans(pre)),
        ),
        Event::TempoTraceDetailFilterFocus => span_filter_focus(pre, post, true),
        Event::TempoTraceDetailFilterBlur => span_filter_focus(pre, post, false),
        Event::TempoTraceDetailFilterInput(c) => span_filter(
            pre,
            post,
            pre.trace.filter@.push(c),
        ),
        Event::TempoTraceDetailFilterBackspace => span_filter(
            pre,
            post,
            without_last(pre.trace.filter@),
        ),
        Event::TempoTraceDetailAttrScrollDown => scrolled(
            pre,
            post,
            line_down(pre.trace.attr_scroll),
        ),
        Event::TempoTraceDetailAttrScrollUp => scrolled(
            pre,
            post,
            line_up(pre.trace.attr_scroll),
        ),
        Event::BackFromTraceDetail => post == (Model { screen: Screen::TempoMode, ..pre }),
        _ => false,
    }
}

fn update_tempo(event: Event, model: &mut Model) -> (r: Result<Command, Event>)
    requires
        old(model).wf(),
        event_fits(*old(model), event),
    ensures
        final(model).wf(),
        match r {
            Ok(cmd) => {
                &&& is_tempo_event(event)
                &&& only_renders(event) ==> cmd == Command::Render
                &&& tempo_changes(event, *old(model), *final(model), cmd)
            },
            Err(e) => {
                &&& !is_tempo_event(event)
                &&& e == event
                &&& *final(model) == *old(model)
            },
        },
{
    let cmd = match event {
        Event::EnterTempo => tempo::app::handle_enter_tempo(model),
        Event::TempoQueryInput(c) => tempo::app::handle_tempo_query_input(model, c),
        Event::TempoQueryBackspace => tempo::app::handle_tempo_query_backspace(model),
        Event::TempoQueryCursorLeft => tempo::app::handle_tempo_cursor_left(model),
        Event::TempoQueryCursorRight => tempo::app::handle_tempo_cursor_right(model),
        Event::TempoExecuteQuery => tempo::app::handle_tempo_execute_query(model),
        Event::TempoResultLoaded(result) => tempo::app::handle_tempo_result_loaded(
            model,
            result,
        ),
        Event::BackFromTempo => tempo::app::handle_back_from_tempo(model),
        Event::TempoSelectNext => tempo::app::handle_tempo_select_next(model),
        Event::TempoSelectPrev => tempo::app::handle_tempo_select_prev(model),
        Event::TempoOpenTrace => tempo::app::handle_tempo_open_trace(model),
        Event::TempoTraceDetailLoaded(result) => tempo::app::handle_trace_detail_loaded(
            model,
            result,
        ),
        Event::TempoTraceDetailNext => tempo::app::handle_trace_detail_next(model),
        Event::TempoTraceDetailPrev => tempo::app::handle_trace_detail_prev(model),
        Event::TempoTraceDetailFilterFocus => tempo::app::handle_trace_detail_filter_focus(
            model,
        ),
        Event::TempoTraceDetailFilterBlur => tempo::app::handle_trace_detail_filter_blur(model),
        Event::TempoTraceDetailFilterInput(c) => tempo::app::handle_trace_detail_filter_input(
            model,
            c,
        ),
        Event::TempoTraceDetailFilterBackspace => tempo::app::handle_trace_detail_filter_backspace(
            model,
        ),
        Event::TempoTraceDetailAttrScrollDown => tempo::app::handle_trace_detail_attr_scroll_down(
            model,
        ),
        Event::TempoTraceDetailAttrScrollUp => tempo::app::handle_trace_detail_attr_scroll_up(
            model,
        ),
        Event::BackFromTraceDetail => tempo::app::handle_back_from_trace_detail(model),
        _ => {
            return Err(event);
        },
    };
    Ok(cmd)
}

/// Events on the screen of logs.
pub open spec fn is_loki_event(event: Event) -> bool {
    match event {
        Event::EnterLoki | Event::LokiQueryChanged(_) | Event::LokiExecuteQuery
        | Event::LokiResultLoaded(_) | Event::LokiSelectNextRow | Event::LokiSelectPrevRow
        | Event::LokiOpenContext | Event::LokiCloseContext | Event::LokiContextLoaded(_)
        | Event::BackFromLoki | Event::LokiDiagnosticsUpdated(_) => true,
        _ => false,
    }
}

/// What events on the screen of logs do.
pub open spec fn loki_changes(event: Event, pre: Model, post: Model, cmd: Command) -> bool {
    match event {
        Event::EnterLoki => loki_entered(pre, post),
        Event::LokiQueryChanged(query) => post == (Model {
            loki: LokiState { query, ..pre.loki },
            ..pre
        }),
        Event::LokiExecuteQuery => log_query_started(pre, post),
        Event::LokiResultLoaded(result) => streams_loaded(pre, post, result),
        Event::LokiSelectNextRow => row_selected(
            pre,
            post,
            next_of(pre.loki.selected_row as int, total_rows(pre)),
        ),
        Event::LokiSelectPrevRow => row_selected(
            pre,
            post,
            prev_of(pre.loki.selected_row as int, total_rows(pre)),
        ),
        Event::LokiOpenContext => context_opened(pre, post),
        Event::LokiCloseContext => context_closed(pre, post),
        Event::LokiContextLoaded(result) => context_loaded(pre, post, result),
        Event::BackFromLoki => post == (Model { screen: Screen::DatasourceList, ..pre }),
        Event::LokiDiagnosticsUpdated(diagnostics) => post == (Model {
            loki: LokiState { diagnostics, ..pre.loki },
            ..pre
        }),
        _ => false,
    }
}

fn update_loki(event: Event, model: &mut Model) -> (r: Result<Command, Event>)
    requires
        old(model).wf(),
        event_fits(*old(model), event),
    ensures
        final(model).wf(),
        match r {
            Ok(cmd) => {
                &&& is_loki_event(event)
                &&& only_renders(event) ==> cmd == Command::Render
                &&& loki_changes(event, *old(model), *final(model), cmd)
            },
            Err(e) => {
                &&& !is_loki_event(event)
                &&& e == event
                &&& *final(model) == *old(model)
            },
        },
{
    let cmd = match event {
        Event::EnterLoki => loki::app::handle_enter_loki(model),
        Event::LokiQueryChanged(query) => loki::app::handle_loki_query_changed(model, query),
        Event::LokiExecuteQuery => loki::app::handle_loki_execute_query(model),
        Event::LokiResultLoaded(result) => loki::app::handle_loki_result_loaded(model, result),
        Event::LokiSelectNextRow => loki::app::handle_loki_select_next_row(model),
        Event::LokiSelectPrevRow => loki::app::handle_loki_select_prev_row(model),
        Event::LokiOpenContext => loki::app::handle_loki_open_context(model),
        Event::LokiCloseContext => loki::app::handle_loki_close_context(model),
        Event::LokiContextLoaded(result) => loki::app::handle_loki_context_loaded(model, result),
        Event::BackFromLoki => loki::app::handle_back_from_loki(model),
        Event::LokiDiagnosticsUpdated(diagnostics) => loki::app::handle_loki_diagnostics_updated(
            model,
            diagnostics,
        ),
        _ => {
            return Err(event);
        },
    };
    Ok(cmd)
}

/// Whether an event leads from the state `pre` to `post`, with `cmd` to be done.
pub open spec fn step(event: Event, pre: Model, post: Model, cmd: Command) -> bool {
    &&& only_renders(event) ==> cmd == Command::Render
    &&& changes(event, pre, post, cmd)
}

/// What every event does.
pub open spec fn changes(event: Event, pre: Model, post: Model, cmd: Command) -> bool {
    if is_list_event(event) {
        list_changes(event, pre, post, cmd)
    } else if is_query_event(event) {
        query_changes(event, pre, post, cmd)
    } else if is_picker_event(event) {
        picker_changes(event, pre, post, cmd)
    } else if is_series_event(event) {
        series_changes(event, pre, post, cmd)
    } else if is_profile_event(event) {
        profile_changes(event, pre, post, cmd)
    } else if is_exemplar_event(event) {
        exemplar_changes(event, pre, post, cmd)
    } else if is_flame_event(event) {
        flame_changes(event, pre, post, cmd)
    } else if is_tempo_event(event) {
        tempo_changes(event, pre, post, cmd)
    } else {
        loki_changes(event, pre, post, cmd)
    }
}

impl ExploreTui {
    /// Handles an event.
    pub fn update(&self, event: Event, model: &mut Model) -> (cmd: Command)
        requires
            old(model).wf(),
            event_fits(*old(model), event),
        ensures
            step(event, *old(model), *final(model), cmd),
            final(model).wf(),
    {
        let event = match update_list(event, model) {
            Ok(cmd) => {
                return cmd;
            },
            Err(event) => event,
        };
        let event = match update_query(event, model) {
            Ok(cmd) => {
                return cmd;
            },
            Err(event) => event,
        };
        let event = match update_picker(event, model) {
            Ok(cmd) => {
                return cmd;
            },
            Err(event) => event,
        };
        let event = match update_series(event, model) {
            Ok(cmd) => {
                return cmd;
            },
            Err(event) => event,
        };
        let event = match update_profile(event, model) {
            Ok(cmd) => {
                return cmd;
            },
            Err(event) => event,
        };
        let event = match update_exemplar(event, model) {
            Ok(cmd) => {
                return cmd;
            },
            Err(event) => event,
        };
        let event = match update_flame(event, model) {
            Ok(cmd) => {
                return cmd;
            },
            Err(event) => event,
        };
        let event = match update_tempo(event, model) {
            Ok(cmd) => {
                return cmd;
            },
            Err(event) => event,
        };
        match update_loki(event, model) {
            Ok(cmd) => cmd,
            Err(_) => Command::Done,
        }
    }
}

} // verus!
