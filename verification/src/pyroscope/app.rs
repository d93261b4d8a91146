//! Handling of events on the profile screens.

use crate::edit::{pop_char, without_last};
use crate::model::{
    Command, DatasourceState, FlameState, HeatmapState, Model, PyroscopeSeriesItem, PyroscopeSubScreen, Screen,
    SeriesState, SpanTraceState, TimelineState,
};
use crate::order::{places, sort_strings, sorted_texts, texts};
use crate::prometheus::app::{find_highlighted, highlighted, raw_selected, select_raw};
use crate::pyroscope::flamegraph::{frame_count, normalized, FlameGraph, FlamegraphNav};
use crate::pyroscope::heatmap::{collect_slot_exemplars, slot_exemplars, HeatmapSlot};
use crate::pyroscope::labels::TimelineExemplar;
use crate::pyroscope::timeline::{all_exemplars, collect_exemplars, pointees, TimelineSeries};
use crate::select::{
    clamp_index, clamped, filtered_pyroscope_series_indices, listed_datasources, listed_series,
    next_index, next_of, prev_index, prev_of, sorted_datasource_indices,
    tempo_datasource_indices, tempo_datasources,
};
use crate::suggest::{drop_repeats, without_repeats};
use crate::text::{lemma_boundary_after_ascii, opt_text, str_eq, substr, text_in};
use crate::time_range::{find_byte, first_index};
use vstd::prelude::*;
use vstd::string::*;
use vstd::utf8::*;

verus! {

// ── Entering and leaving ─────────────────────────────────────────────────────

/// The time range, or an hour where none is set.
pub open spec fn range_or_hour(range: Seq<char>) -> Seq<char> {
    if range.len() == 0 {
        "1h"@
    } else {
        range
    }
}

/// The list of services is empty, and being loaded or not.
pub open spec fn series_emptied(pre: SeriesState, post: SeriesState, loading: bool) -> bool {
    &&& post == (SeriesState {
        loading,
        error: None,
        items: post.items,
        profile_types: post.profile_types,
        index: 0,
        filter: post.filter,
        selected_service: post.selected_service,
        selected_profile_type: post.selected_profile_type,
        ..pre
    })
    &&& post.items@.len() == 0
    &&& post.profile_types@.len() == 0
    &&& post.filter@.len() == 0
}

fn empty_series(series: &mut SeriesState, loading: bool)
    ensures
        series_emptied(*old(series), *final(series), loading),
        final(series).selected_service == old(series).selected_service,
        final(series).selected_profile_type == old(series).selected_profile_type,
{
    series.loading = loading;
    series.error = None;
    series.items = Vec::new();
    series.profile_types = Vec::new();
    series.index = 0;
    series.filter = String::new();
}

pub(crate) fn set_default_range(range: &mut String)
    ensures
        final(range)@ == range_or_hour(old(range)@),
{
    if range.as_str().is_empty() {
        *range = "1h".to_string();
    }
}

/// The profile screen is entered for the highlighted datasource, and its
/// services are being loaded. Without datasources nothing has changed.
pub open spec fn pyroscope_entered(pre: Model, post: Model) -> bool {
    if listed_datasources(pre).len() == 0 {
        post == pre
    } else {
        &&& post == (Model {
            datasources: post.datasources,
            screen: Screen::PyroscopeMode,
            sub_screen: PyroscopeSubScreen::ServiceList,
            time_range: post.time_range,
            series: post.series,
            ..pre
        })
        &&& raw_selected(pre, post, highlighted(pre))
        &&& post.time_range@ == range_or_hour(pre.time_range@)
        &&& series_emptied(pre.series, post.series, true)
        &&& post.series.selected_service == pre.series.selected_service
        &&& post.series.selected_profile_type == pre.series.selected_profile_type
    }
}

pub fn handle_enter_pyroscope(model: &mut Model) -> (cmd: Command)
    ensures
        cmd == Command::Render,
        pyroscope_entered(*old(model), *final(model)),
{
    let raw = match find_highlighted(model) {
        Some(raw) => raw,
        None => {
            return Command::Render;
        },
    };
    select_raw(model, raw);
    let ghost selected = *model;
    model.screen = Screen::PyroscopeMode;
    model.sub_screen = PyroscopeSubScreen::ServiceList;
    set_default_range(&mut model.time_range);
    empty_series(&mut model.series, true);
    assert(listed_datasources(*model) == listed_datasources(selected));
    Command::Render
}

pub fn handle_back_from_pyroscope(model: &mut Model) -> (cmd: Command)
    ensures
        cmd == Command::Render,
        *final(model) == (Model { screen: Screen::DatasourceList, ..*old(model) }),
{
    model.screen = Screen::DatasourceList;
    Command::Render
}

/// The list of services is shown; it is being loaded if it is empty.
pub open spec fn service_list_shown(pre: Model, post: Model) -> bool {
    post == (Model {
        sub_screen: PyroscopeSubScreen::ServiceList,
        series: if pre.series.items@.len() == 0 && !pre.series.loading {
            SeriesState { loading: true, error: None, ..pre.series }
        } else {
            pre.series
        },
        ..pre
    })
}

pub fn handle_back_to_service_list(model: &mut Model) -> (cmd: Command)
    ensures
        cmd == Command::Render,
        service_list_shown(*old(model), *final(model)),
{
    model.sub_screen = PyroscopeSubScreen::ServiceList;
    if model.series.items.len() == 0 && !model.series.loading {
        model.series.loading = true;
        model.series.error = None;
    }
    Command::Render
}

pub fn handle_pyroscope_set_time_range(model: &mut Model, range: String) -> (cmd: Command)
    ensures
        cmd == Command::Render,
        *final(model) == (Model { time_range: range, ..*old(model) }),
{
    model.time_range = range;
    Command::Render
}

// ── Services ─────────────────────────────────────────────────────────────────

/// The part of a profile type before the first colon.
pub open spec fn first_segment(id: Seq<char>) -> Seq<char> {
    let b = encode_utf8(id);
    match first_index(b, 0, ':' as u8) {
        Some(i) => text_in(b, 0, i),
        None => id,
    }
}

/// Whether a profile type is of CPU time.
pub open spec fn cpu_type(id: Seq<char>) -> bool {
    first_segment(id) == "process_cpu"@ || first_segment(id) == "cpu"@
}

/// The first place of `x` from `from` on.
pub open spec fn first_equal(s: Seq<Seq<char>>, from: int, x: Seq<char>) -> Option<int>
    decreases s.len() - from,
{
    if from < 0 || from >= s.len() {
        None
    } else if s[from] == x {
        Some(from)
    } else {
        first_equal(s, from + 1, x)
    }
}

/// The first place of a profile type of CPU time from `from` on.
pub open spec fn first_cpu(s: Seq<Seq<char>>, from: int) -> Option<int>
    decreases s.len() - from,
{
    if from < 0 || from >= s.len() {
        None
    } else if cpu_type(s[from]) {
        Some(from)
    } else {
        first_cpu(s, from + 1)
    }
}

/// The profile type to start with: the usual one of CPU time, or else any of
/// CPU time, or else the first.
pub open spec fn preferred_type(types: Seq<Seq<char>>) -> int {
    match first_equal(types, 0, "process_cpu:cpu:nanoseconds:cpu:nanoseconds"@) {
        Some(i) => i,
        None => match first_cpu(types, 0) {
            Some(i) => i,
            None => 0,
        },
    }
}

fn is_cpu_type(id: &str) -> (r: bool)
    ensures
        r == cpu_type(id@),
{
    let b = id.as_bytes();
    let segment = match find_byte(b, 0, ':' as u8) {
        Some(i) => {
            proof {
                encode_utf8_valid_utf8(id@);
                is_char_boundary_start_end_of_seq(b@);
                lemma_boundary_after_ascii(b@, i as int);
            }
            substr(id, 0, i)
        },
        None => id,
    };
    str_eq(segment, "process_cpu") || str_eq(segment, "cpu")
}

fn find_equal(v: &Vec<String>, x: &str) -> (r: Option<usize>)
    ensures
        match r {
            Some(i) => first_equal(texts(v@), 0, x@) == Some(i as int) && i < v.len(),
            None => first_equal(texts(v@), 0, x@) is None,
        },
{
    let mut i: usize = 0;
    while i < v.len()
        invariant
            i <= v.len(),
            first_equal(texts(v@), 0, x@) == first_equal(texts(v@), i as int, x@),
        decreases v.len() - i,
    {
        assert(texts(v@)[i as int] == v@[i as int]@);
        if str_eq(v[i].as_str(), x) {
            return Some(i);
        }
        i += 1;
    }
    None
}

fn find_preferred(v: &Vec<String>) -> (r: usize)
    ensures
        r == preferred_type(texts(v@)),
{
    if let Some(i) = find_equal(v, "process_cpu:cpu:nanoseconds:cpu:nanoseconds") {
        return i;
    }
    let mut i: usize = 0;
    while i < v.len()
        invariant
            i <= v.len(),
            first_equal(texts(v@), 0, "process_cpu:cpu:nanoseconds:cpu:nanoseconds"@) is None,
            first_cpu(texts(v@), 0) == first_cpu(texts(v@), i as int),
        decreases v.len() - i,
    {
        assert(texts(v@)[i as int] == v@[i as int]@);
        if is_cpu_type(v[i].as_str()) {
            return i;
        }
        i += 1;
    }
    0
}

/// Whether `items` are the services and profile types of `series`.
pub open spec fn items_of(items: Seq<PyroscopeSeriesItem>, series: Seq<(String, String)>) -> bool {
    &&& items.len() == series.len()
    &&& forall|i: int|
        0 <= i < items.len() ==> {
            &&& (#[trigger] items[i]).service_name@ == series[i].0@
            &&& items[i].profile_type_id@ == series[i].1@
        }
}

/// The profile types of `series`, each once, in the order of text.
pub open spec fn types_of(series: Seq<(String, String)>) -> Seq<Seq<char>> {
    without_repeats(sorted_texts(series.map_values(|p: (String, String)| p.1@)))
}

/// Services have arrived, or an error. At first a profile type is chosen; later
/// the chosen one stays, as long as there are so many.
pub open spec fn series_loaded(
    pre: Model,
    post: Model,
    result: Result<Vec<(String, String)>, String>,
) -> bool {
    match result {
        Ok(series) => {
            &&& post == (Model {
                series: SeriesState {
                    loading: false,
                    items: post.series.items,
                    profile_types: post.series.profile_types,
                    profile_type_index: post.series.profile_type_index,
                    index: 0,
                    ..pre.series
                },
                ..pre
            })
            &&& items_of(post.series.items@, series@)
            &&& texts(post.series.profile_types@) == types_of(series@)
            &&& post.series.profile_type_index == (if pre.series.profile_types@.len() == 0 {
                preferred_type(types_of(series@))
            } else if pre.series.profile_type_index < types_of(series@).len() {
                pre.series.profile_type_index as int
            } else {
                0
            })
        },
        Err(e) => post == (Model {
            series: SeriesState { loading: false, error: Some(e), ..pre.series },
            ..pre
        }),
    }
}

fn make_items(series: &Vec<(String, String)>) -> (r: (Vec<PyroscopeSeriesItem>, Vec<String>))
    ensures
        items_of(r.0@, series@),
        texts(r.1@) == types_of(series@),
{
    let mut items: Vec<PyroscopeSeriesItem> = Vec::new();
    let mut types: Vec<String> = Vec::new();
    let ghost all = series@.map_values(|p: (String, String)| p.1@);
    let mut i: usize = 0;
    assert(texts(types@) =~= all.take(0));
    while i < series.len()
        invariant
            i <= series.len(),
            all == series@.map_values(|p: (String, String)| p.1@),
            items.len() == i,
            forall|k: int|
                0 <= k < i ==> {
                    &&& (#[trigger] items@[k]).service_name@ == series@[k].0@
                    &&& items@[k].profile_type_id@ == series@[k].1@
                },
            texts(types@) == all.take(i as int),
        decreases series.len() - i,
    {
        let pair = &series[i];
        let ghost before = texts(types@);
        items.push(
            PyroscopeSeriesItem {
                service_name: pair.0.clone(),
                profile_type_id: pair.1.clone(),
            },
        );
        types.push(pair.1.clone());
        assert(texts(types@) =~= before.push(pair.1@));
        assert(all.take(i + 1) =~= all.take(i as int).push(pair.1@));
        i += 1;
    }
    assert(all.take(i as int) =~= all);
    sort_strings(&mut types);
    (items, drop_repeats(&types))
}

pub fn handle_pyroscope_series_loaded(
    model: &mut Model,
    result: Result<Vec<(String, String)>, String>,
) -> (cmd: Command)
    ensures
        cmd == Command::Render,
        series_loaded(*old(model), *final(model), result),
{
    model.series.loading = false;
    match result {
        Ok(series) => {
            let was_empty = model.series.profile_types.len() == 0;
            let (items, types) = make_items(&series);
            assert(texts(types@).len() == types.len());
            if was_empty {
                model.series.profile_type_index = find_preferred(&types);
            } else if model.series.profile_type_index >= types.len() {
                model.series.profile_type_index = 0;
            }
            model.series.items = items;
            model.series.profile_types = types;
            model.series.index = 0;
        },
        Err(e) => {
            model.series.error = Some(e);
        },
    }
    Command::Render
}

/// The service at `index` is selected; where none is shown nothing has changed.
pub open spec fn service_selected(pre: Model, post: Model, index: int) -> bool {
    if listed_series(pre).len() == 0 {
        post == pre
    } else {
        &&& post == (Model {
            series: SeriesState { index: post.series.index, ..pre.series },
            ..pre
        })
        &&& post.series.index == index
    }
}

pub fn handle_pyroscope_series_next(model: &mut Model) -> (cmd: Command)
    ensures
        cmd == Command::Render,
        service_selected(
            *old(model),
            *final(model),
            next_of(old(model).series.index as int, listed_series(*old(model)).len() as int),
        ),
{
    let count = filtered_pyroscope_series_indices(model).len();
    if count > 0 {
        model.series.index = next_index(model.series.index, count);
    }
    Command::Render
}

pub fn handle_pyroscope_series_prev(model: &mut Model) -> (cmd: Command)
    ensures
        cmd == Command::Render,
        service_selected(
            *old(model),
            *final(model),
            prev_of(old(model).series.index as int, listed_series(*old(model)).len() as int),
        ),
{
    let count = filtered_pyroscope_series_indices(model).len();
    if count > 0 {
        model.series.index = prev_index(model.series.index, count);
    }
    Command::Render
}

/// The profile type at `index` is selected; without any nothing has changed.
pub open spec fn type_selected(pre: Model, post: Model, index: int) -> bool {
    if pre.series.profile_types@.len() == 0 {
        post == pre
    } else {
        &&& post == (Model {
            series: SeriesState {
                profile_type_index: post.series.profile_type_index,
                index: 0,
                ..pre.series
            },
            ..pre
        })
        &&& post.series.profile_type_index == index
    }
}

pub fn handle_pyroscope_profile_type_next(model: &mut Model) -> (cmd: Command)
    ensures
        cmd == Command::Render,
        type_selected(
            *old(model),
            *final(model),
            next_of(
                old(model).series.profile_type_index as int,
                old(model).series.profile_types@.len() as int,
            ),
        ),
{
    let len = model.series.profile_types.len();
    if len > 0 {
        model.series.profile_type_index = next_index(model.series.profile_type_index, len);
        model.series.index = 0;
    }
    Command::Render
}

pub fn handle_pyroscope_profile_type_prev(model: &mut Model) -> (cmd: Command)
    ensures
        cmd == Command::Render,
        type_selected(
            *old(model),
            *final(model),
            prev_of(
                old(model).series.profile_type_index as int,
                old(model).series.profile_types@.len() as int,
            ),
        ),
{
    let len = model.series.profile_types.len();
    if len > 0 {
        model.series.profile_type_index = prev_index(model.series.profile_type_index, len);
        model.series.index = 0;
    }
    Command::Render
}

/// The filter of services is `filter`; the selection starts over.
pub open spec fn service_filter(pre: Model, post: Model, filter: Seq<char>) -> bool {
    &&& post == (Model {
        series: SeriesState { filter: post.series.filter, index: 0, ..pre.series },
        ..pre
    })
    &&& post.series.filter@ == filter
}

pub fn handle_pyroscope_service_filter_input(model: &mut Model, c: char) -> (cmd: Command)
    ensures
        cmd == Command::Render,
        service_filter(*old(model), *final(model), old(model).series.filter@.push(c)),
{
    model.series.filter.push(c);
    model.series.index = 0;
    Command::Render
}

pub fn handle_pyroscope_service_filter_backspace(model: &mut Model) -> (cmd: Command)
    ensures
        cmd == Command::Render,
        service_filter(*old(model), *final(model), without_last(old(model).series.filter@)),
{
    pop_char(&mut model.series.filter);
    model.series.index = 0;
    Command::Render
}

pub fn handle_pyroscope_service_filter_clear(model: &mut Model) -> (cmd: Command)
    ensures
        cmd == Command::Render,
        service_filter(*old(model), *final(model), seq![]),
{
    model.series.filter = String::new();
    model.series.index = 0;
    assert(model.series.filter@ =~= seq![]);
    Command::Render
}

pub fn handle_profile_type_dropdown(model: &mut Model, open: bool) -> (cmd: Command)
    ensures
        cmd == Command::Render,
        *final(model) == (Model {
            series: SeriesState { dropdown_open: open, ..old(model).series },
            ..*old(model)
        }),
{
    model.series.dropdown_open = open;
    Command::Render
}

/// The state with the focus on the filter of services, or not.
pub open spec fn with_filter_focus(m: Model, focused: bool) -> Model {
    Model { series: SeriesState { filter_focused: focused, ..m.series }, ..m }
}

pub fn handle_service_filter_focused(model: &mut Model, focused: bool) -> (cmd: Command)
    ensures
        cmd == Command::Render,
        *final(model) == with_filter_focus(*old(model), focused),
{
    model.series.filter_focused = focused;
    Command::Render
}

// ── Opening a profile ────────────────────────────────────────────────────────

/// The flamegraph of a service and profile type is being loaded; what was loaded
/// of another one is gone.
pub open spec fn profile_opened(
    pre: Model,
    post: Model,
    service: Seq<char>,
    profile_type: Seq<char>,
) -> bool {
    &&& post.series.selected_service@ == service
    &&& post.series.selected_profile_type@ == profile_type
    &&& post.sub_screen == PyroscopeSubScreen::Flamegraph
    &&& post.flame == (FlameState {
        loading: true,
        error: None,
        graph: None,
        nav: FlamegraphNav::initial(),
        ..pre.flame
    })
    &&& post.timeline.is_initial()
    &&& post.heatmap.is_initial()
    &&& post.span_heatmap.is_initial()
}

/// Nothing but what opening a profile concerns has changed.
pub open spec fn only_profile(pre: Model, post: Model) -> bool {
    post == (Model {
        sub_screen: post.sub_screen,
        series: post.series,
        flame: post.flame,
        timeline: post.timeline,
        heatmap: post.heatmap,
        span_heatmap: post.span_heatmap,
        ..pre
    })
}

fn open_profile(model: &mut Model, service: String, profile_type: String)
    ensures
        only_profile(*old(model), *final(model)),
        final(model).series == (SeriesState {
            selected_service: service,
            selected_profile_type: profile_type,
            ..old(model).series
        }),
        profile_opened(*old(model), *final(model), service@, profile_type@),
{
    model.series.selected_service = service;
    model.series.selected_profile_type = profile_type;
    model.sub_screen = PyroscopeSubScreen::Flamegraph;
    model.flame.loading = true;
    model.flame.error = None;
    model.flame.graph = None;
    model.flame.nav = FlamegraphNav::default();
    model.timeline = TimelineState { loading: false, error: None, series: Vec::new() };
    model.heatmap = HeatmapState { loading: false, error: None, slots: Vec::new() };
    model.span_heatmap = HeatmapState { loading: false, error: None, slots: Vec::new() };
}

/// The profile of the selected service is opened; where none is selected nothing
/// has changed.
pub open spec fn selected_opened(pre: Model, post: Model) -> bool {
    let shown = listed_series(pre);
    if pre.series.index < shown.len() {
        let item = pre.series.items@[shown[pre.series.index as int]];
        &&& only_profile(pre, post)
        &&& post.series == (SeriesState {
            selected_service: post.series.selected_service,
            selected_profile_type: post.series.selected_profile_type,
            ..pre.series
        })
        &&& profile_opened(pre, post, item.service_name@, item.profile_type_id@)
    } else {
        post == pre
    }
}

pub fn handle_pyroscope_select_series(model: &mut Model) -> (cmd: Command)
    ensures
        cmd == Command::Render,
        selected_opened(*old(model), *final(model)),
{
    let indices = filtered_pyroscope_series_indices(model);
    if model.series.index < indices.len() {
        let i = indices[model.series.index];
        assert(places(indices@)[model.series.index as int] == i);
        let service = model.series.items[i].service_name.clone();
        let profile_type = model.series.items[i].profile_type_id.clone();
        open_profile(model, service, profile_type);
    }
    Command::Render
}

/// The first place in `shown` whose series is of the service.
pub open spec fn first_service(
    items: Seq<PyroscopeSeriesItem>,
    shown: Seq<int>,
    from: int,
    service: Seq<char>,
) -> Option<int>
    decreases shown.len() - from,
{
    if from < 0 || from >= shown.len() {
        None
    } else if items[shown[from]].service_name@ == service {
        Some(from)
    } else {
        first_service(items, shown, from + 1, service)
    }
}

/// The state with the profile type at `index` selected.
pub open spec fn with_type(m: Model, index: int) -> Model {
    Model { series: SeriesState { profile_type_index: index as usize, ..m.series }, ..m }
}

/// The state with the service selected, where it is shown.
pub open spec fn with_service(m: Model, service: Seq<char>) -> Model {
    match first_service(m.series.items@, listed_series(m), 0, service) {
        Some(i) => Model { series: SeriesState { index: i as usize, ..m.series }, ..m },
        None => m,
    }
}

/// The profile of a service and profile type is opened, by selecting it in the
/// list; nothing has changed for an unknown profile type.
pub open spec fn named_opened(
    pre: Model,
    post: Model,
    service: Seq<char>,
    profile_type: Seq<char>,
) -> bool {
    match first_equal(texts(pre.series.profile_types@), 0, profile_type) {
        Some(i) => selected_opened(with_service(with_type(pre, i), service), post),
        None => post == pre,
    }
}

fn find_service(model: &Model, service: &str) -> (r: Option<usize>)
    ensures
        match r {
            Some(i) => first_service(
                model.series.items@,
                listed_series(*model),
                0,
                service@,
            ) == Some(i as int),
            None => first_service(
                model.series.items@,
                listed_series(*model),
                0,
                service@,
            ) is None,
        },
{
    let shown = filtered_pyroscope_series_indices(model);
    let ghost all = listed_series(*model);
    let mut i: usize = 0;
    while i < shown.len()
        invariant
            i <= shown.len(),
            all == places(shown@),
            all == listed_series(*model),
            all.len() == shown.len(),
            forall|k: int| 0 <= k < shown.len() ==> #[trigger] shown@[k] < model.series.items.len(),
            first_service(model.series.items@, all, 0, service@) == first_service(
                model.series.items@,
                all,
                i as int,
                service@,
            ),
        decreases shown.len() - i,
    {
        assert(all[i as int] == shown@[i as int]);
        if str_eq(model.series.items[shown[i]].service_name.as_str(), service) {
            return Some(i);
        }
        i += 1;
    }
    None
}

pub fn handle_pyroscope_select_by_name(
    model: &mut Model,
    service_name: String,
    profile_type: String,
) -> (cmd: Command)
    ensures
        cmd == Command::Render,
        named_opened(*old(model), *final(model), service_name@, profile_type@),
{
    let i = match find_equal(&model.series.profile_types, profile_type.as_str()) {
        Some(i) => i,
        None => {
            return Command::Render;
        },
    };
    model.series.profile_type_index = i;
    let ghost typed = *model;
    assert(typed == with_type(*old(model), i as int));
    let found = find_service(model, service_name.as_str());
    if let Some(k) = found {
        model.series.index = k;
    }
    assert(*model == with_service(typed, service_name@));
    handle_pyroscope_select_series(model)
}

/// The profile of a known service and profile type is opened, without its list.
/// Without datasources nothing has changed.
pub open spec fn directly_opened(
    pre: Model,
    post: Model,
    service: Seq<char>,
    profile_type: Seq<char>,
) -> bool {
    let n = listed_datasources(pre).len() as int;
    if n == 0 {
        post == pre
    } else {
        &&& post == (Model {
            datasources: post.datasources,
            screen: Screen::PyroscopeMode,
            time_range: post.time_range,
            sub_screen: post.sub_screen,
            series: post.series,
            flame: post.flame,
            timeline: post.timeline,
            heatmap: post.heatmap,
            span_heatmap: post.span_heatmap,
            ..pre
        })
        &&& post.datasources == (DatasourceState {
            selected_index: post.datasources.selected_index,
            filter: post.datasources.filter,
            ..pre.datasources
        })
        &&& post.datasources.selected_index == clamped(pre.datasources.selected_index as int, n)
        &&& post.datasources.filter@.len() == 0
        &&& post.time_range@ == range_or_hour(pre.time_range@)
        &&& series_emptied(pre.series, post.series, false)
        &&& profile_opened(pre, post, service, profile_type)
    }
}

pub fn handle_pyroscope_direct_load(
    model: &mut Model,
    service_name: String,
    profile_type: String,
) -> (cmd: Command)
    ensures
        cmd == Command::Render,
        directly_opened(*old(model), *final(model), service_name@, profile_type@),
{
    let n = sorted_datasource_indices(model).len();
    if n == 0 {
        return Command::Render;
    }
    model.datasources.selected_index = clamp_index(model.datasources.selected_index, n);
    model.datasources.filter = String::new();
    model.screen = Screen::PyroscopeMode;
    set_default_range(&mut model.time_range);
    empty_series(&mut model.series, false);
    open_profile(model, service_name, profile_type);
    Command::Render
}

// ── Views of a profile ───────────────────────────────────────────────────────

/// The timeline as it is when it is looked at: being loaded if there is nothing
/// yet.
pub open spec fn timeline_wanted(t: TimelineState) -> TimelineState {
    if t.series@.len() == 0 && t.error is None {
        TimelineState { loading: true, ..t }
    } else {
        t
    }
}

/// A heatmap as it is when it is looked at.
pub open spec fn heatmap_wanted(h: HeatmapState) -> HeatmapState {
    if h.slots@.len() == 0 && h.error is None {
        HeatmapState { loading: true, ..h }
    } else {
        h
    }
}

/// The state with view `idx` of a profile: 0 = flamegraph, 1 = timeline,
/// 2 = profile heatmap, which shows exemplars of the timeline, 3 = span heatmap.
pub open spec fn with_view(m: Model, idx: usize) -> Model {
    if idx == 0 {
        Model { sub_screen: PyroscopeSubScreen::Flamegraph, ..m }
    } else if idx == 1 {
        Model {
            sub_screen: PyroscopeSubScreen::Timeline,
            timeline: timeline_wanted(m.timeline),
            ..m
        }
    } else if idx == 2 {
        Model {
            sub_screen: PyroscopeSubScreen::ProfileHeatmap,
            heatmap: heatmap_wanted(m.heatmap),
            timeline: timeline_wanted(m.timeline),
            ..m
        }
    } else if idx == 3 {
        Model {
            sub_screen: PyroscopeSubScreen::SpanHeatmap,
            span_heatmap: heatmap_wanted(m.span_heatmap),
            ..m
        }
    } else {
        m
    }
}

fn want_timeline(t: &mut TimelineState)
    ensures
        *final(t) == timeline_wanted(*old(t)),
{
    if t.series.len() == 0 && t.error.is_none() {
        t.loading = true;
    }
}

fn want_heatmap(h: &mut HeatmapState)
    ensures
        *final(h) == heatmap_wanted(*old(h)),
{
    if h.slots.len() == 0 && h.error.is_none() {
        h.loading = true;
    }
}

pub fn handle_pyroscope_select_view(model: &mut Model, idx: usize) -> (cmd: Command)
    ensures
        cmd == Command::Render,
        *final(model) == with_view(*old(model), idx),
{
    match idx {
        0 => {
            model.sub_screen = PyroscopeSubScreen::Flamegraph;
        },
        1 => {
            want_timeline(&mut model.timeline);
            model.sub_screen = PyroscopeSubScreen::Timeline;
        },
        2 => {
            want_heatmap(&mut model.heatmap);
            want_timeline(&mut model.timeline);
            model.sub_screen = PyroscopeSubScreen::ProfileHeatmap;
        },
        3 => {
            want_heatmap(&mut model.span_heatmap);
            model.sub_screen = PyroscopeSubScreen::SpanHeatmap;
        },
        _ => {},
    }
    Command::Render
}

/// The timeline has arrived, or an error; after an error the old one stays.
pub open spec fn timeline_loaded(
    pre: Model,
    post: Model,
    result: Result<Vec<TimelineSeries>, String>,
) -> bool {
    post == match result {
        Ok(series) => Model {
            timeline: TimelineState { loading: false, series, ..pre.timeline },
            exemplar_index: 0,
            ..pre
        },
        Err(e) => Model {
            timeline: TimelineState { loading: false, error: Some(e), ..pre.timeline },
            ..pre
        },
    }
}

pub fn handle_pyroscope_timeline_loaded(
    model: &mut Model,
    result: Result<Vec<TimelineSeries>, String>,
) -> (cmd: Command)
    ensures
        cmd == Command::Render,
        timeline_loaded(*old(model), *final(model), result),
{
    model.timeline.loading = false;
    match result {
        Ok(series) => {
            model.timeline.series = series;
            model.exemplar_index = 0;
        },
        Err(e) => {
            model.timeline.error = Some(e);
        },
    }
    Command::Render
}

/// A heatmap after its slots have arrived, or an error.
pub open spec fn heatmap_with(
    pre: HeatmapState,
    result: Result<Vec<HeatmapSlot>, String>,
) -> HeatmapState {
    match result {
        Ok(slots) => HeatmapState { loading: false, slots, ..pre },
        Err(e) => HeatmapState { loading: false, error: Some(e), ..pre },
    }
}

/// The selected exemplar: the first of what has arrived; after an error it stays.
pub open spec fn exemplar_after(index: usize, result: Result<Vec<HeatmapSlot>, String>) -> usize {
    match result {
        Ok(_) => 0,
        Err(_) => index,
    }
}

pub fn handle_pyroscope_heatmap_loaded(
    model: &mut Model,
    result: Result<Vec<HeatmapSlot>, String>,
) -> (cmd: Command)
    ensures
        cmd == Command::Render,
        *final(model) == (Model {
            heatmap: heatmap_with(old(model).heatmap, result),
            exemplar_index: exemplar_after(old(model).exemplar_index, result),
            ..*old(model)
        }),
{
    model.heatmap.loading = false;
    match result {
        Ok(slots) => {
            model.heatmap.slots = slots;
            model.exemplar_index = 0;
        },
        Err(e) => {
            model.heatmap.error = Some(e);
        },
    }
    Command::Render
}

pub fn handle_pyroscope_span_heatmap_loaded(
    model: &mut Model,
    result: Result<Vec<HeatmapSlot>, String>,
) -> (cmd: Command)
    ensures
        cmd == Command::Render,
        *final(model) == (Model {
            span_heatmap: heatmap_with(old(model).span_heatmap, result),
            exemplar_index: exemplar_after(old(model).exemplar_index, result),
            ..*old(model)
        }),
{
    model.span_heatmap.loading = false;
    match result {
        Ok(slots) => {
            model.span_heatmap.slots = slots;
            model.exemplar_index = 0;
        },
        Err(e) => {
            model.span_heatmap.error = Some(e);
        },
    }
    Command::Render
}

/// Whether `post` is `pre` with absolute offsets.
pub open spec fn graph_normalized(pre: FlameGraph, post: FlameGraph) -> bool {
    &&& post.names == pre.names
    &&& post.total == pre.total
    &&& post.max_self == pre.max_self
    &&& post.levels.len() == pre.levels.len()
    &&& forall|l: int|
        0 <= l < pre.levels.len() ==> (#[trigger] post.levels@[l]).values@ == normalized(
            pre.levels@[l].values@,
        )
}

/// Whether the offsets of a flamegraph that has arrived can be counted.
pub open spec fn flamegraph_fits(result: Result<Option<FlameGraph>, String>) -> bool {
    match result {
        Ok(Some(fg)) => fg.deltas_fit(),
        _ => true,
    }
}

/// A flamegraph has arrived, or an error. It is kept with absolute offsets and
/// shown in full; after an error the old one stays.
pub open spec fn flamegraph_loaded(
    pre: Model,
    post: Model,
    result: Result<Option<FlameGraph>, String>,
) -> bool {
    match result {
        Ok(graph) => {
            &&& post == (Model {
                flame: FlameState {
                    loading: false,
                    graph: post.flame.graph,
                    nav: FlamegraphNav::initial(),
                    ..pre.flame
                },
                ..pre
            })
            &&& match (graph, post.flame.graph) {
                (Some(a), Some(b)) => graph_normalized(a, b),
                (None, None) => true,
                _ => false,
            }
        },
        Err(e) => post == (Model {
            flame: FlameState { loading: false, error: Some(e), ..pre.flame },
            ..pre
        }),
    }
}

pub fn handle_pyroscope_flamegraph_loaded(
    model: &mut Model,
    result: Result<Option<FlameGraph>, String>,
) -> (cmd: Command)
    requires
        flamegraph_fits(result),
    ensures
        cmd == Command::Render,
        flamegraph_loaded(*old(model), *final(model), result),
{
    model.flame.loading = false;
    match result {
        Ok(graph) => {
            model.flame.graph = match graph {
                Some(fg) => {
                    let mut fg = fg;
                    fg.normalize_deltas();
                    Some(fg)
                },
                None => None,
            };
            model.flame.nav = FlamegraphNav::default();
        },
        Err(e) => {
            model.flame.error = Some(e);
        },
    }
    Command::Render
}

// ── Flamegraph ───────────────────────────────────────────────────────────────

/// The state with another position in the flamegraph.
pub open spec fn with_nav(m: Model, nav: FlamegraphNav) -> Model {
    Model { flame: FlameState { nav, ..m.flame }, ..m }
}

/// Whether a move to the right can be counted.
pub open spec fn can_move_right(m: Model) -> bool {
    match m.flame.graph {
        Some(fg) => m.flame.nav.right_fits(fg),
        None => true,
    }
}

/// Whether a move to the left can be counted.
pub open spec fn can_move_left(m: Model) -> bool {
    match m.flame.graph {
        Some(fg) => m.flame.nav.left_fits(fg),
        None => true,
    }
}

/// Whether a move to the children can be counted.
pub open spec fn can_move_up(m: Model) -> bool {
    match m.flame.graph {
        Some(fg) => m.flame.nav.up_fits(fg),
        None => true,
    }
}

/// Whether zooming in can be counted.
pub open spec fn can_zoom_in(m: Model) -> bool {
    match m.flame.graph {
        Some(fg) => m.flame.nav.zoom_fits(fg),
        None => true,
    }
}

/// Whether a move to the parent can be counted.
pub open spec fn can_move_down(m: Model) -> bool {
    match m.flame.graph {
        Some(fg) => m.flame.nav.down_fits(fg),
        None => true,
    }
}

/// The state after a move to the frame on the left.
pub open spec fn moved_left(m: Model) -> Model {
    match m.flame.graph {
        Some(fg) => with_nav(m, m.flame.nav.moved_left(fg)),
        None => m,
    }
}

/// The state after a move to the frame on the right.
pub open spec fn moved_right(m: Model) -> Model {
    match m.flame.graph {
        Some(fg) => with_nav(m, m.flame.nav.moved_right(fg)),
        None => m,
    }
}

/// The state after a move to the children.
pub open spec fn moved_up(m: Model) -> Model {
    match m.flame.graph {
        Some(fg) => with_nav(m, m.flame.nav.moved_up(fg)),
        None => m,
    }
}

/// The state after a move to the parent.
pub open spec fn moved_down(m: Model) -> Model {
    match m.flame.graph {
        Some(fg) => with_nav(m, m.flame.nav.moved_down(fg)),
        None => m,
    }
}

/// The state with the selected frame as root.
pub open spec fn zoomed_in(m: Model) -> Model {
    match m.flame.graph {
        Some(fg) => with_nav(m, m.flame.nav.zoomed_in(fg)),
        None => m,
    }
}

/// Moves the selection to the frame on the left.
pub fn handle_flame_move_left(model: &mut Model) -> (cmd: Command)
    requires
        can_move_left(*old(model)),
    ensures
        cmd == Command::Render,
        *final(model) == moved_left(*old(model)),
{
    if let Some(fg) = &model.flame.graph {
        model.flame.nav.move_left(fg);
    }
    Command::Render
}

/// Moves the selection to the frame on the right.
pub fn handle_flame_move_right(model: &mut Model) -> (cmd: Command)
    requires
        can_move_right(*old(model)),
    ensures
        cmd == Command::Render,
        *final(model) == moved_right(*old(model)),
{
    if let Some(fg) = &model.flame.graph {
        model.flame.nav.move_right(fg);
    }
    Command::Render
}

/// Moves the selection to the children.
pub fn handle_flame_move_up(model: &mut Model) -> (cmd: Command)
    requires
        can_move_up(*old(model)),
    ensures
        cmd == Command::Render,
        *final(model) == moved_up(*old(model)),
{
    if let Some(fg) = &model.flame.graph {
        model.flame.nav.move_up(fg);
    }
    Command::Render
}

/// Moves the selection to the parent.
pub fn handle_flame_move_down(model: &mut Model) -> (cmd: Command)
    requires
        can_move_down(*old(model)),
    ensures
        cmd == Command::Render,
        *final(model) == moved_down(*old(model)),
{
    if let Some(fg) = &model.flame.graph {
        model.flame.nav.move_down(fg);
    }
    Command::Render
}

/// Makes the selected frame the root.
pub fn handle_flame_zoom_in(model: &mut Model) -> (cmd: Command)
    requires
        can_zoom_in(*old(model)),
    ensures
        cmd == Command::Render,
        *final(model) == zoomed_in(*old(model)),
{
    if let Some(fg) = &model.flame.graph {
        model.flame.nav.zoom_in(fg);
    }
    Command::Render
}

pub fn handle_flame_zoom_out(model: &mut Model) -> (cmd: Command)
    ensures
        cmd == Command::Render,
        *final(model) == with_nav(*old(model), old(model).flame.nav.zoomed_out()),
{
    model.flame.nav.zoom_out();
    Command::Render
}

pub fn handle_flamegraph_viewport_chars(model: &mut Model, chars: u64) -> (cmd: Command)
    ensures
        cmd == Command::Render,
        *final(model) == with_nav(
            *old(model),
            (FlamegraphNav { viewport_chars: chars, ..old(model).flame.nav }),
        ),
{
    model.flame.nav.viewport_chars = chars;
    Command::Render
}

/// The index of the selected frame's name, where there is such a frame and name.
pub open spec fn selected_name(m: Model) -> Option<int> {
    match m.flame.graph {
        Some(fg) => {
            let nav = m.flame.nav;
            if nav.sel_level < fg.levels@.len() && nav.sel_frame < frame_count(
                fg.levels@[nav.sel_level as int].values@,
            ) {
                let index = fg.levels@[nav.sel_level as int].values@[nav.sel_frame * 4
                    + 3] as usize as int;
                if index < fg.names@.len() {
                    Some(index)
                } else {
                    None
                }
            } else {
                None
            }
        },
        None => None,
    }
}

/// The sandwich view is that of the selected frame, or closed if it already was
/// of that one; where there is no such frame nothing has changed.
pub open spec fn sandwich_toggled(pre: Model, post: Model) -> bool {
    match selected_name(pre) {
        Some(index) => {
            let name = pre.flame.graph->Some_0.names@[index]@;
            &&& post == (Model {
                flame: FlameState { sandwich_name: post.flame.sandwich_name, ..pre.flame },
                ..pre
            })
            &&& opt_text(post.flame.sandwich_name) == (if opt_text(pre.flame.sandwich_name)
                == Some(name) {
                None
            } else {
                Some(name)
            })
        },
        None => post == pre,
    }
}

fn find_selected_name(model: &Model) -> (r: Option<String>)
    ensures
        match selected_name(*model) {
            Some(index) => opt_text(r) == Some(model.flame.graph->Some_0.names@[index]@),
            None => r is None,
        },
{
    let fg = match &model.flame.graph {
        Some(fg) => fg,
        None => {
            return None;
        },
    };
    let level: usize = model.flame.nav.sel_level;
    let frame: usize = model.flame.nav.sel_frame;
    if level >= fg.levels.len() || frame >= fg.levels[level].values.len() / 4 {
        return None;
    }
    let values = &fg.levels[level].values;
    let index: usize = #[verifier::truncate]
    (values[frame * 4 + 3] as usize);
    if index < fg.names.len() {
        Some(fg.names[index].clone())
    } else {
        None
    }
}

pub fn handle_flame_sandwich(model: &mut Model) -> (cmd: Command)
    ensures
        cmd == Command::Render,
        sandwich_toggled(*old(model), *final(model)),
{
    if let Some(name) = find_selected_name(model) {
        let same = match &model.flame.sandwich_name {
            Some(open) => str_eq(open.as_str(), name.as_str()),
            None => false,
        };
        model.flame.sandwich_name = if same {
            None
        } else {
            Some(name)
        };
    }
    Command::Render
}

/// The state without a sandwich view.
pub open spec fn without_sandwich(m: Model) -> Model {
    Model { flame: FlameState { sandwich_name: None, ..m.flame }, ..m }
}

pub fn handle_flame_sandwich_clear(model: &mut Model) -> (cmd: Command)
    ensures
        cmd == Command::Render,
        *final(model) == without_sandwich(*old(model)),
{
    model.flame.sandwich_name = None;
    Command::Render
}

// ── Exemplars ────────────────────────────────────────────────────────────────

/// The number of exemplars on the screen.
pub open spec fn exemplars_shown(m: Model) -> int {
    match m.sub_screen {
        PyroscopeSubScreen::Timeline => all_exemplars(m.timeline.series@).len() as int,
        PyroscopeSubScreen::ProfileHeatmap => slot_exemplars(m.heatmap.slots@).len() as int,
        PyroscopeSubScreen::SpanHeatmap => slot_exemplars(m.span_heatmap.slots@).len() as int,
        _ => 0,
    }
}

/// The exemplar at `index` is selected; without any nothing has changed.
pub open spec fn exemplar_selected(pre: Model, post: Model, index: int) -> bool {
    if exemplars_shown(pre) == 0 {
        post == pre
    } else {
        &&& post == (Model { exemplar_index: post.exemplar_index, ..pre })
        &&& post.exemplar_index == index
    }
}

fn exemplar_count(model: &Model) -> (r: usize)
    ensures
        r == exemplars_shown(*model),
{
    let shown: Vec<&TimelineExemplar> = match model.sub_screen {
        PyroscopeSubScreen::Timeline => collect_exemplars(&model.timeline.series),
        PyroscopeSubScreen::ProfileHeatmap => collect_slot_exemplars(&model.heatmap.slots),
        PyroscopeSubScreen::SpanHeatmap => collect_slot_exemplars(&model.span_heatmap.slots),
        _ => {
            return 0;
        },
    };
    assert(pointees(shown@).len() == shown.len());
    shown.len()
}

pub fn handle_exemplar_select_next(model: &mut Model) -> (cmd: Command)
    ensures
        cmd == Command::Render,
        exemplar_selected(
            *old(model),
            *final(model),
            next_of(old(model).exemplar_index as int, exemplars_shown(*old(model))),
        ),
{
    let count = exemplar_count(model);
    if count > 0 {
        model.exemplar_index = next_index(model.exemplar_index, count);
    }
    Command::Render
}

pub fn handle_exemplar_select_prev(model: &mut Model) -> (cmd: Command)
    ensures
        cmd == Command::Render,
        exemplar_selected(
            *old(model),
            *final(model),
            prev_of(old(model).exemplar_index as int, exemplars_shown(*old(model))),
        ),
{
    let count = exemplar_count(model);
    if count > 0 {
        model.exemplar_index = prev_index(model.exemplar_index, count);
    }
    Command::Render
}

// ── Traces of spans ──────────────────────────────────────────────────────────

/// The state with the details of an exemplar shown or not.
pub fn handle_exemplar_detail(model: &mut Model, open: bool) -> (cmd: Command)
    ensures
        cmd == Command::Render,
        *final(model) == (Model { exemplar_detail_open: open, ..*old(model) }),
{
    model.exemplar_detail_open = open;
    Command::Render
}

/// The traces found for spans are `lookup`.
pub open spec fn traces_known(
    pre: Model,
    post: Model,
    lookup: Map<Seq<char>, Seq<char>>,
) -> bool {
    &&& post == (Model {
        span_traces: SpanTraceState { lookup: post.span_traces.lookup, ..pre.span_traces },
        ..pre
    })
    &&& trace_ids(post.span_traces) == lookup
}

/// Trace IDs by span ID.
pub open spec fn trace_ids(s: SpanTraceState) -> Map<Seq<char>, Seq<char>> {
    s.lookup@.map_values(|id: String| id@)
}

/// Trace IDs with those of `pairs` in addition; a later one wins.
pub open spec fn with_traces(
    lookup: Map<Seq<char>, Seq<char>>,
    pairs: Seq<(String, String)>,
) -> Map<Seq<char>, Seq<char>>
    decreases pairs.len(),
{
    if pairs.len() == 0 {
        lookup
    } else {
        with_traces(lookup, pairs.drop_last()).insert(pairs.last().0@, pairs.last().1@)
    }
}

fn add_trace(s: &mut SpanTraceState, span_id: String, trace_id: String)
    ensures
        *final(s) == (SpanTraceState { lookup: final(s).lookup, ..*old(s) }),
        trace_ids(*final(s)) == trace_ids(*old(s)).insert(span_id@, trace_id@),
{
    let ghost before = *s;
    s.lookup.insert(span_id, trace_id);
    assert(trace_ids(*s) =~= trace_ids(before).insert(span_id@, trace_id@));
}

pub fn handle_span_traces_clear(model: &mut Model) -> (cmd: Command)
    ensures
        cmd == Command::Render,
        traces_known(*old(model), *final(model), Map::empty()),
{
    model.span_traces.lookup.clear();
    assert(trace_ids(model.span_traces) =~= Map::<Seq<char>, Seq<char>>::empty());
    Command::Render
}

pub fn handle_span_traces_loading(model: &mut Model, loading: bool) -> (cmd: Command)
    ensures
        cmd == Command::Render,
        *final(model) == (Model {
            span_traces: SpanTraceState { loading, ..old(model).span_traces },
            ..*old(model)
        }),
{
    model.span_traces.loading = loading;
    Command::Render
}

/// A span has been looked up; an empty trace ID says that no trace was found.
pub open spec fn span_looked_up(
    pre: Model,
    post: Model,
    span_id: Seq<char>,
    trace_id: Seq<char>,
) -> bool {
    if trace_id.len() == 0 {
        post == pre
    } else {
        traces_known(pre, post, trace_ids(pre.span_traces).insert(span_id, trace_id))
    }
}

pub fn handle_span_trace_found(
    model: &mut Model,
    span_id: String,
    trace_id: String,
) -> (cmd: Command)
    ensures
        cmd == Command::Render,
        span_looked_up(*old(model), *final(model), span_id@, trace_id@),
{
    if !trace_id.as_str().is_empty() {
        add_trace(&mut model.span_traces, span_id, trace_id);
    }
    Command::Render
}

pub fn handle_span_traces_found(model: &mut Model, pairs: Vec<(String, String)>) -> (cmd: Command)
    ensures
        cmd == Command::Render,
        traces_known(
            *old(model),
            *final(model),
            with_traces(trace_ids(old(model).span_traces), pairs@),
        ),
{
    let ghost start = trace_ids(model.span_traces);
    let ghost pre = *model;
    let ghost all = pairs@;
    assert(all.take(0) =~= seq![]);
    for pair in it: pairs
        invariant
            it.seq() == all,
            *model == (Model {
                span_traces: SpanTraceState {
                    lookup: model.span_traces.lookup,
                    ..pre.span_traces
                },
                ..pre
            }),
            trace_ids(model.span_traces) == with_traces(start, all.take(it.index())),
    {
        proof {
            let upto = all.take(it.index() + 1);
            assert(upto.drop_last() =~= all.take(it.index()));
            assert(upto.last() == pair);
        }
        let (span_id, trace_id) = pair;
        add_trace(&mut model.span_traces, span_id, trace_id);
    }
    assert(all.take(all.len() as int) =~= all);
    Command::Render
}

pub fn handle_tempo_picker_open(model: &mut Model) -> (cmd: Command)
    ensures
        cmd == Command::Render,
        *final(model) == (Model {
            span_traces: SpanTraceState {
                picker_open: true,
                picker_index: 0,
                ..old(model).span_traces
            },
            ..*old(model)
        }),
{
    model.span_traces.picker_open = true;
    model.span_traces.picker_index = 0;
    Command::Render
}

pub fn handle_tempo_picker_close(model: &mut Model) -> (cmd: Command)
    ensures
        cmd == Command::Render,
        *final(model) == (Model {
            span_traces: SpanTraceState { picker_open: false, ..old(model).span_traces },
            ..*old(model)
        }),
{
    model.span_traces.picker_open = false;
    Command::Render
}

/// The datasource of traces at `index` is selected; without any nothing has
/// changed.
pub open spec fn tempo_selected(pre: Model, post: Model, index: int) -> bool {
    if tempo_datasources(pre.datasources.items@).len() == 0 {
        post == pre
    } else {
        &&& post == (Model {
            span_traces: SpanTraceState {
                picker_index: post.span_traces.picker_index,
                ..pre.span_traces
            },
            ..pre
        })
        &&& post.span_traces.picker_index == index
    }
}

pub fn handle_tempo_picker_next(model: &mut Model) -> (cmd: Command)
    ensures
        cmd == Command::Render,
        tempo_selected(
            *old(model),
            *final(model),
            next_of(
                old(model).span_traces.picker_index as int,
                tempo_datasources(old(model).datasources.items@).len() as int,
            ),
        ),
{
    let count = tempo_datasource_indices(&model.datasources.items).len();
    if count > 0 {
        model.span_traces.picker_index = next_index(model.span_traces.picker_index, count);
    }
    Command::Render
}

pub fn handle_tempo_picker_prev(model: &mut Model) -> (cmd: Command)
    ensures
        cmd == Command::Render,
        tempo_selected(
            *old(model),
            *final(model),
            prev_of(
                old(model).span_traces.picker_index as int,
                tempo_datasources(old(model).datasources.items@).len() as int,
            ),
        ),
{
    let count = tempo_datasource_indices(&model.datasources.items).len();
    if count > 0 {
        model.span_traces.picker_index = prev_index(model.span_traces.picker_index, count);
    }
    Command::Render
}

} // verus!
