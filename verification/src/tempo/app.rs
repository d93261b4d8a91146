//! Handling of events on the trace screens.

use crate::edit::{
    before_cursor, behind_cursor, cursor_between, cursor_left, cursor_right, cursor_valid,
    delete_before_cursor, insert_at_cursor, pop_char, without_last,
};
use crate::model::{Command, Model, Screen, TempoState, TraceDetailState};
use crate::select::{fuzzy, fuzzy_match, next_index, next_of, prev_index, prev_of};
use crate::tempo::{TempoSpan, TempoTrace};
use crate::text::trimmed;
use vstd::prelude::*;
use vstd::string::*;
use vstd::utf8::*;

verus! {

// ── Search ───────────────────────────────────────────────────────────────────

/// The search screen is entered, with nothing typed or found.
pub open spec fn tempo_entered(pre: Model, post: Model) -> bool {
    &&& post == (Model { screen: Screen::TempoMode, tempo: post.tempo, ..pre })
    &&& post.tempo.is_initial()
}

pub fn handle_enter_tempo(model: &mut Model) -> (cmd: Command)
    ensures
        cmd == Command::Render,
        tempo_entered(*old(model), *final(model)),
        old(model).wf() ==> final(model).wf(),
{
    model.screen = Screen::TempoMode;
    model.tempo = TempoState {
        query: String::new(),
        cursor_pos: 0,
        loading: false,
        error: None,
        results: Vec::new(),
        selected: 0,
    };
    proof {
        encode_utf8_valid_utf8(model.tempo.query@);
        is_char_boundary_start_end_of_seq(encode_utf8(model.tempo.query@));
    }
    Command::Render
}

/// Nothing but the query and its cursor has changed.
pub open spec fn only_tempo_query(pre: Model, post: Model) -> bool {
    post == (Model {
        tempo: TempoState {
            query: post.tempo.query,
            cursor_pos: post.tempo.cursor_pos,
            ..pre.tempo
        },
        ..pre
    })
}

/// `c` has been typed at the cursor.
pub open spec fn tempo_input(pre: Model, post: Model, c: char) -> bool {
    &&& only_tempo_query(pre, post)
    &&& cursor_between(
        post.tempo.query@,
        post.tempo.cursor_pos as int,
        before_cursor(pre.tempo.query@, pre.tempo.cursor_pos as int).push(c),
        behind_cursor(pre.tempo.query@, pre.tempo.cursor_pos as int),
    )
}

pub fn handle_tempo_query_input(model: &mut Model, c: char) -> (cmd: Command)
    requires
        cursor_valid(old(model).tempo.query@, old(model).tempo.cursor_pos as int),
    ensures
        cmd == Command::Render,
        tempo_input(*old(model), *final(model), c),
        old(model).wf() ==> final(model).wf(),
{
    insert_at_cursor(&mut model.tempo.query, &mut model.tempo.cursor_pos, c);
    Command::Render
}

/// The character before the cursor is gone; at the start nothing has changed.
pub open spec fn tempo_backspace(pre: Model, post: Model) -> bool {
    if pre.tempo.cursor_pos == 0 {
        post == pre
    } else {
        &&& only_tempo_query(pre, post)
        &&& before_cursor(pre.tempo.query@, pre.tempo.cursor_pos as int).len() > 0
        &&& cursor_between(
            post.tempo.query@,
            post.tempo.cursor_pos as int,
            before_cursor(pre.tempo.query@, pre.tempo.cursor_pos as int).drop_last(),
            behind_cursor(pre.tempo.query@, pre.tempo.cursor_pos as int),
        )
    }
}

pub fn handle_tempo_query_backspace(model: &mut Model) -> (cmd: Command)
    requires
        cursor_valid(old(model).tempo.query@, old(model).tempo.cursor_pos as int),
    ensures
        cmd == Command::Render,
        tempo_backspace(*old(model), *final(model)),
        old(model).wf() ==> final(model).wf(),
{
    delete_before_cursor(&mut model.tempo.query, &mut model.tempo.cursor_pos);
    Command::Render
}

/// The place one character before a byte cursor.
pub open spec fn one_left(s: Seq<char>, cursor: int) -> int {
    if cursor == 0 {
        0
    } else {
        encode_utf8(before_cursor(s, cursor).drop_last()).len() as int
    }
}

/// The place one character behind a byte cursor.
pub open spec fn one_right(s: Seq<char>, cursor: int) -> int {
    if cursor == encode_utf8(s).len() {
        cursor
    } else {
        encode_utf8(before_cursor(s, cursor).push(behind_cursor(s, cursor)[0])).len() as int
    }
}

/// The cursor of the query stands at `cursor`.
pub open spec fn tempo_cursor(pre: Model, post: Model, cursor: int) -> bool {
    &&& post == (Model {
        tempo: TempoState { cursor_pos: post.tempo.cursor_pos, ..pre.tempo },
        ..pre
    })
    &&& post.tempo.cursor_pos == cursor
}

pub fn handle_tempo_cursor_left(model: &mut Model) -> (cmd: Command)
    requires
        cursor_valid(old(model).tempo.query@, old(model).tempo.cursor_pos as int),
    ensures
        cmd == Command::Render,
        tempo_cursor(
            *old(model),
            *final(model),
            one_left(old(model).tempo.query@, old(model).tempo.cursor_pos as int),
        ),
        old(model).wf() ==> final(model).wf(),
{
    model.tempo.cursor_pos = cursor_left(model.tempo.query.as_str(), model.tempo.cursor_pos);
    Command::Render
}

pub fn handle_tempo_cursor_right(model: &mut Model) -> (cmd: Command)
    requires
        cursor_valid(old(model).tempo.query@, old(model).tempo.cursor_pos as int),
    ensures
        cmd == Command::Render,
        tempo_cursor(
            *old(model),
            *final(model),
            one_right(old(model).tempo.query@, old(model).tempo.cursor_pos as int),
        ),
        old(model).wf() ==> final(model).wf(),
{
    model.tempo.cursor_pos = cursor_right(model.tempo.query.as_str(), model.tempo.cursor_pos);
    Command::Render
}

pub fn handle_tempo_cursor_home(model: &mut Model) -> (cmd: Command)
    ensures
        cmd == Command::Render,
        tempo_cursor(*old(model), *final(model), 0),
        old(model).wf() ==> final(model).wf(),
{
    model.tempo.cursor_pos = 0;
    proof {
        encode_utf8_valid_utf8(model.tempo.query@);
        is_char_boundary_start_end_of_seq(encode_utf8(model.tempo.query@));
    }
    Command::Render
}

pub fn handle_tempo_cursor_end(model: &mut Model) -> (cmd: Command)
    ensures
        cmd == Command::Render,
        tempo_cursor(*old(model), *final(model), encode_utf8(old(model).tempo.query@).len() as int),
        old(model).wf() ==> final(model).wf(),
{
    model.tempo.cursor_pos = model.tempo.query.as_str().as_bytes().len();
    proof {
        encode_utf8_valid_utf8(model.tempo.query@);
        is_char_boundary_start_end_of_seq(encode_utf8(model.tempo.query@));
    }
    Command::Render
}

/// The search has been started, unless the query is blank.
pub open spec fn search_started(pre: Model, post: Model) -> bool {
    if trimmed(pre.tempo.query@).len() == 0 {
        post == pre
    } else {
        &&& post == (Model {
            tempo: TempoState {
                loading: true,
                error: None,
                results: post.tempo.results,
                ..pre.tempo
            },
            ..pre
        })
        &&& post.tempo.results@.len() == 0
    }
}

pub fn handle_tempo_execute_query(model: &mut Model) -> (cmd: Command)
    ensures
        cmd == Command::Render,
        search_started(*old(model), *final(model)),
        old(model).wf() ==> final(model).wf(),
{
    if model.tempo.query.as_str().trim().is_empty() {
        return Command::Render;
    }
    model.tempo.loading = true;
    model.tempo.error = None;
    model.tempo.results = Vec::new();
    Command::Render
}

/// Traces have arrived, or an error; after an error the old ones stay.
pub open spec fn traces_loaded(
    pre: Model,
    post: Model,
    result: Result<Vec<TempoTrace>, String>,
) -> bool {
    post == (Model {
        tempo: TempoState {
            loading: false,
            selected: 0,
            results: match result {
                Ok(traces) => traces,
                Err(_) => pre.tempo.results,
            },
            error: match result {
                Ok(_) => None,
                Err(e) => Some(e),
            },
            ..pre.tempo
        },
        ..pre
    })
}

pub fn handle_tempo_result_loaded(
    model: &mut Model,
    result: Result<Vec<TempoTrace>, String>,
) -> (cmd: Command)
    ensures
        cmd == Command::Render,
        traces_loaded(*old(model), *final(model), result),
        old(model).wf() ==> final(model).wf(),
{
    model.tempo.loading = false;
    model.tempo.selected = 0;
    match result {
        Ok(traces) => {
            model.tempo.results = traces;
            model.tempo.error = None;
        },
        Err(e) => {
            model.tempo.error = Some(e);
        },
    }
    Command::Render
}

pub fn handle_back_from_tempo(model: &mut Model) -> (cmd: Command)
    ensures
        cmd == Command::Render,
        *final(model) == (Model { screen: Screen::DatasourceList, ..*old(model) }),
{
    model.screen = Screen::DatasourceList;
    Command::Render
}

/// The trace at `selected` is selected; without traces nothing has changed.
pub open spec fn trace_selected(pre: Model, post: Model, selected: int) -> bool {
    if pre.tempo.results@.len() == 0 {
        post == pre
    } else {
        &&& post == (Model {
            tempo: TempoState { selected: post.tempo.selected, ..pre.tempo },
            ..pre
        })
        &&& post.tempo.selected == selected
    }
}

pub fn handle_tempo_select_next(model: &mut Model) -> (cmd: Command)
    ensures
        cmd == Command::Render,
        trace_selected(
            *old(model),
            *final(model),
            next_of(old(model).tempo.selected as int, old(model).tempo.results@.len() as int),
        ),
        old(model).wf() ==> final(model).wf(),
{
    let count = model.tempo.results.len();
    if count > 0 {
        model.tempo.selected = next_index(model.tempo.selected, count);
    }
    Command::Render
}

pub fn handle_tempo_select_prev(model: &mut Model) -> (cmd: Command)
    ensures
        cmd == Command::Render,
        trace_selected(
            *old(model),
            *final(model),
            prev_of(old(model).tempo.selected as int, old(model).tempo.results@.len() as int),
        ),
        old(model).wf() ==> final(model).wf(),
{
    let count = model.tempo.results.len();
    if count > 0 {
        model.tempo.selected = prev_index(model.tempo.selected, count);
    }
    Command::Render
}

// ── Trace detail ─────────────────────────────────────────────────────────────

/// The selected trace is opened, with its spans still to come.
pub open spec fn trace_opened(pre: Model, post: Model) -> bool {
    &&& post == (Model {
        screen: Screen::TempoTraceDetail,
        trace: TraceDetailState {
            trace_id: post.trace.trace_id,
            loading: true,
            error: None,
            spans: post.trace.spans,
            selected: 0,
            filter: post.trace.filter,
            filter_focused: false,
            ..pre.trace
        },
        ..pre
    })
    &&& post.trace.trace_id@ == (if pre.tempo.selected < pre.tempo.results@.len() {
        pre.tempo.results@[pre.tempo.selected as int].trace_id@
    } else {
        pre.trace.trace_id@
    })
    &&& post.trace.spans@.len() == 0
    &&& post.trace.filter@.len() == 0
}

pub fn handle_tempo_open_trace(model: &mut Model) -> (cmd: Command)
    ensures
        cmd == Command::Render,
        trace_opened(*old(model), *final(model)),
{
    if model.tempo.selected < model.tempo.results.len() {
        model.trace.trace_id = model.tempo.results[model.tempo.selected].trace_id.clone();
    }
    model.screen = Screen::TempoTraceDetail;
    model.trace.loading = true;
    model.trace.error = None;
    model.trace.spans = Vec::new();
    model.trace.selected = 0;
    model.trace.filter = String::new();
    model.trace.filter_focused = false;
    Command::Render
}

/// Spans have arrived, or an error; after an error the old ones stay.
pub open spec fn spans_loaded(
    pre: Model,
    post: Model,
    result: Result<Vec<TempoSpan>, String>,
) -> bool {
    post == (Model {
        trace: TraceDetailState {
            loading: false,
            selected: 0,
            spans: match result {
                Ok(spans) => spans,
                Err(_) => pre.trace.spans,
            },
            error: match result {
                Ok(_) => None,
                Err(e) => Some(e),
            },
            ..pre.trace
        },
        ..pre
    })
}

pub fn handle_trace_detail_loaded(
    model: &mut Model,
    result: Result<Vec<TempoSpan>, String>,
) -> (cmd: Command)
    ensures
        cmd == Command::Render,
        spans_loaded(*old(model), *final(model), result),
{
    model.trace.loading = false;
    match result {
        Ok(spans) => {
            model.trace.spans = spans;
            model.trace.error = None;
        },
        Err(e) => {
            model.trace.error = Some(e);
        },
    }
    model.trace.selected = 0;
    Command::Render
}

/// Whether an attribute matches.
pub open spec fn attr_matches(attrs: Seq<(String, String)>, needle: Seq<char>) -> bool {
    exists|i: int|
        0 <= i < attrs.len() && (fuzzy((#[trigger] attrs[i]).0@, needle) || fuzzy(
            attrs[i].1@,
            needle,
        ))
}

/// Whether the name, the service or an attribute of a span matches.
pub open spec fn span_matches(span: TempoSpan, needle: Seq<char>) -> bool {
    fuzzy(span.name@, needle) || fuzzy(span.service_name@, needle) || attr_matches(
        span.resource_attrs@,
        needle,
    ) || attr_matches(span.span_attrs@, needle)
}

/// How many of the first `n` spans match.
pub open spec fn matching_spans(spans: Seq<TempoSpan>, needle: Seq<char>, n: int) -> int
    decreases n,
{
    if n <= 0 {
        0
    } else {
        matching_spans(spans, needle, n - 1) + if span_matches(spans[n - 1], needle) {
            1int
        } else {
            0
        }
    }
}

/// How many spans are shown.
pub open spec fn shown_spans(m: Model) -> int {
    matching_spans(m.trace.spans@, m.trace.filter@, m.trace.spans@.len() as int)
}

fn any_attr_matches(attrs: &Vec<(String, String)>, needle: &str) -> (r: bool)
    ensures
        r == attr_matches(attrs@, needle@),
{
    let mut i: usize = 0;
    while i < attrs.len()
        invariant
            i <= attrs.len(),
            forall|k: int|
                0 <= k < i ==> !fuzzy((#[trigger] attrs@[k]).0@, needle@) && !fuzzy(
                    attrs@[k].1@,
                    needle@,
                ),
        decreases attrs.len() - i,
    {
        let attr = &attrs[i];
        if fuzzy_match(attr.0.as_str(), needle) || fuzzy_match(attr.1.as_str(), needle) {
            assert(attrs@[i as int] == *attr);
            return true;
        }
        i += 1;
    }
    false
}

fn fuzzy_match_in_span(span: &TempoSpan, needle: &str) -> (r: bool)
    ensures
        r == span_matches(*span, needle@),
{
    fuzzy_match(span.name.as_str(), needle) || fuzzy_match(span.service_name.as_str(), needle)
        || any_attr_matches(&span.resource_attrs, needle) || any_attr_matches(
        &span.span_attrs,
        needle,
    )
}

fn filtered_trace_detail_count(model: &Model) -> (r: usize)
    ensures
        r == shown_spans(*model),
{
    let mut count: usize = 0;
    let mut i: usize = 0;
    while i < model.trace.spans.len()
        invariant
            i <= model.trace.spans.len(),
            count <= i,
            count == matching_spans(model.trace.spans@, model.trace.filter@, i as int),
        decreases model.trace.spans.len() - i,
    {
        if fuzzy_match_in_span(&model.trace.spans[i], model.trace.filter.as_str()) {
            count += 1;
        }
        i += 1;
    }
    count
}

/// The span at `selected` is selected, where spans are shown, with its
/// attributes from the top.
pub open spec fn span_selected(pre: Model, post: Model, selected: int) -> bool {
    &&& post == (Model {
        trace: TraceDetailState {
            selected: post.trace.selected,
            attr_scroll: 0,
            ..pre.trace
        },
        ..pre
    })
    &&& post.trace.selected == (if shown_spans(pre) > 0 {
        selected
    } else {
        pre.trace.selected as int
    })
}

pub fn handle_trace_detail_next(model: &mut Model) -> (cmd: Command)
    ensures
        cmd == Command::Render,
        span_selected(
            *old(model),
            *final(model),
            next_of(old(model).trace.selected as int, shown_spans(*old(model))),
        ),
{
    let visible = filtered_trace_detail_count(model);
    if visible > 0 {
        model.trace.selected = next_index(model.trace.selected, visible);
    }
    model.trace.attr_scroll = 0;
    Command::Render
}

pub fn handle_trace_detail_prev(model: &mut Model) -> (cmd: Command)
    ensures
        cmd == Command::Render,
        span_selected(
            *old(model),
            *final(model),
            prev_of(old(model).trace.selected as int, shown_spans(*old(model))),
        ),
{
    let visible = filtered_trace_detail_count(model);
    if visible > 0 {
        model.trace.selected = prev_index(model.trace.selected, visible);
    }
    model.trace.attr_scroll = 0;
    Command::Render
}

/// Whether the filter of spans is typed in.
pub open spec fn span_filter_focus(pre: Model, post: Model, focused: bool) -> bool {
    post == (Model {
        trace: TraceDetailState { filter_focused: focused, ..pre.trace },
        ..pre
    })
}

pub fn handle_trace_detail_filter_focus(model: &mut Model) -> (cmd: Command)
    ensures
        cmd == Command::Render,
        span_filter_focus(*old(model), *final(model), true),
{
    model.trace.filter_focused = true;
    Command::Render
}

pub fn handle_trace_detail_filter_blur(model: &mut Model) -> (cmd: Command)
    ensures
        cmd == Command::Render,
        span_filter_focus(*old(model), *final(model), false),
{
    model.trace.filter_focused = false;
    Command::Render
}

/// The filter of spans is `filter`; the selection starts over.
pub open spec fn span_filter(pre: Model, post: Model, filter: Seq<char>) -> bool {
    &&& post == (Model {
        trace: TraceDetailState {
            filter: post.trace.filter,
            selected: 0,
            attr_scroll: 0,
            ..pre.trace
        },
        ..pre
    })
    &&& post.trace.filter@ == filter
}

pub fn handle_trace_detail_filter_input(model: &mut Model, c: char) -> (cmd: Command)
    ensures
        cmd == Command::Render,
        span_filter(*old(model), *final(model), old(model).trace.filter@.push(c)),
{
    model.trace.filter.push(c);
    model.trace.selected = 0;
    model.trace.attr_scroll = 0;
    Command::Render
}

pub fn handle_trace_detail_filter_backspace(model: &mut Model) -> (cmd: Command)
    ensures
        cmd == Command::Render,
        span_filter(*old(model), *final(model), without_last(old(model).trace.filter@)),
{
    pop_char(&mut model.trace.filter);
    model.trace.selected = 0;
    model.trace.attr_scroll = 0;
    Command::Render
}

/// The attributes are shown from line `scroll` on.
pub open spec fn scrolled(pre: Model, post: Model, scroll: int) -> bool {
    &&& post == (Model {
        trace: TraceDetailState { attr_scroll: post.trace.attr_scroll, ..pre.trace },
        ..pre
    })
    &&& post.trace.attr_scroll == scroll
}

/// One line down, as far as lines can be counted.
pub open spec fn line_down(scroll: usize) -> int {
    if scroll == usize::MAX {
        scroll as int
    } else {
        scroll + 1
    }
}

/// One line up, as far as there are any.
pub open spec fn line_up(scroll: usize) -> int {
    if scroll == 0 {
        0
    } else {
        scroll - 1
    }
}

pub fn handle_trace_detail_attr_scroll_down(model: &mut Model) -> (cmd: Command)
    ensures
        cmd == Command::Render,
        scrolled(*old(model), *final(model), line_down(old(model).trace.attr_scroll)),
{
    if model.trace.attr_scroll < usize::MAX {
        model.trace.attr_scroll += 1;
    }
    Command::Render
}

pub fn handle_trace_detail_attr_scroll_up(model: &mut Model) -> (cmd: Command)
    ensures
        cmd == Command::Render,
        scrolled(*old(model), *final(model), line_up(old(model).trace.attr_scroll)),
{
    if model.trace.attr_scroll > 0 {
        model.trace.attr_scroll -= 1;
    }
    Command::Render
}

pub fn handle_back_from_trace_detail(model: &mut Model) -> (cmd: Command)
    ensures
        cmd == Command::Render,
        *final(model) == (Model { screen: Screen::TempoMode, ..*old(model) }),
{
    model.screen = Screen::TempoMode;
    Command::Render
}

} // verus!
