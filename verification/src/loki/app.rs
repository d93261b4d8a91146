//! Handling of events on the log screen.

use crate::edit::{
    before_cursor, behind_cursor, cursor_between, cursor_left, cursor_right, cursor_valid,
    delete_before_cursor, insert_at_cursor,
};
use crate::loki::{LokiEntry, LokiStream};
use crate::model::{Command, LogContextState, LokiDiagnosticView, LokiState, Model, Screen};
use crate::select::{next_index, next_of, prev_index, prev_of};
use crate::tempo::app::{one_left, one_right};
use crate::text::trimmed;
use vstd::prelude::*;
use vstd::string::*;
use vstd::utf8::*;

verus! {

// ── Entering and leaving ─────────────────────────────────────────────────────

/// The log screen is entered, with nothing typed or found.
pub open spec fn loki_entered(pre: Model, post: Model) -> bool {
    &&& post == (Model {
        screen: Screen::LokiMode,
        loki: post.loki,
        log_context: post.log_context,
        ..pre
    })
    &&& post.loki.query@.len() == 0
    &&& post.loki.cursor_pos == 0
    &&& post.loki.query_dirty
    &&& !post.loki.loading
    &&& post.loki.error is None
    &&& post.loki.results@.len() == 0
    &&& post.loki.selected_row == 0
    &&& post.loki.diagnostics@.len() == 0
    &&& post.log_context.is_initial()
}

pub fn handle_enter_loki(model: &mut Model) -> (cmd: Command)
    ensures
        cmd == Command::Render,
        loki_entered(*old(model), *final(model)),
{
    model.screen = Screen::LokiMode;
    model.loki = LokiState {
        query: String::new(),
        cursor_pos: 0,
        query_dirty: true,
        loading: false,
        error: None,
        results: Vec::new(),
        selected_row: 0,
        diagnostics: Vec::new(),
    };
    model.log_context = LogContextState {
        open: false,
        loading: false,
        error: None,
        entries: Vec::new(),
        highlight_index: 0,
        labels: String::new(),
    };
    Command::Render
}

pub fn handle_back_from_loki(model: &mut Model) -> (cmd: Command)
    ensures
        cmd == Command::Render,
        *final(model) == (Model { screen: Screen::DatasourceList, ..*old(model) }),
{
    model.screen = Screen::DatasourceList;
    Command::Render
}

// ── Query ────────────────────────────────────────────────────────────────────

pub fn handle_loki_query_changed(model: &mut Model, query: String) -> (cmd: Command)
    ensures
        cmd == Command::Render,
        *final(model) == (Model { loki: LokiState { query, ..old(model).loki }, ..*old(model) }),
{
    model.loki.query = query;
    Command::Render
}

/// Nothing but the query, its cursor and whether it is run has changed.
pub open spec fn only_loki_query(pre: Model, post: Model) -> bool {
    post == (Model {
        loki: LokiState {
            query: post.loki.query,
            cursor_pos: post.loki.cursor_pos,
            query_dirty: post.loki.query_dirty,
            ..pre.loki
        },
        ..pre
    })
}

pub fn handle_loki_query_input(model: &mut Model, c: char) -> (cmd: Command)
    requires
        cursor_valid(old(model).loki.query@, old(model).loki.cursor_pos as int),
    ensures
        cmd == Command::Render,
        only_loki_query(*old(model), *final(model)),
        cursor_between(
            final(model).loki.query@,
            final(model).loki.cursor_pos as int,
            before_cursor(old(model).loki.query@, old(model).loki.cursor_pos as int).push(c),
            behind_cursor(old(model).loki.query@, old(model).loki.cursor_pos as int),
        ),
        final(model).loki.query_dirty,
        cursor_valid(final(model).loki.query@, final(model).loki.cursor_pos as int),
{
    insert_at_cursor(&mut model.loki.query, &mut model.loki.cursor_pos, c);
    model.loki.query_dirty = true;
    Command::Render
}

pub fn handle_loki_query_backspace(model: &mut Model) -> (cmd: Command)
    requires
        cursor_valid(old(model).loki.query@, old(model).loki.cursor_pos as int),
    ensures
        cmd == Command::Render,
        old(model).loki.cursor_pos == 0 ==> *final(model) == *old(model),
        old(model).loki.cursor_pos > 0 ==> {
            &&& only_loki_query(*old(model), *final(model))
            &&& before_cursor(old(model).loki.query@, old(model).loki.cursor_pos as int).len() > 0
            &&& cursor_between(
                final(model).loki.query@,
                final(model).loki.cursor_pos as int,
                before_cursor(
                    old(model).loki.query@,
                    old(model).loki.cursor_pos as int,
                ).drop_last(),
                behind_cursor(old(model).loki.query@, old(model).loki.cursor_pos as int),
            )
            &&& final(model).loki.query_dirty
        },
        cursor_valid(final(model).loki.query@, final(model).loki.cursor_pos as int),
{
    if delete_before_cursor(&mut model.loki.query, &mut model.loki.cursor_pos) {
        model.loki.query_dirty = true;
    }
    Command::Render
}

/// The cursor of the query stands at `cursor`.
pub open spec fn loki_cursor(pre: Model, post: Model, cursor: int) -> bool {
    &&& post == (Model {
        loki: LokiState { cursor_pos: post.loki.cursor_pos, ..pre.loki },
        ..pre
    })
    &&& post.loki.cursor_pos == cursor
}

pub fn handle_loki_cursor_left(model: &mut Model) -> (cmd: Command)
    requires
        cursor_valid(old(model).loki.query@, old(model).loki.cursor_pos as int),
    ensures
        cmd == Command::Render,
        loki_cursor(
            *old(model),
            *final(model),
            one_left(old(model).loki.query@, old(model).loki.cursor_pos as int),
        ),
        cursor_valid(final(model).loki.query@, final(model).loki.cursor_pos as int),
{
    model.loki.cursor_pos = cursor_left(model.loki.query.as_str(), model.loki.cursor_pos);
    Command::Render
}

pub fn handle_loki_cursor_right(model: &mut Model) -> (cmd: Command)
    requires
        cursor_valid(old(model).loki.query@, old(model).loki.cursor_pos as int),
    ensures
        cmd == Command::Render,
        loki_cursor(
            *old(model),
            *final(model),
            one_right(old(model).loki.query@, old(model).loki.cursor_pos as int),
        ),
        cursor_valid(final(model).loki.query@, final(model).loki.cursor_pos as int),
{
    model.loki.cursor_pos = cursor_right(model.loki.query.as_str(), model.loki.cursor_pos);
    Command::Render
}

pub fn handle_loki_diagnostics_updated(
    model: &mut Model,
    diagnostics: Vec<LokiDiagnosticView>,
) -> (cmd: Command)
    ensures
        cmd == Command::Render,
        *final(model) == (Model {
            loki: LokiState { diagnostics, ..old(model).loki },
            ..*old(model)
        }),
{
    model.loki.diagnostics = diagnostics;
    Command::Render
}

/// The query has been started, unless it is blank.
pub open spec fn log_query_started(pre: Model, post: Model) -> bool {
    if trimmed(pre.loki.query@).len() == 0 {
        post == pre
    } else {
        &&& post == (Model {
            loki: LokiState {
                query_dirty: false,
                loading: true,
                error: None,
                results: post.loki.results,
                selected_row: 0,
                ..pre.loki
            },
            ..pre
        })
        &&& post.loki.results@.len() == 0
    }
}

pub fn handle_loki_execute_query(model: &mut Model) -> (cmd: Command)
    ensures
        cmd == Command::Render,
        log_query_started(*old(model), *final(model)),
{
    if model.loki.query.as_str().trim().is_empty() {
        return Command::Render;
    }
    model.loki.loading = true;
    model.loki.error = None;
    model.loki.results = Vec::new();
    model.loki.selected_row = 0;
    model.loki.query_dirty = false;
    Command::Render
}

/// Streams have arrived, or an error; after an error the old ones stay.
pub open spec fn streams_loaded(
    pre: Model,
    post: Model,
    result: Result<Vec<LokiStream>, String>,
) -> bool {
    post == (Model {
        loki: match result {
            Ok(streams) => LokiState {
                loading: false,
                results: streams,
                error: None,
                selected_row: 0,
                ..pre.loki
            },
            Err(e) => LokiState { loading: false, error: Some(e), ..pre.loki },
        },
        ..pre
    })
}

pub fn handle_loki_result_loaded(
    model: &mut Model,
    result: Result<Vec<LokiStream>, String>,
) -> (cmd: Command)
    ensures
        cmd == Command::Render,
        streams_loaded(*old(model), *final(model), result),
{
    model.loki.loading = false;
    match result {
        Ok(streams) => {
            model.loki.results = streams;
            model.loki.error = None;
            model.loki.selected_row = 0;
        },
        Err(e) => {
            model.loki.error = Some(e);
        },
    }
    Command::Render
}

// ── Rows ─────────────────────────────────────────────────────────────────────

/// The log lines of the first `n` streams.
pub open spec fn rows_of(streams: Seq<LokiStream>, n: int) -> int
    decreases n,
{
    if n <= 0 {
        0
    } else {
        rows_of(streams, n - 1) + streams[n - 1].entries@.len()
    }
}

/// The log lines of all streams.
pub open spec fn total_rows(m: Model) -> int {
    rows_of(m.loki.results@, m.loki.results@.len() as int)
}

/// Stream, and place in it, of the log line in row `row`, where the streams from
/// `from` on start in row `start`.
pub open spec fn entry_at(streams: Seq<LokiStream>, from: int, start: int, row: int) -> Option<
    (int, int),
>
    decreases streams.len() - from,
{
    if from < 0 || from >= streams.len() {
        None
    } else if row < start + streams[from].entries@.len() {
        Some((from, row - start))
    } else {
        entry_at(streams, from + 1, start + streams[from].entries@.len(), row)
    }
}

proof fn lemma_rows_of(streams: Seq<LokiStream>, m: int, n: int)
    requires
        0 <= m <= n,
    ensures
        0 <= rows_of(streams, m) <= rows_of(streams, n),
    decreases n,
{
    if m < n {
        lemma_rows_of(streams, m, n - 1);
    } else if n > 0 {
        lemma_rows_of(streams, m - 1, n - 1);
    }
}

/// A row below the total belongs to a log line: of the stream whose rows it
/// falls in.
pub proof fn lemma_entry_at(streams: Seq<LokiStream>, from: int, row: int)
    requires
        0 <= from <= streams.len(),
        rows_of(streams, from) <= row < rows_of(streams, streams.len() as int),
    ensures
        match entry_at(streams, from, rows_of(streams, from), row) {
            Some((s, e)) => {
                &&& from <= s < streams.len()
                &&& 0 <= e < streams[s].entries@.len()
                &&& row == rows_of(streams, s) + e
            },
            None => false,
        },
    decreases streams.len() - from,
{
    if from < streams.len() && row >= rows_of(streams, from) + streams[from].entries@.len() {
        lemma_entry_at(streams, from + 1, row);
    }
}

/// Whether the log lines can be counted.
pub open spec fn rows_fit(m: Model) -> bool {
    total_rows(m) <= usize::MAX
}

/// The number of log lines. `None` where they cannot be counted.
fn count_rows(model: &Model) -> (r: Option<usize>)
    ensures
        match r {
            Some(n) => n == total_rows(*model),
            None => !rows_fit(*model),
        },
{
    let streams = &model.loki.results;
    let mut total: usize = 0;
    let mut i: usize = 0;
    while i < streams.len()
        invariant
            i <= streams.len(),
            streams == &model.loki.results,
            total == rows_of(streams@, i as int),
        decreases streams.len() - i,
    {
        let n = streams[i].entries.len();
        proof {
            lemma_rows_of(streams@, i + 1, streams@.len() as int);
        }
        if total > usize::MAX - n {
            return None;
        }
        total = total + n;
        i += 1;
    }
    Some(total)
}

/// Whether the log lines can be counted.
pub fn rows_in_range(model: &Model) -> (r: bool)
    ensures
        r == rows_fit(*model),
{
    count_rows(model).is_some()
}

fn loki_total_rows(model: &Model) -> (r: usize)
    requires
        rows_fit(*model),
    ensures
        r == total_rows(*model),
{
    count_rows(model).unwrap()
}

/// Stream, and place in it, of the log line in row `row`.
pub fn loki_flat_entry(model: &Model, row: usize) -> (r: Option<(usize, usize)>)
    requires
        rows_fit(*model),
    ensures
        match r {
            Some((s, e)) => {
                &&& entry_at(model.loki.results@, 0, 0, row as int) == Some((s as int, e as int))
                &&& s < model.loki.results.len()
            },
            None => entry_at(model.loki.results@, 0, 0, row as int) is None,
        },
{
    let streams = &model.loki.results;
    let mut start: usize = 0;
    let mut i: usize = 0;
    while i < streams.len()
        invariant
            i <= streams.len(),
            streams == &model.loki.results,
            rows_fit(*model),
            start == rows_of(streams@, i as int),
            start <= row,
            entry_at(streams@, 0, 0, row as int) == entry_at(
                streams@,
                i as int,
                start as int,
                row as int,
            ),
        decreases streams.len() - i,
    {
        proof {
            lemma_rows_of(streams@, i + 1, streams@.len() as int);
        }
        let end = start + streams[i].entries.len();
        if row < end {
            return Some((i, row - start));
        }
        start = end;
        i += 1;
    }
    None
}

/// The log line in row `row` is selected; without any nothing has changed.
pub open spec fn row_selected(pre: Model, post: Model, row: int) -> bool {
    if total_rows(pre) == 0 {
        post == pre
    } else {
        &&& post == (Model {
            loki: LokiState { selected_row: post.loki.selected_row, ..pre.loki },
            ..pre
        })
        &&& post.loki.selected_row == row
    }
}

pub fn handle_loki_select_next_row(model: &mut Model) -> (cmd: Command)
    requires
        rows_fit(*old(model)),
    ensures
        cmd == Command::Render,
        row_selected(
            *old(model),
            *final(model),
            next_of(old(model).loki.selected_row as int, total_rows(*old(model))),
        ),
{
    let total = loki_total_rows(model);
    if total > 0 {
        model.loki.selected_row = next_index(model.loki.selected_row, total);
    }
    Command::Render
}

pub fn handle_loki_select_prev_row(model: &mut Model) -> (cmd: Command)
    requires
        rows_fit(*old(model)),
    ensures
        cmd == Command::Render,
        row_selected(
            *old(model),
            *final(model),
            prev_of(old(model).loki.selected_row as int, total_rows(*old(model))),
        ),
{
    let total = loki_total_rows(model);
    if total > 0 {
        model.loki.selected_row = prev_index(model.loki.selected_row, total);
    }
    Command::Render
}

// ── Context ──────────────────────────────────────────────────────────────────

/// The surroundings of the selected log line are opened, and still to come.
/// Where no log line is selected nothing has changed.
pub open spec fn context_opened(pre: Model, post: Model) -> bool {
    match entry_at(pre.loki.results@, 0, 0, pre.loki.selected_row as int) {
        Some((s, _)) => {
            &&& post == (Model { log_context: post.log_context, ..pre })
            &&& post.log_context.open
            &&& post.log_context.loading
            &&& post.log_context.error is None
            &&& post.log_context.entries@.len() == 0
            &&& post.log_context.highlight_index == 0
            &&& post.log_context.labels@ == pre.loki.results@[s].labels@
        },
        None => post == pre,
    }
}

pub fn handle_loki_open_context(model: &mut Model) -> (cmd: Command)
    requires
        rows_fit(*old(model)),
    ensures
        cmd == Command::Render,
        context_opened(*old(model), *final(model)),
{
    if let Some((s, _)) = loki_flat_entry(model, model.loki.selected_row) {
        let labels = model.loki.results[s].labels.clone();
        model.log_context = LogContextState {
            open: true,
            loading: true,
            error: None,
            entries: Vec::new(),
            highlight_index: 0,
            labels,
        };
    }
    Command::Render
}

/// The surroundings are closed.
pub open spec fn context_closed(pre: Model, post: Model) -> bool {
    &&& post == (Model {
        log_context: LogContextState {
            open: false,
            loading: false,
            error: None,
            entries: post.log_context.entries,
            ..pre.log_context
        },
        ..pre
    })
    &&& post.log_context.entries@.len() == 0
}

pub fn handle_loki_close_context(model: &mut Model) -> (cmd: Command)
    ensures
        cmd == Command::Render,
        context_closed(*old(model), *final(model)),
{
    model.log_context.open = false;
    model.log_context.loading = false;
    model.log_context.error = None;
    model.log_context.entries = Vec::new();
    Command::Render
}

/// The surroundings have arrived, or an error.
pub open spec fn context_loaded(
    pre: Model,
    post: Model,
    result: Result<(Vec<LokiEntry>, usize), String>,
) -> bool {
    post == (Model {
        log_context: match result {
            Ok((entries, highlight_index)) => LogContextState {
                loading: false,
                entries,
                highlight_index,
                error: None,
                ..pre.log_context
            },
            Err(e) => LogContextState { loading: false, error: Some(e), ..pre.log_context },
        },
        ..pre
    })
}

pub fn handle_loki_context_loaded(
    model: &mut Model,
    result: Result<(Vec<LokiEntry>, usize), String>,
) -> (cmd: Command)
    ensures
        cmd == Command::Render,
        context_loaded(*old(model), *final(model), result),
{
    model.log_context.loading = false;
    match result {
        Ok((entries, highlight_index)) => {
            model.log_context.entries = entries;
            model.log_context.highlight_index = highlight_index;
            model.log_context.error = None;
        },
        Err(e) => {
            model.log_context.error = Some(e);
        },
    }
    Command::Render
}

} // verus!
