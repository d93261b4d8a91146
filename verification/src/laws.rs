//! What holds across events.

use crate::app::{event_fits, step};
use crate::edit::{
    before_cursor, behind_cursor, lemma_cursor_between, lemma_cursor_splits,
};
use crate::list::{datasource_named, first_name, first_uid, lemma_toggle_twice};
use crate::model::{Command, Datasource, Event, Model, Screen};
use crate::order::texts;
use crate::prometheus::app::highlighted;
use crate::prometheus::types::PrometheusVectorItem;
use crate::select::{
    active, filtered, lemma_all_listed, lemma_listed_count, lemma_next_prev, listed_datasources,
    next_of, prev_of,
};
use crate::suggest::lemma_distinct_texts;
use crate::text::opt_text;
use crate::view::{
    label_columns, label_names, label_value, result_row, result_rows, results_show, row_texts,
    shows, QueryResultsView, ViewModel,
};
use vstd::prelude::*;
use vstd::string::*;
use vstd::utf8::*;

verus! {

// ── Datasources ──────────────────────────────────────────────────────────────

/// Moving on and back again on the list changes nothing.
pub proof fn lemma_select_next_previous(a: Model, b: Model, c: Model, x: Command, y: Command)
    requires
        a.screen == Screen::DatasourceList,
        a.datasources.selected_index < filtered(a).len(),
        step(Event::SelectNext, a, b, x),
        step(Event::SelectPrevious, b, c, y),
    ensures
        c == a,
{
    assert(filtered(b) == filtered(a));
    lemma_next_prev(a.datasources.selected_index as int, filtered(a).len() as int);
    assert(c.datasources.selected_index == a.datasources.selected_index);
}

/// Whatever is selected by moving on the list is among the datasources shown.
pub proof fn lemma_selection_shown(a: Model, b: Model, x: Command)
    requires
        a.screen == Screen::DatasourceList,
        filtered(a).len() > 0,
        step(Event::SelectNext, a, b, x) || step(Event::SelectPrevious, a, b, x),
    ensures
        active(b) is Some,
{
    lemma_listed_count(b);
    let n = filtered(a).len() as int;
    let i = a.datasources.selected_index as int;
    assert(filtered(b) == filtered(a));
    assert(0 <= next_of(i, n) < n && 0 <= prev_of(i, n) < n) by (nonlinear_arith)
        requires
            n > 0,
            next_of(i, n) == (i + 1) % n,
            prev_of(i, n) == (i + n - 1) % n,
    ;
}

/// The query screen and the profile screen open the datasource that was shown as
/// the selected one, whatever the filter and the favourites.
pub proof fn lemma_enter_opens_selected(
    a: Model,
    b: Model,
    event: Event,
    cmd: Command,
    before: ViewModel<'_>,
    after: ViewModel<'_>,
)
    requires
        event is EnterQuery || event is EnterPyroscope,
        listed_datasources(a).len() > 0,
        shows(a, before),
        step(event, a, b, cmd),
        shows(b, after),
    ensures
        opt_text(before.selected_datasource_name) == Some(
            a.datasources.items@[highlighted(a)].name@,
        ),
        opt_text(after.selected_datasource_name) == opt_text(before.selected_datasource_name),
        active(b) == Some(a.datasources.items@[highlighted(a)]),
{
}

/// A query can be run once the query screen is entered.
pub proof fn lemma_entered_query_runs(a: Model, b: Model, cmd: Command)
    requires
        listed_datasources(a).len() > 0,
        step(Event::EnterQuery, a, b, cmd),
    ensures
        event_fits(b, Event::ExecuteQuery),
{
}

proof fn lemma_first_uid(ds: Seq<Datasource>, from: int, uid: Seq<char>)
    requires
        0 <= from,
        first_uid(ds, from, uid) is Some,
    ensures
        from <= first_uid(ds, from, uid)->0 < ds.len(),
        ds[first_uid(ds, from, uid)->0].uid@ == uid,
    decreases ds.len() - from,
{
    if ds[from].uid@ != uid {
        lemma_first_uid(ds, from + 1, uid);
    }
}

proof fn lemma_first_name(ds: Seq<Datasource>, from: int, name: Seq<char>)
    requires
        0 <= from,
        first_name(ds, from, name) is Some,
    ensures
        from <= first_name(ds, from, name)->0 < ds.len(),
        ds[first_name(ds, from, name)->0].name@ == name,
    decreases ds.len() - from,
{
    if ds[from].name@ != name {
        lemma_first_name(ds, from + 1, name);
    }
}

/// A datasource selected by UID or name is the one shown as selected, whatever
/// the filter and the favourites were.
pub proof fn lemma_select_datasource(
    a: Model,
    b: Model,
    uid: String,
    name: String,
    cmd: Command,
    after: ViewModel<'_>,
)
    requires
        datasource_named(a.datasources.items@, uid@, name@) is Some,
        step(Event::SelectDatasource { uid, name }, a, b, cmd),
        shows(b, after),
    ensures
        ({
            let raw = datasource_named(a.datasources.items@, uid@, name@)->0;
            &&& active(b) == Some(a.datasources.items@[raw])
            &&& a.datasources.items@[raw].uid@ == uid@ || a.datasources.items@[raw].name@ == name@
            &&& opt_text(after.selected_datasource_name) == Some(
                a.datasources.items@[raw].name@,
            )
        }),
{
    let ds = a.datasources.items@;
    let raw = datasource_named(ds, uid@, name@)->0;
    if uid@.len() > 0 && first_uid(ds, 0, uid@) is Some {
        lemma_first_uid(ds, 0, uid@);
    } else {
        lemma_first_name(ds, 0, name@);
    }
    lemma_all_listed(b, raw);
}

/// Toggling a favourite twice gives the same favourites.
pub proof fn lemma_toggle_favourite_twice(
    a: Model,
    b: Model,
    c: Model,
    uid: String,
    x: Command,
    y: Command,
)
    requires
        step(Event::ToggleFavourite(uid), a, b, x),
        step(Event::ToggleFavourite(uid), b, c, y),
    ensures
        c.datasources.favourites@ == a.datasources.favourites@,
        c == (Model { datasources: c.datasources, ..a }),
{
    lemma_toggle_twice(a.datasources.favourites@, uid@);
}

// ── Editing ──────────────────────────────────────────────────────────────────

/// A character typed into the query and taken back leaves the text and the
/// cursor as they were.
pub proof fn lemma_type_and_take_back(
    a: Model,
    b: Model,
    c: Model,
    typed: char,
    x: Command,
    y: Command,
)
    requires
        a.wf(),
        step(Event::QueryInput(typed), a, b, x),
        step(Event::QueryBackspace, b, c, y),
    ensures
        c.promql.query@ == a.promql.query@,
        c.promql.cursor_pos == a.promql.cursor_pos,
{
    assert(c.promql.query@ =~= a.promql.query@);
}

/// A character typed into the trace query and taken back leaves the text and the
/// cursor as they were.
pub proof fn lemma_trace_type_and_take_back(
    a: Model,
    b: Model,
    c: Model,
    typed: char,
    x: Command,
    y: Command,
)
    requires
        a.wf(),
        step(Event::TempoQueryInput(typed), a, b, x),
        step(Event::TempoQueryBackspace, b, c, y),
    ensures
        c.tempo.query@ == a.tempo.query@,
        c.tempo.cursor_pos == a.tempo.cursor_pos,
{
    let cursor = a.tempo.cursor_pos as int;
    let before = before_cursor(a.tempo.query@, cursor);
    let behind = behind_cursor(a.tempo.query@, cursor);
    lemma_cursor_splits(a.tempo.query@, cursor);
    lemma_cursor_between(before.push(typed), behind);
    assert(encode_utf8(before.push(typed)).len() > 0) by {
        if encode_utf8(before.push(typed)).len() == 0 {
            encode_utf8_decode_utf8(before.push(typed));
            encode_utf8_decode_utf8(Seq::<char>::empty());
            assert(encode_utf8(before.push(typed)) =~= encode_utf8(Seq::<char>::empty()));
        }
    }
    assert(before.push(typed).drop_last() =~= before);
}

/// A character typed into the filter of datasources and taken back leaves the
/// filter, and what is shown, as they were.
pub proof fn lemma_filter_and_take_back(
    a: Model,
    b: Model,
    c: Model,
    typed: char,
    x: Command,
    y: Command,
)
    requires
        step(Event::DatasourceFilterInput(typed), a, b, x),
        step(Event::DatasourceFilterBackspace, b, c, y),
    ensures
        c.datasources.filter@ == a.datasources.filter@,
        listed_datasources(c) == listed_datasources(a),
{
    assert(c.datasources.filter@ =~= a.datasources.filter@);
}

// ── Query results ────────────────────────────────────────────────────────────

/// Every row of a table has a cell for each column.
pub proof fn lemma_rows_fill_columns(results: Seq<PrometheusVectorItem>, v: QueryResultsView, i: int)
    requires
        results_show(results, v),
        0 <= i < results.len(),
    ensures
        v.rows@.len() == results.len(),
        v.rows@[i]@.len() == v.columns@.len(),
{
    assert(row_texts(v.rows@).len() == v.rows@.len());
    assert(row_texts(v.rows@)[i] == texts(v.rows@[i]@));
    assert(texts(v.rows@[i]@).len() == v.rows@[i]@.len());
    assert(texts(v.columns@).len() == v.columns@.len());
    assert(result_rows(results)[i] == result_row(label_columns(results), results[i]));
}

proof fn lemma_label_value(metric: Seq<(String, String)>, key: Seq<char>, k: int)
    ensures
        0 <= k < metric.len() && metric[k].0@ == key && (forall|j: int|
            0 <= j < k ==> (#[trigger] metric[j]).0@ != key) ==> label_value(metric, key)
            == metric[k].1@,
        (forall|j: int| 0 <= j < metric.len() ==> (#[trigger] metric[j]).0@ != key) ==> label_value(
            metric,
            key,
        ).len() == 0,
    decreases metric.len(),
{
    if metric.len() > 0 && metric[0].0@ != key {
        let rest = metric.drop_first();
        lemma_label_value(rest, key, k - 1);
        if 0 < k < metric.len() && forall|j: int| 0 <= j < k ==> (#[trigger] metric[j]).0@ != key {
            assert(rest[k - 1] == metric[k]);
            assert forall|j: int| 0 <= j < k - 1 implies (#[trigger] rest[j]).0@ != key by {
                assert(rest[j] == metric[j + 1]);
            }
        }
        if forall|j: int| 0 <= j < metric.len() ==> (#[trigger] metric[j]).0@ != key {
            assert forall|j: int| 0 <= j < rest.len() implies (#[trigger] rest[j]).0@ != key by {
                assert(rest[j] == metric[j + 1]);
            }
        }
    }
}

proof fn lemma_label_names(results: Seq<PrometheusVectorItem>, i: int, k: int)
    requires
        0 <= i < results.len(),
        0 <= k < results[i].metric@.len(),
    ensures
        label_names(results).contains(results[i].metric@[k].0@),
    decreases results.len(),
{
    let init = results.drop_last();
    let before = label_names(init);
    let last = results.last().metric@.map_values(|p: (String, String)| p.0@);
    let all = label_names(results);
    if i < init.len() {
        lemma_label_names(init, i, k);
        let m = before.index_of(results[i].metric@[k].0@);
        assert(all[m] == before[m]);
    } else {
        assert(all[before.len() + k] == last[k]);
    }
}

/// Every label of a result has a column, in which the row of the result has the label's value; the
/// cell of a label that the result does not have is empty; and the last column is the value itself.
pub proof fn lemma_cells(
    results: Seq<PrometheusVectorItem>,
    v: QueryResultsView,
    i: int,
    k: int,
    c: int,
)
    requires
        results_show(results, v),
        0 <= i < results.len(),
        0 <= k < results[i].metric@.len(),
        forall|j: int|
            0 <= j < k ==> (#[trigger] results[i].metric@[j]).0@ != results[i].metric@[k].0@,
        0 <= c < v.columns@.len() - 1,
    ensures
        exists|d: int|
            0 <= d < v.columns@.len() - 1 && (#[trigger] v.columns@[d])@
                == results[i].metric@[k].0@ && v.rows@[i]@[d]@ == results[i].metric@[k].1@,
        (forall|j: int|
            0 <= j < results[i].metric@.len() ==> (#[trigger] results[i].metric@[j]).0@
                != v.columns@[c]@) ==> v.rows@[i]@[c]@.len() == 0,
        v.columns@.last()@ == "value"@,
        v.rows@[i]@.last()@ == results[i].value.1@,
{
    lemma_rows_fill_columns(results, v, i);
    let metric = results[i].metric@;
    let key = metric[k].0@;
    let columns = label_columns(results);
    lemma_label_names(results, i, k);
    lemma_distinct_texts(label_names(results));
    let d = columns.index_of(key);
    assert(columns[d] == key);
    lemma_label_value(metric, key, k);
    lemma_label_value(metric, v.columns@[c]@, 0);
    assert(texts(v.columns@) == columns.push("value"@));
    assert(texts(v.columns@).len() == v.columns@.len());
    assert(columns.contains(key));
    assert(texts(v.columns@)[d] == v.columns@[d]@);
    assert(texts(v.columns@)[c] == v.columns@[c]@);
    assert(texts(v.columns@).last() == v.columns@.last()@);
    let row = result_row(columns, results[i]);
    assert(row_texts(v.rows@)[i] == texts(v.rows@[i]@));
    assert(result_rows(results)[i] == row);
    assert(texts(v.rows@[i]@)[d] == v.rows@[i]@[d]@);
    assert(texts(v.rows@[i]@)[c] == v.rows@[i]@[c]@);
    assert(row[d] == label_value(metric, columns[d]));
    assert(row[c] == label_value(metric, columns[c]));
    assert(texts(v.rows@[i]@).last() == v.rows@[i]@.last()@);
}

} // verus!
