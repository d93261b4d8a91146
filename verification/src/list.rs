//! Handling of events on the list of datasources and the history panel.

use crate::collections::StringSet;
use crate::edit::{pop_char, without_last};
use crate::errors::{error_message, extract_error_message};
use crate::model::{
    Command, Datasource, DatasourceState, HistoryEntryView, HistoryState, HttpError, Model, Reply,
    Request, Screen,
};
use crate::order::texts;
use crate::prometheus::app::{fetches, make_bearer, one_request, request, ReplyV};
use crate::pyroscope::app::{range_or_hour, set_default_range};
use crate::select::{
    filtered, filtered_datasource_indices, find_place, lemma_all_listed, listed_datasources,
    next_index, next_of, place_of, prev_index, prev_of, sorted_datasource_indices,
};
use crate::text::{cat2, opt_text, str_eq};
use vstd::prelude::*;
use vstd::string::*;

verus! {

// ── Loading ──────────────────────────────────────────────────────────────────

/// The server is set, and the datasources are to be fetched.
pub open spec fn configured(pre: Model, post: Model, url: String, token: String) -> bool {
    &&& post == (Model {
        grafana_url: url,
        grafana_token: token,
        time_range: post.time_range,
        ..pre
    })
    &&& post.time_range@ == range_or_hour(pre.time_range@)
}

pub fn handle_configure(model: &mut Model, url: String, token: String) -> (cmd: Command)
    ensures
        cmd == Command::FetchDatasources,
        configured(*old(model), *final(model), url, token),
{
    model.grafana_url = url;
    model.grafana_token = token;
    set_default_range(&mut model.time_range);
    Command::FetchDatasources
}

/// The datasources are asked for.
pub open spec fn datasources_asked_for(pre: Model, post: Model, cmd: Command) -> bool {
    &&& post == (Model {
        datasources: DatasourceState { loading: true, error: None, ..pre.datasources },
        ..pre
    })
    &&& fetches(
        cmd,
        seq![request(pre, pre.grafana_url@ + "/api/datasources"@, ReplyV::Datasources)],
    )
}

pub fn handle_fetch_datasources(model: &mut Model) -> (cmd: Command)
    ensures
        datasources_asked_for(*old(model), *final(model), cmd),
{
    model.datasources.loading = true;
    model.datasources.error = None;
    one_request(
        Request {
            url: cat2(model.grafana_url.as_str(), "/api/datasources"),
            authorization: make_bearer(model),
            reply: Reply::Datasources,
        },
    )
}

/// The types of datasources that can be explored.
pub open spec fn supported(ds_type: Seq<char>) -> bool {
    ds_type == "prometheus"@ || ds_type == "grafana-pyroscope-datasource"@ || ds_type == "phlare"@
        || ds_type == "tempo"@ || ds_type == "loki"@
}

/// The datasources that can be explored, in their order.
pub open spec fn explorable(all: Seq<Datasource>) -> Seq<Datasource> {
    all.filter(|ds: Datasource| supported(ds.ds_type@))
}

/// The datasources of a response; none where it has no body.
pub open spec fn body_datasources(body: Option<Vec<Datasource>>) -> Seq<Datasource> {
    match body {
        Some(all) => all@,
        None => seq![],
    }
}

/// Datasources have arrived, or an error. They are shown from the first on,
/// without a filter; after an error the old ones stay.
pub open spec fn datasources_loaded(
    pre: Model,
    post: Model,
    result: Result<Option<Vec<Datasource>>, HttpError>,
) -> bool {
    &&& post == (Model { datasources: post.datasources, ..pre })
    &&& match result {
        Ok(body) => {
            &&& post.datasources == (DatasourceState {
                items: post.datasources.items,
                loading: false,
                selected_index: 0,
                filter: post.datasources.filter,
                ..pre.datasources
            })
            &&& post.datasources.items@ == explorable(body_datasources(body))
            &&& post.datasources.filter@.len() == 0
        },
        Err(e) => {
            &&& post.datasources == (DatasourceState {
                loading: false,
                error: post.datasources.error,
                ..pre.datasources
            })
            &&& opt_text(post.datasources.error) == Some(error_message(e))
        },
    }
}

fn is_supported(ds_type: &str) -> (r: bool)
    ensures
        r == supported(ds_type@),
{
    str_eq(ds_type, "prometheus") || str_eq(ds_type, "grafana-pyroscope-datasource") || str_eq(
        ds_type,
        "phlare",
    ) || str_eq(ds_type, "tempo") || str_eq(ds_type, "loki")
}

fn keep_explorable(all: Vec<Datasource>) -> (r: Vec<Datasource>)
    ensures
        r@ == explorable(all@),
{
    let ghost test = |ds: Datasource| supported(ds.ds_type@);
    let mut out: Vec<Datasource> = Vec::new();
    proof {
        assert(all@.take(0) =~= seq![]);
        reveal(Seq::filter);
    }
    for ds in it: all
        invariant
            it.seq() == all@,
            test == (|ds: Datasource| supported(ds.ds_type@)),
            out@ == it.seq().take(it.index()).filter(test),
    {
        proof {
            let upto = it.seq().take(it.index() + 1);
            assert(upto.drop_last() =~= it.seq().take(it.index()));
            assert(upto.last() == ds);
            reveal(Seq::filter);
        }
        if is_supported(ds.ds_type.as_str()) {
            out.push(ds);
        }
    }
    assert(all@.take(all@.len() as int) =~= all@);
    out
}

pub fn handle_datasources_loaded(
    model: &mut Model,
    result: Result<Option<Vec<Datasource>>, HttpError>,
) -> (cmd: Command)
    ensures
        cmd == Command::Render,
        datasources_loaded(*old(model), *final(model), result),
{
    model.datasources.loading = false;
    match result {
        Ok(body) => {
            let all: Vec<Datasource> = match body {
                Some(all) => all,
                None => Vec::new(),
            };
            assert(all@ =~= body_datasources(body));
            model.datasources.items = keep_explorable(all);
            model.datasources.filter = String::new();
            model.datasources.selected_index = 0;
        },
        Err(e) => {
            model.datasources.error = Some(extract_error_message(&e));
        },
    }
    Command::Render
}

// ── Selecting ────────────────────────────────────────────────────────────────

/// The datasource at `index` is selected. On another screen than the list, and
/// where none is shown, nothing has changed.
pub open spec fn datasource_selected(pre: Model, post: Model, index: int) -> bool {
    if pre.screen == Screen::DatasourceList && filtered(pre).len() > 0 {
        &&& post == (Model {
            datasources: DatasourceState {
                selected_index: post.datasources.selected_index,
                ..pre.datasources
            },
            ..pre
        })
        &&& post.datasources.selected_index == index
    } else {
        post == pre
    }
}

pub fn handle_select_next(model: &mut Model) -> (cmd: Command)
    ensures
        cmd == Command::Render,
        datasource_selected(
            *old(model),
            *final(model),
            next_of(
                old(model).datasources.selected_index as int,
                filtered(*old(model)).len() as int,
            ),
        ),
{
    if model.screen == Screen::DatasourceList {
        let count = filtered_datasource_indices(model).len();
        if count > 0 {
            model.datasources.selected_index = next_index(model.datasources.selected_index, count);
        }
    }
    Command::Render
}

pub fn handle_select_previous(model: &mut Model) -> (cmd: Command)
    ensures
        cmd == Command::Render,
        datasource_selected(
            *old(model),
            *final(model),
            prev_of(
                old(model).datasources.selected_index as int,
                filtered(*old(model)).len() as int,
            ),
        ),
{
    if model.screen == Screen::DatasourceList {
        let count = filtered_datasource_indices(model).len();
        if count > 0 {
            model.datasources.selected_index = prev_index(model.datasources.selected_index, count);
        }
    }
    Command::Render
}

/// The first datasource with the UID, from `from` on.
pub open spec fn first_uid(ds: Seq<Datasource>, from: int, uid: Seq<char>) -> Option<int>
    decreases ds.len() - from,
{
    if from < 0 || from >= ds.len() {
        None
    } else if ds[from].uid@ == uid {
        Some(from)
    } else {
        first_uid(ds, from + 1, uid)
    }
}

/// The first datasource with the name, from `from` on.
pub open spec fn first_name(ds: Seq<Datasource>, from: int, name: Seq<char>) -> Option<int>
    decreases ds.len() - from,
{
    if from < 0 || from >= ds.len() {
        None
    } else if ds[from].name@ == name {
        Some(from)
    } else {
        first_name(ds, from + 1, name)
    }
}

/// The datasource with the UID, or else with the name; an empty one names
/// nothing.
pub open spec fn datasource_named(
    ds: Seq<Datasource>,
    uid: Seq<char>,
    name: Seq<char>,
) -> Option<int> {
    if uid.len() > 0 && first_uid(ds, 0, uid) is Some {
        first_uid(ds, 0, uid)
    } else if name.len() > 0 {
        first_name(ds, 0, name)
    } else {
        None
    }
}

/// The full list is shown, and the named datasource is selected in it, at its
/// place as it is shown. For an unknown one the selection stays.
pub open spec fn named_selected(pre: Model, post: Model, uid: Seq<char>, name: Seq<char>) -> bool {
    &&& post == (Model {
        datasources: DatasourceState {
            selected_index: post.datasources.selected_index,
            filter: post.datasources.filter,
            filter_focused: false,
            ..pre.datasources
        },
        history: HistoryState { panel_focused: false, ..pre.history },
        ..pre
    })
    &&& post.datasources.filter@.len() == 0
    &&& match datasource_named(pre.datasources.items@, uid, name) {
        Some(raw) => place_of(listed_datasources(post), raw) == Some(
            post.datasources.selected_index as int,
        ),
        None => post.datasources.selected_index == pre.datasources.selected_index,
    }
}

fn find_named(ds: &Vec<Datasource>, uid: &str, name: &str) -> (r: Option<usize>)
    ensures
        match r {
            Some(i) => datasource_named(ds@, uid@, name@) == Some(i as int) && i < ds.len(),
            None => datasource_named(ds@, uid@, name@) is None,
        },
{
    if !uid.is_empty() {
        let mut i: usize = 0;
        while i < ds.len()
            invariant
                i <= ds.len(),
                uid@.len() > 0,
                first_uid(ds@, 0, uid@) == first_uid(ds@, i as int, uid@),
            decreases ds.len() - i,
        {
            if str_eq(ds[i].uid.as_str(), uid) {
                return Some(i);
            }
            i += 1;
        }
    }
    if !name.is_empty() {
        let mut i: usize = 0;
        while i < ds.len()
            invariant
                i <= ds.len(),
                uid@.len() == 0 || first_uid(ds@, 0, uid@) is None,
                name@.len() > 0,
                first_name(ds@, 0, name@) == first_name(ds@, i as int, name@),
            decreases ds.len() - i,
        {
            if str_eq(ds[i].name.as_str(), name) {
                return Some(i);
            }
            i += 1;
        }
    }
    None
}

pub fn handle_select_datasource(model: &mut Model, uid: String, name: String) -> (cmd: Command)
    ensures
        cmd == Command::Render,
        named_selected(*old(model), *final(model), uid@, name@),
{
    model.datasources.filter = String::new();
    model.datasources.filter_focused = false;
    model.history.panel_focused = false;
    let ghost cleared = *model;
    if let Some(raw) = find_named(&model.datasources.items, uid.as_str(), name.as_str()) {
        let shown = sorted_datasource_indices(model);
        proof {
            lemma_all_listed(*model, raw as int);
        }
        if let Some(place) = find_place(&shown, raw) {
            model.datasources.selected_index = place;
        }
    }
    assert(listed_datasources(*model) == listed_datasources(cleared));
    Command::Render
}

// ── Filter ───────────────────────────────────────────────────────────────────

pub fn handle_filter_focused(model: &mut Model, focused: bool) -> (cmd: Command)
    ensures
        cmd == Command::Render,
        *final(model) == (Model {
            datasources: DatasourceState { filter_focused: focused, ..old(model).datasources },
            ..*old(model)
        }),
{
    model.datasources.filter_focused = focused;
    Command::Render
}

/// The filter of datasources is `filter`; the selection starts over.
pub open spec fn datasource_filter(pre: Model, post: Model, filter: Seq<char>) -> bool {
    &&& post == (Model {
        datasources: DatasourceState {
            filter: post.datasources.filter,
            selected_index: 0,
            ..pre.datasources
        },
        ..pre
    })
    &&& post.datasources.filter@ == filter
}

pub fn handle_filter_input(model: &mut Model, c: char) -> (cmd: Command)
    ensures
        cmd == Command::Render,
        datasource_filter(*old(model), *final(model), old(model).datasources.filter@.push(c)),
{
    model.datasources.filter.push(c);
    model.datasources.selected_index = 0;
    Command::Render
}

pub fn handle_filter_backspace(model: &mut Model) -> (cmd: Command)
    ensures
        cmd == Command::Render,
        datasource_filter(
            *old(model),
            *final(model),
            without_last(old(model).datasources.filter@),
        ),
{
    pop_char(&mut model.datasources.filter);
    model.datasources.selected_index = 0;
    Command::Render
}

/// The filter is empty and has not the focus; the selection starts over.
pub open spec fn filter_cleared(pre: Model, post: Model) -> bool {
    &&& post == (Model {
        datasources: DatasourceState {
            filter: post.datasources.filter,
            filter_focused: false,
            selected_index: 0,
            ..pre.datasources
        },
        ..pre
    })
    &&& post.datasources.filter@.len() == 0
}

pub fn handle_filter_clear(model: &mut Model) -> (cmd: Command)
    ensures
        cmd == Command::Render,
        filter_cleared(*old(model), *final(model)),
{
    model.datasources.filter = String::new();
    model.datasources.filter_focused = false;
    model.datasources.selected_index = 0;
    Command::Render
}

// ── Favourites ───────────────────────────────────────────────────────────────

/// The favourites are `uids`.
pub open spec fn favourites_set(pre: Model, post: Model, uids: Set<Seq<char>>) -> bool {
    &&& post == (Model {
        datasources: DatasourceState {
            favourites: post.datasources.favourites,
            ..pre.datasources
        },
        ..pre
    })
    &&& post.datasources.favourites@ == uids
}

/// Favourites with `uid` added, or removed if it was among them.
pub open spec fn toggled(uids: Set<Seq<char>>, uid: Seq<char>) -> Set<Seq<char>> {
    if uids.contains(uid) {
        uids.remove(uid)
    } else {
        uids.insert(uid)
    }
}

/// Toggling a favourite twice changes nothing.
pub proof fn lemma_toggle_twice(uids: Set<Seq<char>>, uid: Seq<char>)
    ensures
        toggled(toggled(uids, uid), uid) == uids,
{
    assert(toggled(toggled(uids, uid), uid) =~= uids);
}

pub fn handle_favourites_loaded(model: &mut Model, uids: Vec<String>) -> (cmd: Command)
    ensures
        cmd == Command::Render,
        favourites_set(*old(model), *final(model), texts(uids@).to_set()),
{
    let mut set = StringSet::new();
    let ghost all = texts(uids@);
    let ghost ids = uids@;
    assert(all.take(0).to_set() =~= Set::<Seq<char>>::empty());
    for uid in it: uids
        invariant
            it.seq() == ids,
            all == texts(ids),
            set@ == all.take(it.index()).to_set(),
    {
        proof {
            assert(all[it.index()] == uid@);
            assert(all.take(it.index() + 1) =~= all.take(it.index()).push(uid@));
            lemma_push_to_set(all.take(it.index()), uid@);
        }
        set.insert(uid);
    }
    assert(all.take(all.len() as int) =~= all);
    model.datasources.favourites = set;
    Command::Render
}

proof fn lemma_push_to_set(s: Seq<Seq<char>>, x: Seq<char>)
    ensures
        s.push(x).to_set() == s.to_set().insert(x),
{
    assert forall|y: Seq<char>| s.push(x).to_set().contains(y) == s.to_set().insert(x).contains(
        y,
    ) by {
        if s.contains(y) {
            let k = choose|k: int| 0 <= k < s.len() && s[k] == y;
            assert(s.push(x)[k] == y);
        }
        if y == x {
            assert(s.push(x)[s.len() as int] == y);
        }
        if s.push(x).contains(y) && y != x {
            let k = choose|k: int| 0 <= k < s.push(x).len() && s.push(x)[k] == y;
            assert(s[k] == y);
        }
    }
    assert(s.push(x).to_set() =~= s.to_set().insert(x));
}

pub fn handle_toggle_favourite(model: &mut Model, uid: String) -> (cmd: Command)
    ensures
        cmd == Command::Render,
        favourites_set(
            *old(model),
            *final(model),
            toggled(old(model).datasources.favourites@, uid@),
        ),
{
    if model.datasources.favourites.contains(uid.as_str()) {
        model.datasources.favourites.remove(uid.as_str());
    } else {
        model.datasources.favourites.insert(uid);
    }
    Command::Render
}

// ── History panel ────────────────────────────────────────────────────────────

pub fn handle_history_entries_loaded(
    model: &mut Model,
    entries: Vec<HistoryEntryView>,
) -> (cmd: Command)
    ensures
        cmd == Command::Render,
        *final(model) == (Model {
            history: HistoryState { entries, selected_index: 0, ..old(model).history },
            ..*old(model)
        }),
{
    model.history.entries = entries;
    model.history.selected_index = 0;
    Command::Render
}

/// The panel has the focus, and the filter has not.
pub fn handle_history_panel_focus(model: &mut Model) -> (cmd: Command)
    ensures
        cmd == Command::Render,
        *final(model) == (Model {
            history: HistoryState { panel_focused: true, ..old(model).history },
            datasources: DatasourceState { filter_focused: false, ..old(model).datasources },
            ..*old(model)
        }),
{
    model.history.panel_focused = true;
    model.datasources.filter_focused = false;
    Command::Render
}

pub fn handle_history_panel_blur(model: &mut Model) -> (cmd: Command)
    ensures
        cmd == Command::Render,
        *final(model) == (Model {
            history: HistoryState { panel_focused: false, ..old(model).history },
            ..*old(model)
        }),
{
    model.history.panel_focused = false;
    Command::Render
}

/// The entry at `index` is selected; without entries nothing has changed.
pub open spec fn entry_selected(pre: Model, post: Model, index: int) -> bool {
    if pre.history.entries@.len() == 0 {
        post == pre
    } else {
        &&& post == (Model {
            history: HistoryState { selected_index: post.history.selected_index, ..pre.history },
            ..pre
        })
        &&& post.history.selected_index == index
    }
}

pub fn handle_history_select_next(model: &mut Model) -> (cmd: Command)
    ensures
        cmd == Command::Render,
        entry_selected(
            *old(model),
            *final(model),
            next_of(
                old(model).history.selected_index as int,
                old(model).history.entries@.len() as int,
            ),
        ),
{
    let len = model.history.entries.len();
    if len > 0 {
        model.history.selected_index = next_index(model.history.selected_index, len);
    }
    Command::Render
}

pub fn handle_history_select_prev(model: &mut Model) -> (cmd: Command)
    ensures
        cmd == Command::Render,
        entry_selected(
            *old(model),
            *final(model),
            prev_of(
                old(model).history.selected_index as int,
                old(model).history.entries@.len() as int,
            ),
        ),
{
    let len = model.history.entries.len();
    if len > 0 {
        model.history.selected_index = prev_index(model.history.selected_index, len);
    }
    Command::Render
}

} // verus!
