//! Handling of events on the query screen.

use crate::collections::AssocMap;
use crate::edit::{insert_char, remove_char};
use crate::errors::{error_message, extract_error_message};
use crate::model::{
    Command, CompletionState, Datasource, DatasourceState, HttpError, Model, QueryState, Reply,
    Request, Screen,
};
use crate::numbers::{decimal, decimal_string};
use crate::order::{places, sort_strings, sorted_texts, texts};
use crate::prometheus::context::{
    completions_of, compute_completions, context_of, detect_context, CompletionCtx,
    CompletionCtxV,
};
use crate::prometheus::types::{
    PrometheusResponse, PrometheusStringListResponse, PrometheusVectorItem,
};
use crate::select::{
    active, active_datasource, clamp_index, clamped, find_place, lemma_all_listed, listed_datasources,
    next_index, next_of, place_of, sorted_datasource_indices,
};
use crate::text::{cat2, cat3, cat4, lemma_boundary_prefix, opt_text, substr, text_in};
use crate::util::{char_to_byte, char_to_byte_of, word_boundary_byte, word_start};
use vstd::prelude::*;
use vstd::string::*;
use vstd::utf8::*;

verus! {

// ── Requests ─────────────────────────────────────────────────────────────────

/// Value of a [`Reply`].
pub ghost enum ReplyV {
    Datasources,
    QueryResult,
    MetricNames,
    LabelNames(Seq<char>),
    LabelValues(Seq<char>, Seq<char>),
}

/// Value of a [`Request`].
pub ghost struct RequestV {
    pub url: Seq<char>,
    pub authorization: Seq<char>,
    pub reply: ReplyV,
}

impl View for Request {
    type V = RequestV;

    open spec fn view(&self) -> RequestV {
        RequestV {
            url: self.url@,
            authorization: self.authorization@,
            reply: match self.reply {
                Reply::Datasources => ReplyV::Datasources,
                Reply::QueryResult => ReplyV::QueryResult,
                Reply::MetricNames => ReplyV::MetricNames,
                Reply::LabelNames(s) => ReplyV::LabelNames(s@),
                Reply::LabelValues(l, s) => ReplyV::LabelValues(l@, s@),
            },
        }
    }
}

/// Whether a command shows the state and sends exactly these requests.
pub open spec fn fetches(cmd: Command, requests: Seq<RequestV>) -> bool {
    match cmd {
        Command::RenderAndFetch(v) => v@.map_values(|r: Request| r@) == requests,
        _ => false,
    }
}

/// The value of the `Authorization` header.
pub open spec fn bearer(m: Model) -> Seq<char> {
    "Bearer "@ + m.grafana_token@
}

/// Where requests to a datasource go.
pub open spec fn proxy_url(m: Model, ds: Datasource) -> Seq<char> {
    m.grafana_url@ + "/api/datasources/proxy/"@ + decimal(ds.id as nat)
}

/// A request with the token of the state.
pub open spec fn request(m: Model, url: Seq<char>, reply: ReplyV) -> RequestV {
    RequestV { url, authorization: bearer(m), reply }
}

pub(crate) fn make_bearer(m: &Model) -> (r: String)
    ensures
        r@ == bearer(*m),
{
    cat2("Bearer ", m.grafana_token.as_str())
}

fn make_proxy_url(m: &Model, id: u64, path: &str) -> (r: String)
    ensures
        r@ == m.grafana_url@ + "/api/datasources/proxy/"@ + decimal(id as nat) + path@,
{
    cat4(
        m.grafana_url.as_str(),
        "/api/datasources/proxy/",
        decimal_string(id).as_str(),
        path,
    )
}

// ── Percent encoding ─────────────────────────────────────────────────────────

/// Bytes that stand for themselves in a URL.
pub open spec fn unreserved(b: u8) -> bool {
    'A' as u8 <= b <= 'Z' as u8 || 'a' as u8 <= b <= 'z' as u8 || '0' as u8 <= b <= '9' as u8 || b
        == '-' as u8 || b == '_' as u8 || b == '.' as u8 || b == '~' as u8
}

/// The hexadecimal digit of `n`.
pub open spec fn hex_digit(n: int) -> char {
    if n < 10 {
        (48 + n) as u8 as char
    } else {
        (55 + n) as u8 as char
    }
}

/// How a byte is written in a URL.
pub open spec fn encoded_byte(b: u8) -> Seq<char> {
    if unreserved(b) {
        seq![b as char]
    } else {
        seq!['%', hex_digit(b as int / 16), hex_digit(b as int % 16)]
    }
}

/// Bytes as they are written in a URL.
pub open spec fn percent_encoded(b: Seq<u8>) -> Seq<char>
    decreases b.len(),
{
    if b.len() == 0 {
        seq![]
    } else {
        percent_encoded(b.drop_last()) + encoded_byte(b.last())
    }
}

fn make_hex_digit(n: u8) -> (r: char)
    requires
        n < 16,
    ensures
        r == hex_digit(n as int),
{
    if n < 10 {
        (48 + n) as char
    } else {
        (55 + n) as char
    }
}

/// Percent-encodes text for a URL.
pub fn percent_encode(s: &str) -> (r: String)
    ensures
        r@ == percent_encoded(s.spec_bytes()),
{
    let bytes = s.as_bytes();
    let mut out = String::new();
    let mut i: usize = 0;
    assert(bytes@.take(0) =~= seq![]);
    assert(out@ =~= seq![]);
    while i < bytes.len()
        invariant
            i <= bytes.len(),
            out@ == percent_encoded(bytes@.take(i as int)),
        decreases bytes.len() - i,
    {
        let b = bytes[i];
        let ghost before = out@;
        proof {
            let upto = bytes@.take(i + 1);
            assert(upto.drop_last() =~= bytes@.take(i as int));
            assert(upto.last() == b);
        }
        if 'A' as u8 <= b && b <= 'Z' as u8 || 'a' as u8 <= b && b <= 'z' as u8 || '0' as u8 <= b
            && b <= '9' as u8 || b == '-' as u8 || b == '_' as u8 || b == '.' as u8 || b
            == '~' as u8 {
            out.push(b as char);
        } else {
            out.push('%');
            out.push(make_hex_digit(b / 16));
            out.push(make_hex_digit(b % 16));
        }
        assert(out@ =~= before + encoded_byte(b));
        i += 1;
    }
    assert(bytes@.take(i as int) =~= bytes@);
    out
}

/// The value of a hexadecimal digit.
pub open spec fn hex_value(c: char) -> int {
    if '0' <= c <= '9' {
        c as u32 - '0' as u32
    } else {
        c as u32 - 'A' as u32 + 10
    }
}

/// The bytes that a text in a URL stands for.
pub open spec fn percent_decoded(s: Seq<char>) -> Seq<u8>
    decreases s.len(),
{
    if s.len() == 0 {
        seq![]
    } else if s[0] == '%' && s.len() >= 3 {
        seq![(hex_value(s[1]) * 16 + hex_value(s[2])) as u8] + percent_decoded(s.skip(3))
    } else {
        seq![s[0] as u8] + percent_decoded(s.skip(1))
    }
}

proof fn lemma_encoded_first(b: Seq<u8>)
    requires
        b.len() > 0,
    ensures
        percent_encoded(b) == encoded_byte(b[0]) + percent_encoded(b.drop_first()),
    decreases b.len(),
{
    let init = b.drop_last();
    if init.len() > 0 {
        lemma_encoded_first(init);
        assert(init.drop_first() =~= b.drop_first().drop_last());
        assert(b.drop_first().last() == b.last());
        assert(percent_encoded(b) =~= encoded_byte(b[0]) + percent_encoded(b.drop_first()));
    } else {
        assert(percent_encoded(init) =~= seq![]);
        assert(percent_encoded(b.drop_first()) =~= seq![]);
        assert(percent_encoded(b) =~= encoded_byte(b[0]) + percent_encoded(b.drop_first()));
    }
}

proof fn lemma_hex_digit(n: int)
    requires
        0 <= n < 16,
    ensures
        hex_value(hex_digit(n)) == n,
{
}

/// What is percent-encoded stands for the bytes that were encoded.
pub proof fn lemma_percent_round_trip(b: Seq<u8>)
    ensures
        percent_decoded(percent_encoded(b)) == b,
    decreases b.len(),
{
    if b.len() > 0 {
        let rest = b.drop_first();
        lemma_encoded_first(b);
        lemma_percent_round_trip(rest);
        let s = percent_encoded(b);
        let tail = percent_encoded(rest);
        if unreserved(b[0]) {
            assert(s[0] == b[0] as char);
            assert(s.skip(1) =~= tail);
        } else {
            let (hi, lo) = (b[0] as int / 16, b[0] as int % 16);
            lemma_hex_digit(hi);
            lemma_hex_digit(lo);
            assert(s[0] == '%' && s[1] == hex_digit(hi) && s[2] == hex_digit(lo));
            assert(s.skip(3) =~= tail);
        }
        assert(percent_decoded(s) =~= b);
    } else {
        assert(percent_decoded(percent_encoded(b)) =~= b);
    }
}

// ── Entering ─────────────────────────────────────────────────────────────────

/// The datasource that is highlighted: at the selected place, or else the last.
pub open spec fn highlighted(m: Model) -> int {
    let shown = listed_datasources(m);
    shown[clamped(m.datasources.selected_index as int, shown.len() as int)]
}

/// The filter is cleared, and the datasource `raw` is selected, at its place in
/// the full list.
pub open spec fn raw_selected(pre: Model, post: Model, raw: int) -> bool {
    &&& post.datasources == (DatasourceState {
        selected_index: post.datasources.selected_index,
        filter: post.datasources.filter,
        ..pre.datasources
    })
    &&& post.datasources.filter@.len() == 0
    &&& place_of(listed_datasources(post), raw) == Some(post.datasources.selected_index as int)
    &&& active(post) == Some(pre.datasources.items@[raw])
}

/// Nothing is known yet of the names to complete.
pub open spec fn completion_reset(c: CompletionState) -> bool {
    &&& c.metric_names@.len() == 0
    &&& c.label_names_cache@ == Map::<Seq<char>, Vec<String>>::empty()
    &&& c.label_values_cache@ == Map::<(Seq<char>, Seq<char>), Vec<String>>::empty()
    &&& c.index is None
    &&& !c.dismissed
    &&& c.metric_names_loading
    &&& c.label_names_loading
}

/// The query screen is entered for the highlighted datasource, and its metric
/// and label names are asked for. Without datasources nothing happens.
pub open spec fn query_entered(pre: Model, post: Model, cmd: Command) -> bool {
    if listed_datasources(pre).len() == 0 {
        post == pre && cmd == Command::Render
    } else {
        let ds = pre.datasources.items@[highlighted(pre)];
        &&& post == (Model {
            datasources: post.datasources,
            screen: Screen::QueryMode,
            promql: post.promql,
            completion: post.completion,
            ..pre
        })
        &&& raw_selected(pre, post, highlighted(pre))
        &&& post.promql == (QueryState {
            query: post.promql.query,
            cursor_pos: 0,
            results: None,
            error: None,
            ..pre.promql
        })
        &&& post.promql.query@.len() == 0
        &&& completion_reset(post.completion)
        &&& fetches(
            cmd,
            seq![
                request(
                    pre,
                    proxy_url(pre, ds) + "/api/v1/label/__name__/values"@,
                    ReplyV::MetricNames,
                ),
                request(
                    pre,
                    proxy_url(pre, ds) + "/api/v1/labels"@,
                    ReplyV::LabelNames(seq![]),
                ),
            ],
        )
    }
}

/// Clears the filter, with the datasource `raw` selected.
pub(crate) fn select_raw(model: &mut Model, raw: usize)
    requires
        raw < old(model).datasources.items.len(),
    ensures
        *final(model) == (Model { datasources: final(model).datasources, ..*old(model) }),
        raw_selected(*old(model), *final(model), raw as int),
{
    model.datasources.filter = String::new();
    let shown = sorted_datasource_indices(model);
    proof {
        lemma_all_listed(*model, raw as int);
    }
    let ghost cleared = *model;
    let place = find_place(&shown, raw);
    match place {
        Some(p) => {
            model.datasources.selected_index = p;
        },
        None => {},
    }
    assert(listed_datasources(*model) == listed_datasources(cleared));
}

/// The raw index of the highlighted datasource.
pub(crate) fn find_highlighted(model: &Model) -> (r: Option<usize>)
    ensures
        match r {
            Some(raw) => {
                &&& listed_datasources(*model).len() > 0
                &&& raw == highlighted(*model)
                &&& raw < model.datasources.items.len()
            },
            None => listed_datasources(*model).len() == 0,
        },
{
    let indices = sorted_datasource_indices(model);
    if indices.len() == 0 {
        return None;
    }
    let place = clamp_index(model.datasources.selected_index, indices.len());
    let raw = indices[place];
    assert(places(indices@)[place as int] == raw);
    Some(raw)
}

fn two_requests(first: Request, second: Request) -> (cmd: Command)
    ensures
        fetches(cmd, seq![first@, second@]),
{
    let mut requests: Vec<Request> = Vec::new();
    let ghost a = first@;
    let ghost b = second@;
    requests.push(first);
    requests.push(second);
    assert(requests@.map_values(|r: Request| r@) =~= seq![a, b]);
    Command::RenderAndFetch(requests)
}

pub(crate) fn one_request(first: Request) -> (cmd: Command)
    ensures
        fetches(cmd, seq![first@]),
{
    let mut requests: Vec<Request> = Vec::new();
    let ghost a = first@;
    requests.push(first);
    assert(requests@.map_values(|r: Request| r@) =~= seq![a]);
    Command::RenderAndFetch(requests)
}

pub fn handle_enter_query(model: &mut Model) -> (cmd: Command)
    ensures
        query_entered(*old(model), *final(model), cmd),
        old(model).wf() ==> final(model).wf(),
{
    let raw = match find_highlighted(model) {
        Some(raw) => raw,
        None => {
            return Command::Render;
        },
    };
    let id = model.datasources.items[raw].id;
    let all_names = String::new();
    assert(all_names@ =~= seq![]);
    let metrics = Request {
        url: make_proxy_url(model, id, "/api/v1/label/__name__/values"),
        authorization: make_bearer(model),
        reply: Reply::MetricNames,
    };
    let labels = Request {
        url: make_proxy_url(model, id, "/api/v1/labels"),
        authorization: make_bearer(model),
        reply: Reply::LabelNames(all_names),
    };
    select_raw(model, raw);
    let ghost selected = *model;
    model.screen = Screen::QueryMode;
    model.promql.query = String::new();
    model.promql.cursor_pos = 0;
    model.promql.results = None;
    model.promql.error = None;
    model.completion = CompletionState {
        metric_names: Vec::new(),
        label_names_cache: AssocMap::new(),
        label_values_cache: AssocMap::new(),
        index: None,
        dismissed: false,
        metric_names_loading: true,
        label_names_loading: true,
    };
    assert(listed_datasources(*model) == listed_datasources(selected));
    two_requests(metrics, labels)
}

// ── Editing ──────────────────────────────────────────────────────────────────

/// The query and the cursor have changed as said; completions start over.
pub open spec fn query_edited(
    pre: Model,
    post: Model,
    query: Seq<char>,
    cursor_pos: int,
) -> bool {
    &&& post == (Model {
        promql: QueryState {
            query: post.promql.query,
            cursor_pos: post.promql.cursor_pos,
            ..pre.promql
        },
        completion: CompletionState { dismissed: false, index: None, ..pre.completion },
        ..pre
    })
    &&& post.promql.query@ == query
    &&& post.promql.cursor_pos == cursor_pos
}

/// The query with `c` inserted at the cursor; at the end where the cursor stands
/// behind it.
pub open spec fn with_input(q: QueryState, c: char) -> Seq<char> {
    if q.cursor_pos < q.query@.len() {
        q.query@.insert(q.cursor_pos as int, c)
    } else {
        q.query@.push(c)
    }
}

pub fn handle_query_input(model: &mut Model, c: char) -> (cmd: Command)
    requires
        old(model).promql.cursor_pos < usize::MAX,
    ensures
        cmd == Command::Render,
        query_edited(
            *old(model),
            *final(model),
            with_input(old(model).promql, c),
            old(model).promql.cursor_pos + 1,
        ),
        old(model).wf() ==> final(model).wf(),
{
    let n = model.promql.query.as_str().unicode_len();
    if model.promql.cursor_pos < n {
        insert_char(&mut model.promql.query, model.promql.cursor_pos, c);
    } else {
        model.promql.query.push(c);
    }
    model.promql.cursor_pos += 1;
    model.completion.dismissed = false;
    model.completion.index = None;
    Command::Render
}

/// The query without the character before the cursor.
pub open spec fn backspaced(q: QueryState) -> Seq<char> {
    if q.cursor_pos == 0 {
        q.query@
    } else {
        q.query@.remove(q.cursor_pos - 1)
    }
}

/// The cursor one to the left; at the start it stays.
pub open spec fn left_of(cursor_pos: usize) -> int {
    if cursor_pos == 0 {
        0
    } else {
        cursor_pos - 1
    }
}

pub fn handle_query_backspace(model: &mut Model) -> (cmd: Command)
    requires
        old(model).promql.cursor_pos <= old(model).promql.query@.len(),
    ensures
        cmd == Command::Render,
        query_edited(
            *old(model),
            *final(model),
            backspaced(old(model).promql),
            left_of(old(model).promql.cursor_pos),
        ),
        old(model).wf() ==> final(model).wf(),
{
    if model.promql.cursor_pos > 0 {
        remove_char(&mut model.promql.query, model.promql.cursor_pos - 1);
        model.promql.cursor_pos -= 1;
    }
    model.completion.dismissed = false;
    model.completion.index = None;
    Command::Render
}

/// The query without the character behind the cursor.
pub open spec fn deleted(q: QueryState) -> Seq<char> {
    if q.cursor_pos < q.query@.len() {
        q.query@.remove(q.cursor_pos as int)
    } else {
        q.query@
    }
}

pub fn handle_query_delete(model: &mut Model) -> (cmd: Command)
    ensures
        cmd == Command::Render,
        query_edited(
            *old(model),
            *final(model),
            deleted(old(model).promql),
            old(model).promql.cursor_pos as int,
        ),
        old(model).wf() ==> final(model).wf(),
{
    if model.promql.cursor_pos < model.promql.query.as_str().unicode_len() {
        remove_char(&mut model.promql.query, model.promql.cursor_pos);
    }
    model.completion.dismissed = false;
    model.completion.index = None;
    Command::Render
}

/// The cursor stands at `cursor_pos`.
pub open spec fn cursor_moved(pre: Model, post: Model, cursor_pos: int) -> bool {
    &&& post == (Model {
        promql: QueryState { cursor_pos: post.promql.cursor_pos, ..pre.promql },
        ..pre
    })
    &&& post.promql.cursor_pos == cursor_pos
}

pub fn handle_cursor_left(model: &mut Model) -> (cmd: Command)
    ensures
        cmd == Command::Render,
        cursor_moved(*old(model), *final(model), left_of(old(model).promql.cursor_pos)),
        old(model).wf() ==> final(model).wf(),
{
    if model.promql.cursor_pos > 0 {
        model.promql.cursor_pos -= 1;
    }
    Command::Render
}

/// The cursor one to the right; at the end it stays.
pub open spec fn right_of(q: QueryState) -> int {
    if q.cursor_pos < q.query@.len() {
        q.cursor_pos + 1
    } else {
        q.cursor_pos as int
    }
}

pub fn handle_cursor_right(model: &mut Model) -> (cmd: Command)
    ensures
        cmd == Command::Render,
        cursor_moved(*old(model), *final(model), right_of(old(model).promql)),
        old(model).wf() ==> final(model).wf(),
{
    if model.promql.cursor_pos < model.promql.query.as_str().unicode_len() {
        model.promql.cursor_pos += 1;
    }
    Command::Render
}

pub fn handle_cursor_home(model: &mut Model) -> (cmd: Command)
    ensures
        cmd == Command::Render,
        cursor_moved(*old(model), *final(model), 0),
        old(model).wf() ==> final(model).wf(),
{
    model.promql.cursor_pos = 0;
    Command::Render
}

pub fn handle_cursor_end(model: &mut Model) -> (cmd: Command)
    ensures
        cmd == Command::Render,
        cursor_moved(*old(model), *final(model), old(model).promql.query@.len() as int),
        old(model).wf() ==> final(model).wf(),
{
    model.promql.cursor_pos = model.promql.query.as_str().unicode_len();
    Command::Render
}

/// A query of the history is shown, with the cursor at its end.
pub open spec fn history_shown(pre: Model, post: Model, query: String) -> bool {
    &&& post == (Model {
        promql: QueryState { query, cursor_pos: post.promql.cursor_pos, ..pre.promql },
        completion: CompletionState { dismissed: true, index: None, ..pre.completion },
        ..pre
    })
    &&& post.promql.cursor_pos == query@.len()
}

pub fn handle_history_navigate(model: &mut Model, query: String) -> (cmd: Command)
    ensures
        cmd == Command::Render,
        history_shown(*old(model), *final(model), query),
        old(model).wf() ==> final(model).wf(),
{
    model.promql.cursor_pos = query.as_str().unicode_len();
    model.promql.query = query;
    model.completion.dismissed = true;
    model.completion.index = None;
    Command::Render
}

pub fn handle_back_to_datasources(model: &mut Model) -> (cmd: Command)
    ensures
        cmd == Command::Render,
        *final(model) == (Model { screen: Screen::DatasourceList, ..*old(model) }),
{
    model.screen = Screen::DatasourceList;
    Command::Render
}

// ── Names ────────────────────────────────────────────────────────────────────

/// The names of a response; none without a body.
pub open spec fn names_of(body: Option<PrometheusStringListResponse>) -> Seq<Seq<char>> {
    match body {
        Some(r) => texts(r.data@),
        None => seq![],
    }
}

fn take_names(body: Option<PrometheusStringListResponse>) -> (r: Vec<String>)
    ensures
        texts(r@) == names_of(body),
{
    match body {
        Some(r) => r.data,
        None => {
            let r: Vec<String> = Vec::new();
            assert(texts(r@) =~= seq![]);
            r
        },
    }
}

/// Metric names have arrived: they are kept sorted. After an error the old ones
/// stay.
pub open spec fn metric_names_loaded(
    pre: Model,
    post: Model,
    resp: Result<Option<PrometheusStringListResponse>, HttpError>,
) -> bool {
    &&& post == (Model {
        completion: CompletionState {
            metric_names: post.completion.metric_names,
            metric_names_loading: false,
            ..pre.completion
        },
        ..pre
    })
    &&& match resp {
        Ok(body) => texts(post.completion.metric_names@) == sorted_texts(names_of(body)),
        Err(_) => post.completion.metric_names == pre.completion.metric_names,
    }
}

pub fn handle_metric_names_loaded(
    model: &mut Model,
    resp: Result<Option<PrometheusStringListResponse>, HttpError>,
) -> (cmd: Command)
    ensures
        cmd == Command::Render,
        metric_names_loaded(*old(model), *final(model), resp),
{
    model.completion.metric_names_loading = false;
    if let Ok(body) = resp {
        let mut names = take_names(body);
        sort_strings(&mut names);
        model.completion.metric_names = names;
    }
    Command::Render
}

/// `cache` with names under `key`: those of the response, or after an error none
/// where there are none yet.
pub open spec fn cached_reply<K>(
    pre: Map<K, Vec<String>>,
    post: Map<K, Vec<String>>,
    key: K,
    names: Option<Seq<Seq<char>>>,
) -> bool {
    match names {
        Some(names) => {
            &&& post == pre.insert(key, post[key])
            &&& texts(post[key]@) == names
        },
        None => if pre.contains_key(key) {
            post == pre
        } else {
            &&& post == pre.insert(key, post[key])
            &&& post[key]@.len() == 0
        },
    }
}

/// Label names have arrived: they are kept, sorted, under their selector.
pub open spec fn label_names_loaded(
    pre: Model,
    post: Model,
    selector: Seq<char>,
    resp: Result<Option<PrometheusStringListResponse>, HttpError>,
) -> bool {
    &&& post == (Model {
        completion: CompletionState {
            label_names_cache: post.completion.label_names_cache,
            label_names_loading: selector.len() > 0 && pre.completion.label_names_loading,
            ..pre.completion
        },
        ..pre
    })
    &&& cached_reply(
        pre.completion.label_names_cache@,
        post.completion.label_names_cache@,
        selector,
        match resp {
            Ok(body) => Some(sorted_texts(names_of(body))),
            Err(_) => None,
        },
    )
}

pub fn handle_label_names_loaded(
    model: &mut Model,
    selector: String,
    resp: Result<Option<PrometheusStringListResponse>, HttpError>,
) -> (cmd: Command)
    ensures
        cmd == Command::Render,
        label_names_loaded(*old(model), *final(model), selector@, resp),
{
    if selector.as_str().is_empty() {
        model.completion.label_names_loading = false;
    }
    match resp {
        Ok(body) => {
            let mut names = take_names(body);
            sort_strings(&mut names);
            model.completion.label_names_cache.insert(selector, names);
        },
        Err(_) => {
            if !model.completion.label_names_cache.contains_key(&selector) {
                model.completion.label_names_cache.insert(selector, Vec::new());
            }
        },
    }
    Command::Render
}

/// Label values have arrived: they are kept under their label and selector.
pub open spec fn label_values_loaded(
    pre: Model,
    post: Model,
    label: Seq<char>,
    selector: Seq<char>,
    resp: Result<Option<PrometheusStringListResponse>, HttpError>,
) -> bool {
    &&& post == (Model {
        completion: CompletionState {
            label_values_cache: post.completion.label_values_cache,
            ..pre.completion
        },
        ..pre
    })
    &&& cached_reply(
        pre.completion.label_values_cache@,
        post.completion.label_values_cache@,
        (label, selector),
        match resp {
            Ok(body) => Some(names_of(body)),
            Err(_) => None,
        },
    )
}

pub fn handle_label_values_loaded(
    model: &mut Model,
    label: String,
    selector: String,
    resp: Result<Option<PrometheusStringListResponse>, HttpError>,
) -> (cmd: Command)
    ensures
        cmd == Command::Render,
        label_values_loaded(*old(model), *final(model), label@, selector@, resp),
{
    let key = (label, selector);
    match resp {
        Ok(body) => {
            let values = take_names(body);
            model.completion.label_values_cache.insert(key, values);
        },
        Err(_) => {
            if !model.completion.label_values_cache.contains_key(&key) {
                model.completion.label_values_cache.insert(key, Vec::new());
            }
        },
    }
    Command::Render
}

// ── Completions ──────────────────────────────────────────────────────────────

/// How many completions are offered.
pub const MAX_COMPLETIONS: usize = 10;

/// The completions that are offered: on the query screen, unless dismissed.
pub open spec fn completions(m: Model) -> Seq<Seq<char>> {
    if m.screen != Screen::QueryMode || m.completion.dismissed {
        seq![]
    } else {
        completions_of(
            context_of(m.promql.query@, m.promql.cursor_pos as int),
            texts(m.completion.metric_names@),
            m.completion.label_names_cache@,
            m.completion.label_values_cache@,
            MAX_COMPLETIONS as int,
        )
    }
}

/// The completions that are offered.
pub fn get_completions(model: &Model) -> (r: Vec<String>)
    ensures
        texts(r@) == completions(*model),
        r.len() == completions(*model).len(),
{
    if model.screen != Screen::QueryMode || model.completion.dismissed {
        let r: Vec<String> = Vec::new();
        assert(texts(r@) =~= seq![]);
        return r;
    }
    let ctx = detect_context(model.promql.query.as_str(), model.promql.cursor_pos);
    let r = compute_completions(
        &ctx,
        model.completion.metric_names.as_slice(),
        &model.completion.label_names_cache,
        &model.completion.label_values_cache,
        MAX_COMPLETIONS,
    );
    assert(texts(r@).len() == r.len());
    r
}

/// The completion at `index` is selected; without completions nothing changes.
pub open spec fn completion_selected(pre: Model, post: Model, index: int) -> bool {
    if completions(pre).len() == 0 {
        post == pre
    } else {
        &&& post == (Model {
            completion: CompletionState {
                dismissed: false,
                index: post.completion.index,
                ..pre.completion
            },
            ..pre
        })
        &&& post.completion.index is Some
        &&& post.completion.index->0 == index
    }
}

/// The place after the selected completion; the first where none is selected.
pub open spec fn next_completion(m: Model) -> int {
    match m.completion.index {
        Some(i) => next_of(i as int, completions(m).len() as int),
        None => 0,
    }
}

pub fn handle_completion_next(model: &mut Model) -> (cmd: Command)
    ensures
        cmd == Command::Render,
        completion_selected(*old(model), *final(model), next_completion(*old(model))),
{
    let n = get_completions(model).len();
    if n > 0 {
        model.completion.dismissed = false;
        model.completion.index = Some(
            match model.completion.index {
                Some(i) => next_index(i, n),
                None => 0,
            },
        );
    }
    Command::Render
}

/// The place before the selected completion; the last before the first, and
/// where none is selected.
pub open spec fn prev_completion(m: Model) -> int {
    match m.completion.index {
        Some(i) => if i == 0 {
            completions(m).len() - 1
        } else {
            i - 1
        },
        None => completions(m).len() - 1,
    }
}

pub fn handle_completion_prev(model: &mut Model) -> (cmd: Command)
    ensures
        cmd == Command::Render,
        completion_selected(*old(model), *final(model), prev_completion(*old(model))),
{
    let n = get_completions(model).len();
    if n > 0 {
        model.completion.dismissed = false;
        model.completion.index = Some(
            match model.completion.index {
                Some(i) => if i == 0 {
                    n - 1
                } else {
                    i - 1
                },
                None => n - 1,
            },
        );
    }
    Command::Render
}

pub fn handle_completion_dismiss(model: &mut Model) -> (cmd: Command)
    ensures
        cmd == Command::Render,
        *final(model) == (Model {
            completion: CompletionState {
                dismissed: true,
                index: None,
                ..old(model).completion
            },
            ..*old(model)
        }),
{
    model.completion.dismissed = true;
    model.completion.index = None;
    Command::Render
}

/// The request for what completion lacks at the cursor: label names under a
/// selector or values of a label that are not cached.
pub open spec fn missing_names(m: Model) -> Option<RequestV> {
    match active(m) {
        None => None,
        Some(ds) => match context_of(m.promql.query@, m.promql.cursor_pos as int) {
            CompletionCtxV::LabelName { selector, .. } => if selector.len() == 0
                || m.completion.label_names_cache@.contains_key(selector) {
                None
            } else {
                Some(
                    request(
                        m,
                        proxy_url(m, ds) + "/api/v1/labels?match[]="@ + percent_encoded(
                            encode_utf8(selector),
                        ),
                        ReplyV::LabelNames(selector),
                    ),
                )
            },
            CompletionCtxV::LabelValue { label, selector, .. } => {
                if m.completion.label_values_cache@.contains_key((label, selector)) {
                    None
                } else {
                    let base = proxy_url(m, ds) + "/api/v1/label/"@ + percent_encoded(
                        encode_utf8(label),
                    ) + "/values"@;
                    Some(
                        request(
                            m,
                            if selector.len() == 0 {
                                base
                            } else {
                                base + "?match[]="@ + percent_encoded(encode_utf8(selector))
                            },
                            ReplyV::LabelValues(label, selector),
                        ),
                    )
                }
            },
            _ => None,
        },
    }
}

/// The state is shown, and what completion lacks is asked for.
pub open spec fn names_asked_for(m: Model, cmd: Command) -> bool {
    match missing_names(m) {
        Some(r) => fetches(cmd, seq![r]),
        None => cmd == Command::Render,
    }
}

fn label_names_request(model: &Model, id: u64, selector: String) -> (r: Request)
    ensures
        r@ == request(
            *model,
            model.grafana_url@ + "/api/datasources/proxy/"@ + decimal(id as nat)
                + "/api/v1/labels?match[]="@ + percent_encoded(encode_utf8(selector@)),
            ReplyV::LabelNames(selector@),
        ),
{
    let base = make_proxy_url(model, id, "/api/v1/labels?match[]=");
    let encoded = percent_encode(selector.as_str());
    Request {
        url: cat2(base.as_str(), encoded.as_str()),
        authorization: make_bearer(model),
        reply: Reply::LabelNames(selector),
    }
}

fn label_values_request(model: &Model, id: u64, label: String, selector: String) -> (r: Request)
    ensures
        ({
            let base = model.grafana_url@ + "/api/datasources/proxy/"@ + decimal(id as nat)
                + "/api/v1/label/"@ + percent_encoded(encode_utf8(label@)) + "/values"@;
            r@ == request(
                *model,
                if selector@.len() == 0 {
                    base
                } else {
                    base + "?match[]="@ + percent_encoded(encode_utf8(selector@))
                },
                ReplyV::LabelValues(label@, selector@),
            )
        }),
{
    let start = make_proxy_url(model, id, "/api/v1/label/");
    let encoded = percent_encode(label.as_str());
    let base = cat3(start.as_str(), encoded.as_str(), "/values");
    let url = if selector.as_str().is_empty() {
        base
    } else {
        let encoded = percent_encode(selector.as_str());
        cat3(base.as_str(), "?match[]=", encoded.as_str())
    };
    Request {
        url,
        authorization: make_bearer(model),
        reply: Reply::LabelValues(label, selector),
    }
}

fn render_with_completion_cmds(model: &Model) -> (cmd: Command)
    ensures
        names_asked_for(*model, cmd),
{
    let id = match active_datasource(model) {
        Some(ds) => ds.id,
        None => {
            return Command::Render;
        },
    };
    match detect_context(model.promql.query.as_str(), model.promql.cursor_pos) {
        CompletionCtx::LabelName { selector, .. } => {
            if selector.as_str().is_empty() || model.completion.label_names_cache.contains_key(
                &selector,
            ) {
                Command::Render
            } else {
                one_request(label_names_request(model, id, selector))
            }
        },
        CompletionCtx::LabelValue { label, selector, .. } => {
            let key = (label, selector);
            if model.completion.label_values_cache.contains_key(&key) {
                Command::Render
            } else {
                one_request(label_values_request(model, id, key.0, key.1))
            }
        },
        _ => Command::Render,
    }
}

pub fn handle_trigger_completions(model: &mut Model) -> (cmd: Command)
    ensures
        *final(model) == *old(model),
        names_asked_for(*old(model), cmd),
{
    render_with_completion_cmds(model)
}

/// The completion to accept: the selected one, or else the first.
pub open spec fn accepted(m: Model) -> Option<Seq<char>> {
    let all = completions(m);
    let i = match m.completion.index {
        Some(i) => i as int,
        None => 0,
    };
    if i < all.len() {
        Some(all[i])
    } else {
        None
    }
}

/// The query up to the word at the cursor.
pub open spec fn before_word(q: QueryState) -> Seq<char> {
    let b = encode_utf8(q.query@);
    let cursor = char_to_byte_of(q.query@, q.cursor_pos as int);
    text_in(b, 0, word_start(b.subrange(0, cursor), cursor, true))
}

/// The query from the cursor on.
pub open spec fn from_cursor(q: QueryState) -> Seq<char> {
    let b = encode_utf8(q.query@);
    text_in(b, char_to_byte_of(q.query@, q.cursor_pos as int), b.len() as int)
}

/// A completion replaces the word at the cursor, and the cursor stands behind
/// it. Without one the query stays.
pub open spec fn completion_accepted(pre: Model, post: Model, cmd: Command) -> bool {
    &&& match accepted(pre) {
        Some(text) => query_edited(
            pre,
            post,
            before_word(pre.promql) + text + from_cursor(pre.promql),
            (before_word(pre.promql) + text).len() as int,
        ),
        None => query_edited(pre, post, pre.promql.query@, pre.promql.cursor_pos as int)
            && post.promql.query == pre.promql.query,
    }
    &&& names_asked_for(post, cmd)
}

/// Replaces the word at the cursor.
fn replace_word(q: &mut QueryState, text: &str)
    ensures
        *final(q) == (QueryState {
            query: final(q).query,
            cursor_pos: final(q).cursor_pos,
            ..*old(q)
        }),
        final(q).query@ == before_word(*old(q)) + text@ + from_cursor(*old(q)),
        final(q).cursor_pos == (before_word(*old(q)) + text@).len(),
{
    let query = q.query.as_str();
    let cursor = char_to_byte(query, q.cursor_pos);
    let len = query.as_bytes().len();
    let ghost b = query.spec_bytes();
    proof {
        encode_utf8_valid_utf8(q.query@);
        is_char_boundary_start_end_of_seq(b);
    }
    let before = substr(query, 0, cursor);
    let start = word_boundary_byte(before);
    proof {
        lemma_boundary_prefix(b, start as int, cursor as int);
    }
    let head = cat2(substr(query, 0, start), text);
    let cursor_pos = head.as_str().unicode_len();
    let new_query = cat2(head.as_str(), substr(query, cursor, len));
    q.cursor_pos = cursor_pos;
    q.query = new_query;
}

pub fn handle_completion_accept(model: &mut Model) -> (cmd: Command)
    ensures
        completion_accepted(*old(model), *final(model), cmd),
        old(model).wf() ==> final(model).wf(),
{
    let all = get_completions(model);
    let i: usize = match model.completion.index {
        Some(i) => i,
        None => 0,
    };
    if i < all.len() {
        assert(texts(all@)[i as int] == all@[i as int]@);
        replace_word(&mut model.promql, all[i].as_str());
    }
    model.completion.index = None;
    model.completion.dismissed = false;
    render_with_completion_cmds(model)
}

// ── Queries ──────────────────────────────────────────────────────────────────

/// The query is sent to the active datasource. Without datasources nothing
/// happens.
pub open spec fn query_sent(pre: Model, post: Model, cmd: Command) -> bool {
    if pre.datasources.items@.len() == 0 {
        post == pre && cmd == Command::Render
    } else {
        &&& post == (Model {
            promql: QueryState { loading: true, error: None, results: None, ..pre.promql },
            completion: CompletionState { dismissed: true, index: None, ..pre.completion },
            ..pre
        })
        &&& active(pre) is Some
        &&& fetches(
            cmd,
            seq![
                request(
                    pre,
                    proxy_url(pre, active(pre)->0) + "/api/v1/query?query="@ + percent_encoded(
                        encode_utf8(pre.promql.query@),
                    ),
                    ReplyV::QueryResult,
                ),
            ],
        )
    }
}

pub fn handle_execute_query(model: &mut Model) -> (cmd: Command)
    requires
        old(model).datasources.items@.len() > 0 ==> active(*old(model)) is Some,
    ensures
        query_sent(*old(model), *final(model), cmd),
        old(model).wf() ==> final(model).wf(),
{
    if model.datasources.items.len() == 0 {
        return Command::Render;
    }
    let id = active_datasource(model).unwrap().id;
    let base = make_proxy_url(model, id, "/api/v1/query?query=");
    let encoded = percent_encode(model.promql.query.as_str());
    let r = Request {
        url: cat2(base.as_str(), encoded.as_str()),
        authorization: make_bearer(model),
        reply: Reply::QueryResult,
    };
    model.promql.loading = true;
    model.promql.error = None;
    model.promql.results = None;
    model.completion.dismissed = true;
    model.completion.index = None;
    one_request(r)
}

/// A result has arrived: it is kept, an empty one without a body. After an error
/// its message is kept, and the old result stays.
pub open spec fn result_loaded(
    pre: Model,
    post: Model,
    resp: Result<Option<PrometheusResponse>, HttpError>,
) -> bool {
    &&& post == (Model {
        promql: QueryState {
            loading: false,
            results: post.promql.results,
            error: post.promql.error,
            ..pre.promql
        },
        ..pre
    })
    &&& match resp {
        Ok(body) => {
            &&& post.promql.error == pre.promql.error
            &&& post.promql.results is Some
            &&& match body {
                Some(r) => post.promql.results->0 == r.data.result,
                None => post.promql.results->0@.len() == 0,
            }
        },
        Err(err) => {
            &&& post.promql.results == pre.promql.results
            &&& opt_text(post.promql.error) == Some(error_message(err))
        },
    }
}

pub fn handle_query_result_loaded(
    model: &mut Model,
    resp: Result<Option<PrometheusResponse>, HttpError>,
) -> (cmd: Command)
    ensures
        cmd == Command::Render,
        result_loaded(*old(model), *final(model), resp),
        old(model).wf() ==> final(model).wf(),
{
    model.promql.loading = false;
    match resp {
        Ok(body) => {
            let results: Vec<PrometheusVectorItem> = match body {
                Some(r) => r.data.result,
                None => Vec::new(),
            };
            model.promql.results = Some(results);
        },
        Err(err) => {
            model.promql.error = Some(extract_error_message(&err));
        },
    }
    Command::Render
}

} // verus!
