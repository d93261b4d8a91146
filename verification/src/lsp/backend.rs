//! What the language server keeps: documents, and the labels that it was told.

use crate::collections::AssocMap;
use crate::lsp::completion::{complete, completion_shows, LspCompletion};
use crate::lsp::diagnostics::{
    diagnostics_show, document_diagnostics, run_diagnostics, LspDiagnostic,
};
use crate::lsp::position::{lines_fit, lines_in_range, Position};
use crate::order::texts;
use crate::suggest::cache_texts;
use dashmap::DashMap;
use vstd::prelude::*;
use vstd::string::*;
use vstd::utf8::*;

verus! {

// ── The maps ─────────────────────────────────────────────────────────────────

/// `dashmap::DashMap`, a map that keeps its entries in locked parts.
#[verifier::external_type_specification]
#[verifier::external_body]
#[verifier::reject_recursive_types(K)]
#[verifier::reject_recursive_types(V)]
#[verifier::reject_recursive_types(S)]
pub struct ExDashMap<K, V, S>(dashmap::DashMap<K, V, S>);

/// What a map of documents holds: text and version by URI.
pub uninterp spec fn stored_documents(map: DashMap<String, (String, i32)>) -> Map<
    Seq<char>,
    (Seq<char>, i32),
>;

/// What a map of label names holds: names by selector.
pub uninterp spec fn stored_names(map: DashMap<String, Vec<String>>) -> Map<
    Seq<char>,
    Seq<Seq<char>>,
>;

/// What a map of label values holds: values by label and selector.
pub uninterp spec fn stored_values(map: DashMap<(String, String), Vec<String>>) -> Map<
    (Seq<char>, Seq<char>),
    Seq<Seq<char>>,
>;

/// `DashMap::new`: a map without entries.
#[verifier::external_body]
fn new_documents() -> (r: DashMap<String, (String, i32)>)
    ensures
        forall|key| !#[trigger] stored_documents(r).contains_key(key),
{
    DashMap::new()
}

/// `DashMap::new`: a map without entries.
#[verifier::external_body]
fn new_names() -> (r: DashMap<String, Vec<String>>)
    ensures
        forall|key| !#[trigger] stored_names(r).contains_key(key),
{
    DashMap::new()
}

/// `DashMap::new`: a map without entries.
#[verifier::external_body]
fn new_values() -> (r: DashMap<(String, String), Vec<String>>)
    ensures
        forall|key| !#[trigger] stored_values(r).contains_key(key),
{
    DashMap::new()
}

/// `DashMap::insert`: the value stands under the key, in place of an older one.
/// The map is borrowed for this call alone, so nothing else changes it meanwhile.
#[verifier::external_body]
fn insert_document(map: &mut DashMap<String, (String, i32)>, key: String, value: (String, i32))
    ensures
        stored_documents(*final(map)) == stored_documents(*old(map)).insert(
            key@,
            (value.0@, value.1),
        ),
{
    map.insert(key, value);
}

/// `DashMap::insert`: the value stands under the key, in place of an older one.
/// The map is borrowed for this call alone, so nothing else changes it meanwhile.
#[verifier::external_body]
fn insert_names(map: &mut DashMap<String, Vec<String>>, key: String, value: Vec<String>)
    ensures
        stored_names(*final(map)) == stored_names(*old(map)).insert(key@, texts(value@)),
{
    map.insert(key, value);
}

/// `DashMap::insert`: the value stands under the key, in place of an older one.
/// The map is borrowed for this call alone, so nothing else changes it meanwhile.
#[verifier::external_body]
fn insert_values(
    map: &mut DashMap<(String, String), Vec<String>>,
    key: (String, String),
    value: Vec<String>,
)
    ensures
        stored_values(*final(map)) == stored_values(*old(map)).insert(
            (key.0@, key.1@),
            texts(value@),
        ),
{
    map.insert(key, value);
}

/// `DashMap::get`: a copy of the value under the key, if there is one.
#[verifier::external_body]
fn get_document(map: &DashMap<String, (String, i32)>, key: &str) -> (r: Option<(String, i32)>)
    ensures
        match r {
            Some((text, version)) => {
                &&& stored_documents(*map).contains_key(key@)
                &&& stored_documents(*map)[key@] == (text@, version)
            },
            None => !stored_documents(*map).contains_key(key@),
        },
{
    map.get(key).map(|entry| entry.value().clone())
}

/// `DashMap::iter`: copies of all entries, in an order that is left open.
#[verifier::external_body]
fn all_names(map: &DashMap<String, Vec<String>>) -> (r: Vec<(String, Vec<String>)>)
    ensures
        forall|i: int|
            0 <= i < r@.len() ==> {
                &&& stored_names(*map).contains_key((#[trigger] r@[i]).0@)
                &&& stored_names(*map)[r@[i].0@] == texts(r@[i].1@)
            },
        forall|key: Seq<char>| #[trigger]
            stored_names(*map).contains_key(key) ==> exists|i: int|
                0 <= i < r@.len() && (#[trigger] r@[i]).0@ == key,
{
    map.iter().map(|entry| (entry.key().clone(), entry.value().clone())).collect()
}

/// `DashMap::iter`: copies of all entries, in an order that is left open.
#[verifier::external_body]
fn all_values(map: &DashMap<(String, String), Vec<String>>) -> (r: Vec<
    ((String, String), Vec<String>),
>)
    ensures
        forall|i: int|
            0 <= i < r@.len() ==> {
                &&& stored_values(*map).contains_key((#[trigger] r@[i]).0@)
                &&& stored_values(*map)[r@[i].0@] == texts(r@[i].1@)
            },
        forall|key: (Seq<char>, Seq<char>)| #[trigger]
            stored_values(*map).contains_key(key) ==> exists|i: int|
                0 <= i < r@.len() && (#[trigger] r@[i]).0@ == key,
{
    map.iter().map(|entry| (entry.key().clone(), entry.value().clone())).collect()
}

// ── Backend ──────────────────────────────────────────────────────────────────

/// Label names that the server is told.
#[derive(Debug)]
pub struct LabelsUpdateParams {
    /// Stream selector that the names belong to; empty for all
    pub selector: String,
    pub names: Vec<String>,
}

/// Label values that the server is told.
#[derive(Debug)]
pub struct LabelValuesUpdateParams {
    pub label: String,
    pub selector: String,
    pub values: Vec<String>,
}

/// What the language server keeps.
pub struct LogQLBackend {
    documents: DashMap<String, (String, i32)>,
    label_names: DashMap<String, Vec<String>>,
    label_values: DashMap<(String, String), Vec<String>>,
}

/// Value of a [`LogQLBackend`].
pub ghost struct LogQLBackendV {
    /// Text and version by URI
    pub documents: Map<Seq<char>, (Seq<char>, i32)>,
    /// Names by selector
    pub label_names: Map<Seq<char>, Seq<Seq<char>>>,
    /// Values by label and selector
    pub label_values: Map<(Seq<char>, Seq<char>), Seq<Seq<char>>>,
}

impl View for LogQLBackend {
    type V = LogQLBackendV;

    closed spec fn view(&self) -> LogQLBackendV {
        LogQLBackendV {
            documents: stored_documents(self.documents),
            label_names: stored_names(self.label_names),
            label_values: stored_values(self.label_values),
        }
    }
}

/// The state with a document.
pub open spec fn with_document(
    b: LogQLBackendV,
    uri: Seq<char>,
    text: Seq<char>,
    version: i32,
) -> LogQLBackendV {
    LogQLBackendV { documents: b.documents.insert(uri, (text, version)), ..b }
}

impl LogQLBackend {
    /// A server that keeps nothing.
    pub fn new() -> (r: Self)
        ensures
            r@.documents == Map::<Seq<char>, (Seq<char>, i32)>::empty(),
            r@.label_names == Map::<Seq<char>, Seq<Seq<char>>>::empty(),
            r@.label_values == Map::<(Seq<char>, Seq<char>), Seq<Seq<char>>>::empty(),
    {
        let r = LogQLBackend {
            documents: new_documents(),
            label_names: new_names(),
            label_values: new_values(),
        };
        assert(r@.documents =~= Map::<Seq<char>, (Seq<char>, i32)>::empty());
        assert(r@.label_names =~= Map::<Seq<char>, Seq<Seq<char>>>::empty());
        assert(r@.label_values =~= Map::<(Seq<char>, Seq<char>), Seq<Seq<char>>>::empty());
        r
    }

    /// Keeps the label names of a selector.
    pub fn handle_labels_update(&mut self, params: LabelsUpdateParams)
        ensures
            final(self)@ == (LogQLBackendV {
                label_names: old(self)@.label_names.insert(
                    params.selector@,
                    texts(params.names@),
                ),
                ..old(self)@
            }),
    {
        insert_names(&mut self.label_names, params.selector, params.names);
    }

    /// Keeps the values of a label under a selector.
    pub fn handle_label_values_update(&mut self, params: LabelValuesUpdateParams)
        ensures
            final(self)@ == (LogQLBackendV {
                label_values: old(self)@.label_values.insert(
                    (params.label@, params.selector@),
                    texts(params.values@),
                ),
                ..old(self)@
            }),
    {
        insert_values(
            &mut self.label_values,
            (params.label, params.selector),
            params.values,
        );
    }

    /// Keeps a document that was opened. Gives its diagnostics.
    pub fn did_open(&mut self, uri: String, text: String, version: i32) -> (r: Vec<LspDiagnostic>)
        requires
            lines_fit(text@),
        ensures
            final(self)@ == with_document(old(self)@, uri@, text@, version),
            diagnostics_show(encode_utf8(text@), document_diagnostics(encode_utf8(text@)), r@),
    {
        let diagnostics = run_diagnostics(text.as_str());
        insert_document(&mut self.documents, uri, (text, version));
        diagnostics
    }

    /// Keeps a document that was changed. Each change holds the full text, so the
    /// last one stands. Gives its diagnostics, if there is a change.
    pub fn did_change(&mut self, uri: String, changes: Vec<String>, version: i32) -> (r: Option<
        Vec<LspDiagnostic>,
    >)
        requires
            changes@.len() > 0 ==> lines_fit(changes@.last()@),
        ensures
            match r {
                Some(diagnostics) => {
                    let text = changes@.last()@;
                    &&& changes@.len() > 0
                    &&& final(self)@ == with_document(old(self)@, uri@, text, version)
                    &&& diagnostics_show(
                        encode_utf8(text),
                        document_diagnostics(encode_utf8(text)),
                        diagnostics@,
                    )
                },
                None => changes@.len() == 0 && final(self)@ == old(self)@,
            },
    {
        let mut changes = changes;
        match changes.pop() {
            Some(text) => Some(self.did_open(uri, text, version)),
            None => None,
        }
    }

    /// The text of a document.
    pub fn document_text(&self, uri: &str) -> (r: Option<String>)
        ensures
            match r {
                Some(text) => {
                    &&& self@.documents.contains_key(uri@)
                    &&& self@.documents[uri@].0 == text@
                },
                None => !self@.documents.contains_key(uri@),
            },
    {
        match get_document(&self.documents, uri) {
            Some((text, _)) => Some(text),
            None => None,
        }
    }

    /// The completions at a position of a document; `None` for an unknown one and
    /// where there are none.
    pub fn completion(&self, uri: &str, pos: Position) -> (r: Option<Vec<LspCompletion>>)
        requires
            self@.documents.contains_key(uri@) ==> lines_fit(self@.documents[uri@].0),
        ensures
            if self@.documents.contains_key(uri@) {
                completion_shows(
                    self@.documents[uri@].0,
                    pos,
                    self@.label_names,
                    self@.label_values,
                    r,
                )
            } else {
                r is None
            },
    {
        let text = match self.document_text(uri) {
            Some(text) => text,
            None => {
                return None;
            },
        };
        let names = self.names_cache();
        let values = self.values_cache();
        complete(text.as_str(), pos, &names, &values)
    }

    /// The completions at a position of a document, as `completion` gives them;
    /// `None` where a line of the document is too long for its columns to be
    /// counted.
    pub fn try_completion(&self, uri: &str, pos: Position) -> (r: Option<
        Option<Vec<LspCompletion>>,
    >)
        ensures
            r is None <==> self@.documents.contains_key(uri@) && !lines_fit(
                self@.documents[uri@].0,
            ),
            match r {
                Some(items) => if self@.documents.contains_key(uri@) {
                    completion_shows(
                        self@.documents[uri@].0,
                        pos,
                        self@.label_names,
                        self@.label_values,
                        items,
                    )
                } else {
                    items is None
                },
                None => true,
            },
    {
        if let Some(text) = self.document_text(uri) {
            if !lines_in_range(text.as_str()) {
                return None;
            }
        }
        Some(self.completion(uri, pos))
    }

    fn names_cache(&self) -> (r: AssocMap<String, Vec<String>>)
        ensures
            cache_texts(r@) == self@.label_names,
    {
        let mut out: AssocMap<String, Vec<String>> = AssocMap::new();
        let pairs = all_names(&self.label_names);
        let ghost stored = self@.label_names;
        let ghost all = pairs@;
        for pair in it: pairs
            invariant
                it.seq() == all,
                forall|i: int|
                    0 <= i < all.len() ==> {
                        &&& stored.contains_key((#[trigger] all[i]).0@)
                        &&& stored[all[i].0@] == texts(all[i].1@)
                    },
                forall|key: Seq<char>| #[trigger]
                    out@.contains_key(key) ==> stored.contains_key(key) && stored[key] == texts(
                        out@[key]@,
                    ),
                forall|i: int| 0 <= i < it.index() ==> out@.contains_key((#[trigger] all[i]).0@),
        {
            assert(pair == all[it.index()]);
            let (key, names) = pair;
            out.insert(key, names);
        }
        assert(cache_texts(out@) =~= stored);
        out
    }

    fn values_cache(&self) -> (r: AssocMap<(String, String), Vec<String>>)
        ensures
            cache_texts(r@) == self@.label_values,
    {
        let mut out: AssocMap<(String, String), Vec<String>> = AssocMap::new();
        let pairs = all_values(&self.label_values);
        let ghost stored = self@.label_values;
        let ghost all = pairs@;
        for pair in it: pairs
            invariant
                it.seq() == all,
                forall|i: int|
                    0 <= i < all.len() ==> {
                        &&& stored.contains_key((#[trigger] all[i]).0@)
                        &&& stored[all[i].0@] == texts(all[i].1@)
                    },
                forall|key: (Seq<char>, Seq<char>)| #[trigger]
                    out@.contains_key(key) ==> stored.contains_key(key) && stored[key] == texts(
                        out@[key]@,
                    ),
                forall|i: int| 0 <= i < it.index() ==> out@.contains_key((#[trigger] all[i]).0@),
        {
            assert(pair == all[it.index()]);
            let (key, values) = pair;
            out.insert(key, values);
        }
        assert(cache_texts(out@) =~= stored);
        out
    }
}

// ── Laws ─────────────────────────────────────────────────────────────────────

/// What is completed in a document is what was last opened or changed under its
/// URI, whatever happened to other documents.
pub proof fn lemma_documents_apart(
    b: LogQLBackendV,
    uri: Seq<char>,
    text: Seq<char>,
    version: i32,
    other: Seq<char>,
)
    ensures
        with_document(b, uri, text, version).documents.contains_key(uri),
        with_document(b, uri, text, version).documents[uri] == (text, version),
        other != uri ==> {
            &&& with_document(b, uri, text, version).documents.contains_key(other)
                == b.documents.contains_key(other)
            &&& b.documents.contains_key(other) ==> with_document(
                b,
                uri,
                text,
                version,
            ).documents[other] == b.documents[other]
        },
{
}

} // verus!
