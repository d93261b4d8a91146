//! Exemplars and the labels in which they differ.

use crate::logql::ast::string_pairs;
use crate::order::{sort_strings, sorted_texts, texts};
use crate::suggest::{drop_repeats, without_repeats};
use crate::text::str_eq;
use vstd::prelude::*;
use vstd::string::*;

verus! {

/// One individual exemplar delivered alongside a series.
#[derive(Debug, Clone)]
pub struct TimelineExemplar {
    /// Exemplar-specific labels (pod, node, ...)
    pub labels: Vec<(String, String)>,
    /// Unique profile identifier
    pub profile_id: String,
    /// Span ID, empty unless the exemplar was captured during a trace span
    pub span_id: String,
    /// Total sample value
    pub value: i64,
    pub timestamp_ms: i64,
}

/// The pairs of all lists, one list behind the other.
pub open spec fn all_pairs(lists: Seq<&Vec<(String, String)>>) -> Seq<(Seq<char>, Seq<char>)>
    decreases lists.len(),
{
    if lists.len() == 0 {
        seq![]
    } else {
        all_pairs(lists.drop_last()) + string_pairs(lists.last()@)
    }
}

/// The keys of pairs.
pub open spec fn keys_of(pairs: Seq<(Seq<char>, Seq<char>)>) -> Seq<Seq<char>> {
    pairs.map_values(|p: (Seq<char>, Seq<char>)| p.0)
}

/// Whether a key has different values.
pub open spec fn varies(pairs: Seq<(Seq<char>, Seq<char>)>, key: Seq<char>) -> bool {
    exists|i: int, j: int|
        0 <= i < pairs.len() && 0 <= j < pairs.len() && (#[trigger] pairs[i]).0 == key && (
        #[trigger] pairs[j]).0 == key && pairs[i].1 != pairs[j].1
}

/// The keys among `keys` that vary, in order.
pub open spec fn varying_of(pairs: Seq<(Seq<char>, Seq<char>)>, keys: Seq<Seq<char>>) -> Seq<
    Seq<char>,
>
    decreases keys.len(),
{
    if keys.len() == 0 {
        seq![]
    } else {
        let init = varying_of(pairs, keys.drop_last());
        if varies(pairs, keys.last()) {
            init.push(keys.last())
        } else {
            init
        }
    }
}

/// The keys that have different values, each once, in the order of text.
pub open spec fn varying_keys(lists: Seq<&Vec<(String, String)>>) -> Seq<Seq<char>> {
    let pairs = all_pairs(lists);
    varying_of(pairs, without_repeats(sorted_texts(keys_of(pairs))))
}

/// The labels to show with exemplars: those that vary, or all of a single one.
pub open spec fn exemplar_keys(lists: Seq<&Vec<(String, String)>>) -> Seq<Seq<char>> {
    if lists.len() == 0 {
        seq![]
    } else if lists.len() == 1 {
        keys_of(string_pairs(lists[0]@))
    } else {
        varying_keys(lists)
    }
}

/// The label lists of exemplars.
pub open spec fn label_lists(exemplars: Seq<&TimelineExemplar>) -> Seq<&Vec<(String, String)>> {
    exemplars.map_values(|e: &TimelineExemplar| &e.labels)
}

/// The values of pairs that are held by reference.
pub open spec fn pair_values(v: Seq<&(String, String)>) -> Seq<(Seq<char>, Seq<char>)> {
    v.map_values(|p: &(String, String)| (p.0@, p.1@))
}

fn collect_pairs<'a>(lists: &Vec<&'a Vec<(String, String)>>) -> (r: Vec<&'a (String, String)>)
    ensures
        pair_values(r@) == all_pairs(lists@),
{
    let mut out: Vec<&'a (String, String)> = Vec::new();
    let mut l: usize = 0;
    assert(pair_values(out@) =~= seq![]);
    assert(lists@.take(0) =~= seq![]);
    while l < lists.len()
        invariant
            l <= lists.len(),
            pair_values(out@) == all_pairs(lists@.take(l as int)),
        decreases lists.len() - l,
    {
        let list: &'a Vec<(String, String)> = lists[l];
        let ghost before = pair_values(out@);
        let mut i: usize = 0;
        assert(before + string_pairs(list@).take(0) =~= before);
        while i < list.len()
            invariant
                i <= list.len(),
                pair_values(out@) == before + string_pairs(list@).take(i as int),
            decreases list.len() - i,
        {
            let pair: &'a (String, String) = &list[i];
            let ghost so_far = pair_values(out@);
            out.push(pair);
            assert(pair_values(out@) =~= so_far.push((pair.0@, pair.1@)));
            assert(string_pairs(list@).take(i + 1) =~= string_pairs(list@).take(i as int).push(
                (pair.0@, pair.1@),
            ));
            i += 1;
        }
        assert(string_pairs(list@).take(i as int) =~= string_pairs(list@));
        assert(lists@.take(l + 1).drop_last() =~= lists@.take(l as int));
        l += 1;
    }
    assert(lists@.take(l as int) =~= lists@);
    out
}

fn key_varies(pairs: &Vec<&(String, String)>, key: &str) -> (r: bool)
    ensures
        r == varies(pair_values(pairs@), key@),
{
    let ghost values = pair_values(pairs@);
    let mut first: Option<usize> = None;
    let mut i: usize = 0;
    while i < pairs.len()
        invariant
            i <= pairs.len(),
            values == pair_values(pairs@),
            match first {
                Some(f) => {
                    &&& f < i
                    &&& values[f as int].0 == key@
                    &&& forall|k: int|
                        0 <= k < i && (#[trigger] values[k]).0 == key@ ==> values[k].1
                            == values[f as int].1
                },
                None => forall|k: int| 0 <= k < i ==> (#[trigger] values[k]).0 != key@,
            },
        decreases pairs.len() - i,
    {
        let pair = pairs[i];
        assert(values[i as int] == (pair.0@, pair.1@));
        if str_eq(pair.0.as_str(), key) {
            match first {
                Some(f) => {
                    let other = pairs[f];
                    assert(values[f as int] == (other.0@, other.1@));
                    if !str_eq(other.1.as_str(), pair.1.as_str()) {
                        assert(values[f as int].0 == key@ && values[i as int].0 == key@);
                        return true;
                    }
                },
                None => {
                    first = Some(i);
                },
            }
        }
        i += 1;
    }
    false
}

/// The keys that have different values.
pub(crate) fn compute_varying(lists: &Vec<&Vec<(String, String)>>) -> (r: Vec<String>)
    ensures
        texts(r@) == varying_keys(lists@),
{
    let pairs = collect_pairs(lists);
    let ghost values = pair_values(pairs@);
    let mut keys: Vec<String> = Vec::new();
    let mut i: usize = 0;
    assert(texts(keys@) =~= keys_of(values).take(0));
    while i < pairs.len()
        invariant
            i <= pairs.len(),
            values == pair_values(pairs@),
            texts(keys@) == keys_of(values).take(i as int),
        decreases pairs.len() - i,
    {
        let ghost before = texts(keys@);
        keys.push(pairs[i].0.clone());
        assert(texts(keys@) =~= before.push(pairs@[i as int].0@));
        assert(keys_of(values).take(i + 1) =~= keys_of(values).take(i as int).push(
            pairs@[i as int].0@,
        ));
        i += 1;
    }
    assert(keys_of(values).take(i as int) =~= keys_of(values));
    sort_strings(&mut keys);
    let keys = drop_repeats(&keys);
    let mut out: Vec<String> = Vec::new();
    let mut k: usize = 0;
    assert(texts(out@) =~= seq![]);
    assert(texts(keys@).take(0) =~= seq![]);
    while k < keys.len()
        invariant
            k <= keys.len(),
            values == pair_values(pairs@),
            texts(out@) == varying_of(values, texts(keys@).take(k as int)),
        decreases keys.len() - k,
    {
        let ghost upto = texts(keys@).take(k + 1);
        assert(upto.drop_last() =~= texts(keys@).take(k as int));
        assert(upto.last() == keys@[k as int]@);
        if key_varies(&pairs, keys[k].as_str()) {
            let ghost before = texts(out@);
            out.push(keys[k].clone());
            assert(texts(out@) =~= before.push(keys@[k as int]@));
        }
        k += 1;
    }
    assert(texts(keys@).take(k as int) =~= texts(keys@));
    out
}

/// The labels to show with exemplars.
pub(crate) fn compute_exemplar_keys(exemplars: &Vec<&TimelineExemplar>) -> (r: Vec<String>)
    ensures
        texts(r@) == exemplar_keys(label_lists(exemplars@)),
{
    let ghost lists = label_lists(exemplars@);
    if exemplars.len() <= 1 {
        let mut out: Vec<String> = Vec::new();
        assert(texts(out@) =~= seq![]);
        if exemplars.len() == 1 {
            let e = exemplars[0];
            assert(lists[0] == &e.labels);
            let ghost keys = keys_of(string_pairs(e.labels@));
            let mut i: usize = 0;
            assert(texts(out@) =~= keys.take(0));
            while i < e.labels.len()
                invariant
                    i <= e.labels.len(),
                    keys == keys_of(string_pairs(e.labels@)),
                    texts(out@) == keys.take(i as int),
                decreases e.labels.len() - i,
            {
                let ghost before = texts(out@);
                out.push(e.labels[i].0.clone());
                assert(texts(out@) =~= before.push(e.labels@[i as int].0@));
                assert(keys.take(i + 1) =~= keys.take(i as int).push(e.labels@[i as int].0@));
                i += 1;
            }
            assert(keys.take(i as int) =~= keys);
        }
        return out;
    }
    let mut all: Vec<&Vec<(String, String)>> = Vec::new();
    let mut i: usize = 0;
    while i < exemplars.len()
        invariant
            i <= exemplars.len(),
            lists == label_lists(exemplars@),
            all@ =~= lists.take(i as int),
        decreases exemplars.len() - i,
    {
        all.push(&exemplars[i].labels);
        i += 1;
    }
    assert(lists.take(i as int) =~= lists);
    compute_varying(&all)
}

/// The label keys that vary across exemplars; all keys of a single one.
pub fn compute_varying_label_keys_exemplars(exemplars: &[TimelineExemplar]) -> (r: Vec<String>)
    ensures
        texts(r@) == exemplar_keys(
            exemplars@.map_values(|e: TimelineExemplar| &e.labels),
        ),
{
    let mut all: Vec<&TimelineExemplar> = Vec::new();
    let mut i: usize = 0;
    while i < exemplars.len()
        invariant
            i <= exemplars.len(),
            all.len() == i,
            forall|k: int| 0 <= k < i ==> *(#[trigger] all@[k]) == exemplars@[k],
        decreases exemplars.len() - i,
    {
        all.push(&exemplars[i]);
        i += 1;
    }
    assert(label_lists(all@) =~= exemplars@.map_values(|e: TimelineExemplar| &e.labels));
    compute_exemplar_keys(&all)
}

} // verus!
