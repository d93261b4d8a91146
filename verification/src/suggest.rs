//! Suggestions: filtering cached names by what has been typed.

use crate::order::{lemma_text_order, sorted_texts, text_order, texts};
use crate::text::{has_prefix, lowercase, str_eq};
use vstd::prelude::*;
use vstd::relations::*;
use vstd::seq_lib::*;
use vstd::string::*;

verus! {

/// The first `max` of `s`.
pub open spec fn at_most<T>(s: Seq<T>, max: int) -> Seq<T> {
    if max < s.len() {
        s.take(max)
    } else {
        s
    }
}

/// The names whose lowercase starts with `prefix`, in order.
pub open spec fn matching_names(names: Seq<Seq<char>>, prefix: Seq<char>) -> Seq<Seq<char>>
    decreases names.len(),
{
    if names.len() == 0 {
        seq![]
    } else {
        let init = matching_names(names.drop_last(), prefix);
        if prefix.is_prefix_of(lowercase(names.last())) {
            init.push(names.last())
        } else {
            init
        }
    }
}

/// The texts of a cache of names.
pub open spec fn cache_texts<K>(cache: Map<K, Vec<String>>) -> Map<K, Seq<Seq<char>>> {
    cache.map_values(|names: Vec<String>| texts(names@))
}

/// The names under `key`, or else those under `fallback`, or else none.
pub open spec fn cached<K>(cache: Map<K, Seq<Seq<char>>>, key: K, fallback: K) -> Seq<
    Seq<char>,
> {
    if cache.contains_key(key) {
        cache[key]
    } else if cache.contains_key(fallback) {
        cache[fallback]
    } else {
        seq![]
    }
}

/// The names whose lowercase starts with `prefix`.
pub fn filter_names(names: &[String], prefix: &str) -> (r: Vec<String>)
    ensures
        texts(r@) == matching_names(texts(names@), prefix@),
{
    let mut out: Vec<String> = Vec::new();
    let mut i: usize = 0;
    assert(texts(out@) =~= seq![]);
    assert(texts(names@).take(0) =~= seq![]);
    while i < names.len()
        invariant
            i <= names.len(),
            texts(out@) == matching_names(texts(names@).take(i as int), prefix@),
        decreases names.len() - i,
    {
        let ghost upto = texts(names@).take(i + 1);
        assert(upto.drop_last() =~= texts(names@).take(i as int));
        assert(upto.last() == names@[i as int]@);
        let lower = names[i].as_str().to_lowercase();
        if has_prefix(lower.as_str(), prefix) {
            let ghost before = texts(out@);
            out.push(names[i].clone());
            assert(texts(out@) =~= before.push(names@[i as int]@));
        }
        i += 1;
    }
    assert(texts(names@).take(i as int) =~= texts(names@));
    out
}

/// The words that start with `prefix`, in order.
pub open spec fn matching_words(words: Seq<&'static str>, prefix: Seq<char>) -> Seq<Seq<char>>
    decreases words.len(),
{
    if words.len() == 0 {
        seq![]
    } else {
        let init = matching_words(words.drop_last(), prefix);
        if prefix.is_prefix_of(words.last()@) {
            init.push(words.last()@)
        } else {
            init
        }
    }
}

/// The words that start with `prefix`.
pub fn filter_words(words: &Vec<&'static str>, prefix: &str) -> (r: Vec<String>)
    ensures
        texts(r@) == matching_words(words@, prefix@),
{
    let mut out: Vec<String> = Vec::new();
    let mut i: usize = 0;
    assert(texts(out@) =~= seq![]);
    assert(words@.take(0) =~= seq![]);
    while i < words.len()
        invariant
            i <= words.len(),
            texts(out@) == matching_words(words@.take(i as int), prefix@),
        decreases words.len() - i,
    {
        let ghost upto = words@.take(i + 1);
        assert(upto.drop_last() =~= words@.take(i as int));
        assert(upto.last() == words@[i as int]);
        if has_prefix(words[i], prefix) {
            let ghost before = texts(out@);
            out.push(words[i].to_string());
            assert(texts(out@) =~= before.push(words@[i as int]@));
        }
        i += 1;
    }
    assert(words@.take(i as int) =~= words@);
    out
}

/// `s` with runs of equal texts cut down to one.
pub open spec fn without_repeats(s: Seq<Seq<char>>) -> Seq<Seq<char>>
    decreases s.len(),
{
    if s.len() == 0 {
        seq![]
    } else {
        let init = without_repeats(s.drop_last());
        if s.len() > 1 && s[s.len() - 2] == s.last() {
            init
        } else {
            init.push(s.last())
        }
    }
}

/// Cuts runs of equal strings down to one.
pub fn drop_repeats(v: &Vec<String>) -> (r: Vec<String>)
    ensures
        texts(r@) == without_repeats(texts(v@)),
{
    let mut out: Vec<String> = Vec::new();
    let mut i: usize = 0;
    assert(texts(out@) =~= seq![]);
    assert(texts(v@).take(0) =~= seq![]);
    while i < v.len()
        invariant
            i <= v.len(),
            texts(out@) == without_repeats(texts(v@).take(i as int)),
        decreases v.len() - i,
    {
        let ghost upto = texts(v@).take(i + 1);
        assert(upto.drop_last() =~= texts(v@).take(i as int));
        assert(upto.last() == v@[i as int]@);
        assert(i > 0 ==> upto[i - 1] == v@[i - 1]@);
        if !(i > 0 && str_eq(v[i - 1].as_str(), v[i].as_str())) {
            let ghost before = texts(out@);
            out.push(v[i].clone());
            assert(texts(out@) =~= before.push(v@[i as int]@));
        }
        i += 1;
    }
    assert(texts(v@).take(i as int) =~= texts(v@));
    out
}

/// Keeps the first `max` strings.
pub fn keep_strings(v: &mut Vec<String>, max: usize)
    ensures
        texts(final(v)@) == at_most(texts(old(v)@), max as int),
{
    let ghost before = texts(v@);
    if max < v.len() {
        v.truncate(max);
    }
    assert(texts(v@) =~= at_most(before, max as int));
}

/// Whether `s` is one of `v`.
pub fn contains_string(v: &Vec<String>, s: &str) -> (r: bool)
    ensures
        r == texts(v@).contains(s@),
{
    let mut i: usize = 0;
    while i < v.len()
        invariant
            i <= v.len(),
            forall|k: int| 0 <= k < i ==> (#[trigger] v@[k])@ != s@,
        decreases v.len() - i,
    {
        if str_eq(v[i].as_str(), s) {
            assert(texts(v@)[i as int] == s@);
            return true;
        }
        i += 1;
    }
    assert forall|k: int| 0 <= k < texts(v@).len() implies texts(v@)[k] != s@ by {
        assert(texts(v@)[k] == v@[k]@);
    }
    false
}

proof fn lemma_without_repeats(s: Seq<Seq<char>>)
    requires
        sorted_by(s, text_order()),
    ensures
        without_repeats(s).no_duplicates(),
        sorted_by(without_repeats(s), text_order()),
        forall|x: Seq<char>| without_repeats(s).contains(x) <==> s.contains(x),
        s.len() > 0 ==> without_repeats(s).len() > 0 && without_repeats(s).last() == s.last(),
    decreases s.len(),
{
    let le = text_order();
    lemma_text_order();
    if s.len() > 0 {
        let init = s.drop_last();
        let last = s.last();
        assert forall|i: int, j: int| 0 <= i < j < init.len() implies #[trigger] le(
            init[i],
            init[j],
        ) by {
            assert(le(s[i], s[j]));
        }
        lemma_without_repeats(init);
        let r = without_repeats(init);
        let all = without_repeats(s);
        assert forall|x: Seq<char>| s.contains(x) <==> (init.contains(x) || x == last) by {
            if s.contains(x) {
                let i = choose|i: int| 0 <= i < s.len() && s[i] == x;
                if i < init.len() {
                    assert(init[i] == x);
                }
            }
            if init.contains(x) {
                let i = choose|i: int| 0 <= i < init.len() && init[i] == x;
                assert(s[i] == x);
            }
            if x == last {
                assert(s[s.len() - 1] == x);
            }
        }
        if s.len() > 1 && s[s.len() - 2] == last {
            assert(init.last() == last);
            assert(r.contains(last)) by {
                assert(r[r.len() - 1] == last);
            }
        } else {
            assert(all == r.push(last));
            assert forall|i: int| 0 <= i < r.len() implies #[trigger] r[i] != last && le(
                r[i],
                last,
            ) by {
                assert(r.contains(r[i]));
                assert(init.contains(r[i]));
                let k = choose|k: int| 0 <= k < init.len() && init[k] == r[i];
                assert(le(s[k], s[s.len() - 1]));
                if r[i] == last {
                    let n = s.len() - 2;
                    if k < n {
                        assert(le(s[k], s[n]));
                    }
                    assert(le(s[n], s[s.len() - 1]));
                    assert(s[n] == last);
                }
            }
            assert forall|x: Seq<char>| all.contains(x) <==> (r.contains(x) || x == last) by {
                if all.contains(x) {
                    let i = choose|i: int| 0 <= i < all.len() && all[i] == x;
                    if i < r.len() {
                        assert(r[i] == x);
                    }
                }
                if r.contains(x) {
                    let i = choose|i: int| 0 <= i < r.len() && r[i] == x;
                    assert(all[i] == x);
                }
                if x == last {
                    assert(all[r.len() as int] == x);
                }
            }
        }
    }
}

/// Sorting texts and cutting repeats keeps each text once.
pub proof fn lemma_distinct_texts(s: Seq<Seq<char>>)
    ensures
        without_repeats(sorted_texts(s)).no_duplicates(),
        sorted_by(without_repeats(sorted_texts(s)), text_order()),
        forall|x: Seq<char>| without_repeats(sorted_texts(s)).contains(x) <==> s.contains(x),
{
    lemma_text_order();
    s.lemma_sort_by_ensures(text_order());
    let sorted = sorted_texts(s);
    lemma_without_repeats(sorted);
    broadcast use group_to_multiset_ensures;

    assert forall|x: Seq<char>| sorted.contains(x) <==> s.contains(x) by {
        assert(s.to_multiset().count(x) == sorted.to_multiset().count(x));
    }
}

// ── Laws ─────────────────────────────────────────────────────────────────────

/// Whether `text` completes what has been typed: it starts with it, the case of
/// names aside.
pub open spec fn completes(text: Seq<char>, typed: Seq<char>) -> bool {
    typed.is_prefix_of(text) || typed.is_prefix_of(lowercase(text))
}

/// Whether all texts complete what has been typed.
pub open spec fn all_complete(s: Seq<Seq<char>>, typed: Seq<char>) -> bool {
    forall|i: int| 0 <= i < s.len() ==> completes(#[trigger] s[i], typed)
}

/// Matching names complete what has been typed.
pub proof fn lemma_names_complete(names: Seq<Seq<char>>, prefix: Seq<char>)
    ensures
        all_complete(matching_names(names, prefix), prefix),
        forall|x: Seq<char>|
            matching_names(names, prefix).contains(x) <==> names.contains(x)
                && prefix.is_prefix_of(lowercase(x)),
    decreases names.len(),
{
    let found = matching_names(names, prefix);
    if names.len() > 0 {
        let init = names.drop_last();
        lemma_names_complete(init, prefix);
        let before = matching_names(init, prefix);
        assert forall|x: Seq<char>|
            found.contains(x) <==> names.contains(x) && prefix.is_prefix_of(lowercase(x)) by {
            if init.contains(x) {
                let k = choose|k: int| 0 <= k < init.len() && init[k] == x;
                assert(names[k] == x);
            }
            if before.contains(x) {
                let k = choose|k: int| 0 <= k < before.len() && before[k] == x;
                assert(found[k] == x);
            }
            if names.contains(x) {
                let k = choose|k: int| 0 <= k < names.len() && names[k] == x;
                if k < init.len() {
                    assert(init[k] == x);
                } else if prefix.is_prefix_of(lowercase(x)) {
                    assert(found[before.len() as int] == x);
                }
            }
            if found.contains(x) {
                let k = choose|k: int| 0 <= k < found.len() && found[k] == x;
                if k < before.len() {
                    assert(before[k] == x);
                } else {
                    assert(names[names.len() - 1] == x);
                }
            }
        }
    }
}

/// Matching words complete what has been typed.
pub proof fn lemma_words_complete(words: Seq<&'static str>, prefix: Seq<char>)
    ensures
        all_complete(matching_words(words, prefix), prefix),
    decreases words.len(),
{
    if words.len() > 0 {
        lemma_words_complete(words.drop_last(), prefix);
    }
}

/// Sorting and cutting leaves texts that complete what has been typed, in the
/// order of text.
pub proof fn lemma_sorted_complete(s: Seq<Seq<char>>, typed: Seq<char>, max: int)
    requires
        all_complete(s, typed),
        0 <= max,
    ensures
        all_complete(at_most(sorted_texts(s), max), typed),
        sorted_by(at_most(sorted_texts(s), max), text_order()),
        at_most(sorted_texts(s), max).len() <= max,
        all_complete(at_most(without_repeats(sorted_texts(s)), max), typed),
        sorted_by(at_most(without_repeats(sorted_texts(s)), max), text_order()),
        at_most(without_repeats(sorted_texts(s)), max).len() <= max,
        at_most(without_repeats(sorted_texts(s)), max).no_duplicates(),
{
    lemma_text_order();
    s.lemma_sort_by_ensures(text_order());
    lemma_distinct_texts(s);
    let sorted = sorted_texts(s);
    let distinct = without_repeats(sorted);
    broadcast use group_to_multiset_ensures;

    assert forall|i: int| 0 <= i < sorted.len() implies completes(#[trigger] sorted[i], typed) by {
        assert(sorted.contains(sorted[i]));
        assert(s.to_multiset().count(sorted[i]) == sorted.to_multiset().count(sorted[i]));
        assert(s.contains(sorted[i]));
    }
    assert forall|i: int| 0 <= i < distinct.len() implies completes(
        #[trigger] distinct[i],
        typed,
    ) by {
        assert(distinct.contains(distinct[i]));
        assert(s.contains(distinct[i]));
    }
}

} // verus!
