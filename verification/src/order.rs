//! Orders on text and sorting.

use vstd::multiset::*;
use vstd::prelude::*;
use vstd::relations::*;
use vstd::seq_lib::*;
use vstd::string::*;
use vstd::utf8::*;
use crate::text::lemma_utf8_injective;

verus! {

/// Lexicographic order of byte strings.
pub open spec fn bytes_le(a: Seq<u8>, b: Seq<u8>) -> bool
    decreases a.len(),
{
    if a.len() == 0 {
        true
    } else if b.len() == 0 {
        false
    } else {
        a[0] < b[0] || (a[0] == b[0] && bytes_le(a.drop_first(), b.drop_first()))
    }
}

/// The order of text: by the bytes of its encoding.
pub open spec fn text_le(a: Seq<char>, b: Seq<char>) -> bool {
    bytes_le(encode_utf8(a), encode_utf8(b))
}

/// The order of text, as a relation.
pub open spec fn text_order() -> spec_fn(Seq<char>, Seq<char>) -> bool {
    |a: Seq<char>, b: Seq<char>| text_le(a, b)
}

proof fn lemma_bytes_le_antisymmetric(a: Seq<u8>, b: Seq<u8>)
    requires
        bytes_le(a, b),
        bytes_le(b, a),
    ensures
        a == b,
    decreases a.len(),
{
    if a.len() == 0 || b.len() == 0 {
        assert(a =~= b);
    } else {
        lemma_bytes_le_antisymmetric(a.drop_first(), b.drop_first());
        assert(a =~= seq![a[0]] + a.drop_first());
        assert(b =~= seq![b[0]] + b.drop_first());
    }
}

proof fn lemma_bytes_le_transitive(a: Seq<u8>, b: Seq<u8>, c: Seq<u8>)
    requires
        bytes_le(a, b),
        bytes_le(b, c),
    ensures
        bytes_le(a, c),
    decreases a.len(),
{
    if a.len() > 0 && b.len() > 0 && c.len() > 0 && a[0] == b[0] && b[0] == c[0] {
        lemma_bytes_le_transitive(a.drop_first(), b.drop_first(), c.drop_first());
    }
}

proof fn lemma_bytes_le_total(a: Seq<u8>, b: Seq<u8>)
    ensures
        bytes_le(a, b) || bytes_le(b, a),
    decreases a.len(),
{
    if a.len() > 0 && b.len() > 0 {
        lemma_bytes_le_total(a.drop_first(), b.drop_first());
    }
}

/// The order of text is total.
pub proof fn lemma_text_order()
    ensures
        total_ordering(text_order()),
{
    let le = text_order();
    assert forall|a: Seq<char>| #[trigger] le(a, a) by {
        lemma_bytes_le_total(encode_utf8(a), encode_utf8(a));
    }
    assert forall|a: Seq<char>, b: Seq<char>| #[trigger] le(a, b) && #[trigger] le(b, a) implies a
        == b by {
        lemma_bytes_le_antisymmetric(encode_utf8(a), encode_utf8(b));
        lemma_utf8_injective(a, b);
    }
    assert forall|a: Seq<char>, b: Seq<char>, c: Seq<char>| #[trigger]
        le(a, b) && #[trigger] le(b, c) implies le(a, c) by {
        lemma_bytes_le_transitive(encode_utf8(a), encode_utf8(b), encode_utf8(c));
    }
    assert forall|a: Seq<char>, b: Seq<char>| #[trigger] le(a, b) || #[trigger] le(b, a) by {
        lemma_bytes_le_total(encode_utf8(a), encode_utf8(b));
    }
}

/// The characters of strings.
pub open spec fn texts(v: Seq<String>) -> Seq<Seq<char>> {
    v.map_values(|s: String| s@)
}

/// Sorted texts, smallest first.
pub open spec fn sorted_texts(s: Seq<Seq<char>>) -> Seq<Seq<char>> {
    s.sort_by(text_order())
}

/// `slice::sort` on strings: the same strings, in the order of their bytes.
#[verifier::external_body]
fn std_sort(v: &mut Vec<String>)
    ensures
        sorted_by(texts(final(v)@), text_order()),
        texts(final(v)@).to_multiset() == texts(old(v)@).to_multiset(),
{
    v.sort()
}

/// Sorts strings.
pub fn sort_strings(v: &mut Vec<String>)
    ensures
        texts(final(v)@) == sorted_texts(texts(old(v)@)),
        final(v)@.len() == old(v)@.len(),
{
    let ghost before = texts(v@);
    std_sort(v);
    proof {
        lemma_text_order();
        before.lemma_sort_by_ensures(text_order());
        lemma_sorted_unique(texts(v@), sorted_texts(before), text_order());
        broadcast use group_to_multiset_ensures;
        assert(texts(v@).to_multiset().len() == before.to_multiset().len());
    }
}

// ── Stable order by a key ────────────────────────────────────────────────────

/// Order of pairs: by the first, then by the second.
pub open spec fn pair_le(a: (int, int), b: (int, int)) -> bool {
    a.0 < b.0 || (a.0 == b.0 && a.1 <= b.1)
}

/// The order of pairs, as a relation.
pub open spec fn pair_order() -> spec_fn((int, int), (int, int)) -> bool {
    |a: (int, int), b: (int, int)| pair_le(a, b)
}

/// Keys with their places.
pub open spec fn keyed(keys: Seq<int>) -> Seq<(int, int)> {
    keys.map(|i: int, k: int| (k, i))
}

/// The places of the keys from the smallest to the greatest; equal keys stay in
/// the order in which they stand.
pub open spec fn stable_order(keys: Seq<int>) -> Seq<int> {
    keyed(keys).sort_by(pair_order()).map_values(|p: (int, int)| p.1)
}

/// The elements of `s` at the places `order`.
pub open spec fn arranged<T>(s: Seq<T>, order: Seq<int>) -> Seq<T> {
    order.map_values(|i: int| s[i])
}

/// Pairs as mathematical integers.
pub open spec fn int_pairs(v: Seq<(i128, usize)>) -> Seq<(int, int)> {
    v.map_values(|p: (i128, usize)| (p.0 as int, p.1 as int))
}

/// Keys as mathematical integers.
pub open spec fn int_keys(v: Seq<i128>) -> Seq<int> {
    v.map_values(|k: i128| k as int)
}

/// Places as mathematical integers.
pub open spec fn places(v: Seq<usize>) -> Seq<int> {
    v.map_values(|i: usize| i as int)
}

/// `slice::sort` on pairs of integers: the same pairs, ordered by the first
/// component and then by the second.
#[verifier::external_body]
fn std_sort_pairs(v: &mut Vec<(i128, usize)>)
    ensures
        sorted_by(int_pairs(final(v)@), pair_order()),
        int_pairs(final(v)@).to_multiset() == int_pairs(old(v)@).to_multiset(),
{
    v.sort()
}

/// The order of pairs is total.
pub proof fn lemma_pair_order()
    ensures
        total_ordering(pair_order()),
{
}

/// A stable order holds each place once, with the keys ascending and equal keys
/// in their order.
pub proof fn lemma_stable_order(keys: Seq<int>)
    ensures
        stable_order(keys).len() == keys.len(),
        forall|k: int|
            0 <= k < keys.len() ==> 0 <= #[trigger] stable_order(keys)[k] < keys.len(),
        forall|i: int, j: int|
            #![trigger stable_order(keys)[i], stable_order(keys)[j]]
            0 <= i < j < keys.len() ==> {
                let a = stable_order(keys)[i];
                let b = stable_order(keys)[j];
                a != b && (keys[a] < keys[b] || (keys[a] == keys[b] && a < b))
            },
{
    let all = keyed(keys);
    let sorted = all.sort_by(pair_order());
    lemma_pair_order();
    all.lemma_sort_by_ensures(pair_order());
    broadcast use group_to_multiset_ensures;

    assert(sorted.to_multiset().len() == all.to_multiset().len());
    assert(sorted.len() == keys.len());
    assert forall|k: int| 0 <= k < sorted.len() implies (0 <= (#[trigger] sorted[k]).1 < keys.len()
        && sorted[k].0 == keys[sorted[k].1]) by {
        assert(sorted.contains(sorted[k]));
        assert(all.contains(sorted[k]));
        let i = choose|i: int| 0 <= i < all.len() && all[i] == sorted[k];
        assert(all[i] == (keys[i], i));
    }
    assert(sorted.no_duplicates()) by {
        assert(all.no_duplicates());
        assert(all.to_multiset() == sorted.to_multiset());
        all.lemma_multiset_has_no_duplicates();
        sorted.lemma_multiset_has_no_duplicates_conv();
    }
    assert forall|i: int, j: int|
        #![trigger stable_order(keys)[i], stable_order(keys)[j]]
        0 <= i < j < keys.len() implies {
        let a = stable_order(keys)[i];
        let b = stable_order(keys)[j];
        a != b && (keys[a] < keys[b] || (keys[a] == keys[b] && a < b))
    } by {
        let le = pair_order();
        assert(le(sorted[i], sorted[j]));
        assert(sorted[i] != sorted[j]);
    }
}

/// Computes a stable order.
pub fn order_by_keys(keys: &Vec<i128>) -> (r: Vec<usize>)
    ensures
        places(r@) == stable_order(int_keys(keys@)),
        r.len() == keys.len(),
        forall|k: int| 0 <= k < r.len() ==> #[trigger] r@[k] < keys.len(),
{
    let mut pairs: Vec<(i128, usize)> = Vec::new();
    let mut i: usize = 0;
    while i < keys.len()
        invariant
            i <= keys.len(),
            pairs.len() == i,
            forall|k: int| 0 <= k < i ==> #[trigger] pairs@[k] == (keys@[k], k as usize),
        decreases keys.len() - i,
    {
        pairs.push((keys[i], i));
        i += 1;
    }
    let ghost all = int_keys(keys@);
    assert(int_pairs(pairs@) =~= keyed(all));
    std_sort_pairs(&mut pairs);
    proof {
        lemma_pair_order();
        keyed(all).lemma_sort_by_ensures(pair_order());
        lemma_sorted_unique(
            int_pairs(pairs@),
            keyed(all).sort_by(pair_order()),
            pair_order(),
        );
        lemma_stable_order(all);
        assert(pairs.len() == int_pairs(pairs@).len());
    }
    let mut out: Vec<usize> = Vec::new();
    let mut k: usize = 0;
    while k < pairs.len()
        invariant
            k <= pairs.len(),
            out.len() == k,
            forall|j: int| 0 <= j < k ==> #[trigger] out@[j] == pairs@[j].1,
        decreases pairs.len() - k,
    {
        out.push(pairs[k].1);
        k += 1;
    }
    proof {
        assert(places(out@) =~= stable_order(all));
        assert forall|k: int| 0 <= k < out.len() implies #[trigger] out@[k] < keys.len() by {
            assert(places(out@)[k] == stable_order(all)[k]);
        }
    }
    out
}

} // verus!
