//! What timelines and heatmaps show.

use crate::logql::ast::string_pairs;
use crate::order::{
    keyed, lemma_pair_order, lemma_stable_order, pair_order, sorted_texts, stable_order,
};
use crate::pyroscope::heatmap::{
    by_time as slots_by_time, column_counts, first_step, greatest, greatest_count, heatmap_shows,
    merged, HeatmapSlot, HeatmapView, MergedSlot,
};
use crate::pyroscope::labels::{
    all_pairs, keys_of, varies, varying_keys, varying_of, TimelineExemplar,
};
use crate::pyroscope::timeline::{
    all_points, by_time, by_value, grouped, slot_values, timeline_shows, TimelinePoint,
    TimelineSeries, TimelineSlotV, TimelineView,
};
use crate::pyroscope::units::{unit_label, unit_of, ProfileUnit};
use crate::suggest::{lemma_distinct_texts, without_repeats};
use crate::text::lemma_encode_concat;
use crate::time_range::{first_index, lemma_first_index, lemma_first_index_skip, lemma_no_ascii_byte};
use vstd::multiset::*;
use vstd::prelude::*;
use vstd::seq_lib::*;
use vstd::string::*;
use vstd::utf8::*;

verus! {

// ── Order ────────────────────────────────────────────────────────────────────

/// A stable order holds every place.
pub(crate) proof fn lemma_every_place(keys: Seq<int>, i: int)
    requires
        0 <= i < keys.len(),
    ensures
        stable_order(keys).contains(i),
{
    let all = keyed(keys);
    let sorted = all.sort_by(pair_order());
    lemma_pair_order();
    all.lemma_sort_by_ensures(pair_order());
    broadcast use group_to_multiset_ensures;

    assert(all[i] == (keys[i], i));
    assert(all.contains(all[i]));
    assert(all.to_multiset().count(all[i]) > 0);
    assert(sorted.contains(all[i]));
    let k = sorted.index_of(all[i]);
    assert(stable_order(keys)[k] == i);
}

// ── Timelines ────────────────────────────────────────────────────────────────

/// Whether a slot of the time of a point holds its value.
pub open spec fn held(slots: Seq<TimelineSlotV>, p: TimelinePoint) -> bool {
    exists|k: int|
        0 <= k < slots.len() && (#[trigger] slots[k]).timestamp_ms == p.timestamp_ms
            && slots[k].value_bits.contains(p.value_bits)
}

/// The number of values in slots.
pub open spec fn value_count(slots: Seq<TimelineSlotV>) -> int
    decreases slots.len(),
{
    if slots.len() == 0 {
        0
    } else {
        value_count(slots.drop_last()) + slots.last().value_bits.len()
    }
}

proof fn lemma_grouped_holds(points: Seq<TimelinePoint>, i: int)
    requires
        0 <= i < points.len(),
    ensures
        held(grouped(points), points[i]),
    decreases points.len(),
{
    let p = points.last();
    let before = grouped(points.drop_last());
    let all = grouped(points);
    if i == points.len() - 1 {
        let k = all.len() - 1;
        assert(all[k].timestamp_ms == p.timestamp_ms);
        assert(all[k].value_bits.last() == p.value_bits);
    } else {
        lemma_grouped_holds(points.drop_last(), i);
        let q = points[i];
        let k = choose|k: int|
            0 <= k < before.len() && (#[trigger] before[k]).timestamp_ms == q.timestamp_ms
                && before[k].value_bits.contains(q.value_bits);
        let m = before[k].value_bits.index_of(q.value_bits);
        assert(all[k].timestamp_ms == q.timestamp_ms);
        assert(all[k].value_bits[m] == q.value_bits);
    }
}

proof fn lemma_grouped_count(points: Seq<TimelinePoint>)
    ensures
        value_count(grouped(points)) == points.len(),
    decreases points.len(),
{
    if points.len() > 0 {
        lemma_grouped_count(points.drop_last());
        let before = grouped(points.drop_last());
        let all = grouped(points);
        if all.len() == before.len() {
            assert(all.drop_last() =~= before.drop_last());
        } else {
            assert(all.drop_last() =~= before);
        }
    }
}

/// A timeline holds the value of every point in the slot of its time, and no more values than there
/// are points; all of them from its start to its end.
pub proof fn lemma_timeline_holds(series: Seq<TimelineSeries>, v: TimelineView<'_>, i: int)
    requires
        timeline_shows(series, v),
        0 <= i < all_points(series).len(),
    ensures
        held(slot_values(v.slots@), all_points(series)[i]),
        value_count(slot_values(v.slots@)) == all_points(series).len(),
        v.start_ms <= all_points(series)[i].timestamp_ms <= v.end_ms,
{
    let points = all_points(series);
    let keys = points.map_values(|p: TimelinePoint| p.timestamp_ms as int);
    let order = stable_order(keys);
    let sorted = by_time(points);
    lemma_stable_order(keys);
    lemma_every_place(keys, i);
    let k = order.index_of(i);
    assert(sorted[k] == points[i]);
    lemma_grouped_holds(sorted, k);
    lemma_grouped_count(sorted);
    assert(keys[order[k]] == points[i].timestamp_ms);
    if 0 < k {
        assert(keys[order[0]] <= keys[order[k]]);
    }
    if k < sorted.len() - 1 {
        assert(keys[order[k]] <= keys[order[sorted.len() - 1]]);
    }
}

/// Exemplars are shown from the greatest value to the smallest, all of them.
pub proof fn lemma_exemplars_descend(exemplars: Seq<TimelineExemplar>, i: int, j: int)
    requires
        0 <= i < j < exemplars.len(),
    ensures
        by_value(exemplars).len() == exemplars.len(),
        by_value(exemplars)[i].value >= by_value(exemplars)[j].value,
        by_value(exemplars).contains(exemplars[i]),
{
    let keys = exemplars.map_values(|e: TimelineExemplar| -e.value);
    lemma_stable_order(keys);
    let order = stable_order(keys);
    assert(keys[order[i]] <= keys[order[j]]);
    lemma_every_place(keys, i);
    let k = order.index_of(i);
    assert(by_value(exemplars)[k] == exemplars[i]);
}

// ── Labels ───────────────────────────────────────────────────────────────────

/// Whether a label has two values in some lists of labels.
pub open spec fn has_two_values(lists: Seq<&Vec<(String, String)>>, key: Seq<char>) -> bool {
    exists|i: int, j: int, k: int, l: int|
        {
            &&& 0 <= i < lists.len() && 0 <= k < lists.len()
            &&& 0 <= j < lists[i]@.len() && 0 <= l < lists[k]@.len()
            &&& (#[trigger] lists[i]@[j]).0@ == key && (#[trigger] lists[k]@[l]).0@ == key
            &&& lists[i]@[j].1@ != lists[k]@[l].1@
        }
}

proof fn lemma_pair_of(lists: Seq<&Vec<(String, String)>>, i: int, j: int) -> (m: int)
    requires
        0 <= i < lists.len(),
        0 <= j < lists[i]@.len(),
    ensures
        0 <= m < all_pairs(lists).len(),
        all_pairs(lists)[m] == (lists[i]@[j].0@, lists[i]@[j].1@),
    decreases lists.len(),
{
    let init = lists.drop_last();
    let before = all_pairs(init);
    if i < init.len() {
        assert(init[i] == lists[i]);
        lemma_pair_of(init, i, j)
    } else {
        assert(string_pairs(lists.last()@)[j] == (lists[i]@[j].0@, lists[i]@[j].1@));
        before.len() + j
    }
}

proof fn lemma_place_of_pair(lists: Seq<&Vec<(String, String)>>, m: int) -> (p: (int, int))
    requires
        0 <= m < all_pairs(lists).len(),
    ensures
        0 <= p.0 < lists.len(),
        0 <= p.1 < lists[p.0]@.len(),
        all_pairs(lists)[m] == (lists[p.0]@[p.1].0@, lists[p.0]@[p.1].1@),
    decreases lists.len(),
{
    let init = lists.drop_last();
    let before = all_pairs(init);
    if m < before.len() {
        let p = lemma_place_of_pair(init, m);
        assert(init[p.0] == lists[p.0]);
        p
    } else {
        let j = m - before.len();
        assert(string_pairs(lists.last()@)[j] == (lists.last()@[j].0@, lists.last()@[j].1@));
        (lists.len() - 1, j)
    }
}

proof fn lemma_varying_of(
    pairs: Seq<(Seq<char>, Seq<char>)>,
    keys: Seq<Seq<char>>,
    key: Seq<char>,
)
    ensures
        varying_of(pairs, keys).contains(key) == (keys.contains(key) && varies(pairs, key)),
    decreases keys.len(),
{
    if keys.len() > 0 {
        let init = keys.drop_last();
        lemma_varying_of(pairs, init, key);
        let before = varying_of(pairs, init);
        let all = varying_of(pairs, keys);
        if init.contains(key) {
            let k = init.index_of(key);
            assert(keys[k] == key);
        }
        if before.contains(key) {
            let k = before.index_of(key);
            assert(all[k] == key);
        }
        if keys.contains(key) && key != keys.last() {
            let k = keys.index_of(key);
            assert(init[k] == key);
        }
        if all.contains(key) && !before.contains(key) {
            let k = all.index_of(key);
            if k < before.len() {
                assert(before[k] == key);
            }
        }
        if key == keys.last() {
            assert(keys[keys.len() - 1] == key);
            if varies(pairs, key) {
                assert(all.last() == key);
            }
        }
    }
}

/// The labels that vary are those with two values, and no others.
pub proof fn lemma_varying(lists: Seq<&Vec<(String, String)>>, key: Seq<char>)
    ensures
        varying_keys(lists).contains(key) <==> has_two_values(lists, key),
{
    let pairs = all_pairs(lists);
    let keys = without_repeats(sorted_texts(keys_of(pairs)));
    lemma_distinct_texts(keys_of(pairs));
    lemma_varying_of(pairs, keys, key);
    if varies(pairs, key) {
        let (x, y) = choose|x: int, y: int|
            0 <= x < pairs.len() && 0 <= y < pairs.len() && (#[trigger] pairs[x]).0 == key && (
            #[trigger] pairs[y]).0 == key && pairs[x].1 != pairs[y].1;
        let p = lemma_place_of_pair(lists, x);
        let r = lemma_place_of_pair(lists, y);
        assert(lists[p.0]@[p.1].0@ == key && lists[r.0]@[r.1].0@ == key);
    }
    if has_two_values(lists, key) {
        let (i, j, k, l) = choose|i: int, j: int, k: int, l: int|
            {
                &&& 0 <= i < lists.len() && 0 <= k < lists.len()
                &&& 0 <= j < lists[i]@.len() && 0 <= l < lists[k]@.len()
                &&& (#[trigger] lists[i]@[j]).0@ == key && (#[trigger] lists[k]@[l]).0@ == key
                &&& lists[i]@[j].1@ != lists[k]@[l].1@
            };
        let x = lemma_pair_of(lists, i, j);
        let y = lemma_pair_of(lists, k, l);
        assert(pairs[x].0 == key && pairs[y].0 == key && pairs[x].1 != pairs[y].1);
        assert(varies(pairs, key));
        assert(keys_of(pairs)[x] == key);
        assert(keys_of(pairs).contains(key));
    }
}

// ── Heatmaps ─────────────────────────────────────────────────────────────────

/// The samples that slots of a time count in a bucket.
pub open spec fn samples_at(slots: Seq<HeatmapSlot>, time: int, bucket: int) -> int
    decreases slots.len(),
{
    if slots.len() == 0 {
        0
    } else {
        samples_at(slots.drop_last(), time, bucket) + if slots.last().timestamp_ms == time {
            slots.last().counts@[bucket] as int
        } else {
            0
        }
    }
}

/// Whether slots ascend in time, all count in `n` buckets, and no count is negative.
pub open spec fn regular(slots: Seq<HeatmapSlot>, n: int) -> bool {
    &&& forall|i: int, j: int|
        #![trigger slots[i], slots[j]]
        0 <= i < j < slots.len() ==> slots[i].timestamp_ms <= slots[j].timestamp_ms
    &&& forall|i: int| 0 <= i < slots.len() ==> (#[trigger] slots[i]).counts@.len() == n
    &&& forall|i: int, k: int|
        #![trigger slots[i].counts@[k]]
        0 <= i < slots.len() && 0 <= k < n ==> slots[i].counts@[k] >= 0
}

/// What a heatmap can count.
pub open spec fn counted(samples: int) -> int {
    if samples <= i32::MAX {
        samples
    } else {
        i32::MAX as int
    }
}

proof fn lemma_none_behind(slots: Seq<HeatmapSlot>, time: int, bucket: int)
    requires
        forall|i: int| 0 <= i < slots.len() ==> (#[trigger] slots[i]).timestamp_ms < time,
    ensures
        samples_at(slots, time, bucket) == 0,
    decreases slots.len(),
{
    if slots.len() > 0 {
        assert(slots.last() == slots[slots.len() - 1]);
        assert forall|i: int| 0 <= i < slots.drop_last().len() implies (
        #[trigger] slots.drop_last()[i]).timestamp_ms < time by {
            assert(slots.drop_last()[i] == slots[i]);
        }
        lemma_none_behind(slots.drop_last(), time, bucket);
    }
}

proof fn lemma_merged_counts(slots: Seq<HeatmapSlot>, n: int, k: int, bucket: int)
    requires
        regular(slots, n),
        0 <= k < merged(slots).len(),
        0 <= bucket < n,
    ensures
        merged(slots)[k].counts.len() == n,
        0 <= merged(slots)[k].counts[bucket],
        merged(slots)[k].counts[bucket] == counted(
            samples_at(slots, merged(slots)[k].timestamp_ms, bucket),
        ),
        slots.len() > 0 && merged(slots).last().timestamp_ms == slots.last().timestamp_ms,
        k < merged(slots).len() - 1 ==> merged(slots)[k].timestamp_ms < slots.last().timestamp_ms,
    decreases slots.len(),
{
    let init = slots.drop_last();
    let s = slots.last();
    assert(s == slots[slots.len() - 1]);
    assert(s.counts@[bucket] >= 0) by {
        assert(slots[slots.len() - 1].counts@[bucket] >= 0);
    }
    let before = merged(init);
    let all = merged(slots);
    assert(regular(init, n)) by {
        assert forall|i: int| 0 <= i < init.len() implies (#[trigger] init[i]).counts@.len() == n by {
            assert(init[i] == slots[i]);
        }
        assert forall|i: int, b: int|
            #![trigger init[i].counts@[b]]
            0 <= i < init.len() && 0 <= b < n implies init[i].counts@[b] >= 0 by {
            assert(init[i] == slots[i]);
            assert(slots[i].counts@[b] >= 0);
        }
        assert forall|i: int, j: int|
            #![trigger init[i], init[j]]
            0 <= i < j < init.len() implies init[i].timestamp_ms <= init[j].timestamp_ms by {
            assert(init[i] == slots[i] && init[j] == slots[j]);
        }
    }
    if init.len() > 0 {
        assert(init.last() == slots[slots.len() - 2]);
        assert(slots[slots.len() - 2].timestamp_ms <= slots[slots.len() - 1].timestamp_ms);
        if before.len() > 0 {
            lemma_merged_counts(init, n, before.len() - 1, bucket);
        }
    }
    if k < before.len() {
        lemma_merged_counts(init, n, k, bucket);
    }
    if k == all.len() - 1 && all.len() != before.len() {
        assert forall|i: int| 0 <= i < init.len() implies (#[trigger] init[i]).timestamp_ms
            < s.timestamp_ms by {
            lemma_merged_last(init);
            assert(init[i] == slots[i]);
            if i < init.len() - 1 {
                assert(init[i].timestamp_ms <= init[init.len() - 1].timestamp_ms);
            }
        }
        lemma_none_behind(init, s.timestamp_ms as int, bucket);
    }
}

proof fn lemma_merged_last(slots: Seq<HeatmapSlot>)
    requires
        slots.len() > 0,
    ensures
        merged(slots).len() > 0,
        merged(slots).last().timestamp_ms == slots.last().timestamp_ms,
{
}

/// A column of a heatmap counts, from its last row to its first, the samples that all slots of one
/// time have in each bucket, as far as they can be counted.
pub proof fn lemma_heatmap_counts(
    slots: Seq<HeatmapSlot>,
    v: HeatmapView<'_>,
    column: int,
    bucket: int,
)
    requires
        heatmap_shows(slots, v),
        regular(slots_by_time(slots), v.n_buckets as int),
        0 <= column < v.columns@.len(),
        0 <= bucket < v.n_buckets,
    ensures
        ({
            let sorted = slots_by_time(slots);
            let time = merged(sorted)[column].timestamp_ms;
            &&& v.columns@[column]@.len() == v.n_buckets
            &&& v.columns@[column]@[v.n_buckets - 1 - bucket] == counted(
                samples_at(sorted, time, bucket),
            )
            &&& v.columns@[column]@[v.n_buckets - 1 - bucket] <= v.max_count
        }),
{
    let sorted = slots_by_time(slots);
    let all = merged(sorted);
    assert(column_counts(v.columns@)[column] == v.columns@[column]@);
    assert(column_counts(v.columns@).len() == v.columns@.len());
    assert(all.map_values(|s: MergedSlot| s.counts.reverse())[column]
        == all[column].counts.reverse());
    lemma_merged_counts(sorted, v.n_buckets as int, column, bucket);
    lemma_greatest_count(all, column, bucket);
}

proof fn lemma_greatest(counts: Seq<i32>, floor: i32, k: int)
    ensures
        greatest(counts, floor) >= floor,
        0 <= k < counts.len() ==> greatest(counts, floor) >= counts[k],
        greatest(counts, floor) == floor || counts.contains(greatest(counts, floor)),
    decreases counts.len(),
{
    if counts.len() > 0 {
        lemma_greatest(counts.drop_last(), floor, k);
        let before = greatest(counts.drop_last(), floor);
        if counts.last() > before {
            assert(counts[counts.len() - 1] == counts.last());
        } else if counts.drop_last().contains(before) {
            let m = counts.drop_last().index_of(before);
            assert(counts[m] == before);
        }
    }
}

proof fn lemma_greatest_count(slots: Seq<MergedSlot>, c: int, k: int)
    ensures
        greatest_count(slots) >= 1,
        0 <= c < slots.len() && 0 <= k < slots[c].counts.len() ==> greatest_count(slots)
            >= slots[c].counts[k],
    decreases slots.len(),
{
    if slots.len() > 0 {
        lemma_greatest_count(slots.drop_last(), c, k);
        lemma_greatest(slots.last().counts, greatest_count(slots.drop_last()), k);
    }
}

/// The greatest count of a heatmap is at least one, and one of its counts if it is more.
pub proof fn lemma_greatest_is_counted(slots: Seq<MergedSlot>)
    ensures
        greatest_count(slots) >= 1,
        greatest_count(slots) > 1 ==> exists|c: int|
            0 <= c < slots.len() && (#[trigger] slots[c]).counts.contains(greatest_count(slots)),
    decreases slots.len(),
{
    lemma_greatest_count(slots, 0, 0);
    if slots.len() > 0 {
        let init = slots.drop_last();
        lemma_greatest_is_counted(init);
        lemma_greatest(slots.last().counts, greatest_count(init), 0);
        let g = greatest_count(slots);
        if g > 1 {
            if slots.last().counts.contains(g) {
                assert(slots[slots.len() - 1].counts.contains(g));
            } else {
                assert(g == greatest_count(init));
                let c = choose|c: int|
                    0 <= c < init.len() && (#[trigger] init[c]).counts.contains(g);
                assert(slots[c].counts.contains(g));
            }
        }
    }
}

/// The step of a heatmap is the first of its slots' that is positive; none where there is none.
pub proof fn lemma_step(slots: Seq<HeatmapSlot>, i: int)
    ensures
        first_step(slots) >= 0,
        first_step(slots) == 0 && 0 <= i < slots.len() ==> slots[i].step_ms <= 0,
        first_step(slots) > 0 ==> exists|k: int|
            0 <= k < slots.len() && first_step(slots) == (#[trigger] slots[k]).step_ms && (0 <= i < k
                ==> slots[i].step_ms <= 0),
    decreases slots.len(),
{
    if slots.len() > 0 {
        if slots[0].step_ms > 0 {
            assert(first_step(slots) == slots[0].step_ms);
        } else {
            let rest = slots.drop_first();
            lemma_step(rest, i - 1);
            if first_step(slots) > 0 {
                let k = choose|k: int|
                    0 <= k < rest.len() && first_step(rest) == (#[trigger] rest[k]).step_ms && (0
                        <= i - 1 < k ==> rest[i - 1].step_ms <= 0);
                assert(slots[k + 1] == rest[k]);
                assert(first_step(slots) == slots[k + 1].step_ms);
            }
        }
    }
}

// ── Units ────────────────────────────────────────────────────────────────────

/// The unit of a type of profile is named by its third part, and all that is neither time nor
/// memory is a count.
pub proof fn lemma_unit(a: Seq<char>, b: Seq<char>, c: Seq<char>, rest: Seq<char>)
    requires
        !a.contains(':'),
        !b.contains(':'),
        !c.contains(':'),
    ensures
        ({
            let id = a + seq![':'] + (b + seq![':'] + (c + seq![':'] + rest));
            &&& unit_of(id) == ProfileUnit::Nanoseconds <==> c == "nanoseconds"@
            &&& unit_of(id) == ProfileUnit::Bytes <==> c == "bytes"@
            &&& unit_label(unit_of(id)) == if c == "nanoseconds"@ {
                "ns"@
            } else if c == "bytes"@ {
                "bytes"@
            } else {
                "count"@
            }
        }),
{
    let id = a + seq![':'] + (b + seq![':'] + (c + seq![':'] + rest));
    let x = encode_utf8(a);
    let y = encode_utf8(b);
    let z = encode_utf8(c);
    let r = encode_utf8(rest);
    let sep = ':' as u8;
    lemma_colon(a, b + seq![':'] + (c + seq![':'] + rest));
    lemma_colon(b, c + seq![':'] + rest);
    lemma_colon(c, rest);
    lemma_no_ascii_byte(a, ':');
    lemma_no_ascii_byte(b, ':');
    lemma_no_ascii_byte(c, ':');
    let third = z.push(sep) + r;
    let second = y.push(sep) + third;
    let all = encode_utf8(id);
    assert(all == x.push(sep) + second);
    lemma_first_index(x, sep, second, 0);
    lemma_first_index(y, sep, third, 0);
    lemma_first_index(z, sep, r, 0);
    let i = x.len() as int;
    assert(all.skip(i + 1) =~= second);
    lemma_first_index_skip(all, i + 1, i + 1, sep);
    let j = i + 1 + y.len();
    assert(first_index(all, i + 1, sep) == Some(j));
    assert(all.skip(j + 1) =~= third);
    lemma_first_index_skip(all, j + 1, j + 1, sep);
    assert(all.subrange(j + 1, j + 1 + z.len()) =~= z);
    encode_utf8_decode_utf8(c);
    reveal_strlit("nanoseconds");
    reveal_strlit("bytes");
    assert("nanoseconds"@.len() != "bytes"@.len());
}

proof fn lemma_colon(a: Seq<char>, b: Seq<char>)
    ensures
        encode_utf8(a + seq![':'] + b) == encode_utf8(a).push(':' as u8) + encode_utf8(b),
{
    lemma_encode_concat(a + seq![':'], b);
    lemma_encode_concat(a, seq![':']);
    assert(is_ascii_chars(seq![':']));
    is_ascii_chars_encode_utf8(seq![':']);
    assert(encode_utf8(seq![':']) =~= seq![':' as u8]);
    assert(encode_utf8(a) + seq![':' as u8] =~= encode_utf8(a).push(':' as u8));
}

} // verus!
