//! Which samples of a flamegraph a sandwich counts.

use crate::order::stable_order;
use crate::pyroscope::charts::lemma_every_place;
use crate::pyroscope::flamegraph::{frame_count, frame_name, offset, width, FlameGraph};
use crate::pyroscope::sandwich::{
    callers, children_of, covered, distinct_names, frame_over, length, level_occurrences, merged,
    merged_by_name, names_of, occurrences, occurrences_of, self_of, self_share, total_of,
    Occurrence, Tree,
};
use crate::pyroscope::shown::{covers, frame_value};
use crate::suggest::lemma_distinct_texts;
use vstd::prelude::*;
use vstd::string::*;

verus! {

// ── Occurrences ──────────────────────────────────────────────────────────────

/// Whether frame `i` of a level is of the function and has samples.
pub open spec fn is_of(fg: FlameGraph, level: int, i: int, target: Seq<char>) -> bool {
    let index = frame_value(fg, level, i, 3);
    &&& 0 <= index < fg.names@.len()
    &&& fg.names@[index as int]@ == target
    &&& frame_value(fg, level, i, 1) as u64 > 0
}

/// What a frame occurs as: its samples on its level.
pub open spec fn occurrence(fg: FlameGraph, level: int, i: int) -> Occurrence {
    Occurrence {
        level,
        start: frame_value(fg, level, i, 0) as u64 as int,
        width: frame_value(fg, level, i, 1) as u64 as int,
    }
}

proof fn lemma_level_occurrences(fg: FlameGraph, target: Seq<char>, level: int, n: int, i: int)
    requires
        0 <= i < n,
        is_of(fg, level, i, target),
    ensures
        level_occurrences(fg, target, level, n).contains(occurrence(fg, level, i)),
    decreases n,
{
    let all = level_occurrences(fg, target, level, n);
    let before = level_occurrences(fg, target, level, n - 1);
    assert(i * 4 == 4 * i + 0 && i * 4 + 1 == 4 * i + 1 && i * 4 + 3 == 4 * i + 3);
    if i == n - 1 {
        let index = frame_value(fg, level, i, 3);
        assert(fg.names@.len() == fg.names.len());
        assert(index as usize == index);
        assert(all.last() == occurrence(fg, level, i));
    } else {
        lemma_level_occurrences(fg, target, level, n - 1, i);
        let k = before.index_of(occurrence(fg, level, i));
        assert(all[k] == before[k]);
    }
}

proof fn lemma_occurrences(fg: FlameGraph, target: Seq<char>, n: int, level: int, i: int)
    requires
        0 <= level < n,
        0 <= i < frame_count(fg.levels@[level].values@),
        is_of(fg, level, i, target),
    ensures
        occurrences(fg, target, n).contains(occurrence(fg, level, i)),
    decreases n,
{
    let all = occurrences(fg, target, n);
    let before = occurrences(fg, target, n - 1);
    let last = level_occurrences(
        fg,
        target,
        n - 1,
        frame_count(fg.levels@[n - 1].values@),
    );
    let o = occurrence(fg, level, i);
    if level == n - 1 {
        lemma_level_occurrences(fg, target, level, frame_count(fg.levels@[level].values@), i);
        let k = last.index_of(o);
        assert(all[before.len() + k] == o);
    } else {
        lemma_occurrences(fg, target, n - 1, level, i);
        let k = before.index_of(o);
        assert(all[k] == o);
    }
}

/// Every frame of a function that has samples is one of its occurrences, with all of its samples.
pub proof fn lemma_function_occurs(fg: FlameGraph, target: Seq<char>, level: int, i: int)
    requires
        0 <= level < fg.levels@.len(),
        0 <= i < fg.levels@[level].values@.len() as int / 4,
        is_of(fg, level, i, target),
    ensures
        occurrences_of(fg, target).contains(occurrence(fg, level, i)),
{
    assert(fg.levels@.len() == fg.levels.len());
    lemma_occurrences(fg, target, fg.levels.len() as int, level, i);
}

// ── Cover ────────────────────────────────────────────────────────────────────

/// Whether a range holds the sample `x`.
pub open spec fn holds(range: (int, int), x: int) -> bool {
    range.0 <= x < range.1
}

/// Whether one of the ranges holds the sample `x`.
pub open spec fn any_holds(ranges: Seq<(int, int)>, x: int) -> bool {
    exists|k: int| 0 <= k < ranges.len() && holds(#[trigger] ranges[k], x)
}

/// What a frame covers of some ranges is the samples that it has in common with them, and nothing
/// else; it covers no range without samples.
pub proof fn lemma_cover(start: int, end: int, ranges: Seq<(int, int)>, x: int)
    ensures
        any_holds(covered(start, end, ranges), x) <==> start <= x < end && any_holds(ranges, x),
        forall|k: int|
            #![trigger covered(start, end, ranges)[k]]
            start < end && (forall|j: int| 0 <= j < ranges.len() ==> (#[trigger] ranges[j]).0
                < ranges[j].1) && 0 <= k < covered(start, end, ranges).len() ==> covered(
                start,
                end,
                ranges,
            )[k].0 < covered(start, end, ranges)[k].1,
    decreases ranges.len(),
{
    if ranges.len() > 0 {
        let init = ranges.drop_last();
        lemma_cover(start, end, init, x);
        let before = covered(start, end, init);
        let all = covered(start, end, ranges);
        let last = ranges.last();
        assert(last == ranges[ranges.len() - 1]);
        if any_holds(all, x) {
            let k = choose|k: int| 0 <= k < all.len() && holds(#[trigger] all[k], x);
            if k < before.len() {
                assert(holds(before[k], x));
                let j = choose|j: int| 0 <= j < init.len() && holds(#[trigger] init[j], x);
                assert(holds(ranges[j], x));
            } else {
                assert(holds(ranges[ranges.len() - 1], x));
            }
        }
        if start <= x < end && any_holds(ranges, x) {
            let j = choose|j: int| 0 <= j < ranges.len() && holds(#[trigger] ranges[j], x);
            if j < init.len() {
                assert(holds(init[j], x));
                let k = choose|k: int| 0 <= k < before.len() && holds(#[trigger] before[k], x);
                assert(holds(all[k], x));
            } else {
                assert(holds(all[all.len() - 1], x));
            }
        }
        if start < end && forall|j: int| 0 <= j < ranges.len() ==> (#[trigger] ranges[j]).0
            < ranges[j].1 {
            assert forall|j: int| 0 <= j < init.len() implies (#[trigger] init[j]).0 < init[j].1 by {
                assert(init[j] == ranges[j]);
            }
            assert forall|k: int| 0 <= k < all.len() implies (#[trigger] all[k]).0 < all[k].1 by {
                if k < before.len() {
                    assert(all[k] == before[k]);
                }
            }
        }
    }
}

/// A frame that lies in one range has all of its samples there; one that a range lies in has those
/// of the range.
pub proof fn lemma_cover_length(start: int, end: int, range: (int, int))
    requires
        start < end,
        range.0 < range.1,
    ensures
        range.0 <= start && end <= range.1 ==> length(covered(start, end, seq![range])) == end
            - start,
        start <= range.0 && range.1 <= end ==> length(covered(start, end, seq![range])) == range.1
            - range.0,
        end <= range.0 || range.1 <= start ==> length(covered(start, end, seq![range])) == 0,
{
    let ranges = seq![range];
    assert(ranges.drop_last() =~= seq![]);
    assert(covered(start, end, ranges.drop_last()) =~= seq![]);
    assert(ranges.last() == range);
    let all = covered(start, end, ranges);
    if all.len() > 0 {
        assert(all.drop_last() =~= seq![]);
        assert(length(all.drop_last()) == 0);
    }
}

/// A frame whose samples are all counted has all of its own; one of which a part is counted has no
/// more than its own, and not less than that part of them by one or more.
pub proof fn lemma_self_share(v: Seq<i64>, i: int, part: int)
    requires
        0 <= part <= width(v, i),
        width(v, i) > 0,
    ensures
        part == width(v, i) ==> self_share(v, i, part) == v[i * 4 + 2] as u64,
        self_share(v, i, part) <= v[i * 4 + 2] as u64,
        self_share(v, i, part) * width(v, i) <= (v[i * 4 + 2] as u64) * part < (self_share(
            v,
            i,
            part,
        ) + 1) * width(v, i),
{
    let s = v[i * 4 + 2] as u64 as int;
    let w = width(v, i);
    let q = (s * part) / w;
    assert(q * w <= s * part < (q + 1) * w && 0 <= q <= s) by (nonlinear_arith)
        requires
            q == (s * part) / w,
            0 <= s,
            0 <= part <= w,
            w > 0,
    ;
    if part == w {
        assert(q == s) by (nonlinear_arith)
            requires
                q * w <= s * w < (q + 1) * w,
                w > 0,
        ;
    }
}

// ── Callers ──────────────────────────────────────────────────────────────────

proof fn lemma_frame_over(fg: FlameGraph, level: int, from: int, x: int, j: int)
    requires
        0 <= from,
    ensures
        match frame_over(fg.levels@[level].values@, from, x) {
            Some(i) => {
                &&& from <= i < frame_count(fg.levels@[level].values@)
                &&& covers(fg, level, i, x)
                &&& from <= j < i ==> !covers(fg, level, j, x)
            },
            None => from <= j < frame_count(fg.levels@[level].values@) ==> !covers(
                fg,
                level,
                j,
                x,
            ),
        },
    decreases frame_count(fg.levels@[level].values@) - from,
{
    let v = fg.levels@[level].values@;
    assert(from * 4 == 4 * from + 0 && from * 4 + 1 == 4 * from + 1);
    if from < frame_count(v) && !(width(v, from) > 0 && offset(v, from) <= x && offset(v, from)
        + width(v, from) > x) {
        lemma_frame_over(fg, level, from + 1, x, j);
    }
}

/// The caller of an occurrence on a level below it is the frame there that covers its first sample,
/// with the occurrence's samples; the rest of the path stands below it. Where no frame `j` there
/// covers it the path ends.
pub proof fn lemma_caller(fg: FlameGraph, level: int, occ: Occurrence, j: int)
    requires
        0 <= level < occ.level,
    ensures
        callers(fg, level, occ).len() <= 1,
        callers(fg, level, occ).len() == 0 ==> (0 <= j < fg.levels@[level].values@.len() as int / 4
            ==> !covers(fg, level, j, occ.start)),
        callers(fg, level, occ).len() == 1 ==> {
            let t = callers(fg, level, occ)[0];
            &&& exists|i: int|
                0 <= i < fg.levels@[level].values@.len() as int / 4 && #[trigger] covers(
                    fg,
                    level,
                    i,
                    occ.start,
                ) && t.name == frame_name(fg.names@, fg.levels@[level].values@, i)
            &&& t.total == occ.width
            &&& t.children == callers(fg, level + 1, occ)
        },
{
    let v = fg.levels@[level].values@;
    lemma_frame_over(fg, level, 0, occ.start, j);
    if let Some(i) = frame_over(v, 0, occ.start) {
        assert(covers(fg, level, i, occ.start));
    }
}

// ── Merging ──────────────────────────────────────────────────────────────────

/// The samples of all trees of a name, and their own.
pub open spec fn sums(trees: Seq<Tree>, name: Seq<char>) -> (int, int)
    decreases trees.len(),
{
    if trees.len() == 0 {
        (0, 0)
    } else {
        let (total, own) = sums(trees.drop_first(), name);
        if trees[0].name == name {
            (total + trees[0].total, own + trees[0].self_samples)
        } else {
            (total, own)
        }
    }
}

proof fn lemma_sums_push(trees: Seq<Tree>, t: Tree, name: Seq<char>)
    ensures
        sums(trees.push(t), name) == if t.name == name {
            (sums(trees, name).0 + t.total, sums(trees, name).1 + t.self_samples)
        } else {
            sums(trees, name)
        },
    decreases trees.len(),
{
    if trees.len() == 0 {
        assert(trees.push(t).drop_first() =~= seq![]);
        assert(sums(trees.push(t).drop_first(), name) == (0int, 0int));
    } else {
        lemma_sums_push(trees.drop_first(), t, name);
        assert(trees.push(t).drop_first() =~= trees.drop_first().push(t));
    }
}

proof fn lemma_sums(trees: Seq<Tree>, name: Seq<char>)
    ensures
        sums(trees, name) == (total_of(trees, name), self_of(trees, name)),
    decreases trees.len(),
{
    if trees.len() > 0 {
        let init = trees.drop_last();
        lemma_sums(init, name);
        lemma_sums_push(init, trees.last(), name);
        assert(init.push(trees.last()) =~= trees);
    }
}

/// Merging keeps for every name one tree, with the samples and the own samples of all trees of that
/// name; no other name is there afterwards.
pub proof fn lemma_merged_sums(trees: Seq<Tree>, k: int)
    requires
        0 <= k < trees.len(),
    ensures
        exists|i: int|
            0 <= i < merged(trees).len() && (#[trigger] merged(trees)[i]).name == trees[k].name,
        forall|i: int|
            0 <= i < merged(trees).len() ==> {
                &&& names_of(trees).contains((#[trigger] merged(trees)[i]).name)
                &&& (merged(trees)[i].total, merged(trees)[i].self_samples) == sums(
                    trees,
                    merged(trees)[i].name,
                )
                &&& merged(trees)[i].children == merged(children_of(trees, merged(trees)[i].name))
            },
{
    let m = merged_by_name(trees);
    let keys = m.map_values(|t: Tree| -t.total);
    let order = stable_order(keys);
    let all = merged(trees);
    crate::order::lemma_stable_order(keys);
    lemma_distinct_texts(names_of(trees));
    let names = distinct_names(trees);
    assert(names_of(trees)[k] == trees[k].name);
    assert(names_of(trees).contains(trees[k].name));
    let n = names.index_of(trees[k].name);
    assert(names[n] == trees[k].name);
    lemma_every_place(keys, n);
    let i = order.index_of(n);
    assert(all[i] == m[n]);
    assert(all[i].name == trees[k].name);
    assert forall|i: int| 0 <= i < all.len() implies {
        &&& names_of(trees).contains((#[trigger] all[i]).name)
        &&& (all[i].total, all[i].self_samples) == sums(trees, all[i].name)
        &&& all[i].children == merged(children_of(trees, all[i].name))
    } by {
        assert(all[i] == m[order[i]]);
        assert(names.contains(names[order[i]]));
        lemma_sums(trees, all[i].name);
    }
}

} // verus!
