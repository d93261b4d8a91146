//! The sandwich view: one function with everything that calls it above and
//! everything that it calls below.

use crate::order::{
    arranged, int_keys, lemma_stable_order, order_by_keys, places, sort_strings, sorted_texts,
    stable_order, texts,
};
use crate::pyroscope::flamegraph::{
    frame_at, frame_count, frame_fits, frame_name, name_at, offset, rows, self_samples, width,
    FlameGraph, FlamegraphFrameView, FlamegraphLevelView, FrameV,
};
use crate::suggest::{drop_repeats, lemma_distinct_texts, without_repeats};
use crate::text::str_eq;
use vstd::prelude::*;
use vstd::string::*;

verus! {

/// The three-panel view of a function.
#[derive(Debug, Clone)]
pub struct SandwichView {
    pub target_name: String,
    /// Samples of all occurrences of the function
    pub target_samples: u64,
    /// Samples of the full flamegraph
    pub root_samples: u64,
    /// Merged callers: outermost first, direct callers last
    pub callers: Vec<FlamegraphLevelView>,
    /// Merged callees: direct callees first
    pub callees: Vec<FlamegraphLevelView>,
    pub units: String,
}

/// A call tree: a function, its samples and what it leads to.
pub ghost struct Tree {
    pub name: Seq<char>,
    pub total: int,
    pub self_samples: int,
    pub children: Seq<Tree>,
}

// ── Occurrences ──────────────────────────────────────────────────────────────

/// Where a function occurs.
pub ghost struct Occurrence {
    pub level: int,
    pub start: int,
    pub width: int,
}

/// Whether frame `i` has samples and the name.
pub open spec fn occurs(names: Seq<String>, v: Seq<i64>, i: int, target: Seq<char>) -> bool {
    let index = v[i * 4 + 3] as usize as int;
    width(v, i) > 0 && index < names.len() && names[index]@ == target
}

/// The occurrences among the first `n` frames of a level.
pub open spec fn level_occurrences(fg: FlameGraph, target: Seq<char>, level: int, n: int) -> Seq<
    Occurrence,
>
    decreases n,
{
    if n <= 0 {
        seq![]
    } else {
        let v = fg.levels@[level].values@;
        let before = level_occurrences(fg, target, level, n - 1);
        if occurs(fg.names@, v, n - 1, target) {
            before.push(
                Occurrence { level, start: offset(v, n - 1), width: width(v, n - 1) },
            )
        } else {
            before
        }
    }
}

/// The occurrences in the first `n` levels.
pub open spec fn occurrences(fg: FlameGraph, target: Seq<char>, n: int) -> Seq<Occurrence>
    decreases n,
{
    if n <= 0 {
        seq![]
    } else {
        occurrences(fg, target, n - 1) + level_occurrences(
            fg,
            target,
            n - 1,
            frame_count(fg.levels@[n - 1].values@),
        )
    }
}

/// The samples of occurrences.
pub open spec fn samples(occ: Seq<Occurrence>) -> int
    decreases occ.len(),
{
    if occ.len() == 0 {
        0
    } else {
        samples(occ.drop_last()) + occ.last().width
    }
}

// ── Callees ──────────────────────────────────────────────────────────────────

/// The parts of `ranges` that the frame from `start` to `end` covers.
pub open spec fn covered(start: int, end: int, ranges: Seq<(int, int)>) -> Seq<(int, int)>
    decreases ranges.len(),
{
    if ranges.len() == 0 {
        seq![]
    } else {
        let before = covered(start, end, ranges.drop_last());
        let (from, to) = ranges.last();
        if start < to && end > from {
            before.push(
                (
                    if start > from {
                        start
                    } else {
                        from
                    },
                    if end < to {
                        end
                    } else {
                        to
                    },
                ),
            )
        } else {
            before
        }
    }
}

/// The length of ranges.
pub open spec fn length(ranges: Seq<(int, int)>) -> int
    decreases ranges.len(),
{
    if ranges.len() == 0 {
        0
    } else {
        length(ranges.drop_last()) + (ranges.last().1 - ranges.last().0)
    }
}

/// The parts of `ranges` that frame `i` of `level` covers.
pub open spec fn frame_cover(fg: FlameGraph, level: int, i: int, ranges: Seq<(int, int)>) -> Seq<
    (int, int),
> {
    let v = fg.levels@[level].values@;
    covered(offset(v, i), offset(v, i) + width(v, i), ranges)
}

/// The share of a frame's own samples that falls on `part` of its width.
pub open spec fn self_share(v: Seq<i64>, i: int, part: int) -> int {
    ((self_samples(v, i) * part) / width(v, i)) as u64 as int
}

/// What is called at `level` and above inside `ranges`: the first `n` frames of
/// the level that lie in the ranges.
pub open spec fn callees_upto(fg: FlameGraph, level: int, ranges: Seq<(int, int)>, n: int) -> Seq<
    Tree,
>
    decreases fg.levels.len() - level, 0int, n,
{
    if n <= 0 || level >= fg.levels.len() {
        seq![]
    } else {
        let v = fg.levels@[level].values@;
        let before = callees_upto(fg, level, ranges, n - 1);
        let cover = frame_cover(fg, level, n - 1, ranges);
        if width(v, n - 1) == 0 || length(cover) == 0 {
            before
        } else {
            before.push(
                Tree {
                    name: frame_name(fg.names@, v, n - 1),
                    total: length(cover),
                    self_samples: self_share(v, n - 1, length(cover)),
                    children: callees(fg, level + 1, cover),
                },
            )
        }
    }
}

/// What is called at `level` and above inside `ranges`.
pub open spec fn callees(fg: FlameGraph, level: int, ranges: Seq<(int, int)>) -> Seq<Tree>
    decreases fg.levels.len() - level, 1int, 0int,
{
    if level >= fg.levels.len() || ranges.len() == 0 {
        seq![]
    } else {
        callees_upto(fg, level, ranges, frame_count(fg.levels@[level].values@))
    }
}

/// Whether what the first `n` frames of a level contribute can be counted.
pub open spec fn callees_fit_upto(
    fg: FlameGraph,
    level: int,
    ranges: Seq<(int, int)>,
    n: int,
) -> bool
    decreases fg.levels.len() - level, 0int, n,
{
    n > 0 && level < fg.levels.len() ==> {
        let v = fg.levels@[level].values@;
        let cover = frame_cover(fg, level, n - 1, ranges);
        &&& callees_fit_upto(fg, level, ranges, n - 1)
        &&& width(v, n - 1) > 0 ==> {
            &&& frame_fits(v, n - 1)
            &&& length(cover) <= u64::MAX
            &&& length(cover) != 0 ==> callees_fit(fg, level + 1, cover)
        }
    }
}

/// Whether the callees inside `ranges` can be counted.
pub open spec fn callees_fit(fg: FlameGraph, level: int, ranges: Seq<(int, int)>) -> bool
    decreases fg.levels.len() - level, 1int, 0int,
{
    level < fg.levels.len() && ranges.len() > 0 ==> callees_fit_upto(
        fg,
        level,
        ranges,
        frame_count(fg.levels@[level].values@),
    )
}

// ── Callers ──────────────────────────────────────────────────────────────────

/// The first frame from `from` on that `x` lies in.
pub open spec fn frame_over(v: Seq<i64>, from: int, x: int) -> Option<int>
    decreases frame_count(v) - from,
{
    if from >= frame_count(v) {
        None
    } else if width(v, from) > 0 && offset(v, from) <= x && offset(v, from) + width(v, from) > x {
        Some(from)
    } else {
        frame_over(v, from + 1, x)
    }
}

/// Whether the search for the frame that `x` lies in can be made: the frames
/// that start before `x`, up to it, end at offsets that can be counted.
pub open spec fn search_fits(v: Seq<i64>, from: int, x: int) -> bool
    decreases frame_count(v) - from,
{
    if from >= frame_count(v) {
        true
    } else if width(v, from) > 0 && offset(v, from) <= x {
        frame_fits(v, from) && (offset(v, from) + width(v, from) > x || search_fits(v, from + 1, x))
    } else {
        search_fits(v, from + 1, x)
    }
}

/// The callers from `level` on of an occurrence: a chain of frames, each with
/// the samples of the occurrence.
pub open spec fn callers(fg: FlameGraph, level: int, occ: Occurrence) -> Seq<Tree>
    decreases occ.level - level,
{
    if level >= occ.level {
        seq![]
    } else {
        let v = fg.levels@[level].values@;
        match frame_over(v, 0, occ.start) {
            None => seq![],
            Some(i) => seq![
                Tree {
                    name: frame_name(fg.names@, v, i),
                    total: occ.width,
                    self_samples: 0,
                    children: callers(fg, level + 1, occ),
                },
            ],
        }
    }
}

/// Whether the callers of an occurrence can be found.
pub open spec fn callers_fit(fg: FlameGraph, level: int, occ: Occurrence) -> bool
    decreases occ.level - level,
{
    level < occ.level ==> {
        let v = fg.levels@[level].values@;
        &&& search_fits(v, 0, occ.start)
        &&& frame_over(v, 0, occ.start) is Some ==> callers_fit(fg, level + 1, occ)
    }
}

// ── Merging ──────────────────────────────────────────────────────────────────

/// The height of the first `k` trees.
pub open spec fn height_upto(trees: Seq<Tree>, k: int) -> int
    decreases trees, k,
{
    if k <= 0 || k > trees.len() {
        0
    } else {
        let before = height_upto(trees, k - 1);
        let inner = trees[k - 1].children;
        let last = 1 + height_upto(inner, inner.len() as int);
        if last > before {
            last
        } else {
            before
        }
    }
}

/// The height of trees: 0 for none, 1 for a leaf.
pub open spec fn height(trees: Seq<Tree>) -> int {
    height_upto(trees, trees.len() as int)
}

/// The names of trees.
pub open spec fn names_of(trees: Seq<Tree>) -> Seq<Seq<char>> {
    trees.map_values(|t: Tree| t.name)
}

/// The samples of the trees with a name.
pub open spec fn total_of(trees: Seq<Tree>, name: Seq<char>) -> int
    decreases trees.len(),
{
    if trees.len() == 0 {
        0
    } else {
        total_of(trees.drop_last(), name) + if trees.last().name == name {
            trees.last().total
        } else {
            0
        }
    }
}

/// The own samples of the trees with a name.
pub open spec fn self_of(trees: Seq<Tree>, name: Seq<char>) -> int
    decreases trees.len(),
{
    if trees.len() == 0 {
        0
    } else {
        self_of(trees.drop_last(), name) + if trees.last().name == name {
            trees.last().self_samples
        } else {
            0
        }
    }
}

/// The children of the trees with a name.
pub open spec fn children_of(trees: Seq<Tree>, name: Seq<char>) -> Seq<Tree>
    decreases trees.len(),
{
    if trees.len() == 0 {
        seq![]
    } else if trees.last().name == name {
        children_of(trees.drop_last(), name) + trees.last().children
    } else {
        children_of(trees.drop_last(), name)
    }
}

/// The names of trees, each once, in the order of text.
pub open spec fn distinct_names(trees: Seq<Tree>) -> Seq<Seq<char>> {
    without_repeats(sorted_texts(names_of(trees)))
}

proof fn lemma_height_prefix(a: Seq<Tree>, b: Seq<Tree>, k: int)
    requires
        0 <= k <= a.len(),
        k <= b.len(),
        forall|i: int| 0 <= i < k ==> a[i] == b[i],
    ensures
        height_upto(a, k) == height_upto(b, k),
        height_upto(a, k) >= 0,
    decreases k,
{
    if k > 0 {
        lemma_height_prefix(a, b, k - 1);
    }
}

proof fn lemma_height_push(a: Seq<Tree>, t: Tree)
    ensures
        height(a.push(t)) == (if 1 + height(t.children) > height(a) {
            1 + height(t.children)
        } else {
            height(a)
        }),
        height(a) >= 0,
        height(t.children) >= 0,
{
    lemma_height_prefix(a, a.push(t), a.len() as int);
    lemma_height_prefix(a, a, a.len() as int);
    lemma_height_prefix(t.children, t.children, t.children.len() as int);
}

proof fn lemma_height_add(a: Seq<Tree>, b: Seq<Tree>)
    ensures
        height(a + b) == (if height(a) > height(b) {
            height(a)
        } else {
            height(b)
        }),
        height(a) >= 0,
        height(b) >= 0,
    decreases b.len(),
{
    lemma_height_prefix(a, a, a.len() as int);
    if b.len() == 0 {
        assert(a + b =~= a);
    } else {
        let init = b.drop_last();
        lemma_height_add(a, init);
        lemma_height_push(a + init, b.last());
        lemma_height_push(init, b.last());
        assert((a + init).push(b.last()) =~= a + b);
        assert(init.push(b.last()) =~= b);
    }
}

/// What is below trees of one name is less high than the trees.
pub proof fn lemma_children_height(trees: Seq<Tree>, name: Seq<char>)
    requires
        trees.len() > 0,
    ensures
        0 <= height(children_of(trees, name)) < height(trees),
    decreases trees.len(),
{
    let init = trees.drop_last();
    let last = trees.last();
    assert(init.push(last) =~= trees);
    lemma_height_push(init, last);
    if init.len() > 0 {
        lemma_children_height(init, name);
    } else {
        assert(children_of(init, name) =~= seq![]);
    }
    lemma_height_add(children_of(init, name), last.children);
}

/// Trees of the same name, merged: samples added up, children merged in turn.
/// In the order of names.
pub open spec fn merged_by_name(trees: Seq<Tree>) -> Seq<Tree>
    decreases height(trees), 0int,
{
    if trees.len() == 0 {
        seq![]
    } else {
        proof {
            assert forall|name: Seq<char>| #![trigger children_of(trees, name)]
                0 <= height(children_of(trees, name)) < height(trees) by {
                lemma_children_height(trees, name);
            }
        }
        let names = distinct_names(trees);
        Seq::new(
            names.len(),
            |i: int|
                Tree {
                    name: names[i],
                    total: total_of(trees, names[i]),
                    self_samples: self_of(trees, names[i]),
                    children: merged(children_of(trees, names[i])),
                },
        )
    }
}

/// Merged trees, those with more samples first.
pub open spec fn merged(trees: Seq<Tree>) -> Seq<Tree>
    decreases height(trees), 1int,
{
    let m = merged_by_name(trees);
    arranged(m, stable_order(m.map_values(|t: Tree| -t.total)))
}

/// Whether the sums of merging can be counted.
pub open spec fn merge_fits(trees: Seq<Tree>) -> bool
    decreases height(trees),
{
    proof {
        assert forall|name: Seq<char>| #![trigger children_of(trees, name)]
            trees.len() > 0 implies 0 <= height(children_of(trees, name)) < height(trees) by {
            lemma_children_height(trees, name);
        }
    }
    trees.len() > 0 ==> forall|i: int|
        #![trigger distinct_names(trees)[i]]
        0 <= i < distinct_names(trees).len() ==> {
            let name = distinct_names(trees)[i];
            &&& total_of(trees, name) <= u64::MAX
            &&& self_of(trees, name) <= u64::MAX
            &&& merge_fits(children_of(trees, name))
        }
}

// ── Layout ───────────────────────────────────────────────────────────────────

/// `rows` with empty ones added up to `n`.
pub open spec fn grown(rows: Seq<Seq<FrameV>>, n: int) -> Seq<Seq<FrameV>> {
    if rows.len() >= n {
        rows
    } else {
        rows + Seq::new((n - rows.len()) as nat, |i: int| Seq::<FrameV>::empty())
    }
}

/// `rows` with a frame added to one of them.
pub open spec fn with_frame(rows: Seq<Seq<FrameV>>, row: int, f: FrameV) -> Seq<Seq<FrameV>> {
    let g = grown(rows, row + 1);
    g.update(row, g[row].push(f))
}

/// The frame of a tree at `x`.
pub open spec fn tree_frame(t: Tree, x: int) -> FrameV {
    FrameV {
        name: t.name,
        x_start: x,
        width: t.total,
        self_samples: t.self_samples,
        total_samples: t.total,
        is_selected: false,
    }
}

/// `rows` with the trees from `i` on laid out from `x`: one beside the other,
/// children from the start of their parent. A tree's row is its depth; with
/// `bottom`, it is so far above `bottom` as its tree is high, so that all leaves
/// are in the same row.
pub open spec fn laid_out(
    trees: Seq<Tree>,
    i: int,
    x: int,
    depth: int,
    bottom: Option<int>,
    rows: Seq<Seq<FrameV>>,
) -> Seq<Seq<FrameV>>
    decreases trees, trees.len() - i,
{
    if i < 0 || i >= trees.len() {
        rows
    } else {
        let t = trees[i];
        let row = match bottom {
            Some(b) => b - (1 + height(t.children)),
            None => depth,
        };
        let with_self = with_frame(rows, row, tree_frame(t, x));
        let with_children = laid_out(t.children, 0, x, depth + 1, bottom, with_self);
        laid_out(trees, i + 1, x + t.total, depth, bottom, with_children)
    }
}

/// Whether all places of a layout can be counted.
pub open spec fn layout_fits(trees: Seq<Tree>, i: int, x: int) -> bool
    decreases trees, trees.len() - i,
{
    0 <= i < trees.len() ==> {
        &&& layout_fits(trees[i].children, 0, x)
        &&& x + trees[i].total <= u64::MAX
        &&& layout_fits(trees, i + 1, x + trees[i].total)
    }
}

// ── Sandwich ─────────────────────────────────────────────────────────────────

/// The callees of the first `n` occurrences.
pub open spec fn all_callees(fg: FlameGraph, occ: Seq<Occurrence>, n: int) -> Seq<Tree>
    decreases n,
{
    if n <= 0 {
        seq![]
    } else {
        let o = occ[n - 1];
        all_callees(fg, occ, n - 1) + callees(fg, o.level + 1, seq![(o.start, o.start + o.width)])
    }
}

/// The callers of the first `n` occurrences.
pub open spec fn all_callers(fg: FlameGraph, occ: Seq<Occurrence>, n: int) -> Seq<Tree>
    decreases n,
{
    if n <= 0 {
        seq![]
    } else {
        all_callers(fg, occ, n - 1) + callers(fg, 0, occ[n - 1])
    }
}

/// The occurrences of a function in the whole graph.
pub open spec fn occurrences_of(fg: FlameGraph, target: Seq<char>) -> Seq<Occurrence> {
    occurrences(fg, target, fg.levels.len() as int)
}

/// The merged callees of a function.
pub open spec fn callee_trees(fg: FlameGraph, target: Seq<char>) -> Seq<Tree> {
    let occ = occurrences_of(fg, target);
    merged(all_callees(fg, occ, occ.len() as int))
}

/// The merged callers of a function.
pub open spec fn caller_trees(fg: FlameGraph, target: Seq<char>) -> Seq<Tree> {
    let occ = occurrences_of(fg, target);
    merged(all_callers(fg, occ, occ.len() as int))
}

/// The rows of callees, direct callees first.
pub open spec fn callee_rows(fg: FlameGraph, target: Seq<char>) -> Seq<Seq<FrameV>> {
    laid_out(callee_trees(fg, target), 0, 0, 0, None, seq![])
}

/// The rows of callers, direct callers last.
pub open spec fn caller_rows(fg: FlameGraph, target: Seq<char>) -> Seq<Seq<FrameV>> {
    let trees = caller_trees(fg, target);
    grown(laid_out(trees, 0, 0, 0, Some(height(trees)), seq![]), height(trees))
}

/// Whether all that a sandwich view shows can be counted.
pub open spec fn sandwich_fits(fg: FlameGraph, target: Seq<char>) -> bool {
    let occ = occurrences_of(fg, target);
    &&& forall|i: int|
        0 <= i < occ.len() ==> (#[trigger] occ[i]).start + occ[i].width <= u64::MAX
    &&& samples(occ) <= u64::MAX
    &&& forall|i: int|
        0 <= i < occ.len() ==> callees_fit(
            fg,
            (#[trigger] occ[i]).level + 1,
            seq![(occ[i].start, occ[i].start + occ[i].width)],
        )
    &&& merge_fits(all_callees(fg, occ, occ.len() as int))
    &&& layout_fits(callee_trees(fg, target), 0, 0)
    &&& forall|i: int| 0 <= i < occ.len() ==> callers_fit(fg, 0, #[trigger] occ[i])
    &&& merge_fits(all_callers(fg, occ, occ.len() as int))
    &&& layout_fits(caller_trees(fg, target), 0, 0)
}

// ── Trees under construction ─────────────────────────────────────────────────

struct SandwichNode {
    name: String,
    total: u64,
    self_s: u64,
    children: Vec<SandwichNode>,
}

impl SandwichNode {
    spec fn value(self) -> Tree
        decreases self,
    {
        Tree {
            name: self.name@,
            total: self.total as int,
            self_samples: self.self_s as int,
            children: Seq::new(
                self.children.len() as nat,
                |i: int|
                    if 0 <= i < self.children.len() {
                        self.children[i].value()
                    } else {
                        arbitrary()
                    },
            ),
        }
    }
}

spec fn trees_of(v: Seq<SandwichNode>) -> Seq<Tree> {
    v.map_values(|n: SandwichNode| n.value())
}

proof fn lemma_value(n: SandwichNode)
    ensures
        n.value().name == n.name@,
        n.value().total == n.total,
        n.value().self_samples == n.self_s,
        n.value().children == trees_of(n.children@),
{
    assert(n.value().children =~= trees_of(n.children@));
}

/// Ranges as mathematical integers.
spec fn int_ranges(v: Seq<(u64, u64)>) -> Seq<(int, int)> {
    v.map_values(|r: (u64, u64)| (r.0 as int, r.1 as int))
}

/// Whether no range is empty.
spec fn proper_ranges(v: Seq<(u64, u64)>) -> bool {
    forall|i: int| 0 <= i < v.len() ==> (#[trigger] v[i]).0 < v[i].1
}

proof fn lemma_length_prefix(ranges: Seq<(int, int)>, k: int)
    requires
        0 <= k <= ranges.len(),
        forall|i: int| 0 <= i < ranges.len() ==> (#[trigger] ranges[i]).0 < ranges[i].1,
    ensures
        0 <= length(ranges.take(k)) <= length(ranges),
        k > 0 ==> length(ranges.take(k)) > 0,
    decreases ranges.len(),
{
    if ranges.len() > 0 {
        let init = ranges.drop_last();
        assert forall|i: int| 0 <= i < init.len() implies (#[trigger] init[i]).0 < init[i].1 by {
            assert(init[i] == ranges[i]);
        }
        if k < ranges.len() {
            lemma_length_prefix(init, k);
            assert(init.take(k) =~= ranges.take(k));
        } else {
            lemma_length_prefix(init, k - 1);
            assert(init.take(k - 1) =~= init);
            assert(ranges.take(k) =~= ranges);
            assert(ranges.last() == ranges[ranges.len() - 1]);
        }
    } else {
        assert(ranges.take(k) =~= seq![]);
    }
}

/// The parts of the ranges that a frame covers, and their length; no length
/// where it cannot be counted.
fn cover_ranges(start: u64, end: u64, ranges: &Vec<(u64, u64)>) -> (r: (Vec<(u64, u64)>, Option<
    u64,
>))
    requires
        start < end,
        proper_ranges(ranges@),
    ensures
        int_ranges(r.0@) == covered(start as int, end as int, int_ranges(ranges@)),
        proper_ranges(r.0@),
        match r.1 {
            Some(n) => n == length(int_ranges(r.0@)),
            None => length(int_ranges(r.0@)) > u64::MAX,
        },
        r.1 == Some(0u64) <==> r.0.len() == 0,
{
    let mut out: Vec<(u64, u64)> = Vec::new();
    let mut sum: Option<u64> = Some(0);
    let mut i: usize = 0;
    let ghost all = int_ranges(ranges@);
    assert(int_ranges(out@) =~= seq![]);
    assert(all.take(0) =~= seq![]);
    while i < ranges.len()
        invariant
            i <= ranges.len(),
            start < end,
            proper_ranges(ranges@),
            all == int_ranges(ranges@),
            int_ranges(out@) == covered(start as int, end as int, all.take(i as int)),
            proper_ranges(out@),
            length(int_ranges(out@)) >= 0,
            match sum {
                Some(n) => n == length(int_ranges(out@)),
                None => length(int_ranges(out@)) > u64::MAX,
            },
            sum == Some(0u64) <==> out.len() == 0,
        decreases ranges.len() - i,
    {
        let (from, to) = ranges[i];
        proof {
            let upto = all.take(i + 1);
            assert(upto.drop_last() =~= all.take(i as int));
            assert(upto.last() == (from as int, to as int));
            assert(ranges@[i as int].0 < ranges@[i as int].1);
        }
        if start < to && end > from {
            let a = if start > from {
                start
            } else {
                from
            };
            let b = if end < to {
                end
            } else {
                to
            };
            let ghost before = int_ranges(out@);
            out.push((a, b));
            proof {
                assert(int_ranges(out@) =~= before.push((a as int, b as int)));
                assert(int_ranges(out@).drop_last() =~= before);
            }
            sum = match sum {
                Some(n) => if n > u64::MAX - (b - a) {
                    None
                } else {
                    Some(n + (b - a))
                },
                None => None,
            };
        }
        i += 1;
    }
    assert(all.take(i as int) =~= all);
    (out, sum)
}

proof fn lemma_callees_height(fg: FlameGraph, level: int, ranges: Seq<(int, int)>, n: int)
    requires
        0 <= level <= fg.levels.len(),
    ensures
        height(callees_upto(fg, level, ranges, n)) <= fg.levels.len() - level,
        height(callees(fg, level, ranges)) <= fg.levels.len() - level,
    decreases fg.levels.len() - level, n, 0int,
{
    lemma_callees_upto_height(fg, level, ranges, n);
    if level < fg.levels.len() {
        lemma_callees_upto_height(fg, level, ranges, frame_count(fg.levels@[level].values@));
    }
}

proof fn lemma_callees_upto_height(fg: FlameGraph, level: int, ranges: Seq<(int, int)>, n: int)
    requires
        0 <= level <= fg.levels.len(),
    ensures
        height(callees_upto(fg, level, ranges, n)) <= fg.levels.len() - level,
    decreases fg.levels.len() - level, n,
{
    if n > 0 && level < fg.levels.len() {
        let v = fg.levels@[level].values@;
        let before = callees_upto(fg, level, ranges, n - 1);
        let cover = frame_cover(fg, level, n - 1, ranges);
        lemma_callees_upto_height(fg, level, ranges, n - 1);
        if level + 1 < fg.levels.len() {
            lemma_callees_upto_height(
                fg,
                level + 1,
                cover,
                frame_count(fg.levels@[level + 1].values@),
            );
        }
        let t = Tree {
            name: frame_name(fg.names@, v, n - 1),
            total: length(cover),
            self_samples: self_share(v, n - 1, length(cover)),
            children: callees(fg, level + 1, cover),
        };
        lemma_height_push(before, t);
    }
}

proof fn lemma_callees_fit_upto(
    fg: FlameGraph,
    level: int,
    ranges: Seq<(int, int)>,
    m: int,
    n: int,
)
    requires
        m <= n,
        level < fg.levels.len(),
        !callees_fit_upto(fg, level, ranges, m),
    ensures
        !callees_fit_upto(fg, level, ranges, n),
    decreases n - m,
{
    if m < n {
        lemma_callees_fit_upto(fg, level, ranges, m, n - 1);
    }
}

/// Collect callee frames at `level` that intersect any of `ranges`, with what
/// they call in turn. `None` where the samples cannot be counted.
fn build_callee_subtree(fg: &FlameGraph, level: usize, ranges: &Vec<(u64, u64)>) -> (r: Option<
    Vec<SandwichNode>,
>)
    requires
        level <= fg.levels.len(),
        proper_ranges(ranges@),
    ensures
        match r {
            Some(v) => {
                &&& callees_fit(*fg, level as int, int_ranges(ranges@))
                &&& trees_of(v@) == callees(*fg, level as int, int_ranges(ranges@))
            },
            None => !callees_fit(*fg, level as int, int_ranges(ranges@)),
        },
    decreases fg.levels.len() - level,
{
    let mut nodes: Vec<SandwichNode> = Vec::new();
    let ghost all = int_ranges(ranges@);
    assert(trees_of(nodes@) =~= seq![]);
    assert(all.len() == ranges.len());
    if level >= fg.levels.len() || ranges.len() == 0 {
        return Some(nodes);
    }
    let raw = &fg.levels[level].values;
    let count = raw.len() / 4;
    let mut i: usize = 0;
    while i < count
        invariant
            i <= count == frame_count(raw@),
            level < fg.levels.len(),
            raw@ == fg.levels@[level as int].values@,
            proper_ranges(ranges@),
            all == int_ranges(ranges@),
            all.len() > 0,
            trees_of(nodes@) == callees_upto(*fg, level as int, all, i as int),
            callees_fit_upto(*fg, level as int, all, i as int),
        decreases count - i,
    {
        let (fx, fw) = frame_at(raw, i);
        let ghost before = trees_of(nodes@);
        if fw > 0 {
            if fx > u64::MAX - fw {
                proof {
                    lemma_callees_fit_upto(*fg, level as int, all, i + 1, count as int);
                }
                return None;
            }
            let (cover, sum) = cover_ranges(fx, fx + fw, ranges);
            assert(int_ranges(cover@) == frame_cover(*fg, level as int, i as int, all));
            match sum {
                None => {
                    proof {
                        lemma_callees_fit_upto(*fg, level as int, all, i + 1, count as int);
                    }
                    return None;
                },
                Some(total) => {
                    if total > 0 {
                        let children = match build_callee_subtree(fg, level + 1, &cover) {
                            Some(c) => c,
                            None => {
                                proof {
                                    lemma_callees_fit_upto(*fg, level as int, all, i + 1, count as int);
                                }
                                return None;
                            },
                        };
                        assert(raw@.len() == raw.len());
                        let fs: u64 = #[verifier::truncate]
                        (raw[i * 4 + 2] as u64);
                        assert(fs * total <= 0xffff_ffff_ffff_ffff * 0xffff_ffff_ffff_ffff)
                            by (nonlinear_arith)
                            requires
                                0 <= fs <= 0xffff_ffff_ffff_ffff,
                                0 <= total <= 0xffff_ffff_ffff_ffff,
                        ;
                        let share: u128 = fs as u128 * total as u128 / fw as u128;
                        let self_s: u64 = #[verifier::truncate]
                        (share as u64);
                        let node = SandwichNode {
                            name: name_at(&fg.names, raw, i),
                            total,
                            self_s,
                            children,
                        };
                        let ghost value = node.value();
                        proof {
                            lemma_value(node);
                        }
                        nodes.push(node);
                        assert(trees_of(nodes@) =~= before.push(value));
                    }
                },
            }
        }
        i += 1;
    }
    assert(trees_of(nodes@) == callees(*fg, level as int, all));
    Some(nodes)
}

/// Find the first frame that `x` lies in. `None` where a frame before it ends
/// where it cannot be counted.
fn find_frame_over(v: &Vec<i64>, x: u64) -> (r: Option<Option<usize>>)
    ensures
        match r {
            Some(Some(i)) => {
                &&& search_fits(v@, 0, x as int)
                &&& frame_over(v@, 0, x as int) == Some(i as int)
                &&& i < frame_count(v@)
            },
            Some(None) => search_fits(v@, 0, x as int) && frame_over(v@, 0, x as int) is None,
            None => !search_fits(v@, 0, x as int),
        },
{
    let mut i: usize = 0;
    while i < v.len() / 4
        invariant
            i <= frame_count(v@),
            search_fits(v@, 0, x as int) == search_fits(v@, i as int, x as int),
            frame_over(v@, 0, x as int) == frame_over(v@, i as int, x as int),
        decreases v.len() - i,
    {
        let (fx, fw) = frame_at(v, i);
        if fw > 0 && fx <= x {
            if fx > u64::MAX - fw {
                return None;
            }
            if fx + fw > x {
                return Some(Some(i));
            }
        }
        i += 1;
    }
    Some(None)
}

proof fn lemma_callers_height(fg: FlameGraph, level: int, occ: Occurrence)
    requires
        0 <= level <= occ.level,
    ensures
        height(callers(fg, level, occ)) <= occ.level - level,
    decreases occ.level - level,
{
    if level < occ.level {
        lemma_callers_height(fg, level + 1, occ);
        let v = fg.levels@[level].values@;
        match frame_over(v, 0, occ.start) {
            None => {},
            Some(i) => {
                let t = Tree {
                    name: frame_name(fg.names@, v, i),
                    total: occ.width,
                    self_samples: 0,
                    children: callers(fg, level + 1, occ),
                };
                lemma_height_push(seq![], t);
                assert(Seq::<Tree>::empty().push(t) =~= seq![t]);
            },
        }
    }
}

/// Walk from `level` toward an occurrence, following the frame that contains
/// its start, to a chain credited with its width. `None` where an offset cannot
/// be counted.
fn build_caller_chain(
    fg: &FlameGraph,
    level: usize,
    occ_level: usize,
    occ_start: u64,
    occ_width: u64,
) -> (r: Option<Vec<SandwichNode>>)
    requires
        level <= occ_level < fg.levels.len(),
    ensures
        ({
            let occ = Occurrence {
                level: occ_level as int,
                start: occ_start as int,
                width: occ_width as int,
            };
            match r {
                Some(v) => callers_fit(*fg, level as int, occ) && trees_of(v@) == callers(
                    *fg,
                    level as int,
                    occ,
                ),
                None => !callers_fit(*fg, level as int, occ),
            }
        }),
    decreases occ_level - level,
{
    let mut nodes: Vec<SandwichNode> = Vec::new();
    assert(trees_of(nodes@) =~= seq![]);
    if level >= occ_level {
        return Some(nodes);
    }
    let raw = &fg.levels[level].values;
    match find_frame_over(raw, occ_start) {
        None => None,
        Some(None) => Some(nodes),
        Some(Some(i)) => {
            let children = match build_caller_chain(
                fg,
                level + 1,
                occ_level,
                occ_start,
                occ_width,
            ) {
                Some(c) => c,
                None => {
                    return None;
                },
            };
            let node = SandwichNode {
                name: name_at(&fg.names, raw, i),
                total: occ_width,
                self_s: 0,
                children,
            };
            let ghost value = node.value();
            proof {
                lemma_value(node);
            }
            nodes.push(node);
            assert(trees_of(nodes@) =~= seq![value]);
            Some(nodes)
        },
    }
}

/// Occurrences as mathematical values.
spec fn occurrence_values(v: Seq<(usize, u64, u64)>) -> Seq<Occurrence> {
    v.map_values(
        |o: (usize, u64, u64)|
            Occurrence { level: o.0 as int, start: o.1 as int, width: o.2 as int },
    )
}

/// Find all occurrences of a function.
fn find_occurrences(fg: &FlameGraph, target: &str) -> (r: Vec<(usize, u64, u64)>)
    ensures
        occurrence_values(r@) == occurrences_of(*fg, target@),
        forall|i: int|
            0 <= i < r.len() ==> (#[trigger] r@[i]).0 < fg.levels.len() && r@[i].2 > 0,
{
    let mut out: Vec<(usize, u64, u64)> = Vec::new();
    let mut l: usize = 0;
    assert(occurrence_values(out@) =~= seq![]);
    while l < fg.levels.len()
        invariant
            l <= fg.levels.len(),
            occurrence_values(out@) == occurrences(*fg, target@, l as int),
            forall|i: int|
                0 <= i < out.len() ==> (#[trigger] out@[i]).0 < fg.levels.len() && out@[i].2 > 0,
        decreases fg.levels.len() - l,
    {
        let raw = &fg.levels[l].values;
        let ghost before = occurrence_values(out@);
        let count = raw.len() / 4;
        let mut i: usize = 0;
        assert(before + level_occurrences(*fg, target@, l as int, 0) =~= before);
        while i < count
            invariant
                i <= count == frame_count(raw@),
                l < fg.levels.len(),
                raw@ == fg.levels@[l as int].values@,
                occurrence_values(out@) == before + level_occurrences(
                    *fg,
                    target@,
                    l as int,
                    i as int,
                ),
                forall|i: int|
                    0 <= i < out.len() ==> (#[trigger] out@[i]).0 < fg.levels.len() && out@[i].2
                        > 0,
            decreases count - i,
        {
            let (start, w) = frame_at(raw, i);
            assert(raw@.len() == raw.len());
            if w > 0 {
                let index: usize = #[verifier::truncate]
                (raw[i * 4 + 3] as usize);
                if index < fg.names.len() && str_eq(fg.names[index].as_str(), target) {
                    let ghost so_far = occurrence_values(out@);
                    out.push((l, start, w));
                    let ghost value = Occurrence {
                        level: l as int,
                        start: start as int,
                        width: w as int,
                    };
                    assert(occurrence_values(out@) =~= so_far.push(value));
                    assert(before + level_occurrences(*fg, target@, l as int, i + 1) =~= (before
                        + level_occurrences(*fg, target@, l as int, i as int)).push(value));
                }
            }
            i += 1;
        }
        l += 1;
    }
    out
}

// ── Merging ──────────────────────────────────────────────────────────────────

proof fn lemma_sums_prefix(trees: Seq<Tree>, name: Seq<char>, k: int)
    requires
        0 <= k <= trees.len(),
        forall|i: int|
            0 <= i < trees.len() ==> (#[trigger] trees[i]).total >= 0 && trees[i].self_samples
                >= 0,
    ensures
        0 <= total_of(trees.take(k), name) <= total_of(trees, name),
        0 <= self_of(trees.take(k), name) <= self_of(trees, name),
    decreases trees.len(),
{
    if trees.len() == 0 {
        assert(trees.take(k) =~= seq![]);
    } else {
        let init = trees.drop_last();
        assert forall|i: int| 0 <= i < init.len() implies (#[trigger] init[i]).total >= 0
            && init[i].self_samples >= 0 by {
            assert(init[i] == trees[i]);
        }
        assert(trees.last() == trees[trees.len() - 1]);
        if k < trees.len() {
            lemma_sums_prefix(init, name, k);
            assert(init.take(k) =~= trees.take(k));
        } else {
            lemma_sums_prefix(init, name, k - 1);
            assert(init.take(k - 1) =~= init);
            assert(trees.take(k) =~= trees);
        }
    }
}

fn position_of(names: &Vec<String>, name: &str) -> (r: Option<usize>)
    ensures
        match r {
            Some(i) => {
                &&& i < names.len()
                &&& names@[i as int]@ == name@
                &&& forall|k: int| 0 <= k < i ==> (#[trigger] names@[k])@ != name@
            },
            None => forall|k: int| 0 <= k < names.len() ==> (#[trigger] names@[k])@ != name@,
        },
{
    let mut i: usize = 0;
    while i < names.len()
        invariant
            i <= names.len(),
            forall|k: int| 0 <= k < i ==> (#[trigger] names@[k])@ != name@,
        decreases names.len() - i,
    {
        if str_eq(names[i].as_str(), name) {
            return Some(i);
        }
        i += 1;
    }
    None
}

/// The names of nodes, each once, in the order of text.
fn distinct_node_names(nodes: &Vec<SandwichNode>) -> (r: Vec<String>)
    ensures
        texts(r@) == distinct_names(trees_of(nodes@)),
{
    let ghost all = names_of(trees_of(nodes@));
    let mut names: Vec<String> = Vec::new();
    let mut i: usize = 0;
    assert(texts(names@) =~= all.take(0));
    while i < nodes.len()
        invariant
            i <= nodes.len(),
            all == names_of(trees_of(nodes@)),
            texts(names@) == all.take(i as int),
        decreases nodes.len() - i,
    {
        let ghost before = texts(names@);
        names.push(nodes[i].name.clone());
        proof {
            lemma_value(nodes@[i as int]);
            assert(texts(names@) =~= before.push(nodes@[i as int].name@));
            assert(all.take(i + 1) =~= all.take(i as int).push(nodes@[i as int].name@));
        }
        i += 1;
    }
    assert(all.take(i as int) =~= all);
    sort_strings(&mut names);
    drop_repeats(&names)
}

/// Whether `g` holds what the first `k` of `trees` sum up to under its name.
spec fn group_sums(g: SandwichNode, trees: Seq<Tree>, k: int, name: Seq<char>) -> bool {
    &&& g.name@ == name
    &&& g.total == total_of(trees.take(k), name)
    &&& g.self_s == self_of(trees.take(k), name)
    &&& trees_of(g.children@) == children_of(trees.take(k), name)
}

/// Groups nodes by name, with samples added up and children gathered. `None`
/// where a sum cannot be counted.
fn group_nodes(nodes: Vec<SandwichNode>, names: &Vec<String>) -> (r: Option<Vec<SandwichNode>>)
    requires
        texts(names@) == distinct_names(trees_of(nodes@)),
    ensures
        ({
            let trees = trees_of(nodes@);
            match r {
                Some(groups) => {
                    &&& groups.len() == names.len()
                    &&& forall|i: int|
                        0 <= i < groups.len() ==> group_sums(
                            #[trigger] groups@[i],
                            trees,
                            trees.len() as int,
                            distinct_names(trees)[i],
                        )
                },
                None => exists|i: int|
                    0 <= i < distinct_names(trees).len() && (total_of(
                        trees,
                        #[trigger] distinct_names(trees)[i],
                    ) > u64::MAX || self_of(trees, distinct_names(trees)[i]) > u64::MAX),
            }
        }),
{
    let ghost trees = trees_of(nodes@);
    let ghost distinct = distinct_names(trees);
    let ghost initial = nodes@;
    proof {
        lemma_distinct_texts(names_of(trees));
        assert(distinct.len() == names.len());
    }
    let mut groups: Vec<SandwichNode> = Vec::new();
    let mut g: usize = 0;
    assert(trees.take(0) =~= seq![]);
    while g < names.len()
        invariant
            g <= names.len(),
            texts(names@) == distinct,
            groups.len() == g,
            trees.take(0) == Seq::<Tree>::empty(),
            forall|i: int|
                0 <= i < g ==> group_sums(#[trigger] groups@[i], trees, 0, distinct[i]),
        decreases names.len() - g,
    {
        let node = SandwichNode {
            name: names[g].clone(),
            total: 0,
            self_s: 0,
            children: Vec::new(),
        };
        proof {
            assert(distinct[g as int] == names@[g as int]@);
            assert(trees_of(node.children@) =~= seq![]);
        }
        groups.push(node);
        g += 1;
    }
    let mut rest = nodes;
    let mut k: usize = 0;
    while k < rest.len()
        invariant
            k <= rest.len(),
            rest.len() == initial.len(),
            initial == nodes@,
            trees == trees_of(initial),
            distinct == distinct_names(trees),
            distinct.no_duplicates(),
            forall|x: Seq<char>| distinct.contains(x) <==> names_of(trees).contains(x),
            texts(names@) == distinct,
            groups.len() == names.len(),
            forall|j: int| k <= j < rest.len() ==> #[trigger] rest@[j] == initial[j],
            forall|i: int|
                0 <= i < groups.len() ==> group_sums(
                    #[trigger] groups@[i],
                    trees,
                    k as int,
                    distinct[i],
                ),
        decreases rest.len() - k,
    {
        let ghost node = initial[k as int];
        let ghost upto = trees.take(k + 1);
        proof {
            lemma_value(node);
            assert(trees[k as int] == node.value());
            assert(upto.drop_last() =~= trees.take(k as int));
            assert(upto.last() == node.value());
            assert(names_of(trees)[k as int] == node.name@);
            assert(distinct.contains(node.name@));
            assert(distinct.len() == names.len());
            assert forall|i: int| 0 <= i < trees.len() implies (#[trigger] trees[i]).total >= 0
                && trees[i].self_samples >= 0 by {
                lemma_value(initial[i]);
            }
        }
        let found = position_of(names, rest[k].name.as_str());
        let g = match found {
            Some(g) => g,
            None => {
                proof {
                    let i = choose|i: int| 0 <= i < distinct.len() && distinct[i] == node.name@;
                    assert(texts(names@)[i] == names@[i]@);
                    assert(false);
                }
                0
            },
        };
        assert(texts(names@)[g as int] == names@[g as int]@);
        let total = rest[k].total;
        let self_s = rest[k].self_s;
        let ghost before = groups@;
        assert(group_sums(groups@[g as int], trees, k as int, distinct[g as int]));
        if groups[g].total > u64::MAX - total || groups[g].self_s > u64::MAX - self_s {
            proof {
                lemma_sums_prefix(trees, node.name@, k + 1);
                assert(distinct[g as int] == node.name@);
            }
            return None;
        }
        let mut children: Vec<SandwichNode> = Vec::new();
        core::mem::swap(&mut children, &mut rest[k].children);
        assert(children@ == node.children@);
        let ghost gathered = trees_of(groups@[g as int].children@);
        groups[g].total = groups[g].total + total;
        groups[g].self_s = groups[g].self_s + self_s;
        groups[g].children.append(&mut children);
        proof {
            assert(trees_of(groups@[g as int].children@) =~= gathered + trees_of(node.children@));
            assert forall|i: int| 0 <= i < groups.len() implies group_sums(
                #[trigger] groups@[i],
                trees,
                k + 1,
                distinct[i],
            ) by {
                assert(group_sums(before[i], trees, k as int, distinct[i]));
                if i != g {
                    assert(groups@[i] == before[i]);
                    assert(distinct[i] != distinct[g as int]);
                }
            }
        }
        k += 1;
    }
    assert(trees.take(k as int) =~= trees);
    Some(groups)
}

/// The nodes, those with more samples first.
fn sort_nodes(nodes: Vec<SandwichNode>) -> (r: Vec<SandwichNode>)
    ensures
        ({
            let m = trees_of(nodes@);
            trees_of(r@) == arranged(m, stable_order(m.map_values(|t: Tree| -t.total)))
        }),
{
    let ghost m = trees_of(nodes@);
    let ghost initial = nodes@;
    let mut keys: Vec<i128> = Vec::new();
    let mut i: usize = 0;
    while i < nodes.len()
        invariant
            i <= nodes.len(),
            keys.len() == i,
            forall|k: int| 0 <= k < i ==> #[trigger] keys@[k] == -nodes@[k].total,
        decreases nodes.len() - i,
    {
        keys.push(-(nodes[i].total as i128));
        i += 1;
    }
    let order = order_by_keys(&keys);
    let ghost keys_ = m.map_values(|t: Tree| -t.total);
    proof {
        assert forall|k: int| 0 <= k < nodes.len() implies int_keys(keys@)[k] == keys_[k] by {
            lemma_value(nodes@[k]);
        }
        assert(int_keys(keys@) =~= keys_);
        lemma_stable_order(keys_);
        assert forall|a: int, b: int| 0 <= a < b < order.len() implies #[trigger] order@[a]
            != #[trigger] order@[b] by {
            assert(places(order@)[a] == stable_order(keys_)[a]);
            assert(places(order@)[b] == stable_order(keys_)[b]);
        }
    }
    let mut rest = nodes;
    let mut out: Vec<SandwichNode> = Vec::new();
    let mut k: usize = 0;
    while k < order.len()
        invariant
            k <= order.len(),
            rest.len() == initial.len(),
            order.len() == initial.len(),
            forall|k: int| 0 <= k < order.len() ==> #[trigger] order@[k] < rest.len(),
            forall|a: int, b: int|
                0 <= a < b < order.len() ==> #[trigger] order@[a] != #[trigger] order@[b],
            forall|j: int|
                k <= j < order.len() ==> #[trigger] rest@[order@[j] as int]
                    == initial[order@[j] as int],
            out.len() == k,
            forall|j: int| 0 <= j < k ==> #[trigger] out@[j] == initial[order@[j] as int],
        decreases order.len() - k,
    {
        let i = order[k];
        let mut node = SandwichNode {
            name: String::new(),
            total: 0,
            self_s: 0,
            children: Vec::new(),
        };
        let ghost before = rest@;
        assert(rest@[order@[k as int] as int] == initial[order@[k as int] as int]);
        core::mem::swap(&mut node, &mut rest[i]);
        assert(node == initial[i as int]);
        out.push(node);
        assert forall|j: int| k + 1 <= j < order.len() implies #[trigger] rest@[order@[j] as int]
            == initial[order@[j] as int] by {
            assert(order@[j] != order@[k as int]);
            assert(before[order@[j] as int] == initial[order@[j] as int]);
        }
        k += 1;
    }
    proof {
        assert(places(order@).len() == order.len());
        assert forall|j: int| 0 <= j < out.len() implies trees_of(out@)[j] == arranged(
            m,
            stable_order(keys_),
        )[j] by {
            assert(out@[j] == initial[order@[j] as int]);
            assert(places(order@)[j] == order@[j]);
        }
        assert(trees_of(out@) =~= arranged(m, stable_order(keys_)));
    }
    out
}

/// Merge nodes with the same name, summing samples and merging children in
/// turn. `None` where a sum cannot be counted.
fn merge_nodes(nodes: Vec<SandwichNode>) -> (r: Option<Vec<SandwichNode>>)
    ensures
        match r {
            Some(v) => merge_fits(trees_of(nodes@)) && trees_of(v@) == merged(trees_of(nodes@)),
            None => !merge_fits(trees_of(nodes@)),
        },
    decreases height(trees_of(nodes@)),
{
    let ghost trees = trees_of(nodes@);
    if nodes.len() == 0 {
        proof {
            assert(trees =~= seq![]);
            let m = merged_by_name(trees);
            lemma_stable_order(m.map_values(|t: Tree| -t.total));
            assert(merged(trees) =~= seq![]);
        }
        return Some(nodes);
    }
    let ghost distinct = distinct_names(trees);
    let names = distinct_node_names(&nodes);
    assert(distinct.len() == names.len());
    let mut groups = match group_nodes(nodes, &names) {
        Some(g) => g,
        None => {
            return None;
        },
    };
    assert(trees.take(trees.len() as int) =~= trees);
    let ghost m = merged_by_name(trees);
    let mut g: usize = 0;
    while g < groups.len()
        invariant
            g <= groups.len(),
            trees == trees_of(nodes@),
            trees.len() > 0,
            distinct == distinct_names(trees),
            groups.len() == distinct.len(),
            m == merged_by_name(trees),
            trees.take(trees.len() as int) == trees,
            forall|i: int|
                g <= i < groups.len() ==> group_sums(
                    #[trigger] groups@[i],
                    trees,
                    trees.len() as int,
                    distinct[i],
                ),
            forall|i: int| 0 <= i < g ==> (#[trigger] groups@[i]).value() == m[i],
            forall|i: int|
                #![trigger distinct[i]]
                0 <= i < g ==> {
                    &&& total_of(trees, distinct[i]) <= u64::MAX
                    &&& self_of(trees, distinct[i]) <= u64::MAX
                    &&& merge_fits(children_of(trees, distinct[i]))
                },
        decreases groups.len() - g,
    {
        assert(group_sums(groups@[g as int], trees, trees.len() as int, distinct[g as int]));
        let ghost before = groups@;
        let mut children: Vec<SandwichNode> = Vec::new();
        core::mem::swap(&mut children, &mut groups[g].children);
        proof {
            lemma_children_height(trees, distinct[g as int]);
            assert(trees_of(children@) == children_of(trees, distinct[g as int]));
        }
        let children = match merge_nodes(children) {
            Some(c) => c,
            None => {
                assert(!merge_fits(children_of(trees, distinct[g as int])));
                return None;
            },
        };
        groups[g].children = children;
        proof {
            lemma_value(groups@[g as int]);
            assert(groups@[g as int].value() == m[g as int]);
            assert forall|i: int| g + 1 <= i < groups.len() implies group_sums(
                #[trigger] groups@[i],
                trees,
                trees.len() as int,
                distinct[i],
            ) by {
                assert(groups@[i] == before[i]);
            }
        }
        g += 1;
    }
    assert(trees_of(groups@) =~= m);
    Some(sort_nodes(groups))
}

// ── Layout ───────────────────────────────────────────────────────────────────

proof fn lemma_height_member(trees: Seq<Tree>, i: int, k: int)
    requires
        0 <= i < k <= trees.len(),
    ensures
        0 < 1 + height(trees[i].children) <= height_upto(trees, k),
    decreases k,
{
    let inner = trees[i].children;
    lemma_height_prefix(inner, inner, inner.len() as int);
    if i < k - 1 {
        lemma_height_member(trees, i, k - 1);
    }
}

proof fn lemma_height_bound(trees: Seq<Tree>, k: int, h: int)
    requires
        0 <= k <= trees.len(),
        h >= 0,
        forall|i: int| 0 <= i < k ==> 1 + height((#[trigger] trees[i]).children) <= h,
    ensures
        height_upto(trees, k) <= h,
    decreases k,
{
    if k > 0 {
        lemma_height_bound(trees, k - 1, h);
        assert(1 + height(trees[k - 1].children) <= h);
    }
}

/// Merging does not make trees higher.
proof fn lemma_merged_height(trees: Seq<Tree>)
    ensures
        height(merged(trees)) <= height(trees),
        height(trees) >= 0,
    decreases height(trees),
{
    lemma_height_prefix(trees, trees, trees.len() as int);
    let m = merged_by_name(trees);
    let keys = m.map_values(|t: Tree| -t.total);
    let all = merged(trees);
    lemma_stable_order(keys);
    assert forall|i: int| 0 <= i < all.len() implies 1 + height((#[trigger] all[i]).children)
        <= height(trees) by {
        let p = stable_order(keys)[i];
        assert(all[i] == m[p]);
        let name = distinct_names(trees)[p];
        lemma_children_height(trees, name);
        lemma_merged_height(children_of(trees, name));
    }
    lemma_height_bound(all, all.len() as int, height(trees));
}

/// Height of the deepest leaf reachable from `nodes` (leaf = 1, empty = 0).
fn subtree_height(nodes: &Vec<SandwichNode>) -> (r: usize)
    requires
        height(trees_of(nodes@)) <= usize::MAX,
    ensures
        r == height(trees_of(nodes@)),
    decreases nodes,
{
    let ghost trees = trees_of(nodes@);
    let mut best: usize = 0;
    let mut i: usize = 0;
    while i < nodes.len()
        invariant
            i <= nodes.len(),
            trees == trees_of(nodes@),
            height(trees) <= usize::MAX,
            best == height_upto(trees, i as int),
        decreases nodes.len() - i,
    {
        proof {
            lemma_value(nodes@[i as int]);
            lemma_height_member(trees, i as int, trees.len() as int);
            assert(trees[i as int].children == trees_of(nodes@[i as int].children@));
        }
        let h = 1 + subtree_height(&nodes[i].children);
        if h > best {
            best = h;
        }
        i += 1;
    }
    best
}

/// Adds empty rows up to `n`.
fn grow_rows(levels: &mut Vec<FlamegraphLevelView>, n: usize)
    ensures
        rows(final(levels)@) == grown(rows(old(levels)@), n as int),
        final(levels).len() >= n,
{
    let ghost before = rows(levels@);
    while levels.len() < n
        invariant
            before.len() <= levels.len(),
            before.len() < n ==> levels.len() <= n,
            before.len() >= n ==> levels.len() == before.len(),
            rows(levels@) =~= grown(before, levels.len() as int),
        decreases n - levels.len(),
    {
        let level = FlamegraphLevelView { frames: Vec::new() };
        assert(level@ =~= Seq::<FrameV>::empty());
        let ghost so_far = rows(levels@);
        levels.push(level);
        assert(rows(levels@) =~= so_far.push(Seq::<FrameV>::empty()));
    }
    assert(rows(levels@) =~= grown(before, n as int));
}

/// Adds a frame to a row.
fn add_frame(levels: &mut Vec<FlamegraphLevelView>, row: usize, frame: FlamegraphFrameView)
    requires
        row < usize::MAX,
    ensures
        rows(final(levels)@) == with_frame(rows(old(levels)@), row as int, frame@),
{
    grow_rows(levels, row + 1);
    let ghost before = rows(levels@);
    let ghost list = levels@[row as int]@;
    let ghost value = frame@;
    levels[row].frames.push(frame);
    proof {
        assert(levels@[row as int]@ =~= list.push(value));
        assert(rows(levels@) =~= before.update(row as int, before[row as int].push(value)));
    }
}

/// Lay out nodes from `x`. False where a place cannot be counted.
fn lay_out(
    nodes: &Vec<SandwichNode>,
    x_start: u64,
    depth: usize,
    bottom: Option<usize>,
    levels: &mut Vec<FlamegraphLevelView>,
) -> (fits: bool)
    requires
        depth + height(trees_of(nodes@)) <= usize::MAX,
        bottom is Some ==> height(trees_of(nodes@)) <= bottom->0,
    ensures
        fits == layout_fits(trees_of(nodes@), 0, x_start as int),
        fits ==> rows(final(levels)@) == laid_out(
            trees_of(nodes@),
            0,
            x_start as int,
            depth as int,
            match bottom {
                Some(b) => Some(b as int),
                None => None,
            },
            rows(old(levels)@),
        ),
    decreases nodes,
{
    let ghost trees = trees_of(nodes@);
    let ghost base: Option<int> = match bottom {
        Some(b) => Some(b as int),
        None => None,
    };
    let ghost start = rows(levels@);
    let mut x: u64 = x_start;
    let mut i: usize = 0;
    while i < nodes.len()
        invariant
            i <= nodes.len(),
            trees == trees_of(nodes@),
            depth + height(trees) <= usize::MAX,
            bottom is Some ==> height(trees) <= bottom->0,
            base == (match bottom {
                Some(b) => Some(b as int),
                None => None::<int>,
            }),
            layout_fits(trees, 0, x_start as int) == layout_fits(trees, i as int, x as int),
            laid_out(trees, 0, x_start as int, depth as int, base, start) == laid_out(
                trees,
                i as int,
                x as int,
                depth as int,
                base,
                rows(levels@),
            ),
        decreases nodes.len() - i,
    {
        let node = &nodes[i];
        proof {
            lemma_value(*node);
            assert(trees[i as int] == node.value());
            lemma_height_member(trees, i as int, trees.len() as int);
        }
        let row = match bottom {
            Some(b) => b - (1 + subtree_height(&node.children)),
            None => depth,
        };
        let frame = FlamegraphFrameView {
            name: node.name.clone(),
            x_start: x,
            width: node.total,
            self_samples: node.self_s,
            total_samples: node.total,
            is_selected: false,
        };
        assert(frame@ == tree_frame(trees[i as int], x as int));
        add_frame(levels, row, frame);
        if !lay_out(&node.children, x, depth + 1, bottom, levels) {
            return false;
        }
        if x > u64::MAX - node.total {
            return false;
        }
        x = x + node.total;
        i += 1;
    }
    true
}

// ── Sandwich ─────────────────────────────────────────────────────────────────

/// The callees of all occurrences, merged. `None` where samples cannot be
/// counted.
fn collect_callees(fg: &FlameGraph, occ: &Vec<(usize, u64, u64)>) -> (r: Option<Vec<SandwichNode>>)
    requires
        forall|i: int|
            0 <= i < occ.len() ==> (#[trigger] occ@[i]).0 < fg.levels.len() && occ@[i].2 > 0
                && occ@[i].1 + occ@[i].2 <= u64::MAX,
    ensures
        ({
            let o = occurrence_values(occ@);
            let fit = forall|i: int|
                0 <= i < o.len() ==> callees_fit(
                    *fg,
                    (#[trigger] o[i]).level + 1,
                    seq![(o[i].start, o[i].start + o[i].width)],
                );
            match r {
                Some(v) => {
                    &&& fit
                    &&& merge_fits(all_callees(*fg, o, o.len() as int))
                    &&& trees_of(v@) == merged(all_callees(*fg, o, o.len() as int))
                    &&& height(trees_of(v@)) <= fg.levels.len()
                },
                None => !(fit && merge_fits(all_callees(*fg, o, o.len() as int))),
            }
        }),
{
    let ghost o = occurrence_values(occ@);
    let mut nodes: Vec<SandwichNode> = Vec::new();
    let mut i: usize = 0;
    assert(trees_of(nodes@) =~= seq![]);
    while i < occ.len()
        invariant
            i <= occ.len(),
            o == occurrence_values(occ@),
            forall|i: int|
                0 <= i < occ.len() ==> (#[trigger] occ@[i]).0 < fg.levels.len() && occ@[i].2 > 0
                    && occ@[i].1 + occ@[i].2 <= u64::MAX,
            forall|k: int|
                0 <= k < i ==> callees_fit(
                    *fg,
                    (#[trigger] o[k]).level + 1,
                    seq![(o[k].start, o[k].start + o[k].width)],
                ),
            trees_of(nodes@) == all_callees(*fg, o, i as int),
            height(trees_of(nodes@)) <= fg.levels.len(),
        decreases occ.len() - i,
    {
        let (level, start, w) = occ[i];
        assert(occ@[i as int].0 < fg.levels.len());
        let mut ranges: Vec<(u64, u64)> = Vec::new();
        ranges.push((start, start + w));
        proof {
            assert(o[i as int] == (Occurrence {
                level: level as int,
                start: start as int,
                width: w as int,
            }));
            assert(int_ranges(ranges@) =~= seq![(start as int, start + w)]);
        }
        match build_callee_subtree(fg, level + 1, &ranges) {
            None => {
                assert(!callees_fit(
                    *fg,
                    o[i as int].level + 1,
                    seq![(o[i as int].start, o[i as int].start + o[i as int].width)],
                ));
                return None;
            },
            Some(more) => {
                let mut more = more;
                let ghost a = trees_of(nodes@);
                let ghost b = trees_of(more@);
                nodes.append(&mut more);
                proof {
                    assert(trees_of(nodes@) =~= a + b);
                    lemma_callees_height(*fg, level + 1, int_ranges(ranges@), 0);
                    lemma_height_add(a, b);
                }
            },
        }
        i += 1;
    }
    proof {
        lemma_merged_height(trees_of(nodes@));
    }
    merge_nodes(nodes)
}

/// The callers of all occurrences, merged. `None` where samples cannot be
/// counted.
fn collect_callers(fg: &FlameGraph, occ: &Vec<(usize, u64, u64)>) -> (r: Option<Vec<SandwichNode>>)
    requires
        forall|i: int| 0 <= i < occ.len() ==> (#[trigger] occ@[i]).0 < fg.levels.len(),
    ensures
        ({
            let o = occurrence_values(occ@);
            let fit = forall|i: int| 0 <= i < o.len() ==> callers_fit(*fg, 0, #[trigger] o[i]);
            match r {
                Some(v) => {
                    &&& fit
                    &&& merge_fits(all_callers(*fg, o, o.len() as int))
                    &&& trees_of(v@) == merged(all_callers(*fg, o, o.len() as int))
                    &&& height(trees_of(v@)) <= fg.levels.len()
                },
                None => !(fit && merge_fits(all_callers(*fg, o, o.len() as int))),
            }
        }),
{
    let ghost o = occurrence_values(occ@);
    let mut nodes: Vec<SandwichNode> = Vec::new();
    let mut i: usize = 0;
    assert(trees_of(nodes@) =~= seq![]);
    while i < occ.len()
        invariant
            i <= occ.len(),
            o == occurrence_values(occ@),
            forall|i: int| 0 <= i < occ.len() ==> (#[trigger] occ@[i]).0 < fg.levels.len(),
            forall|k: int| 0 <= k < i ==> callers_fit(*fg, 0, #[trigger] o[k]),
            trees_of(nodes@) == all_callers(*fg, o, i as int),
            height(trees_of(nodes@)) <= fg.levels.len(),
        decreases occ.len() - i,
    {
        let (level, start, w) = occ[i];
        assert(occ@[i as int].0 < fg.levels.len());
        assert(o[i as int] == (Occurrence {
            level: level as int,
            start: start as int,
            width: w as int,
        }));
        match build_caller_chain(fg, 0, level, start, w) {
            None => {
                assert(!callers_fit(*fg, 0, o[i as int]));
                return None;
            },
            Some(more) => {
                let mut more = more;
                let ghost a = trees_of(nodes@);
                let ghost b = trees_of(more@);
                nodes.append(&mut more);
                proof {
                    assert(trees_of(nodes@) =~= a + b);
                    lemma_callers_height(*fg, 0, o[i as int]);
                    lemma_height_add(a, b);
                }
            },
        }
        i += 1;
    }
    proof {
        lemma_merged_height(trees_of(nodes@));
    }
    merge_nodes(nodes)
}

proof fn lemma_samples_prefix(occ: Seq<Occurrence>, k: int)
    requires
        0 <= k <= occ.len(),
        forall|i: int| 0 <= i < occ.len() ==> (#[trigger] occ[i]).width >= 0,
    ensures
        0 <= samples(occ.take(k)) <= samples(occ),
    decreases occ.len(),
{
    if occ.len() == 0 {
        assert(occ.take(k) =~= seq![]);
    } else {
        let init = occ.drop_last();
        assert forall|i: int| 0 <= i < init.len() implies (#[trigger] init[i]).width >= 0 by {
            assert(init[i] == occ[i]);
        }
        assert(occ.last() == occ[occ.len() - 1]);
        if k < occ.len() {
            lemma_samples_prefix(init, k);
            assert(init.take(k) =~= occ.take(k));
        } else {
            lemma_samples_prefix(init, k - 1);
            assert(init.take(k - 1) =~= init);
            assert(occ.take(k) =~= occ);
        }
    }
}

/// The samples of occurrences. `None` where they, or the end of one of them,
/// cannot be counted.
fn count_samples(occ: &Vec<(usize, u64, u64)>) -> (r: Option<u64>)
    ensures
        ({
            let o = occurrence_values(occ@);
            let fit = samples(o) <= u64::MAX && forall|i: int|
                0 <= i < o.len() ==> (#[trigger] o[i]).start + o[i].width <= u64::MAX;
            match r {
                Some(n) => fit && n == samples(o),
                None => !fit,
            }
        }),
{
    let ghost o = occurrence_values(occ@);
    let mut sum: u64 = 0;
    let mut i: usize = 0;
    assert(o.take(0) =~= seq![]);
    while i < occ.len()
        invariant
            i <= occ.len(),
            o == occurrence_values(occ@),
            sum == samples(o.take(i as int)),
            forall|k: int| 0 <= k < i ==> (#[trigger] o[k]).start + o[k].width <= u64::MAX,
        decreases occ.len() - i,
    {
        let (level, start, w) = occ[i];
        proof {
            assert(o[i as int] == (Occurrence {
                level: level as int,
                start: start as int,
                width: w as int,
            }));
            assert(o.take(i + 1).drop_last() =~= o.take(i as int));
            assert(o.take(i + 1).last() == o[i as int]);
            lemma_samples_prefix(o, i + 1);
        }
        if start > u64::MAX - w || sum > u64::MAX - w {
            return None;
        }
        sum = sum + w;
        i += 1;
    }
    assert(o.take(i as int) =~= o);
    Some(sum)
}

/// Whether `v` shows the callers and callees of a function.
pub open spec fn sandwich_shows(
    fg: FlameGraph,
    target_name: Seq<char>,
    units: Seq<char>,
    v: SandwichView,
) -> bool {
    &&& v.target_name@ == target_name
    &&& v.target_samples == samples(occurrences_of(fg, target_name))
    &&& v.root_samples == fg.total as u64
    &&& rows(v.callers@) == caller_rows(fg, target_name)
    &&& rows(v.callees@) == callee_rows(fg, target_name)
    &&& v.units@ == units
}

/// Whether the sandwich view of a function can be counted.
pub open spec fn sandwich_view_fits(fg: FlameGraph, target_name: Seq<char>) -> bool {
    occurrences_of(fg, target_name).len() == 0 || sandwich_fits(fg, target_name)
}

/// Build a sandwich view for `target_name`, if it occurs in the flamegraph.
/// `None` where it cannot be counted.
pub fn try_build_sandwich_view(fg: &FlameGraph, target_name: &str, units: String) -> (r: Option<
    Option<SandwichView>,
>)
    ensures
        r is Some <==> sandwich_view_fits(*fg, target_name@),
        match r {
            Some(Some(v)) => {
                &&& occurrences_of(*fg, target_name@).len() > 0
                &&& sandwich_shows(*fg, target_name@, units@, v)
            },
            Some(None) => occurrences_of(*fg, target_name@).len() == 0,
            None => true,
        },
{
    let occ = find_occurrences(fg, target_name);
    let ghost o = occurrence_values(occ@);
    assert(o.len() == occ.len());
    if occ.len() == 0 {
        return Some(None);
    }
    let target_samples = match count_samples(&occ) {
        Some(n) => n,
        None => {
            return None;
        },
    };
    assert forall|i: int| 0 <= i < occ.len() implies (#[trigger] occ@[i]).0 < fg.levels.len()
        && occ@[i].2 > 0 && occ@[i].1 + occ@[i].2 <= u64::MAX by {
        assert(o[i].start + o[i].width <= u64::MAX);
    }
    let callee_roots = match collect_callees(fg, &occ) {
        Some(v) => v,
        None => {
            return None;
        },
    };
    let mut callees_view: Vec<FlamegraphLevelView> = Vec::new();
    assert(rows(callees_view@) =~= seq![]);
    if !lay_out(&callee_roots, 0, 0, None, &mut callees_view) {
        return None;
    }
    let caller_roots = match collect_callers(fg, &occ) {
        Some(v) => v,
        None => {
            return None;
        },
    };
    let depth = subtree_height(&caller_roots);
    let mut callers_view: Vec<FlamegraphLevelView> = Vec::new();
    assert(rows(callers_view@) =~= seq![]);
    if !lay_out(&caller_roots, 0, 0, Some(depth), &mut callers_view) {
        return None;
    }
    grow_rows(&mut callers_view, depth);
    let root_samples: u64 = #[verifier::truncate]
    (fg.total as u64);
    Some(
        Some(
            SandwichView {
                target_name: target_name.to_string(),
                target_samples,
                root_samples,
                callers: callers_view,
                callees: callees_view,
                units,
            },
        ),
    )
}

/// Build a sandwich view for `target_name` from the flamegraph.
///
/// The frames that lead to occurrences of the function are merged into callers,
/// each credited with the occurrence's own samples; the frames above them into
/// callees. At each level those with more samples come first, laid out one
/// beside the other from the start of their parent.
pub fn build_sandwich_view(fg: &FlameGraph, target_name: &str, units: String) -> (r: Option<
    SandwichView,
>)
    requires
        sandwich_view_fits(*fg, target_name@),
    ensures
        r is Some <==> occurrences_of(*fg, target_name@).len() > 0,
        match r {
            Some(v) => sandwich_shows(*fg, target_name@, units@, v),
            None => true,
        },
{
    try_build_sandwich_view(fg, target_name, units).unwrap()
}

// ── Laws ─────────────────────────────────────────────────────────────────────

/// Merged trees have different names, and those with more samples come first.
pub proof fn lemma_merged_order(trees: Seq<Tree>)
    ensures
        forall|i: int, j: int|
            #![trigger merged(trees)[i], merged(trees)[j]]
            0 <= i < j < merged(trees).len() ==> {
                &&& merged(trees)[i].name != merged(trees)[j].name
                &&& merged(trees)[i].total >= merged(trees)[j].total
            },
{
    let m = merged_by_name(trees);
    let keys = m.map_values(|t: Tree| -t.total);
    lemma_stable_order(keys);
    lemma_distinct_texts(names_of(trees));
    let all = merged(trees);
    assert forall|i: int, j: int|
        #![trigger merged(trees)[i], merged(trees)[j]]
        0 <= i < j < all.len() implies {
        &&& merged(trees)[i].name != merged(trees)[j].name
        &&& merged(trees)[i].total >= merged(trees)[j].total
    } by {
        let a = stable_order(keys)[i];
        let b = stable_order(keys)[j];
        assert(all[i] == m[a] && all[j] == m[b]);
        assert(a != b && keys[a] <= keys[b]);
        assert(m[a].name == distinct_names(trees)[a]);
        assert(m[b].name == distinct_names(trees)[b]);
    }
}

/// The callers of an occurrence each carry the occurrence's own samples.
pub proof fn lemma_callers_credited(fg: FlameGraph, level: int, occ: Occurrence)
    ensures
        callers(fg, level, occ).len() <= 1,
        callers(fg, level, occ).len() == 1 ==> {
            let t = callers(fg, level, occ)[0];
            &&& t.total == occ.width
            &&& t.self_samples == 0
            &&& t.children == callers(fg, level + 1, occ)
        },
{
}

/// Whether a row has a frame with the name.
pub open spec fn in_row(row: Seq<FrameV>, name: Seq<char>) -> bool {
    exists|k: int| 0 <= k < row.len() && (#[trigger] row[k]).name == name
}

/// Whether all leaves of the trees from `i` on stand in a row.
pub open spec fn leaves_in_row(trees: Seq<Tree>, i: int, row: Seq<FrameV>) -> bool
    decreases trees, trees.len() - i,
{
    0 <= i < trees.len() ==> {
        &&& trees[i].children.len() == 0 ==> in_row(row, trees[i].name)
        &&& leaves_in_row(trees[i].children, 0, row)
        &&& leaves_in_row(trees, i + 1, row)
    }
}

/// A row, which is empty where it does not exist.
spec fn row_at(rows: Seq<Seq<FrameV>>, r: int) -> Seq<FrameV> {
    if 0 <= r < rows.len() {
        rows[r]
    } else {
        seq![]
    }
}

proof fn lemma_leaves_stay(trees: Seq<Tree>, i: int, row: Seq<FrameV>, longer: Seq<FrameV>)
    requires
        leaves_in_row(trees, i, row),
        row.is_prefix_of(longer),
    ensures
        leaves_in_row(trees, i, longer),
    decreases trees, trees.len() - i,
{
    if 0 <= i < trees.len() {
        lemma_leaves_stay(trees[i].children, 0, row, longer);
        lemma_leaves_stay(trees, i + 1, row, longer);
        if in_row(row, trees[i].name) {
            let k = choose|k: int| 0 <= k < row.len() && (#[trigger] row[k]).name == trees[i].name;
            assert(longer[k] == row[k]);
        }
    }
}

proof fn lemma_frame_added(rows: Seq<Seq<FrameV>>, row: int, f: FrameV, r: int)
    requires
        0 <= row,
    ensures
        row_at(rows, r).is_prefix_of(row_at(with_frame(rows, row, f), r)),
        in_row(row_at(with_frame(rows, row, f), row), f.name),
{
    let out = with_frame(rows, row, f);
    let g = grown(rows, row + 1);
    assert(out[row] == g[row].push(f));
    assert(out[row][g[row].len() as int] == f);
}

proof fn lemma_leaves_laid_out(
    trees: Seq<Tree>,
    i: int,
    x: int,
    depth: int,
    bottom: int,
    rows: Seq<Seq<FrameV>>,
)
    requires
        height(trees) <= bottom,
        0 <= i,
    ensures
        ({
            let out = laid_out(trees, i, x, depth, Some(bottom), rows);
            &&& row_at(rows, bottom - 1).is_prefix_of(row_at(out, bottom - 1))
            &&& leaves_in_row(trees, i, row_at(out, bottom - 1))
        }),
    decreases trees, trees.len() - i,
{
    if i < trees.len() {
        let t = trees[i];
        lemma_height_member(trees, i, trees.len() as int);
        let row = bottom - (1 + height(t.children));
        let f = tree_frame(t, x);
        let with_self = with_frame(rows, row, f);
        lemma_frame_added(rows, row, f, bottom - 1);
        lemma_leaves_laid_out(t.children, 0, x, depth + 1, bottom, with_self);
        let inner = laid_out(t.children, 0, x, depth + 1, Some(bottom), with_self);
        lemma_leaves_laid_out(trees, i + 1, x + t.total, depth, bottom, inner);
        let out = laid_out(trees, i + 1, x + t.total, depth, Some(bottom), inner);
        lemma_leaves_stay(
            t.children,
            0,
            row_at(inner, bottom - 1),
            row_at(out, bottom - 1),
        );
        if t.children.len() == 0 {
            let last = row_at(with_self, bottom - 1);
            let k = choose|k: int| 0 <= k < last.len() && (#[trigger] last[k]).name == t.name;
            assert(row_at(inner, bottom - 1)[k] == last[k]);
            assert(row_at(out, bottom - 1)[k] == last[k]);
        }
    }
}

/// Every caller at the end of its path, that is, one that calls the function
/// directly, stands in the last row of callers, however long its path is.
pub proof fn lemma_direct_callers_last(fg: FlameGraph, target: Seq<char>)
    requires
        caller_trees(fg, target).len() > 0,
    ensures
        caller_rows(fg, target).len() == height(caller_trees(fg, target)),
        leaves_in_row(caller_trees(fg, target), 0, caller_rows(fg, target).last()),
{
    let trees = caller_trees(fg, target);
    let h = height(trees);
    lemma_height_member(trees, 0, trees.len() as int);
    lemma_leaves_laid_out(trees, 0, 0, 0, h, seq![]);
    lemma_rows_bound(trees, 0, 0, 0, h, seq![]);
}

proof fn lemma_rows_bound(
    trees: Seq<Tree>,
    i: int,
    x: int,
    depth: int,
    bottom: int,
    rows: Seq<Seq<FrameV>>,
)
    requires
        height(trees) <= bottom,
        0 <= i,
        rows.len() <= bottom,
    ensures
        laid_out(trees, i, x, depth, Some(bottom), rows).len() <= bottom,
    decreases trees, trees.len() - i,
{
    if i < trees.len() {
        let t = trees[i];
        lemma_height_member(trees, i, trees.len() as int);
        let row = bottom - (1 + height(t.children));
        let with_self = with_frame(rows, row, tree_frame(t, x));
        lemma_rows_bound(t.children, 0, x, depth + 1, bottom, with_self);
        let inner = laid_out(t.children, 0, x, depth + 1, Some(bottom), with_self);
        lemma_rows_bound(trees, i + 1, x + t.total, depth, bottom, inner);
    }
}

/// Whether the trees from `i` on have their frames in `rows`: siblings one
/// beside the other from `x`, children under their parent, from its start on.
pub open spec fn placed(
    trees: Seq<Tree>,
    i: int,
    x: int,
    depth: int,
    bottom: Option<int>,
    rows: Seq<Seq<FrameV>>,
) -> bool
    decreases trees, trees.len() - i,
{
    0 <= i < trees.len() ==> {
        let t = trees[i];
        let row = match bottom {
            Some(b) => b - (1 + height(t.children)),
            None => depth,
        };
        &&& 0 <= row < rows.len()
        &&& rows[row].contains(tree_frame(t, x))
        &&& placed(t.children, 0, x, depth + 1, bottom, rows)
        &&& placed(trees, i + 1, x + t.total, depth, bottom, rows)
    }
}

/// `longer` has all frames of `rows`.
spec fn extends(rows: Seq<Seq<FrameV>>, longer: Seq<Seq<FrameV>>) -> bool {
    &&& rows.len() <= longer.len()
    &&& forall|r: int| 0 <= r < rows.len() ==> (#[trigger] rows[r]).is_prefix_of(longer[r])
}

proof fn lemma_placed_stays(
    trees: Seq<Tree>,
    i: int,
    x: int,
    depth: int,
    bottom: Option<int>,
    rows: Seq<Seq<FrameV>>,
    longer: Seq<Seq<FrameV>>,
)
    requires
        placed(trees, i, x, depth, bottom, rows),
        extends(rows, longer),
    ensures
        placed(trees, i, x, depth, bottom, longer),
    decreases trees, trees.len() - i,
{
    if 0 <= i < trees.len() {
        let t = trees[i];
        let row = match bottom {
            Some(b) => b - (1 + height(t.children)),
            None => depth,
        };
        lemma_placed_stays(t.children, 0, x, depth + 1, bottom, rows, longer);
        lemma_placed_stays(trees, i + 1, x + t.total, depth, bottom, rows, longer);
        let k = choose|k: int| 0 <= k < rows[row].len() && rows[row][k] == tree_frame(t, x);
        assert(rows[row].is_prefix_of(longer[row]));
        assert(longer[row][k] == tree_frame(t, x));
    }
}

proof fn lemma_laid_out_placed(
    trees: Seq<Tree>,
    i: int,
    x: int,
    depth: int,
    bottom: Option<int>,
    rows: Seq<Seq<FrameV>>,
)
    requires
        bottom is Some ==> height(trees) <= bottom->0,
        0 <= i,
        0 <= depth,
    ensures
        extends(rows, laid_out(trees, i, x, depth, bottom, rows)),
        placed(trees, i, x, depth, bottom, laid_out(trees, i, x, depth, bottom, rows)),
    decreases trees, trees.len() - i,
{
    if i < trees.len() {
        let t = trees[i];
        lemma_height_member(trees, i, trees.len() as int);
        let row = match bottom {
            Some(b) => b - (1 + height(t.children)),
            None => depth,
        };
        let f = tree_frame(t, x);
        let with_self = with_frame(rows, row, f);
        let g = grown(rows, row + 1);
        assert(with_self[row] == g[row].push(f));
        assert(with_self[row][g[row].len() as int] == f);
        assert(extends(rows, with_self));
        lemma_laid_out_placed(t.children, 0, x, depth + 1, bottom, with_self);
        let inner = laid_out(t.children, 0, x, depth + 1, bottom, with_self);
        lemma_laid_out_placed(trees, i + 1, x + t.total, depth, bottom, inner);
        let out = laid_out(trees, i + 1, x + t.total, depth, bottom, inner);
        lemma_placed_stays(t.children, 0, x, depth + 1, bottom, inner, out);
        assert(with_self[row].is_prefix_of(inner[row]));
        assert(inner[row].is_prefix_of(out[row]));
        assert(out[row][g[row].len() as int] == f);
        assert forall|r: int| 0 <= r < rows.len() implies (#[trigger] rows[r]).is_prefix_of(
            out[r],
        ) by {
            assert(with_self[r].is_prefix_of(inner[r]));
            assert(inner[r].is_prefix_of(out[r]));
        }
    }
}

/// In both halves of a sandwich view every frame stands under its parent: the
/// frames of a function's callees, or of what it was called through, follow one
/// another from the function's own start on.
pub proof fn lemma_frames_under_parents(fg: FlameGraph, target: Seq<char>)
    ensures
        placed(callee_trees(fg, target), 0, 0, 0, None, callee_rows(fg, target)),
        placed(
            caller_trees(fg, target),
            0,
            0,
            0,
            Some(height(caller_trees(fg, target))),
            caller_rows(fg, target),
        ),
{
    lemma_laid_out_placed(callee_trees(fg, target), 0, 0, 0, None, seq![]);
    let trees = caller_trees(fg, target);
    let bottom = Some(height(trees));
    lemma_laid_out_placed(trees, 0, 0, 0, bottom, seq![]);
    let rows = laid_out(trees, 0, 0, 0, bottom, seq![]);
    lemma_placed_stays(trees, 0, 0, 0, bottom, rows, grown(rows, height(trees)));
}

} // verus!
