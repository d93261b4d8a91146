//! What a flamegraph shows, sample by sample, and where moves lead.

use crate::pyroscope::flamegraph::{
    first_passing, flamegraph_shows, frame_count, gap_fits, gaps_fit, last_passing, normalized,
    rows, shown_frame, shown_frames, shown_rows, visible, FlameGraph, FlamegraphNav,
    FlamegraphView, FrameTest, FrameV,
};
use vstd::prelude::*;

verus! {

// ── Frames as intervals of samples ───────────────────────────────────────────

/// Value `k` of frame `i` of a level: 0 is its offset, 1 its samples, 2 its own samples, 3 the
/// index of its name.
pub open spec fn frame_value(fg: FlameGraph, level: int, i: int, k: int) -> i64 {
    fg.levels@[level].values@[4 * i + k]
}

/// Whether frame `i` of a level covers the sample `x`.
pub open spec fn covers(fg: FlameGraph, level: int, i: int, x: int) -> bool {
    let off = frame_value(fg, level, i, 0) as u64 as int;
    off <= x < off + frame_value(fg, level, i, 1) as u64
}

/// Whether the zoom root is a frame of the graph.
pub open spec fn has_root(fg: FlameGraph, nav: FlamegraphNav) -> bool {
    nav.root_level < fg.levels@.len() && 4 * nav.root_frame + 1
        < fg.levels@[nav.root_level as int].values@.len()
}

/// Whether the zoom root covers the sample `x`: its frame, or all samples without one.
pub open spec fn root_covers(fg: FlameGraph, nav: FlamegraphNav, x: int) -> bool {
    if has_root(fg, nav) {
        covers(fg, nav.root_level as int, nav.root_frame as int, x)
    } else {
        0 <= x < fg.total as u64
    }
}

/// Where the zoom root starts.
pub open spec fn root_start(fg: FlameGraph, nav: FlamegraphNav) -> int {
    if has_root(fg, nav) {
        frame_value(fg, nav.root_level as int, nav.root_frame as int, 0) as u64 as int
    } else {
        0
    }
}

/// Whether frame `i` of a level and the zoom root have a sample in common.
pub open spec fn in_root(fg: FlameGraph, nav: FlamegraphNav, level: int, i: int) -> bool {
    exists|x: int| #[trigger] covers(fg, level, i, x) && root_covers(fg, nav, x)
}

/// The number of the first `n` frames of a level that have a sample in common with the root.
pub open spec fn rank(fg: FlameGraph, nav: FlamegraphNav, level: int, n: int) -> nat
    decreases n,
{
    if n <= 0 {
        0
    } else if in_root(fg, nav, level, n - 1) {
        rank(fg, nav, level, n - 1) + 1
    } else {
        rank(fg, nav, level, n - 1)
    }
}

/// Whether `f` shows the sample `x` of the graph.
pub open spec fn shows_sample(f: FrameV, fg: FlameGraph, nav: FlamegraphNav, x: int) -> bool {
    f.x_start <= x - root_start(fg, nav) < f.x_start + f.width
}

/// Whether `f` is what is to be shown of frame `i` of a level: the samples that the root covers
/// too, at their distance from its start, with the counts and the name of the whole frame.
pub open spec fn shows_frame(
    f: FrameV,
    fg: FlameGraph,
    nav: FlamegraphNav,
    level: int,
    i: int,
) -> bool {
    &&& forall|x: int| #[trigger]
        shows_sample(f, fg, nav, x) <==> covers(fg, level, i, x) && root_covers(fg, nav, x)
    &&& f.total_samples == frame_value(fg, level, i, 1) as u64
    &&& f.self_samples == frame_value(fg, level, i, 2) as u64
    &&& f.is_selected == (nav.sel_level == level && nav.sel_frame == i)
    &&& 0 <= frame_value(fg, level, i, 3) < fg.names@.len() && fg.names@.len() <= usize::MAX
        ==> f.name == fg.names@[frame_value(fg, level, i, 3) as int]@
}

proof fn lemma_root(fg: FlameGraph, nav: FlamegraphNav)
    ensures
        nav.root(fg).0 == root_start(fg, nav),
        forall|x: int| #[trigger]
            root_covers(fg, nav, x) <==> nav.root(fg).0 <= x < nav.root(fg).0 + nav.root(fg).1,
{
    assert(fg.levels@.len() == fg.levels.len());
}

proof fn lemma_in_root(fg: FlameGraph, nav: FlamegraphNav, level: int, i: int)
    requires
        nav.root(fg).1 > 0,
    ensures
        in_root(fg, nav, level, i) == visible(
            fg.levels@[level].values@,
            i,
            nav.root(fg).0,
            nav.root(fg).1,
        ),
{
    lemma_root(fg, nav);
    let v = fg.levels@[level].values@;
    let (root_x, root_w) = nav.root(fg);
    assert(i * 4 == 4 * i + 0);
    let off = frame_value(fg, level, i, 0) as u64 as int;
    if visible(v, i, root_x, root_w) {
        let x = if off > root_x {
            off
        } else {
            root_x
        };
        assert(covers(fg, level, i, x) && root_covers(fg, nav, x));
    }
}

proof fn lemma_shows_frame(fg: FlameGraph, nav: FlamegraphNav, level: int, i: int)
    requires
        nav.root(fg).1 > 0,
        in_root(fg, nav, level, i),
    ensures
        shows_frame(shown_frame(fg, nav, level, i), fg, nav, level, i),
{
    lemma_root(fg, nav);
    lemma_in_root(fg, nav, level, i);
    assert(i * 4 == 4 * i + 0);
    assert(i * 4 + 1 == 4 * i + 1);
    let f = shown_frame(fg, nav, level, i);
    assert forall|x: int| #[trigger] shows_sample(f, fg, nav, x) <==> covers(fg, level, i, x)
        && root_covers(fg, nav, x) by {}
    let index = frame_value(fg, level, i, 3);
    if 0 <= index < fg.names@.len() && fg.names@.len() <= usize::MAX {
        assert(index as usize == index);
        assert(fg.names@.len() == fg.names.len());
    }
}

proof fn lemma_row(fg: FlameGraph, nav: FlamegraphNav, level: int, n: int, i: int)
    requires
        nav.root(fg).1 > 0,
        0 <= n,
    ensures
        shown_frames(fg, nav, level, n).len() == rank(fg, nav, level, n),
        0 <= i < n && in_root(fg, nav, level, i) ==> rank(fg, nav, level, i) < rank(
            fg,
            nav,
            level,
            n,
        ) && shows_frame(
            shown_frames(fg, nav, level, n)[rank(fg, nav, level, i) as int],
            fg,
            nav,
            level,
            i,
        ),
    decreases n,
{
    if n > 0 {
        lemma_row(fg, nav, level, n - 1, i);
        lemma_in_root(fg, nav, level, n - 1);
        if i == n - 1 && in_root(fg, nav, level, i) {
            lemma_shows_frame(fg, nav, level, i);
        }
    }
}

/// A view shows from the root's level on every frame that has a sample in common with the root,
/// once and in order, and no other: the samples in common, each at its distance from the start of
/// the root. A root without samples shows nothing.
pub proof fn lemma_view_shows(
    fg: FlameGraph,
    nav: FlamegraphNav,
    units: Seq<char>,
    v: FlamegraphView,
    level: int,
    i: int,
)
    requires
        flamegraph_shows(fg, nav, units, v),
    ensures
        v.root_samples as int > 0 ==> forall|x: int| #[trigger]
            root_covers(fg, nav, x) <==> root_start(fg, nav) <= x < root_start(fg, nav)
                + v.root_samples,
        v.levels@.len() == if v.root_samples == 0 || nav.root_level > fg.levels@.len() {
            0int
        } else {
            fg.levels@.len() - nav.root_level
        },
        nav.root_level <= level < fg.levels@.len() && v.root_samples > 0 ==> {
            let row = v.levels@[level - nav.root_level]@;
            let count = fg.levels@[level].values@.len() as int / 4;
            &&& row.len() == rank(fg, nav, level, count)
            &&& 0 <= i < count && in_root(fg, nav, level, i) ==> {
                &&& rank(fg, nav, level, i) < row.len()
                &&& shows_frame(row[rank(fg, nav, level, i) as int], fg, nav, level, i)
            }
        },
{
    assert(fg.levels@.len() == fg.levels.len());
    lemma_root(fg, nav);
    assert(rows(v.levels@).len() == v.levels@.len());
    if nav.root_level <= level < fg.levels@.len() && v.root_samples > 0 {
        let k = level - nav.root_level;
        assert(rows(v.levels@)[k] == v.levels@[k]@);
        assert(shown_rows(fg, nav)[k] == shown_frames(
            fg,
            nav,
            level,
            frame_count(fg.levels@[level].values@),
        ));
        lemma_row(fg, nav, level, frame_count(fg.levels@[level].values@), i);
    }
}

/// A frame that the root covers wholly is shown with all of its samples; whatever is shown of a
/// frame ends inside the root; and what is shown of two frames without a common sample has none.
pub proof fn lemma_shown_inside(
    fg: FlameGraph,
    nav: FlamegraphNav,
    f: FrameV,
    g: FrameV,
    level: int,
    i: int,
    j: int,
)
    requires
        shows_frame(f, fg, nav, level, i),
        shows_frame(g, fg, nav, level, j),
        f.width > 0,
        g.width > 0,
    ensures
        0 <= f.x_start,
        f.x_start + f.width <= nav.root(fg).1,
        (forall|x: int| #[trigger] covers(fg, level, i, x) ==> root_covers(fg, nav, x)) ==> f.width
            == f.total_samples && f.x_start == frame_value(fg, level, i, 0) as u64 - root_start(
            fg,
            nav,
        ),
        (forall|x: int| !(#[trigger] covers(fg, level, i, x) && covers(fg, level, j, x))) ==> f.x_start
            + f.width <= g.x_start || g.x_start + g.width <= f.x_start,
{
    lemma_root(fg, nav);
    let r = root_start(fg, nav);
    assert(shows_sample(f, fg, nav, r + f.x_start));
    assert(shows_sample(f, fg, nav, r + f.x_start + f.width - 1));
    assert(!shows_sample(f, fg, nav, r + f.x_start + f.width));
    assert(!shows_sample(f, fg, nav, r + f.x_start - 1));
    assert(shows_sample(g, fg, nav, r + g.x_start));
    assert(shows_sample(g, fg, nav, r + g.x_start + g.width - 1));
    let off = frame_value(fg, level, i, 0) as u64 as int;
    let w = frame_value(fg, level, i, 1) as u64 as int;
    assert(covers(fg, level, i, r + f.x_start));
    if forall|x: int| #[trigger] covers(fg, level, i, x) ==> root_covers(fg, nav, x) {
        assert(covers(fg, level, i, off) && covers(fg, level, i, off + w - 1));
        assert(shows_sample(f, fg, nav, off));
        assert(shows_sample(f, fg, nav, off + w - 1));
    }
    if forall|x: int| !(#[trigger] covers(fg, level, i, x) && covers(fg, level, j, x)) {
        if f.x_start + f.width > g.x_start && g.x_start + g.width > f.x_start {
            let x = r + if f.x_start > g.x_start {
                f.x_start
            } else {
                g.x_start
            };
            assert(shows_sample(f, fg, nav, x) && shows_sample(g, fg, nav, x));
            assert(covers(fg, level, i, x) && covers(fg, level, j, x));
        }
    }
}

proof fn lemma_row_inside(fg: FlameGraph, nav: FlamegraphNav, level: int, n: int, k: int)
    requires
        nav.root(fg).1 > 0,
        0 <= k < shown_frames(fg, nav, level, n).len(),
    ensures
        exists|i: int|
            0 <= i < n && in_root(fg, nav, level, i) && #[trigger] shows_frame(
                shown_frames(fg, nav, level, n)[k],
                fg,
                nav,
                level,
                i,
            ),
    decreases n,
{
    let before = shown_frames(fg, nav, level, n - 1);
    let all = shown_frames(fg, nav, level, n);
    lemma_in_root(fg, nav, level, n - 1);
    if k < before.len() {
        lemma_row_inside(fg, nav, level, n - 1, k);
        assert(all[k] == before[k]);
    } else {
        lemma_shows_frame(fg, nav, level, n - 1);
        assert(shows_frame(all[k], fg, nav, level, n - 1));
    }
}

/// Every frame of a view has samples, starts and ends inside the root, and shows a frame of the
/// graph on its level.
pub proof fn lemma_view_inside(
    fg: FlameGraph,
    nav: FlamegraphNav,
    units: Seq<char>,
    v: FlamegraphView,
    level: int,
    k: int,
)
    requires
        flamegraph_shows(fg, nav, units, v),
        nav.root_level <= level < fg.levels@.len(),
        v.root_samples > 0,
        0 <= k < v.levels@[level - nav.root_level]@.len(),
    ensures
        ({
            let f = v.levels@[level - nav.root_level]@[k];
            &&& 0 <= f.x_start
            &&& 0 < f.width
            &&& f.x_start + f.width <= v.root_samples
            &&& exists|i: int|
                0 <= i < fg.levels@[level].values@.len() as int / 4 && #[trigger] shows_frame(
                    f,
                    fg,
                    nav,
                    level,
                    i,
                )
        }),
{
    assert(fg.levels@.len() == fg.levels.len());
    let r = level - nav.root_level;
    let n = frame_count(fg.levels@[level].values@);
    assert(rows(v.levels@).len() == v.levels@.len());
    assert(shown_rows(fg, nav).len() == fg.levels.len() - nav.root_level);
    assert(rows(v.levels@)[r] == v.levels@[r]@);
    assert(shown_rows(fg, nav)[r] == shown_frames(fg, nav, level, n));
    lemma_row_inside(fg, nav, level, n, k);
    let f = v.levels@[r]@[k];
    let i = choose|i: int|
        0 <= i < n && in_root(fg, nav, level, i) && #[trigger] shows_frame(f, fg, nav, level, i);
    let x = choose|x: int| #[trigger] covers(fg, level, i, x) && root_covers(fg, nav, x);
    assert(shows_sample(f, fg, nav, x));
    assert(f.width > 0);
    lemma_shown_inside(fg, nav, f, f, level, i, i);
}

/// The selected frame as a view names it: name and counts of the frame if it has a sample in
/// common with the root and is not below it, and nothing else.
pub proof fn lemma_view_selection(
    fg: FlameGraph,
    nav: FlamegraphNav,
    units: Seq<char>,
    v: FlamegraphView,
)
    requires
        flamegraph_shows(fg, nav, units, v),
        v.root_samples > 0,
    ensures
        ({
            let level = nav.sel_level as int;
            let i = nav.sel_frame as int;
            if nav.root_level <= level < fg.levels@.len() && i < fg.levels@[level].values@.len()
                as int / 4 && in_root(fg, nav, level, i) {
                &&& v.selected_total_samples == frame_value(fg, level, i, 1) as u64
                &&& v.selected_self_samples == frame_value(fg, level, i, 2) as u64
                &&& 0 <= frame_value(fg, level, i, 3) < fg.names@.len() && fg.names@.len()
                    <= usize::MAX ==> v.selected_name@ == fg.names@[frame_value(
                    fg,
                    level,
                    i,
                    3,
                ) as int]@
            } else {
                v.selected_name@.len() == 0 && v.selected_total_samples == 0
                    && v.selected_self_samples == 0
            }
        }),
{
    assert(fg.levels@.len() == fg.levels.len());
    let (level, i) = (nav.sel_level as int, nav.sel_frame as int);
    lemma_in_root(fg, nav, level, i);
    if nav.root_level <= level < fg.levels@.len() && i < fg.levels@[level].values@.len() as int / 4
        && in_root(fg, nav, level, i) {
        assert(fg.levels@[level].values@.len() == fg.levels@[level].values.len());
        lemma_shows_frame(fg, nav, level, i);
    }
}

// ── Deltas ───────────────────────────────────────────────────────────────────

/// Gaps are the distances from the end of one frame to the start of the next, and the first that of
/// the first frame from the start; all other values stay.
pub proof fn lemma_gaps(v: Seq<i64>, i: int, k: int)
    requires
        gaps_fit(v),
        0 <= i < frame_count(v),
        1 <= k < 4,
    ensures
        ({
            let w = normalized(v);
            &&& w.len() == v.len()
            &&& w[4 * i + k] == v[4 * i + k]
            &&& i == 0 ==> w[0] == v[0]
            &&& i > 0 ==> w[4 * i] - (w[4 * (i - 1)] + w[4 * (i - 1) + 1]) == v[4 * i]
        }),
{
    assert(gap_fits(v, i));
    assert((4 * i) / 4 == i && (4 * i) % 4 == 0);
    assert((4 * i + k) % 4 == k);
    if i > 0 {
        assert(gap_fits(v, i - 1));
        assert((4 * (i - 1)) / 4 == i - 1 && (4 * (i - 1)) % 4 == 0);
        assert((4 * (i - 1) + 1) % 4 == 1);
        assert(i * 4 == 4 * i && (i - 1) * 4 == 4 * (i - 1));
    }
}

// ── Moves ────────────────────────────────────────────────────────────────────

/// The samples of the zoom root.
pub open spec fn root_samples(fg: FlameGraph, nav: FlamegraphNav) -> int {
    if has_root(fg, nav) {
        frame_value(fg, nav.root_level as int, nav.root_frame as int, 1) as u64 as int
    } else {
        fg.total as u64 as int
    }
}

/// Whether frame `i` of a level takes a character, or falls short of one by less than a sample:
/// a character stands for one of `viewport_chars` equal parts of the root.
pub open spec fn takes_character(fg: FlameGraph, nav: FlamegraphNav, level: int, i: int) -> bool {
    let w = frame_value(fg, level, i, 1) as u64 as int;
    w > 0 && (nav.viewport_chars == 0 || (w + 1) * nav.viewport_chars > root_samples(fg, nav))
}

/// Whether frame `i` of a level ends behind `start` and starts before `end`.
pub open spec fn crosses(fg: FlameGraph, level: int, i: int, start: int, end: int) -> bool {
    let off = frame_value(fg, level, i, 0) as u64 as int;
    off + frame_value(fg, level, i, 1) as u64 > start && off < end
}

/// Whether frame `i` of a level can be moved to in its row.
pub open spec fn reachable(fg: FlameGraph, nav: FlamegraphNav, level: int, i: int) -> bool {
    takes_character(fg, nav, level, i) && crosses(
        fg,
        level,
        i,
        root_start(fg, nav),
        root_start(fg, nav) + root_samples(fg, nav),
    )
}

/// Whether `to` differs from `from` in no more than the selection.
pub open spec fn same_zoom(from: FlamegraphNav, to: FlamegraphNav) -> bool {
    from.root_level == to.root_level && from.root_frame == to.root_frame && from.viewport_chars
        == to.viewport_chars
}

proof fn lemma_first(v: Seq<i64>, from: int, test: FrameTest, i: int)
    requires
        0 <= from,
    ensures
        match first_passing(v, from, test) {
            Some(f) => {
                &&& from <= f < frame_count(v)
                &&& test.passes(v, f)
                &&& from <= i < f ==> !test.passes(v, i)
            },
            None => from <= i < frame_count(v) ==> !test.passes(v, i),
        },
    decreases frame_count(v) - from,
{
    if from < frame_count(v) && !test.passes(v, from) {
        lemma_first(v, from + 1, test, i);
    }
}

proof fn lemma_last(v: Seq<i64>, to: int, test: FrameTest, i: int)
    ensures
        match last_passing(v, to, test) {
            Some(f) => {
                &&& 0 <= f < to
                &&& test.passes(v, f)
                &&& f < i < to ==> !test.passes(v, i)
            },
            None => 0 <= i < to ==> !test.passes(v, i),
        },
    decreases to,
{
    if to > 0 && !test.passes(v, to - 1) {
        lemma_last(v, to - 1, test, i);
    }
}

proof fn lemma_min_width(fg: FlameGraph, nav: FlamegraphNav, level: int, i: int)
    ensures
        0 <= nav.min_width(fg) <= u64::MAX,
        ({
            let w = frame_value(fg, level, i, 1) as u64 as int;
            (w > 0 && w >= nav.min_width(fg)) == takes_character(fg, nav, level, i)
        }),
        nav.root(fg) == (root_start(fg, nav), root_samples(fg, nav)),
{
    assert(fg.levels@.len() == fg.levels.len());
    let w = frame_value(fg, level, i, 1) as u64 as int;
    let r = nav.root(fg).1;
    let c = nav.viewport_chars as int;
    if c > 0 {
        let m = r / c;
        assert(m * c <= r < (m + 1) * c && 0 <= m <= r) by (nonlinear_arith)
            requires
                m == r / c,
                c > 0,
                r >= 0,
        ;
        if w >= m {
            assert((w + 1) * c >= (m + 1) * c) by (nonlinear_arith)
                requires
                    w >= m,
                    c > 0,
            ;
        } else {
            assert((w + 1) * c <= m * c) by (nonlinear_arith)
                requires
                    w + 1 <= m,
                    c > 0,
            ;
        }
    }
}

proof fn lemma_reachable(fg: FlameGraph, nav: FlamegraphNav, level: int, i: int)
    ensures
        nav.navigable(fg).passes(fg.levels@[level].values@, i) == reachable(fg, nav, level, i),
{
    lemma_min_width(fg, nav, level, i);
    assert(i * 4 == 4 * i + 0 && i * 4 + 1 == 4 * i + 1);
}

/// A move along the row leads to the nearest frame on that side that can be moved to, and nowhere
/// where there is none: no frame `i` between can be.
pub proof fn lemma_row_moves(fg: FlameGraph, nav: FlamegraphNav, i: int)
    requires
        nav.sel_level < fg.levels@.len(),
        4 * nav.sel_frame + 3 < fg.levels@[nav.sel_level as int].values@.len(),
    ensures
        ({
            let level = nav.sel_level as int;
            let n = fg.levels@[level].values@.len() as int / 4;
            let s = nav.sel_frame as int;
            let right = nav.moved_right(fg);
            let left = nav.moved_left(fg);
            &&& same_zoom(nav, right) && right.sel_level == level
            &&& right.sel_frame != s ==> s < right.sel_frame < n && reachable(
                fg,
                nav,
                level,
                right.sel_frame as int,
            )
            &&& s < i < n && (right.sel_frame == s || i < right.sel_frame) ==> !reachable(
                fg,
                nav,
                level,
                i,
            )
            &&& same_zoom(nav, left) && left.sel_level == level
            &&& left.sel_frame != s ==> left.sel_frame < s && reachable(
                fg,
                nav,
                level,
                left.sel_frame as int,
            )
            &&& 0 <= i < s && (left.sel_frame == s || left.sel_frame < i) ==> !reachable(
                fg,
                nav,
                level,
                i,
            )
        }),
{
    assert(fg.levels@.len() == fg.levels.len());
    let level = nav.sel_level as int;
    let v = fg.levels@[level].values@;
    assert(v.len() == fg.levels@[level].values.len());
    let test = nav.navigable(fg);
    lemma_first(v, nav.sel_frame + 1, test, i);
    lemma_last(v, nav.sel_frame as int, test, i);
    lemma_reachable(fg, nav, level, i);
    if let Some(f) = first_passing(v, nav.sel_frame + 1, test) {
        lemma_reachable(fg, nav, level, f);
    }
    if let Some(f) = last_passing(v, nav.sel_frame as int, test) {
        lemma_reachable(fg, nav, level, f);
    }
}

/// Whether frame `i` of the level above is a callee of the selected frame: it takes a character
/// and has samples of it.
pub open spec fn callee(fg: FlameGraph, nav: FlamegraphNav, i: int) -> bool {
    let start = frame_value(fg, nav.sel_level as int, nav.sel_frame as int, 0) as u64 as int;
    let end = start + frame_value(fg, nav.sel_level as int, nav.sel_frame as int, 1) as u64;
    takes_character(fg, nav, nav.sel_level + 1, i) && crosses(
        fg,
        nav.sel_level + 1,
        i,
        start,
        end,
    )
}

/// A move up leads to the first callee on the level above, and nowhere where there is none: no
/// frame `i` before it is one.
pub proof fn lemma_up_moves(fg: FlameGraph, nav: FlamegraphNav, i: int)
    requires
        nav.sel_level < fg.levels@.len(),
        4 * nav.sel_frame + 3 < fg.levels@[nav.sel_level as int].values@.len(),
        nav.selection_fits(fg),
    ensures
        ({
            let up = nav.moved_up(fg);
            &&& same_zoom(nav, up)
            &&& up != nav ==> up.sel_level == nav.sel_level + 1 && callee(
                fg,
                nav,
                up.sel_frame as int,
            )
            &&& nav.sel_level + 1 < fg.levels@.len() && 0 <= i < fg.levels@[nav.sel_level
                + 1].values@.len() as int / 4 && (up == nav || i < up.sel_frame) ==> !callee(
                fg,
                nav,
                i,
            )
        }),
{
    assert(fg.levels@.len() == fg.levels.len());
    let s = nav.sel_frame as int;
    assert(s * 4 == 4 * s + 0 && s * 4 + 1 == 4 * s + 1);
    if nav.sel_level + 1 < fg.levels@.len() {
        let w = fg.levels@[nav.sel_level + 1].values@;
        assert(w.len() == fg.levels@[nav.sel_level + 1].values.len());
        let test = nav.overlapping(fg);
        lemma_first(w, 0, test, i);
        lemma_min_width(fg, nav, nav.sel_level + 1, i);
        assert(i * 4 == 4 * i + 0 && i * 4 + 1 == 4 * i + 1);
        if let Some(f) = first_passing(w, 0, test) {
            lemma_min_width(fg, nav, nav.sel_level + 1, f);
            assert(f * 4 == 4 * f + 0 && f * 4 + 1 == 4 * f + 1);
        }
    }
}

/// Whether frame `i` of the level below can be moved to and covers every sample of the selection.
pub open spec fn caller(fg: FlameGraph, nav: FlamegraphNav, i: int) -> bool {
    let (level, s) = (nav.sel_level as int, nav.sel_frame as int);
    let start = frame_value(fg, level, s, 0) as u64 as int;
    let below = frame_value(fg, level - 1, i, 0) as u64 as int;
    &&& reachable(fg, nav, level - 1, i)
    &&& below <= start
    &&& start + frame_value(fg, level, s, 1) as u64 <= below + frame_value(fg, level - 1, i, 1) as u64
}

/// A move down leads to the first caller on the level below, else to the first frame there that
/// can be moved to, else nowhere; never below the root.
pub proof fn lemma_down_moves(fg: FlameGraph, nav: FlamegraphNav, i: int)
    requires
        nav.sel_level < fg.levels@.len(),
        4 * nav.sel_frame + 3 < fg.levels@[nav.sel_level as int].values@.len(),
        nav.selection_fits(fg),
    ensures
        ({
            let down = nav.moved_down(fg);
            let count = fg.levels@[nav.sel_level - 1].values@.len() as int / 4;
            &&& same_zoom(nav, down)
            &&& nav.sel_level <= nav.root_level ==> down == nav
            &&& nav.sel_level > nav.root_level ==> {
                &&& down != nav ==> down.sel_level == nav.sel_level - 1 && reachable(
                    fg,
                    nav,
                    nav.sel_level - 1,
                    down.sel_frame as int,
                )
                &&& 0 <= i < count && (down == nav || i < down.sel_frame) ==> !caller(fg, nav, i)
                &&& down != nav && !caller(fg, nav, down.sel_frame as int) ==> (0 <= i < count
                    ==> !caller(fg, nav, i)) && (0 <= i < down.sel_frame ==> !reachable(
                    fg,
                    nav,
                    nav.sel_level - 1,
                    i,
                ))
                &&& down == nav && 0 <= i < count ==> !reachable(fg, nav, nav.sel_level - 1, i)
            }
        }),
{
    assert(fg.levels@.len() == fg.levels.len());
    let s = nav.sel_frame as int;
    assert(s * 4 == 4 * s + 0 && s * 4 + 1 == 4 * s + 1);
    if nav.sel_level > nav.root_level {
        let level = nav.sel_level - 1;
        let v = fg.levels@[level].values@;
        assert(v.len() == fg.levels@[level].values.len());
        lemma_first(v, 0, nav.containing(fg), i);
        lemma_first(v, 0, nav.navigable(fg), i);
        lemma_caller(fg, nav, i);
        if let Some(f) = first_passing(v, 0, nav.containing(fg)) {
            lemma_caller(fg, nav, f);
        }
        if let Some(f) = first_passing(v, 0, nav.navigable(fg)) {
            lemma_caller(fg, nav, f);
            lemma_first(v, 0, nav.containing(fg), f);
        }
    }
}

proof fn lemma_caller(fg: FlameGraph, nav: FlamegraphNav, i: int)
    requires
        nav.sel_level < fg.levels@.len(),
        0 < nav.sel_level,
        4 * nav.sel_frame + 3 < fg.levels@[nav.sel_level as int].values@.len(),
        nav.selection_fits(fg),
    ensures
        nav.containing(fg).passes(fg.levels@[nav.sel_level - 1].values@, i) == caller(fg, nav, i),
        nav.navigable(fg).passes(fg.levels@[nav.sel_level - 1].values@, i) == reachable(
            fg,
            nav,
            nav.sel_level - 1,
            i,
        ),
{
    assert(fg.levels@.len() == fg.levels.len());
    let s = nav.sel_frame as int;
    assert(s * 4 == 4 * s + 0 && s * 4 + 1 == 4 * s + 1);
    let selected = fg.levels@[nav.sel_level as int];
    assert(selected.values@.len() == selected.values.len());
    lemma_reachable(fg, nav, nav.sel_level - 1, i);
    lemma_min_width(fg, nav, nav.sel_level - 1, i);
    assert(i * 4 == 4 * i + 0 && i * 4 + 1 == 4 * i + 1);
}

/// Zooming in makes the selected frame the root and then moves up from it. Zooming out makes the
/// first frame of the level below the root; a selection that falls below the root moves to it.
pub proof fn lemma_zooms(fg: FlameGraph, nav: FlamegraphNav)
    requires
        nav.sel_level < fg.levels@.len(),
        4 * nav.sel_frame + 3 < fg.levels@[nav.sel_level as int].values@.len(),
    ensures
        ({
            let zoomed = nav.zoomed_in(fg);
            &&& root_start(fg, zoomed) == frame_value(
                fg,
                nav.sel_level as int,
                nav.sel_frame as int,
                0,
            ) as u64
            &&& root_samples(fg, zoomed) == frame_value(
                fg,
                nav.sel_level as int,
                nav.sel_frame as int,
                1,
            ) as u64
            &&& forall|r: FlamegraphNav|
                r.root_level == nav.sel_level && r.root_frame == nav.sel_frame && r.sel_level
                    == nav.sel_level && r.sel_frame == nav.sel_frame && r.viewport_chars
                    == nav.viewport_chars ==> zoomed == #[trigger] r.moved_up(fg)
        }),
        ({
            let out = nav.zoomed_out();
            &&& out.root_frame == 0
            &&& nav.root_level == 0 ==> out.root_level == 0
            &&& nav.root_level > 0 ==> out.root_level == nav.root_level - 1
            &&& out.viewport_chars == nav.viewport_chars
            &&& nav.sel_level >= out.root_level ==> out.sel_level == nav.sel_level && out.sel_frame
                == nav.sel_frame
            &&& nav.sel_level < out.root_level ==> out.sel_level == out.root_level && out.sel_frame
                == 0
        }),
{
    lemma_up_zoom(fg, nav.rooted());
}

proof fn lemma_up_zoom(fg: FlameGraph, nav: FlamegraphNav)
    ensures
        same_zoom(nav, nav.moved_up(fg)),
{
}

} // verus!
