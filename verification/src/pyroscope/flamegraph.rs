//! Flamegraphs: data, navigation and the zoomed view.
//!
//! Samples are counted in `u64`; a count that was sent as a negative number is
//! taken as the `u64` with the same bits.

use vstd::prelude::*;
use vstd::string::*;

verus! {

/// A flamegraph. The values of a level are groups of four:
/// `[x_offset, total_samples, self_samples, name_index]`.
#[derive(Debug, Clone)]
pub struct FlameGraph {
    pub names: Vec<String>,
    pub levels: Vec<Level>,
    pub total: i64,
    pub max_self: i64,
}

/// The frames of one depth.
#[derive(Debug, Clone)]
pub struct Level {
    pub values: Vec<i64>,
}

// ── Frames ───────────────────────────────────────────────────────────────────

/// The number of frames of a level.
pub open spec fn frame_count(v: Seq<i64>) -> int {
    v.len() as int / 4
}

/// Where frame `i` starts.
pub open spec fn offset(v: Seq<i64>, i: int) -> int {
    v[i * 4] as u64 as int
}

/// How wide frame `i` is.
pub open spec fn width(v: Seq<i64>, i: int) -> int {
    v[i * 4 + 1] as u64 as int
}

/// The samples of frame `i` that are not of its children.
pub open spec fn self_samples(v: Seq<i64>, i: int) -> int {
    v[i * 4 + 2] as u64 as int
}

/// Whether frame `i` ends at an offset that can be counted.
pub open spec fn frame_fits(v: Seq<i64>, i: int) -> bool {
    offset(v, i) + width(v, i) <= u64::MAX
}

/// Whether all frames of a level end at offsets that can be counted.
pub open spec fn level_fits(v: Seq<i64>) -> bool {
    forall|i: int| 0 <= i < frame_count(v) ==> #[trigger] frame_fits(v, i)
}

/// The name of frame `i`; empty where its index names nothing.
pub open spec fn frame_name(names: Seq<String>, v: Seq<i64>, i: int) -> Seq<char> {
    let index = v[i * 4 + 3] as usize as int;
    if index < names.len() {
        names[index]@
    } else {
        seq![]
    }
}

/// Whether a level holds offset and width of frame `i`.
pub open spec fn has_bounds(v: Seq<i64>, i: int) -> bool {
    i * 4 + 1 < v.len()
}

/// Start and width of frame `i`.
pub(crate) fn frame_at(v: &Vec<i64>, i: usize) -> (r: (u64, u64))
    requires
        has_bounds(v@, i as int),
    ensures
        r.0 == offset(v@, i as int),
        r.1 == width(v@, i as int),
{
    assert(v@.len() == v.len());
    (#[verifier::truncate]
    (v[i * 4] as u64), #[verifier::truncate]
    (v[i * 4 + 1] as u64))
}

/// The name of frame `i`.
pub(crate) fn name_at(names: &Vec<String>, v: &Vec<i64>, i: usize) -> (r: String)
    requires
        i < frame_count(v@),
    ensures
        r@ == frame_name(names@, v@, i as int),
{
    assert(v@.len() == v.len());
    let index: usize = #[verifier::truncate]
    (v[i * 4 + 3] as usize);
    if index < names.len() {
        names[index].clone()
    } else {
        let r = String::new();
        assert(r@ =~= seq![]);
        r
    }
}

/// Whether all frames of a level end at offsets that can be counted.
pub(crate) fn check_level(v: &Vec<i64>) -> (r: bool)
    ensures
        r == level_fits(v@),
{
    let mut i: usize = 0;
    while i < v.len() / 4
        invariant
            i <= frame_count(v@),
            forall|k: int| 0 <= k < i ==> #[trigger] frame_fits(v@, k),
        decreases v.len() - i,
    {
        let (off, w) = frame_at(v, i);
        if off > u64::MAX - w {
            assert(!frame_fits(v@, i as int));
            return false;
        }
        i += 1;
    }
    true
}

// ── Deltas ───────────────────────────────────────────────────────────────────

/// Where frame `i` starts when the first value of each frame is the gap to the
/// end of the frame before it.
pub open spec fn start_from_gaps(v: Seq<i64>, i: int) -> int
    decreases i,
{
    if i <= 0 {
        v[0] as int
    } else {
        start_from_gaps(v, i - 1) + v[(i - 1) * 4 + 1] + v[i * 4]
    }
}

/// Whether all starts and ends that follow from the gaps can be counted.
pub open spec fn gaps_fit(v: Seq<i64>) -> bool {
    forall|i: int| 0 <= i < frame_count(v) ==> #[trigger] gap_fits(v, i)
}

/// Whether start and end of frame `i`, as they follow from the gaps, can be
/// counted.
pub open spec fn gap_fits(v: Seq<i64>, i: int) -> bool {
    i64::MIN <= start_from_gaps(v, i) <= i64::MAX && i64::MIN <= start_from_gaps(v, i) + v[i * 4
        + 1] <= i64::MAX
}

/// The values of a level with gaps replaced by absolute offsets.
pub open spec fn normalized(v: Seq<i64>) -> Seq<i64> {
    Seq::new(
        v.len(),
        |k: int|
            if k % 4 == 0 && k / 4 < frame_count(v) {
                start_from_gaps(v, k / 4) as i64
            } else {
                v[k]
            },
    )
}

fn normalize_level(values: &mut Vec<i64>)
    requires
        gaps_fit(old(values)@),
    ensures
        final(values)@ == normalized(old(values)@),
{
    let ghost v = values@;
    let mut abs_x: i64 = 0;
    let count = values.len() / 4;
    let mut i: usize = 0;
    while i < count
        invariant
            count == frame_count(v),
            i <= count,
            values.len() == v.len(),
            v == old(values)@,
            gaps_fit(v),
            i == 0 ==> abs_x == 0,
            i > 0 ==> abs_x == start_from_gaps(v, i - 1) + v[(i - 1) * 4 + 1],
            forall|k: int|
                0 <= k < v.len() ==> #[trigger] values@[k] == (if k % 4 == 0 && k / 4 < i {
                    start_from_gaps(v, k / 4) as i64
                } else {
                    v[k]
                }),
        decreases count - i,
    {
        assert(gap_fits(v, i as int));
        let gap = values[i * 4];
        let width = values[i * 4 + 1];
        abs_x = abs_x + gap;
        assert(abs_x == start_from_gaps(v, i as int));
        let ghost before = values@;
        values.set(i * 4, abs_x);
        assert forall|k: int| 0 <= k < v.len() implies #[trigger] values@[k] == (if k % 4 == 0 && k
            / 4 < i + 1 {
            start_from_gaps(v, k / 4) as i64
        } else {
            v[k]
        }) by {
            if k != i * 4 {
                assert(values@[k] == before[k]);
            }
        }
        abs_x = abs_x + width;
        i += 1;
    }
    assert(values@ =~= normalized(v));
}

impl FlameGraph {
    /// Whether the gaps of all levels lead to offsets that can be counted.
    pub open spec fn deltas_fit(self) -> bool {
        forall|l: int| 0 <= l < self.levels.len() ==> gaps_fit((#[trigger] self.levels@[l]).values@)
    }

    /// Convert level values from gaps to absolute x offsets.
    ///
    /// The first value of each frame arrives as the number of samples between
    /// the end of the frame before it and its start. Afterwards it is the
    /// absolute offset of the frame.
    pub fn normalize_deltas(&mut self)
        requires
            old(self).deltas_fit(),
        ensures
            final(self).names == old(self).names,
            final(self).total == old(self).total,
            final(self).max_self == old(self).max_self,
            final(self).levels.len() == old(self).levels.len(),
            forall|l: int|
                0 <= l < old(self).levels.len() ==> (#[trigger] final(self).levels@[l]).values@
                    == normalized(old(self).levels@[l].values@),
    {
        let n = self.levels.len();
        let ghost before = self.levels@;
        let mut l: usize = 0;
        while l < n
            invariant
                l <= n,
                n == before.len(),
                before == old(self).levels@,
                old(self).deltas_fit(),
                self.levels.len() == n,
                self.names == old(self).names,
                self.total == old(self).total,
                self.max_self == old(self).max_self,
                forall|k: int|
                    0 <= k < l ==> (#[trigger] self.levels@[k]).values@ == normalized(
                        before[k].values@,
                    ),
                forall|k: int| l <= k < n ==> #[trigger] self.levels@[k] == before[k],
            decreases n - l,
        {
            assert(gaps_fit(before[l as int].values@));
            normalize_level(&mut self.levels[l].values);
            l += 1;
        }
    }

    /// Whether `normalize_deltas` can be applied.
    pub fn deltas_in_range(&self) -> (r: bool)
        ensures
            r == self.deltas_fit(),
    {
        let mut l: usize = 0;
        while l < self.levels.len()
            invariant
                l <= self.levels.len(),
                forall|k: int| 0 <= k < l ==> gaps_fit((#[trigger] self.levels@[k]).values@),
            decreases self.levels.len() - l,
        {
            if !check_gaps(&self.levels[l].values) {
                assert(!gaps_fit(self.levels@[l as int].values@));
                return false;
            }
            l += 1;
        }
        true
    }
}

fn check_gaps(v: &Vec<i64>) -> (r: bool)
    ensures
        r == gaps_fit(v@),
{
    let count = v.len() / 4;
    let mut end: i64 = 0;
    let mut i: usize = 0;
    while i < count
        invariant
            count == frame_count(v@),
            i <= count,
            i == 0 ==> end == 0,
            i > 0 ==> end == start_from_gaps(v@, i - 1) + v@[(i - 1) * 4 + 1],
            forall|k: int| 0 <= k < i ==> #[trigger] gap_fits(v@, k),
        decreases count - i,
    {
        assert(v@.len() == v.len());
        let start: i128 = end as i128 + v[i * 4] as i128;
        let next: i128 = start + v[i * 4 + 1] as i128;
        assert(start == start_from_gaps(v@, i as int));
        if start < i64::MIN as i128 || start > i64::MAX as i128 || next < i64::MIN as i128 || next
            > i64::MAX as i128 {
            assert(!gap_fits(v@, i as int));
            return false;
        }
        end = next as i64;
        i += 1;
    }
    true
}

/// Absolute offsets from gaps that are not negative: each frame starts where
/// the one before it ends, or behind.
pub proof fn lemma_normalized_in_order(v: Seq<i64>, i: int)
    requires
        gaps_fit(v),
        0 <= i,
        i + 1 < frame_count(v),
        v[(i + 1) * 4] >= 0,
    ensures
        normalized(v)[i * 4] + normalized(v)[i * 4 + 1] <= normalized(v)[(i + 1) * 4],
{
    assert(gap_fits(v, i));
    assert(gap_fits(v, i + 1));
    assert((i * 4) / 4 == i && ((i + 1) * 4) / 4 == i + 1);
}

// ── Navigation ───────────────────────────────────────────────────────────────

/// Zoom and selection of a flamegraph.
#[derive(Debug, Clone, Copy, PartialEq, Eq, Structural)]
pub struct FlamegraphNav {
    /// Level that is the current root
    pub root_level: usize,
    /// Frame of `root_level` that is the zoom root
    pub root_frame: usize,
    /// Highlighted level
    pub sel_level: usize,
    /// Highlighted frame of `sel_level`
    pub sel_frame: usize,
    /// Width of the terminal in characters, by which frames too narrow to be
    /// shown are skipped
    pub viewport_chars: u64,
}

/// A reference that frames are tested against.
#[derive(Clone, Copy)]
pub enum FrameTest {
    /// Visible in the root and wide enough
    Navigable { root_x: u64, root_w: u64, min_w: u64 },
    /// Wide enough and overlapping a range
    Overlapping { min_w: u64, start: u64, end: u64 },
    /// Navigable and containing a range
    Containing { root_x: u64, root_w: u64, min_w: u64, start: u64, end: u64 },
}

/// Whether frame `i` shows in the root.
pub open spec fn visible(v: Seq<i64>, i: int, root_x: int, root_w: int) -> bool {
    width(v, i) > 0 && offset(v, i) + width(v, i) > root_x && offset(v, i) < root_x + root_w
}

/// Whether the ends that decide if frame `i` shows can be counted: its own, and
/// that of the root where the frame reaches into it.
pub open spec fn visible_fits(v: Seq<i64>, i: int, root_x: int, root_w: int) -> bool {
    &&& frame_fits(v, i)
    &&& width(v, i) > 0 && offset(v, i) + width(v, i) > root_x ==> root_x + root_w <= u64::MAX
}

impl FrameTest {
    /// Whether frame `i` passes.
    pub open spec fn passes(self, v: Seq<i64>, i: int) -> bool {
        match self {
            FrameTest::Navigable { root_x, root_w, min_w } => visible(
                v,
                i,
                root_x as int,
                root_w as int,
            ) && width(v, i) >= min_w,
            FrameTest::Overlapping { min_w, start, end } => width(v, i) > 0 && width(v, i) >= min_w
                && offset(v, i) + width(v, i) > start && offset(v, i) < end,
            FrameTest::Containing { root_x, root_w, min_w, start, end } => visible(
                v,
                i,
                root_x as int,
                root_w as int,
            ) && width(v, i) >= min_w && offset(v, i) <= start && offset(v, i) + width(v, i)
                >= end,
        }
    }

    /// Whether the ends that testing frame `i` compares can be counted.
    pub open spec fn counts(self, v: Seq<i64>, i: int) -> bool {
        match self {
            FrameTest::Navigable { root_x, root_w, .. } => visible_fits(
                v,
                i,
                root_x as int,
                root_w as int,
            ),
            FrameTest::Overlapping { min_w, .. } => width(v, i) > 0 && width(v, i) >= min_w
                ==> frame_fits(v, i),
            FrameTest::Containing { root_x, root_w, .. } => visible_fits(
                v,
                i,
                root_x as int,
                root_w as int,
            ),
        }
    }

    fn check(&self, v: &Vec<i64>, i: usize) -> (r: bool)
        requires
            has_bounds(v@, i as int),
            self.counts(v@, i as int),
        ensures
            r == self.passes(v@, i as int),
    {
        let (off, w) = frame_at(v, i);
        match *self {
            FrameTest::Navigable { root_x, root_w, min_w } => {
                frame_visible(v, i, root_x, root_w) && w >= min_w
            },
            FrameTest::Overlapping { min_w, start, end } => {
                w > 0 && w >= min_w && off + w > start && off < end
            },
            FrameTest::Containing { root_x, root_w, min_w, start, end } => {
                frame_visible(v, i, root_x, root_w) && w >= min_w && off <= start && off + w >= end
            },
        }
    }

    fn can_count(&self, v: &Vec<i64>, i: usize) -> (r: bool)
        requires
            has_bounds(v@, i as int),
        ensures
            r == self.counts(v@, i as int),
    {
        let (off, w) = frame_at(v, i);
        match *self {
            FrameTest::Navigable { root_x, root_w, .. } => {
                off <= u64::MAX - w && (w == 0 || off + w <= root_x || root_x <= u64::MAX - root_w)
            },
            FrameTest::Overlapping { min_w, .. } => w < min_w || off <= u64::MAX - w,
            FrameTest::Containing { root_x, root_w, .. } => {
                off <= u64::MAX - w && (w == 0 || off + w <= root_x || root_x <= u64::MAX - root_w)
            },
        }
    }
}

/// The first frame from `from` on that passes.
pub open spec fn first_passing(v: Seq<i64>, from: int, test: FrameTest) -> Option<int>
    decreases frame_count(v) - from,
{
    if from >= frame_count(v) {
        None
    } else if test.passes(v, from) {
        Some(from)
    } else {
        first_passing(v, from + 1, test)
    }
}

/// The last frame before `to` that passes.
pub open spec fn last_passing(v: Seq<i64>, to: int, test: FrameTest) -> Option<int>
    decreases to,
{
    if to <= 0 {
        None
    } else if test.passes(v, to - 1) {
        Some(to - 1)
    } else {
        last_passing(v, to - 1, test)
    }
}

/// Whether the search for the first frame from `from` on that passes can be made:
/// the ends of all frames that it tests can be counted.
pub open spec fn first_fits(v: Seq<i64>, from: int, test: FrameTest) -> bool
    decreases frame_count(v) - from,
{
    from < frame_count(v) ==> test.counts(v, from) && (test.passes(v, from) || first_fits(
        v,
        from + 1,
        test,
    ))
}

/// Whether the search for the last frame before `to` that passes can be made: the
/// frames that it tests are there, and their ends can be counted.
pub open spec fn last_fits(v: Seq<i64>, to: int, test: FrameTest) -> bool
    decreases to,
{
    to > 0 ==> has_bounds(v, to - 1) && test.counts(v, to - 1) && (test.passes(v, to - 1)
        || last_fits(v, to - 1, test))
}

fn find_first(v: &Vec<i64>, from: usize, test: &FrameTest) -> (r: Option<usize>)
    requires
        first_fits(v@, from as int, *test),
    ensures
        match r {
            Some(i) => first_passing(v@, from as int, *test) == Some(i as int),
            None => first_passing(v@, from as int, *test) is None,
        },
{
    let mut i: usize = from;
    while i < v.len() / 4
        invariant
            first_fits(v@, i as int, *test),
            first_passing(v@, from as int, *test) == first_passing(v@, i as int, *test),
        decreases v.len() - i,
    {
        if test.check(v, i) {
            return Some(i);
        }
        i += 1;
    }
    None
}

fn find_last(v: &Vec<i64>, to: usize, test: &FrameTest) -> (r: Option<usize>)
    requires
        last_fits(v@, to as int, *test),
    ensures
        match r {
            Some(i) => last_passing(v@, to as int, *test) == Some(i as int),
            None => last_passing(v@, to as int, *test) is None,
        },
{
    let mut i: usize = to;
    while i > 0
        invariant
            i <= to,
            last_fits(v@, i as int, *test),
            last_passing(v@, to as int, *test) == last_passing(v@, i as int, *test),
        decreases i,
    {
        if test.check(v, i - 1) {
            return Some(i - 1);
        }
        i -= 1;
    }
    None
}

fn first_in_range(v: &Vec<i64>, from: usize, test: &FrameTest) -> (r: bool)
    ensures
        r == first_fits(v@, from as int, *test),
{
    let mut i: usize = from;
    while i < v.len() / 4
        invariant
            first_fits(v@, from as int, *test) == first_fits(v@, i as int, *test),
        decreases v.len() - i,
    {
        if !test.can_count(v, i) {
            return false;
        }
        if test.check(v, i) {
            return true;
        }
        i += 1;
    }
    true
}

fn last_in_range(v: &Vec<i64>, to: usize, test: &FrameTest) -> (r: bool)
    ensures
        r == last_fits(v@, to as int, *test),
{
    let mut i: usize = to;
    while i > 0
        invariant
            i <= to,
            last_fits(v@, to as int, *test) == last_fits(v@, i as int, *test),
        decreases i,
    {
        if !check_bounds(v, i - 1) || !test.can_count(v, i - 1) {
            return false;
        }
        if test.check(v, i - 1) {
            return true;
        }
        i -= 1;
    }
    true
}

fn frame_visible(v: &Vec<i64>, i: usize, root_x: u64, root_w: u64) -> (r: bool)
    requires
        has_bounds(v@, i as int),
        visible_fits(v@, i as int, root_x as int, root_w as int),
    ensures
        r == visible(v@, i as int, root_x as int, root_w as int),
{
    let (off, w) = frame_at(v, i);
    w > 0 && off + w > root_x && off < root_x + root_w
}

fn check_bounds(v: &Vec<i64>, i: usize) -> (r: bool)
    ensures
        r == has_bounds(v@, i as int),
{
    let n = v.len();
    i < n / 4 || (i == n / 4 && n % 4 >= 2)
}

impl FlamegraphNav {
    /// The full view with the first frame selected.
    pub open spec fn initial() -> FlamegraphNav {
        FlamegraphNav {
            root_level: 0,
            root_frame: 0,
            sel_level: 0,
            sel_frame: 0,
            viewport_chars: 200,
        }
    }

    /// Start and width of the root frame.
    pub open spec fn root(self, fg: FlameGraph) -> (int, int) {
        if self.root_level < fg.levels.len() && has_bounds(
            fg.levels@[self.root_level as int].values@,
            self.root_frame as int,
        ) {
            let v = fg.levels@[self.root_level as int].values@;
            (offset(v, self.root_frame as int), width(v, self.root_frame as int))
        } else {
            (0, fg.total as u64 as int)
        }
    }

    /// Whether the root ends at an offset that can be counted.
    pub open spec fn root_fits(self, fg: FlameGraph) -> bool {
        self.root(fg).0 + self.root(fg).1 <= u64::MAX
    }

    /// The width that frames must have to be moved to; narrower ones take no
    /// character.
    pub open spec fn min_width(self, fg: FlameGraph) -> int {
        if self.viewport_chars == 0 {
            1
        } else {
            self.root(fg).1 / self.viewport_chars as int
        }
    }

    /// Start and end of the selected frame.
    pub open spec fn selection(self, fg: FlameGraph) -> Option<(int, int)> {
        if self.sel_level < fg.levels.len() && has_bounds(
            fg.levels@[self.sel_level as int].values@,
            self.sel_frame as int,
        ) {
            let v = fg.levels@[self.sel_level as int].values@;
            Some(
                (
                    offset(v, self.sel_frame as int),
                    offset(v, self.sel_frame as int) + width(v, self.sel_frame as int),
                ),
            )
        } else {
            None
        }
    }

    /// Whether the selected frame ends at an offset that can be counted.
    pub open spec fn selection_fits(self, fg: FlameGraph) -> bool {
        match self.selection(fg) {
            Some((_, end)) => end <= u64::MAX,
            None => true,
        }
    }

    /// The test for frames to move to in a row.
    pub open spec fn navigable(self, fg: FlameGraph) -> FrameTest {
        FrameTest::Navigable {
            root_x: self.root(fg).0 as u64,
            root_w: self.root(fg).1 as u64,
            min_w: self.min_width(fg) as u64,
        }
    }

    /// The test for children of the selection.
    pub open spec fn overlapping(self, fg: FlameGraph) -> FrameTest {
        let (start, end) = self.selection(fg)->0;
        FrameTest::Overlapping {
            min_w: self.min_width(fg) as u64,
            start: start as u64,
            end: end as u64,
        }
    }

    /// The test for the parent of the selection.
    pub open spec fn containing(self, fg: FlameGraph) -> FrameTest {
        let (start, end) = self.selection(fg)->0;
        FrameTest::Containing {
            root_x: self.root(fg).0 as u64,
            root_w: self.root(fg).1 as u64,
            min_w: self.min_width(fg) as u64,
            start: start as u64,
            end: end as u64,
        }
    }

    /// With the frame `i` of `level` selected, if any.
    pub open spec fn select(self, level: int, i: Option<int>) -> FlamegraphNav {
        match i {
            Some(i) => FlamegraphNav {
                sel_level: level as usize,
                sel_frame: i as usize,
                ..self
            },
            None => self,
        }
    }

    /// After a move to the right: the next frame of the level that is navigable.
    pub open spec fn moved_right(self, fg: FlameGraph) -> FlamegraphNav {
        if self.sel_level < fg.levels.len() {
            self.select(
                self.sel_level as int,
                first_passing(
                    fg.levels@[self.sel_level as int].values@,
                    self.sel_frame + 1,
                    self.navigable(fg),
                ),
            )
        } else {
            self
        }
    }

    /// After a move to the left: the frame before it that is navigable.
    pub open spec fn moved_left(self, fg: FlameGraph) -> FlamegraphNav {
        if self.sel_level < fg.levels.len() {
            self.select(
                self.sel_level as int,
                last_passing(
                    fg.levels@[self.sel_level as int].values@,
                    self.sel_frame as int,
                    self.navigable(fg),
                ),
            )
        } else {
            self
        }
    }

    /// After a move to the children: the first that is wide enough.
    pub open spec fn moved_up(self, fg: FlameGraph) -> FlamegraphNav {
        if self.sel_level + 1 < fg.levels.len() && self.selection(fg) is Some {
            self.select(
                self.sel_level + 1,
                first_passing(fg.levels@[self.sel_level + 1].values@, 0, self.overlapping(fg)),
            )
        } else {
            self
        }
    }

    /// After a move to the parent, not below the root: the frame that contains
    /// the selection, or else the first that is navigable.
    pub open spec fn moved_down(self, fg: FlameGraph) -> FlamegraphNav {
        if self.sel_level > 0 && self.sel_level > self.root_level && self.selection(fg) is Some {
            let v = fg.levels@[self.sel_level - 1].values@;
            self.select(
                self.sel_level - 1,
                match first_passing(v, 0, self.containing(fg)) {
                    Some(i) => Some(i),
                    None => first_passing(v, 0, self.navigable(fg)),
                },
            )
        } else {
            self
        }
    }

    /// After zooming into the selection.
    pub open spec fn zoomed_in(self, fg: FlameGraph) -> FlamegraphNav {
        self.rooted().moved_up(fg)
    }

    /// After zooming out one level. The selection stays in the root.
    pub open spec fn zoomed_out(self) -> FlamegraphNav {
        let root_level = if self.root_level > 0 {
            (self.root_level - 1) as usize
        } else {
            0
        };
        let inside = self.sel_level >= root_level;
        FlamegraphNav {
            root_level,
            root_frame: 0,
            sel_level: if inside {
                self.sel_level
            } else {
                root_level
            },
            sel_frame: if inside {
                self.sel_frame
            } else {
                0
            },
            ..self
        }
    }

    /// Whether a move to the right can be counted.
    pub open spec fn right_fits(self, fg: FlameGraph) -> bool {
        self.sel_level < fg.levels.len() ==> first_fits(
            fg.levels@[self.sel_level as int].values@,
            self.sel_frame + 1,
            self.navigable(fg),
        )
    }

    /// Whether a move to the left can be counted.
    pub open spec fn left_fits(self, fg: FlameGraph) -> bool {
        self.sel_level < fg.levels.len() ==> last_fits(
            fg.levels@[self.sel_level as int].values@,
            self.sel_frame as int,
            self.navigable(fg),
        )
    }

    /// Whether a move to the children can be counted.
    pub open spec fn up_fits(self, fg: FlameGraph) -> bool {
        self.sel_level + 1 < fg.levels.len() && self.selection(fg) is Some ==> {
            &&& self.selection_fits(fg)
            &&& first_fits(fg.levels@[self.sel_level + 1].values@, 0, self.overlapping(fg))
        }
    }

    /// Whether a move to the parent can be counted.
    pub open spec fn down_fits(self, fg: FlameGraph) -> bool {
        self.sel_level > 0 && self.sel_level > self.root_level && self.selection(fg) is Some ==> {
            let v = fg.levels@[self.sel_level - 1].values@;
            &&& self.selection_fits(fg)
            &&& first_fits(v, 0, self.containing(fg))
            &&& first_passing(v, 0, self.containing(fg)) is None ==> first_fits(
                v,
                0,
                self.navigable(fg),
            )
        }
    }

    /// With the selected frame as root.
    pub open spec fn rooted(self) -> FlamegraphNav {
        FlamegraphNav { root_level: self.sel_level, root_frame: self.sel_frame, ..self }
    }

    /// Whether zooming in can be counted.
    pub open spec fn zoom_fits(self, fg: FlameGraph) -> bool {
        self.rooted().up_fits(fg)
    }

    fn root_bounds(&self, fg: &FlameGraph) -> (r: (u64, u64))
        ensures
            (r.0 as int, r.1 as int) == self.root(*fg),
    {
        if self.root_level < fg.levels.len() {
            let v = &fg.levels[self.root_level].values;
            if check_bounds(v, self.root_frame) {
                assert(v@.len() == v.len());
                let i = self.root_frame * 4;
                return (#[verifier::truncate]
                (v[i] as u64), #[verifier::truncate]
                (v[i + 1] as u64));
            }
        }
        (0, #[verifier::truncate]
        (fg.total as u64))
    }

    fn min_nav_width(&self, root_w: u64) -> (r: u64)
        ensures
            r == (if self.viewport_chars == 0 {
                1
            } else {
                root_w as int / self.viewport_chars as int
            }),
    {
        if self.viewport_chars == 0 {
            return 1;
        }
        root_w / self.viewport_chars
    }

    fn sel_bounds(&self, fg: &FlameGraph) -> (r: Option<(u64, u64)>)
        requires
            self.selection_fits(*fg),
        ensures
            match r {
                Some((start, end)) => self.selection(*fg) == Some((start as int, end as int)),
                None => self.selection(*fg) is None,
            },
    {
        if self.sel_level < fg.levels.len() {
            let v = &fg.levels[self.sel_level].values;
            if check_bounds(v, self.sel_frame) {
                assert(v@.len() == v.len());
                let i = self.sel_frame * 4;
                let start: u64 = #[verifier::truncate]
                (v[i] as u64);
                let w: u64 = #[verifier::truncate]
                (v[i + 1] as u64);
                return Some((start, start + w));
            }
        }
        None
    }

    /// Move the selection to the next frame of its level.
    pub fn move_right(&mut self, fg: &FlameGraph)
        requires
            old(self).right_fits(*fg),
        ensures
            *final(self) == old(self).moved_right(*fg),
    {
        if self.sel_level < fg.levels.len() {
            let (root_x, root_w) = self.root_bounds(fg);
            let min_w = self.min_nav_width(root_w);
            let test = FrameTest::Navigable { root_x, root_w, min_w };
            let v = &fg.levels[self.sel_level].values;
            if self.sel_frame < v.len() / 4 {
                if let Some(i) = find_first(v, self.sel_frame + 1, &test) {
                    self.sel_frame = i;
                }
            }
        }
    }

    /// Move the selection to the frame before it in its level.
    pub fn move_left(&mut self, fg: &FlameGraph)
        requires
            old(self).left_fits(*fg),
        ensures
            *final(self) == old(self).moved_left(*fg),
    {
        if self.sel_level < fg.levels.len() {
            let (root_x, root_w) = self.root_bounds(fg);
            let min_w = self.min_nav_width(root_w);
            let test = FrameTest::Navigable { root_x, root_w, min_w };
            let v = &fg.levels[self.sel_level].values;
            if let Some(i) = find_last(v, self.sel_frame, &test) {
                self.sel_frame = i;
            }
        }
    }

    /// Move selection to a child level (deeper into the call stack).
    pub fn move_up(&mut self, fg: &FlameGraph)
        requires
            old(self).up_fits(*fg),
        ensures
            *final(self) == old(self).moved_up(*fg),
    {
        if self.sel_level >= fg.levels.len() || fg.levels.len() - self.sel_level <= 1 {
            return;
        }
        if let Some((start, end)) = self.sel_bounds(fg) {
            let (_, root_w) = self.root_bounds(fg);
            let min_w = self.min_nav_width(root_w);
            let test = FrameTest::Overlapping { min_w, start, end };
            let new_level = self.sel_level + 1;
            if let Some(i) = find_first(&fg.levels[new_level].values, 0, &test) {
                self.sel_level = new_level;
                self.sel_frame = i;
            }
        }
    }

    /// Move selection to the parent level (shallower in the call stack).
    pub fn move_down(&mut self, fg: &FlameGraph)
        requires
            old(self).down_fits(*fg),
        ensures
            *final(self) == old(self).moved_down(*fg),
    {
        if self.sel_level == 0 || self.sel_level <= self.root_level || self.sel_level
            >= fg.levels.len() {
            return;
        }
        if let Some((start, end)) = self.sel_bounds(fg) {
            let (root_x, root_w) = self.root_bounds(fg);
            let min_w = self.min_nav_width(root_w);
            let new_level = self.sel_level - 1;
            let v = &fg.levels[new_level].values;
            let containing = FrameTest::Containing { root_x, root_w, min_w, start, end };
            let navigable = FrameTest::Navigable { root_x, root_w, min_w };
            if let Some(i) = find_first(v, 0, &containing) {
                self.sel_level = new_level;
                self.sel_frame = i;
                return;
            }
            if let Some(i) = find_first(v, 0, &navigable) {
                self.sel_level = new_level;
                self.sel_frame = i;
            }
        }
    }

    /// Zoom into the currently selected frame.
    pub fn zoom_in(&mut self, fg: &FlameGraph)
        requires
            old(self).zoom_fits(*fg),
        ensures
            *final(self) == old(self).zoomed_in(*fg),
    {
        self.root_level = self.sel_level;
        self.root_frame = self.sel_frame;
        self.move_up(fg);
    }

    /// Zoom out one level (or reset to the full view at level 0).
    pub fn zoom_out(&mut self)
        ensures
            *final(self) == old(self).zoomed_out(),
    {
        if self.root_level > 0 {
            self.root_level -= 1;
        }
        self.root_frame = 0;
        if self.sel_level < self.root_level {
            self.sel_level = self.root_level;
            self.sel_frame = self.root_frame;
        }
    }

    /// Whether `move_right` can be made.
    pub fn right_in_range(&self, fg: &FlameGraph) -> (r: bool)
        ensures
            r == self.right_fits(*fg),
    {
        if self.sel_level >= fg.levels.len() {
            return true;
        }
        let (root_x, root_w) = self.root_bounds(fg);
        let min_w = self.min_nav_width(root_w);
        let v = &fg.levels[self.sel_level].values;
        self.sel_frame >= v.len() / 4 || first_in_range(
            v,
            self.sel_frame + 1,
            &FrameTest::Navigable { root_x, root_w, min_w },
        )
    }

    /// Whether `move_left` can be made.
    pub fn left_in_range(&self, fg: &FlameGraph) -> (r: bool)
        ensures
            r == self.left_fits(*fg),
    {
        if self.sel_level >= fg.levels.len() {
            return true;
        }
        let (root_x, root_w) = self.root_bounds(fg);
        let min_w = self.min_nav_width(root_w);
        last_in_range(
            &fg.levels[self.sel_level].values,
            self.sel_frame,
            &FrameTest::Navigable { root_x, root_w, min_w },
        )
    }

    fn selection_in_range(&self, fg: &FlameGraph) -> (r: bool)
        ensures
            r == self.selection_fits(*fg),
    {
        if self.sel_level < fg.levels.len() {
            let v = &fg.levels[self.sel_level].values;
            if check_bounds(v, self.sel_frame) {
                assert(v@.len() == v.len());
                let i = self.sel_frame * 4;
                let start: u64 = #[verifier::truncate]
                (v[i] as u64);
                let w: u64 = #[verifier::truncate]
                (v[i + 1] as u64);
                return start <= u64::MAX - w;
            }
        }
        true
    }

    /// Whether `move_up` can be made.
    pub fn up_in_range(&self, fg: &FlameGraph) -> (r: bool)
        ensures
            r == self.up_fits(*fg),
    {
        if self.sel_level >= fg.levels.len() || fg.levels.len() - self.sel_level <= 1 {
            return true;
        }
        if !self.selection_in_range(fg) {
            return false;
        }
        if let Some((start, end)) = self.sel_bounds(fg) {
            let (_, root_w) = self.root_bounds(fg);
            let min_w = self.min_nav_width(root_w);
            return first_in_range(
                &fg.levels[self.sel_level + 1].values,
                0,
                &FrameTest::Overlapping { min_w, start, end },
            );
        }
        true
    }

    /// Whether `zoom_in` can be made.
    pub fn zoom_in_range(&self, fg: &FlameGraph) -> (r: bool)
        ensures
            r == self.zoom_fits(*fg),
    {
        let rooted = FlamegraphNav {
            root_level: self.sel_level,
            root_frame: self.sel_frame,
            ..*self
        };
        rooted.up_in_range(fg)
    }

    /// Whether `move_down` can be made.
    pub fn down_in_range(&self, fg: &FlameGraph) -> (r: bool)
        ensures
            r == self.down_fits(*fg),
    {
        if self.sel_level == 0 || self.sel_level <= self.root_level || self.sel_level
            >= fg.levels.len() {
            return true;
        }
        if !self.selection_in_range(fg) {
            return false;
        }
        if let Some((start, end)) = self.sel_bounds(fg) {
            let (root_x, root_w) = self.root_bounds(fg);
            let min_w = self.min_nav_width(root_w);
            let v = &fg.levels[self.sel_level - 1].values;
            let containing = FrameTest::Containing { root_x, root_w, min_w, start, end };
            if !first_in_range(v, 0, &containing) {
                return false;
            }
            if find_first(v, 0, &containing).is_none() {
                return first_in_range(v, 0, &FrameTest::Navigable { root_x, root_w, min_w });
            }
        }
        true
    }
}

impl Default for FlamegraphNav {
    fn default() -> (r: Self)
        ensures
            r == FlamegraphNav::initial(),
    {
        FlamegraphNav {
            root_level: 0,
            root_frame: 0,
            sel_level: 0,
            sel_frame: 0,
            viewport_chars: 200,
        }
    }
}

/// Whether a frame of the graph is selected.
pub open spec fn selects_frame(nav: FlamegraphNav, fg: FlameGraph) -> bool {
    nav.sel_level < fg.levels.len() && nav.sel_frame < frame_count(
        fg.levels@[nav.sel_level as int].values@,
    )
}

proof fn lemma_first_passing(v: Seq<i64>, from: int, test: FrameTest)
    requires
        0 <= from,
    ensures
        match first_passing(v, from, test) {
            Some(i) => from <= i < frame_count(v) && test.passes(v, i),
            None => true,
        },
    decreases frame_count(v) - from,
{
    if from < frame_count(v) && !test.passes(v, from) {
        lemma_first_passing(v, from + 1, test);
    }
}

proof fn lemma_last_passing(v: Seq<i64>, to: int, test: FrameTest)
    ensures
        match last_passing(v, to, test) {
            Some(i) => 0 <= i < to && test.passes(v, i),
            None => true,
        },
    decreases to,
{
    if to > 0 && !test.passes(v, to - 1) {
        lemma_last_passing(v, to - 1, test);
    }
}

/// Moves from a frame of the graph end at a frame of the graph, whichever way.
pub proof fn lemma_moves_stay_in_graph(nav: FlamegraphNav, fg: FlameGraph)
    requires
        selects_frame(nav, fg),
    ensures
        selects_frame(nav.moved_right(fg), fg),
        selects_frame(nav.moved_left(fg), fg),
        selects_frame(nav.moved_up(fg), fg),
        selects_frame(nav.moved_down(fg), fg),
        selects_frame(nav.zoomed_in(fg), fg),
{
    let v = fg.levels@[nav.sel_level as int].values@;
    assert(fg.levels@.len() == fg.levels.len());
    assert(v.len() == fg.levels@[nav.sel_level as int].values.len());
    lemma_first_passing(v, nav.sel_frame + 1, nav.navigable(fg));
    lemma_last_passing(v, nav.sel_frame as int, nav.navigable(fg));
    lemma_up_stays_in_graph(nav, fg);
    lemma_up_stays_in_graph(nav.rooted(), fg);
    if nav.sel_level > 0 && nav.sel_level > nav.root_level && nav.selection(fg) is Some {
        let w = fg.levels@[nav.sel_level - 1].values@;
        assert(w.len() == fg.levels@[nav.sel_level - 1].values.len());
        lemma_first_passing(w, 0, nav.navigable(fg));
        lemma_first_passing(w, 0, nav.containing(fg));
    }
}

proof fn lemma_up_stays_in_graph(nav: FlamegraphNav, fg: FlameGraph)
    requires
        selects_frame(nav, fg),
    ensures
        selects_frame(nav.moved_up(fg), fg),
{
    assert(fg.levels@.len() == fg.levels.len());
    if nav.sel_level + 1 < fg.levels.len() && nav.selection(fg) is Some {
        let w = fg.levels@[nav.sel_level + 1].values@;
        assert(w.len() == fg.levels@[nav.sel_level + 1].values.len());
        lemma_first_passing(w, 0, nav.overlapping(fg));
    }
}

/// A frame that passes, with none behind it that does, is the last that passes.
proof fn lemma_last_is(v: Seq<i64>, to: int, test: FrameTest, s: int)
    requires
        0 <= s < to,
        test.passes(v, s),
        forall|i: int| s < i < to ==> !(#[trigger] test.passes(v, i)),
    ensures
        last_passing(v, to, test) == Some(s),
    decreases to - s,
{
    if s < to - 1 {
        assert(!test.passes(v, to - 1));
        lemma_last_is(v, to - 1, test, s);
    }
}

/// No frame before the first that passes does.
proof fn lemma_none_before(v: Seq<i64>, from: int, test: FrameTest, i: int)
    requires
        0 <= from <= i < frame_count(v),
        match first_passing(v, from, test) {
            Some(first) => i < first,
            None => true,
        },
    ensures
        !test.passes(v, i),
    decreases i - from,
{
    if from < i {
        lemma_none_before(v, from + 1, test, i);
    }
}

/// A move to the right and then to the left leads back to a frame that can be
/// moved to.
pub proof fn lemma_right_and_left(nav: FlamegraphNav, fg: FlameGraph)
    requires
        selects_frame(nav, fg),
        nav.navigable(fg).passes(
            fg.levels@[nav.sel_level as int].values@,
            nav.sel_frame as int,
        ),
        nav.moved_right(fg).sel_frame != nav.sel_frame,
    ensures
        nav.moved_right(fg).moved_left(fg) == nav,
{
    assert(fg.levels@.len() == fg.levels.len());
    let v = fg.levels@[nav.sel_level as int].values@;
    assert(v.len() == fg.levels@[nav.sel_level as int].values.len());
    let test = nav.navigable(fg);
    let s = nav.sel_frame as int;
    lemma_first_passing(v, s + 1, test);
    let right = nav.moved_right(fg);
    let first = first_passing(v, s + 1, test)->0;
    assert(right.sel_frame == first);
    assert(right.navigable(fg) == test);
    assert forall|i: int| s < i < first implies !(#[trigger] test.passes(v, i)) by {
        lemma_none_before(v, s + 1, test, i);
    }
    lemma_last_is(v, first, test, s);
}

/// Whether frames of a level that have samples do not overlap.
pub open spec fn disjoint(v: Seq<i64>) -> bool {
    forall|i: int, j: int|
        #![trigger offset(v, i), offset(v, j)]
        0 <= i < j < frame_count(v) && width(v, i) > 0 && width(v, j) > 0 ==> offset(v, i) + width(
            v,
            i,
        ) <= offset(v, j) || offset(v, j) + width(v, j) <= offset(v, i)
}

/// Whether frame `j` of `w` lies inside frame `i` of `v`.
pub open spec fn lies_inside(w: Seq<i64>, j: int, v: Seq<i64>, i: int) -> bool {
    offset(v, i) <= offset(w, j) && offset(w, j) + width(w, j) <= offset(v, i) + width(v, i)
}

/// Whether every frame of `w` that has samples lies inside a frame of `v`.
pub open spec fn nested(w: Seq<i64>, v: Seq<i64>) -> bool {
    forall|j: int|
        #![trigger offset(w, j)]
        0 <= j < frame_count(w) && width(w, j) > 0 ==> exists|i: int|
            0 <= i < frame_count(v) && #[trigger] lies_inside(w, j, v, i)
}

/// A frame that passes, with none before it that does, is the first that passes.
proof fn lemma_first_is(v: Seq<i64>, from: int, test: FrameTest, s: int)
    requires
        0 <= from <= s < frame_count(v),
        test.passes(v, s),
        forall|i: int| 0 <= i < s ==> !(#[trigger] test.passes(v, i)),
    ensures
        first_passing(v, from, test) == Some(s),
    decreases s - from,
{
    if from < s {
        assert(!test.passes(v, from));
        lemma_first_is(v, from + 1, test, s);
    }
}

/// A move to the children and then to the parent leads back, where calls are
/// nested: the frames of the level do not overlap and those above lie inside
/// them. The selected frame shows in the root, not below its level, and is wide
/// enough to be moved to.
pub proof fn lemma_up_and_down(nav: FlamegraphNav, fg: FlameGraph)
    requires
        selects_frame(nav, fg),
        nav.selection_fits(fg),
        nav.sel_level >= nav.root_level,
        nav.moved_up(fg).sel_level != nav.sel_level,
        disjoint(fg.levels@[nav.sel_level as int].values@),
        nested(
            fg.levels@[nav.sel_level + 1].values@,
            fg.levels@[nav.sel_level as int].values@,
        ),
        visible(
            fg.levels@[nav.sel_level as int].values@,
            nav.sel_frame as int,
            nav.root(fg).0,
            nav.root(fg).1,
        ),
        width(fg.levels@[nav.sel_level as int].values@, nav.sel_frame as int) >= nav.min_width(fg),
    ensures
        nav.moved_up(fg).moved_down(fg) == nav,
{
    assert(fg.levels@.len() == fg.levels.len());
    let v = fg.levels@[nav.sel_level as int].values@;
    let w = fg.levels@[nav.sel_level + 1].values@;
    assert(v.len() == fg.levels@[nav.sel_level as int].values.len());
    assert(w.len() == fg.levels@[nav.sel_level + 1].values.len());
    let s = nav.sel_frame as int;
    lemma_first_passing(w, 0, nav.overlapping(fg));
    let j = first_passing(w, 0, nav.overlapping(fg))->0;
    let up = nav.moved_up(fg);
    assert(up.sel_level == nav.sel_level + 1 && up.sel_frame == j);
    // The child lies inside the selected frame: the frame that it lies inside
    // overlaps the selected one.
    assert(offset(w, j) + width(w, j) > offset(v, s) && offset(w, j) < offset(v, s) + width(v, s));
    let k = choose|i: int| 0 <= i < frame_count(v) && #[trigger] lies_inside(w, j, v, i);
    assert(lies_inside(w, j, v, k));
    assert(k == s) by {
        assert(width(v, k) > 0 && width(v, s) > 0);
        if k != s {
            assert(offset(v, k) <= offset(w, j) && offset(v, s) >= 0);
        }
    }
    assert(up.root(fg) == nav.root(fg));
    assert(up.selection(fg) == Some((offset(w, j), offset(w, j) + width(w, j))));
    let test = up.containing(fg);
    assert(up.min_width(fg) == nav.min_width(fg));
    assert(nav.min_width(fg) <= u64::MAX) by {
        let root_w = nav.root(fg).1;
        if nav.viewport_chars != 0 {
            assert(root_w / nav.viewport_chars as int <= root_w) by (nonlinear_arith)
                requires
                    root_w >= 0,
                    nav.viewport_chars >= 1,
            ;
        }
    }
    assert(test.passes(v, s));
    assert forall|i: int| 0 <= i < s implies !(#[trigger] test.passes(v, i)) by {
        if test.passes(v, i) {
            assert(offset(v, i) <= offset(w, j) && offset(v, s) <= offset(w, j));
        }
    }
    lemma_first_is(v, 0, test, s);
}

// ── View ─────────────────────────────────────────────────────────────────────

/// A frame as it is shown.
#[derive(Debug, Clone)]
pub struct FlamegraphFrameView {
    pub name: String,
    /// Start in samples, relative to the left edge of the root
    pub x_start: u64,
    /// Width in samples, cut to the root
    pub width: u64,
    /// Samples spent in the function itself, not in its callees
    pub self_samples: u64,
    /// Samples of the whole frame, of which the root's samples are 100 percent
    pub total_samples: u64,
    /// Whether the frame is highlighted
    pub is_selected: bool,
}

/// The frames of one row.
#[derive(Debug, Clone)]
pub struct FlamegraphLevelView {
    pub frames: Vec<FlamegraphFrameView>,
}

/// A flamegraph as it is shown.
#[derive(Debug, Clone)]
pub struct FlamegraphView {
    /// Visible levels, root first
    pub levels: Vec<FlamegraphLevelView>,
    /// Samples of the root
    pub root_samples: u64,
    pub units: String,
    /// The selected frame, for the status line
    pub selected_name: String,
    pub selected_total_samples: u64,
    pub selected_self_samples: u64,
}

/// Value of a [`FlamegraphFrameView`].
pub ghost struct FrameV {
    pub name: Seq<char>,
    pub x_start: int,
    pub width: int,
    pub self_samples: int,
    pub total_samples: int,
    pub is_selected: bool,
}

impl View for FlamegraphFrameView {
    type V = FrameV;

    open spec fn view(&self) -> FrameV {
        FrameV {
            name: self.name@,
            x_start: self.x_start as int,
            width: self.width as int,
            self_samples: self.self_samples as int,
            total_samples: self.total_samples as int,
            is_selected: self.is_selected,
        }
    }
}

impl View for FlamegraphLevelView {
    type V = Seq<FrameV>;

    open spec fn view(&self) -> Seq<FrameV> {
        self.frames@.map_values(|f: FlamegraphFrameView| f@)
    }
}

/// The rows of a view.
pub open spec fn rows(levels: Seq<FlamegraphLevelView>) -> Seq<Seq<FrameV>> {
    levels.map_values(|l: FlamegraphLevelView| l@)
}

/// Whether frame `i` of `level` is the selected one.
pub open spec fn is_selection(nav: FlamegraphNav, level: int, i: int) -> bool {
    level == nav.sel_level && i == nav.sel_frame
}

/// How frame `i` of `level` is shown: cut to the root.
pub open spec fn shown_frame(fg: FlameGraph, nav: FlamegraphNav, level: int, i: int) -> FrameV {
    let v = fg.levels@[level].values@;
    let (root_x, root_w) = nav.root(fg);
    let end = offset(v, i) + width(v, i);
    let from = if offset(v, i) > root_x {
        offset(v, i)
    } else {
        root_x
    };
    let to = if end < root_x + root_w {
        end
    } else {
        root_x + root_w
    };
    FrameV {
        name: frame_name(fg.names@, v, i),
        x_start: from - root_x,
        width: to - from,
        self_samples: self_samples(v, i),
        total_samples: width(v, i),
        is_selected: is_selection(nav, level, i),
    }
}

/// The first `n` frames of a level, those that are visible, as they are shown.
pub open spec fn shown_frames(fg: FlameGraph, nav: FlamegraphNav, level: int, n: int) -> Seq<
    FrameV,
>
    decreases n,
{
    if n <= 0 {
        seq![]
    } else {
        let before = shown_frames(fg, nav, level, n - 1);
        let (root_x, root_w) = nav.root(fg);
        if visible(fg.levels@[level].values@, n - 1, root_x, root_w) {
            before.push(shown_frame(fg, nav, level, n - 1))
        } else {
            before
        }
    }
}

/// The rows of a flamegraph from the root's level on; none for an empty root.
pub open spec fn shown_rows(fg: FlameGraph, nav: FlamegraphNav) -> Seq<Seq<FrameV>> {
    if nav.root(fg).1 == 0 || nav.root_level >= fg.levels.len() {
        seq![]
    } else {
        Seq::new(
            (fg.levels.len() - nav.root_level) as nat,
            |k: int|
                shown_frames(
                    fg,
                    nav,
                    nav.root_level + k,
                    frame_count(fg.levels@[nav.root_level + k].values@),
                ),
        )
    }
}

/// Whether the selected frame is shown.
pub open spec fn selection_shown(fg: FlameGraph, nav: FlamegraphNav) -> bool {
    &&& nav.root(fg).1 != 0
    &&& nav.root_level <= nav.sel_level
    &&& selects_frame(nav, fg)
    &&& visible(
        fg.levels@[nav.sel_level as int].values@,
        nav.sel_frame as int,
        nav.root(fg).0,
        nav.root(fg).1,
    )
}

/// Name, total and self samples of the selected frame if it is shown.
pub open spec fn shown_selection(fg: FlameGraph, nav: FlamegraphNav) -> (Seq<char>, int, int) {
    if selection_shown(fg, nav) {
        let f = shown_frame(fg, nav, nav.sel_level as int, nav.sel_frame as int);
        (f.name, f.total_samples, f.self_samples)
    } else {
        (seq![], 0, 0)
    }
}

/// Whether all that a view shows ends at offsets that can be counted.
pub open spec fn view_fits(fg: FlameGraph, nav: FlamegraphNav) -> bool {
    nav.root(fg).1 > 0 ==> {
        &&& nav.root_level < fg.levels.len() ==> nav.root_fits(fg)
        &&& forall|l: int|
            nav.root_level <= l < fg.levels.len() ==> level_fits(
                (#[trigger] fg.levels@[l]).values@,
            )
    }
}

/// Whether `build_flamegraph_view` can be applied.
pub fn view_in_range(fg: &FlameGraph, nav: &FlamegraphNav) -> (r: bool)
    ensures
        r == view_fits(*fg, *nav),
{
    let (root_x, root_w) = nav.root_bounds(fg);
    if root_w == 0 || nav.root_level >= fg.levels.len() {
        return true;
    }
    if root_x > u64::MAX - root_w {
        return false;
    }
    let mut l: usize = nav.root_level;
    while l < fg.levels.len()
        invariant
            nav.root_level <= l <= fg.levels.len(),
            nav.root(*fg).1 > 0,
            forall|k: int|
                nav.root_level <= k < l ==> level_fits((#[trigger] fg.levels@[k]).values@),
        decreases fg.levels.len() - l,
    {
        if !check_level(&fg.levels[l].values) {
            assert(!level_fits(fg.levels@[l as int].values@));
            return false;
        }
        l += 1;
    }
    true
}

/// The row of a level.
fn build_row(fg: &FlameGraph, nav: &FlamegraphNav, level: usize, root: (u64, u64)) -> (r:
    FlamegraphLevelView)
    requires
        level < fg.levels.len(),
        (root.0 as int, root.1 as int) == nav.root(*fg),
        nav.root_fits(*fg),
        level_fits(fg.levels@[level as int].values@),
    ensures
        r@ == shown_frames(
            *fg,
            *nav,
            level as int,
            frame_count(fg.levels@[level as int].values@),
        ),
{
    let (root_x, root_w) = root;
    let raw = &fg.levels[level].values;
    let count = raw.len() / 4;
    let mut frames: Vec<FlamegraphFrameView> = Vec::new();
    let mut i: usize = 0;
    assert(frames@.map_values(|f: FlamegraphFrameView| f@) =~= seq![]);
    while i < count
        invariant
            i <= count == frame_count(raw@),
            level < fg.levels.len(),
            raw@ == fg.levels@[level as int].values@,
            (root_x as int, root_w as int) == nav.root(*fg),
            nav.root_fits(*fg),
            level_fits(raw@),
            frames@.map_values(|f: FlamegraphFrameView| f@) == shown_frames(
                *fg,
                *nav,
                level as int,
                i as int,
            ),
        decreases count - i,
    {
        assert(frame_fits(raw@, i as int));
        assert(raw@.len() == raw.len());
        if frame_visible(raw, i, root_x, root_w) {
            let (off, total) = frame_at(raw, i);
            let self_samples: u64 = #[verifier::truncate]
            (raw[i * 4 + 2] as u64);
            let from = if off > root_x {
                off
            } else {
                root_x
            };
            let end = off + total;
            let to = if end < root_x + root_w {
                end
            } else {
                root_x + root_w
            };
            let frame = FlamegraphFrameView {
                name: name_at(&fg.names, raw, i),
                x_start: from - root_x,
                width: to - from,
                self_samples,
                total_samples: total,
                is_selected: level == nav.sel_level && i == nav.sel_frame,
            };
            let ghost before = frames@.map_values(|f: FlamegraphFrameView| f@);
            let ghost value = frame@;
            frames.push(frame);
            assert(frames@.map_values(|f: FlamegraphFrameView| f@) =~= before.push(value));
        }
        i += 1;
    }
    FlamegraphLevelView { frames }
}

/// Whether `v` shows a flamegraph under a zoom and a selection.
pub open spec fn flamegraph_shows(
    fg: FlameGraph,
    nav: FlamegraphNav,
    units: Seq<char>,
    v: FlamegraphView,
) -> bool {
    &&& rows(v.levels@) == shown_rows(fg, nav)
    &&& v.root_samples == nav.root(fg).1
    &&& v.units@ == units
    &&& (v.selected_name@, v.selected_total_samples as int, v.selected_self_samples as int)
        == shown_selection(fg, nav)
}

/// The view of a flamegraph under a zoom and a selection.
pub fn build_flamegraph_view(fg: &FlameGraph, nav: &FlamegraphNav) -> (r: FlamegraphView)
    requires
        view_fits(*fg, *nav),
    ensures
        flamegraph_shows(*fg, *nav, seq![], r),
{
    let (root_x, root_w) = nav.root_bounds(fg);
    let mut levels: Vec<FlamegraphLevelView> = Vec::new();
    let mut selected_name = String::new();
    let mut selected_total_samples: u64 = 0;
    let mut selected_self_samples: u64 = 0;
    let units = String::new();
    assert(units@ =~= seq![]);
    assert(selected_name@ =~= seq![]);
    assert(rows(levels@) =~= seq![]);
    if root_w > 0 && nav.root_level < fg.levels.len() {
        let mut l: usize = nav.root_level;
        while l < fg.levels.len()
            invariant
                nav.root_level <= l <= fg.levels.len(),
                (root_x as int, root_w as int) == nav.root(*fg),
                root_w > 0,
                nav.root_level < fg.levels.len(),
                view_fits(*fg, *nav),
                rows(levels@) == shown_rows(*fg, *nav).take(l - nav.root_level),
            decreases fg.levels.len() - l,
        {
            assert(level_fits(fg.levels@[l as int].values@));
            let row = build_row(fg, nav, l, (root_x, root_w));
            let ghost before = rows(levels@);
            let ghost value = row@;
            levels.push(row);
            assert(rows(levels@) =~= before.push(value));
            assert(shown_rows(*fg, *nav).take(l - nav.root_level + 1) =~= shown_rows(
                *fg,
                *nav,
            ).take(l - nav.root_level).push(value));
            l += 1;
        }
        assert(shown_rows(*fg, *nav).take(l - nav.root_level) =~= shown_rows(*fg, *nav));
        if nav.root_level <= nav.sel_level && nav.sel_level < fg.levels.len() {
            let raw = &fg.levels[nav.sel_level].values;
            assert(level_fits(fg.levels@[nav.sel_level as int].values@));
            if nav.sel_frame < raw.len() / 4 {
                assert(frame_fits(raw@, nav.sel_frame as int));
                if frame_visible(raw, nav.sel_frame, root_x, root_w) {
                    assert(raw@.len() == raw.len());
                    selected_name = name_at(&fg.names, raw, nav.sel_frame);
                    selected_total_samples = frame_at(raw, nav.sel_frame).1;
                    selected_self_samples = #[verifier::truncate]
                    (raw[nav.sel_frame * 4 + 2] as u64);
                }
            }
        }
    }
    FlamegraphView {
        levels,
        root_samples: root_w,
        units,
        selected_name,
        selected_total_samples,
        selected_self_samples,
    }
}

} // verus!
