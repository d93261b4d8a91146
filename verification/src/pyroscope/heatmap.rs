//! Heatmaps: sample counts by time and value bucket.
//!
//! The bounds of buckets are carried as the bits of double-precision numbers.
//! The counts are arranged here; turning them into intensities is left to the
//! caller.

use crate::order::{
    arranged, int_keys, order_by_keys, places, stable_order, texts,
};
use crate::pyroscope::labels::{
    compute_exemplar_keys, exemplar_keys, label_lists, TimelineExemplar,
};
use crate::pyroscope::timeline::{append_exemplars, by_value, pointees, sort_exemplars};
use vstd::prelude::*;
use vstd::string::*;

verus! {

/// One time slot of a heatmap.
#[derive(Debug, Clone)]
pub struct HeatmapSlot {
    /// Right edge of the slot, which covers `timestamp_ms - step_ms` up to
    /// `timestamp_ms`
    pub timestamp_ms: i64,
    /// Length of the slot, as queried. It cannot be told from the timestamps,
    /// since empty slots may be omitted.
    pub step_ms: i64,
    /// Bits of the lower bound of each bucket
    pub y_min_bits: Vec<u64>,
    /// Sample count per bucket
    pub counts: Vec<i32>,
    /// Exemplars of the slot
    pub exemplars: Vec<TimelineExemplar>,
}

/// View model for the heatmap.
#[derive(Debug, Clone)]
pub struct HeatmapView<'a> {
    /// Counts by slot and bucket; row 0 is the bucket with the highest values
    pub columns: Vec<Vec<i32>>,
    /// The greatest count, at least 1
    pub max_count: i32,
    pub n_buckets: usize,
    /// Bits of the lower bounds of the buckets
    pub y_min_bits: &'a Vec<u64>,
    /// Left edge of the first column
    pub start_ms: i64,
    /// Right edge of the last column
    pub end_ms: i64,
    /// Length of each slot
    pub step_ms: i64,
    /// Exemplars of all slots, sorted by value descending
    pub exemplars: Vec<&'a TimelineExemplar>,
    /// Label keys that vary across exemplars
    pub varying_label_keys: Vec<String>,
}

/// Slots of the same time, taken together.
pub ghost struct MergedSlot {
    pub timestamp_ms: int,
    pub counts: Seq<i32>,
    pub exemplars: Seq<TimelineExemplar>,
}

/// A sum of counts, cut to the range of counts.
pub open spec fn clamped_sum(a: i32, b: i32) -> i32 {
    if a + b > i32::MAX {
        i32::MAX
    } else if a + b < i32::MIN {
        i32::MIN
    } else {
        (a + b) as i32
    }
}

/// `a` with the counts of `b` added, as far as both go.
pub open spec fn added(a: Seq<i32>, b: Seq<i32>) -> Seq<i32> {
    Seq::new(
        a.len(),
        |i: int|
            if i < b.len() {
                clamped_sum(a[i], b[i])
            } else {
                a[i]
            },
    )
}

/// Slots in the order of time; those of the same time stay in their order.
pub open spec fn by_time(slots: Seq<HeatmapSlot>) -> Seq<HeatmapSlot> {
    arranged(slots, stable_order(slots.map_values(|s: HeatmapSlot| s.timestamp_ms as int)))
}

/// Slots, with neighbours of the same time taken together: their counts added,
/// their exemplars pooled.
pub open spec fn merged(slots: Seq<HeatmapSlot>) -> Seq<MergedSlot>
    decreases slots.len(),
{
    if slots.len() == 0 {
        seq![]
    } else {
        let before = merged(slots.drop_last());
        let s = slots.last();
        if before.len() > 0 && before.last().timestamp_ms == s.timestamp_ms {
            before.drop_last().push(
                MergedSlot {
                    timestamp_ms: s.timestamp_ms as int,
                    counts: added(before.last().counts, s.counts@),
                    exemplars: before.last().exemplars + s.exemplars@,
                },
            )
        } else {
            before.push(
                MergedSlot {
                    timestamp_ms: s.timestamp_ms as int,
                    counts: s.counts@,
                    exemplars: s.exemplars@,
                },
            )
        }
    }
}

/// The first positive step among the slots, or 0.
pub open spec fn first_step(slots: Seq<HeatmapSlot>) -> int
    decreases slots.len(),
{
    if slots.len() == 0 {
        0
    } else if slots[0].step_ms > 0 {
        slots[0].step_ms as int
    } else {
        first_step(slots.drop_first())
    }
}

/// The greatest of `floor` and the counts.
pub open spec fn greatest(counts: Seq<i32>, floor: i32) -> i32
    decreases counts.len(),
{
    if counts.len() == 0 {
        floor
    } else {
        let before = greatest(counts.drop_last(), floor);
        if counts.last() > before {
            counts.last()
        } else {
            before
        }
    }
}

/// The greatest count of all slots, at least 1.
pub open spec fn greatest_count(slots: Seq<MergedSlot>) -> i32
    decreases slots.len(),
{
    if slots.len() == 0 {
        1
    } else {
        greatest(slots.last().counts, greatest_count(slots.drop_last()))
    }
}

/// The exemplars of all slots, one slot behind the other.
pub open spec fn pooled(slots: Seq<MergedSlot>) -> Seq<TimelineExemplar>
    decreases slots.len(),
{
    if slots.len() == 0 {
        seq![]
    } else {
        pooled(slots.drop_last()) + slots.last().exemplars
    }
}

/// Whether the left edge of the first column can be counted.
pub open spec fn heatmap_fits(slots: Seq<HeatmapSlot>) -> bool {
    slots.len() > 0 ==> by_time(slots)[0].timestamp_ms - first_step(slots) >= i64::MIN
}

/// A slot under construction.
struct Column<'a> {
    timestamp_ms: i64,
    counts: Vec<i32>,
    exemplars: Vec<&'a TimelineExemplar>,
}

impl<'a> Column<'a> {
    spec fn value(&self) -> MergedSlot {
        MergedSlot {
            timestamp_ms: self.timestamp_ms as int,
            counts: self.counts@,
            exemplars: pointees(self.exemplars@),
        }
    }
}

spec fn column_values(v: Seq<Column<'_>>) -> Seq<MergedSlot> {
    v.map_values(|c: Column<'_>| c.value())
}

fn find_step(slots: &Vec<HeatmapSlot>) -> (r: i64)
    ensures
        r == first_step(slots@),
        r >= 0,
{
    let mut i: usize = 0;
    assert(slots@.skip(0) =~= slots@);
    while i < slots.len()
        invariant
            i <= slots.len(),
            first_step(slots@) == first_step(slots@.skip(i as int)),
        decreases slots.len() - i,
    {
        assert(slots@.skip(i as int)[0] == slots@[i as int]);
        if slots[i].step_ms > 0 {
            return slots[i].step_ms;
        }
        assert(slots@.skip(i as int).drop_first() =~= slots@.skip(i + 1));
        i += 1;
    }
    0
}

/// The places of the slots in the order of time.
fn time_order(slots: &Vec<HeatmapSlot>) -> (r: Vec<usize>)
    ensures
        r.len() == slots.len(),
        by_time(slots@).len() == slots.len(),
        forall|k: int| 0 <= k < r.len() ==> #[trigger] r@[k] < slots.len(),
        forall|k: int| 0 <= k < r.len() ==> #[trigger] by_time(slots@)[k] == slots@[r@[k] as int],
{
    let mut keys: Vec<i128> = Vec::new();
    let mut i: usize = 0;
    while i < slots.len()
        invariant
            i <= slots.len(),
            keys.len() == i,
            forall|k: int| 0 <= k < i ==> #[trigger] keys@[k] == slots@[k].timestamp_ms,
        decreases slots.len() - i,
    {
        keys.push(slots[i].timestamp_ms as i128);
        i += 1;
    }
    let order = order_by_keys(&keys);
    proof {
        assert(int_keys(keys@) =~= slots@.map_values(|s: HeatmapSlot| s.timestamp_ms as int));
        assert(places(order@).len() == order.len());
        assert forall|k: int| 0 <= k < order.len() implies #[trigger] by_time(slots@)[k]
            == slots@[order@[k] as int] by {
            assert(places(order@)[k] == order@[k]);
        }
    }
    order
}

/// Whether `build_heatmap_view` can be applied.
pub fn heatmap_in_range(slots: &Vec<HeatmapSlot>) -> (r: bool)
    ensures
        r == heatmap_fits(slots@),
{
    if slots.len() == 0 {
        return true;
    }
    let order = time_order(slots);
    assert(order@[0] < slots.len());
    slots[order[0]].timestamp_ms as i128 - find_step(slots) as i128 >= i64::MIN as i128
}

fn add_counts(a: &mut Vec<i32>, b: &Vec<i32>)
    ensures
        final(a)@ == added(old(a)@, b@),
{
    let ghost before = a@;
    let mut i: usize = 0;
    while i < a.len() && i < b.len()
        invariant
            a.len() == before.len(),
            i <= a.len(),
            i <= b.len(),
            forall|k: int| 0 <= k < i ==> #[trigger] a@[k] == clamped_sum(before[k], b@[k]),
            forall|k: int| i <= k < a.len() ==> #[trigger] a@[k] == before[k],
        decreases a.len() - i,
    {
        let sum: i64 = a[i] as i64 + b[i] as i64;
        let clamped: i32 = if sum > i32::MAX as i64 {
            i32::MAX
        } else if sum < i32::MIN as i64 {
            i32::MIN
        } else {
            sum as i32
        };
        a.set(i, clamped);
        i += 1;
    }
    assert(a@ =~= added(before, b@));
}

/// The exemplars of all slots, slot by slot.
pub open spec fn slot_exemplars(slots: Seq<HeatmapSlot>) -> Seq<TimelineExemplar>
    decreases slots.len(),
{
    if slots.len() == 0 {
        seq![]
    } else {
        slot_exemplars(slots.drop_last()) + slots.last().exemplars@
    }
}

pub(crate) fn collect_slot_exemplars<'a>(slots: &'a Vec<HeatmapSlot>) -> (r: Vec<
    &'a TimelineExemplar,
>)
    ensures
        pointees(r@) == slot_exemplars(slots@),
{
    let mut out: Vec<&'a TimelineExemplar> = Vec::new();
    let mut s: usize = 0;
    assert(slots@.take(0) =~= seq![]);
    assert(pointees(out@) =~= seq![]);
    while s < slots.len()
        invariant
            s <= slots.len(),
            pointees(out@) == slot_exemplars(slots@.take(s as int)),
        decreases slots.len() - s,
    {
        append_exemplars(&mut out, &slots[s].exemplars);
        assert(slots@.take(s + 1).drop_last() =~= slots@.take(s as int));
        s += 1;
    }
    assert(slots@.take(s as int) =~= slots@);
    out
}

fn copy_counts(counts: &Vec<i32>) -> (r: Vec<i32>)
    ensures
        r@ == counts@,
{
    let mut out: Vec<i32> = Vec::new();
    let mut i: usize = 0;
    while i < counts.len()
        invariant
            i <= counts.len(),
            out@ =~= counts@.take(i as int),
        decreases counts.len() - i,
    {
        out.push(counts[i]);
        i += 1;
    }
    assert(counts@.take(i as int) =~= counts@);
    out
}

/// Sorts slots by time and takes those of the same time together.
fn merge_slots<'a>(slots: &'a Vec<HeatmapSlot>, order: &Vec<usize>) -> (r: Vec<Column<'a>>)
    requires
        order.len() == slots.len(),
        by_time(slots@).len() == slots.len(),
        forall|k: int| 0 <= k < order.len() ==> #[trigger] order@[k] < slots.len(),
        forall|k: int|
            0 <= k < order.len() ==> #[trigger] by_time(slots@)[k] == slots@[order@[k] as int],
    ensures
        column_values(r@) == merged(by_time(slots@)),
{
    let ghost sorted = by_time(slots@);
    let mut out: Vec<Column<'a>> = Vec::new();
    let mut k: usize = 0;
    assert(column_values(out@) =~= seq![]);
    assert(sorted.take(0) =~= seq![]);
    while k < order.len()
        invariant
            k <= order.len(),
            order.len() == slots.len(),
            sorted == by_time(slots@),
            sorted.len() == slots.len(),
            forall|k: int| 0 <= k < order.len() ==> #[trigger] order@[k] < slots.len(),
            forall|k: int|
                0 <= k < order.len() ==> #[trigger] sorted[k] == slots@[order@[k] as int],
            column_values(out@) == merged(sorted.take(k as int)),
        decreases order.len() - k,
    {
        assert(order@[k as int] < slots.len());
        let slot: &'a HeatmapSlot = &slots[order[k]];
        let ghost before = column_values(out@);
        let ghost upto = sorted.take(k + 1);
        assert(upto.drop_last() =~= sorted.take(k as int));
        assert(upto.last() == *slot);
        let n = out.len();
        if n > 0 && out[n - 1].timestamp_ms == slot.timestamp_ms {
            let mut last = out.pop().unwrap();
            add_counts(&mut last.counts, &slot.counts);
            append_exemplars(&mut last.exemplars, &slot.exemplars);
            let ghost value = last.value();
            out.push(last);
            assert(column_values(out@) =~= before.drop_last().push(value));
        } else {
            let mut exemplars: Vec<&'a TimelineExemplar> = Vec::new();
            append_exemplars(&mut exemplars, &slot.exemplars);
            assert(pointees(exemplars@) =~= slot.exemplars@);
            let column = Column {
                timestamp_ms: slot.timestamp_ms,
                counts: copy_counts(&slot.counts),
                exemplars,
            };
            let ghost value = column.value();
            out.push(column);
            assert(column_values(out@) =~= before.push(value));
        }
        k += 1;
    }
    assert(sorted.take(k as int) =~= sorted);
    out
}

fn max_of(counts: &Vec<i32>, floor: i32) -> (r: i32)
    ensures
        r == greatest(counts@, floor),
{
    let mut best: i32 = floor;
    let mut i: usize = 0;
    assert(counts@.take(0) =~= seq![]);
    while i < counts.len()
        invariant
            i <= counts.len(),
            best == greatest(counts@.take(i as int), floor),
        decreases counts.len() - i,
    {
        assert(counts@.take(i + 1).drop_last() =~= counts@.take(i as int));
        if counts[i] > best {
            best = counts[i];
        }
        i += 1;
    }
    assert(counts@.take(i as int) =~= counts@);
    best
}

fn reversed(counts: &Vec<i32>) -> (r: Vec<i32>)
    ensures
        r@ == counts@.reverse(),
{
    let mut out: Vec<i32> = Vec::new();
    let mut i: usize = counts.len();
    while i > 0
        invariant
            i <= counts.len(),
            out.len() == counts.len() - i,
            forall|k: int| 0 <= k < out.len() ==> #[trigger] out@[k] == counts@[counts.len() - 1 - k],
        decreases i,
    {
        i -= 1;
        out.push(counts[i]);
    }
    assert(out@ =~= counts@.reverse());
    out
}

proof fn lemma_merged(slots: Seq<HeatmapSlot>)
    ensures
        merged(slots).len() == 0 <==> slots.len() == 0,
        slots.len() > 0 ==> {
            &&& merged(slots)[0].timestamp_ms == slots[0].timestamp_ms
            &&& merged(slots).last().timestamp_ms == slots.last().timestamp_ms
            &&& merged(slots)[0].counts.len() == slots[0].counts@.len()
        },
    decreases slots.len(),
{
    if slots.len() > 0 {
        lemma_merged(slots.drop_last());
    }
}

/// The columns of a heatmap.
pub open spec fn column_counts(v: Seq<Vec<i32>>) -> Seq<Seq<i32>> {
    v.map_values(|c: Vec<i32>| c@)
}

/// Whether `v` shows the heatmap of some slots.
pub open spec fn heatmap_shows(slots: Seq<HeatmapSlot>, v: HeatmapView<'_>) -> bool {
    let sorted = by_time(slots);
    let all = merged(sorted);
    &&& column_counts(v.columns@) == all.map_values(|s: MergedSlot| s.counts.reverse())
    &&& v.max_count == greatest_count(all)
    &&& v.n_buckets == sorted[0].counts@.len()
    &&& *v.y_min_bits == sorted[0].y_min_bits
    &&& v.step_ms == first_step(slots)
    &&& v.start_ms == sorted[0].timestamp_ms - first_step(slots)
    &&& v.end_ms == sorted.last().timestamp_ms
    &&& pointees(v.exemplars@) == by_value(pooled(all))
    &&& texts(v.varying_label_keys@) == exemplar_keys(
        by_value(pooled(all)).map_values(|e: TimelineExemplar| &e.labels),
    )
}

/// The heatmap of some slots, of which several may have the same time; `None`
/// without slots.
pub fn build_heatmap_view(slots: &Vec<HeatmapSlot>) -> (r: Option<HeatmapView<'_>>)
    requires
        heatmap_fits(slots@),
    ensures
        r is None <==> slots@.len() == 0,
        match r {
            Some(v) => heatmap_shows(slots@, v),
            None => true,
        },
{
    if slots.len() == 0 {
        return None;
    }
    let step_ms = find_step(slots);
    let order = time_order(slots);
    let merged_slots = merge_slots(slots, &order);
    let ghost sorted = by_time(slots@);
    let ghost all = merged(sorted);
    proof {
        assert(column_values(merged_slots@).len() == merged_slots.len());
        lemma_merged(sorted);
        assert(order@[0] < slots.len());
        assert(sorted[0] == slots@[order@[0] as int]);
        assert(sorted.last() == slots@[order@[order.len() - 1] as int]);
        assert(order@[order.len() - 1] < slots.len());
    }
    let mut columns: Vec<Vec<i32>> = Vec::new();
    let mut max_count: i32 = 1;
    let mut exemplars: Vec<&TimelineExemplar> = Vec::new();
    let mut i: usize = 0;
    proof {
        assert(all.take(0) =~= seq![]);
        assert(pointees(exemplars@) =~= seq![]);
    }
    while i < merged_slots.len()
        invariant
            i <= merged_slots.len(),
            all == column_values(merged_slots@),
            columns.len() == i,
            forall|k: int| 0 <= k < i ==> (#[trigger] columns@[k])@ == all[k].counts.reverse(),
            max_count == greatest_count(all.take(i as int)),
            pointees(exemplars@) == pooled(all.take(i as int)),
        decreases merged_slots.len() - i,
    {
        let column = &merged_slots[i];
        proof {
            assert(all[i as int] == column.value());
            let upto = all.take(i + 1);
            assert(upto.drop_last() =~= all.take(i as int));
            assert(upto.last() == column.value());
        }
        columns.push(reversed(&column.counts));
        max_count = max_of(&column.counts, max_count);
        let ghost before = pointees(exemplars@);
        let mut k: usize = 0;
        assert(before + pointees(column.exemplars@).take(0) =~= before);
        while k < column.exemplars.len()
            invariant
                k <= column.exemplars.len(),
                pointees(exemplars@) == before + pointees(column.exemplars@).take(k as int),
            decreases column.exemplars.len() - k,
        {
            let ghost so_far = pointees(exemplars@);
            exemplars.push(column.exemplars[k]);
            assert(pointees(exemplars@) =~= so_far.push(*column.exemplars@[k as int]));
            assert(pointees(column.exemplars@).take(k + 1) =~= pointees(column.exemplars@).take(
                k as int,
            ).push(*column.exemplars@[k as int]));
            k += 1;
        }
        assert(pointees(column.exemplars@).take(k as int) =~= pointees(column.exemplars@));
        i += 1;
    }
    let exemplars = sort_exemplars(&exemplars);
    let varying_label_keys = compute_exemplar_keys(&exemplars);
    proof {
        assert(all.take(i as int) =~= all);
        assert(column_counts(columns@) =~= all.map_values(|s: MergedSlot| s.counts.reverse()));
        assert(label_lists(exemplars@) =~= pointees(exemplars@).map_values(
            |e: TimelineExemplar| &e.labels,
        ));
    }
    let first = &slots[order[0]];
    Some(
        HeatmapView {
            columns,
            max_count,
            n_buckets: first.counts.len(),
            y_min_bits: &first.y_min_bits,
            start_ms: first.timestamp_ms - step_ms,
            end_ms: slots[order[order.len() - 1]].timestamp_ms,
            step_ms,
            exemplars,
            varying_label_keys,
        },
    )
}

} // verus!
