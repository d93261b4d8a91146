//! Timelines: series of samples over time.
//!
//! Sample values are carried as the bits of double-precision numbers. They are
//! grouped here by time; adding up a group is left to the caller.

use crate::order::{
    arranged, int_keys, lemma_stable_order, order_by_keys, places, stable_order, texts,
};
use crate::pyroscope::labels::{
    compute_exemplar_keys, compute_varying, exemplar_keys, label_lists, varying_keys,
    TimelineExemplar,
};
use vstd::prelude::*;
use vstd::string::*;

verus! {

/// A sample at a point in time.
#[derive(Debug, Clone, Copy, PartialEq, Eq, Structural)]
pub struct TimelinePoint {
    /// The timestamp in whole milliseconds
    pub timestamp_ms: i64,
    /// Bits of the timestamp
    pub timestamp_bits: u64,
    /// Bits of the value
    pub value_bits: u64,
}

/// One individual time series with its full label set.
#[derive(Debug, Clone)]
pub struct TimelineSeries {
    /// All label key-value pairs of the series
    pub labels: Vec<(String, String)>,
    /// Data points for the chart
    pub points: Vec<TimelinePoint>,
    /// Individual exemplars delivered alongside the series
    pub exemplars: Vec<TimelineExemplar>,
}

/// The samples of all series at one time.
#[derive(Debug, Clone)]
pub struct TimelineSlot {
    pub timestamp_ms: i64,
    /// Bits of the values, whose sum is the value of the slot
    pub value_bits: Vec<u64>,
}

/// View model for the timeline chart.
#[derive(Debug, Clone)]
pub struct TimelineView<'a> {
    /// The samples by time, ascending
    pub slots: Vec<TimelineSlot>,
    pub start_ms: i64,
    pub end_ms: i64,
    /// Per-series data
    pub series: &'a Vec<TimelineSeries>,
    /// Exemplars of all series, sorted by value descending
    pub exemplars: Vec<&'a TimelineExemplar>,
    /// Label keys that vary across exemplars
    pub varying_label_keys: Vec<String>,
}

/// Value of a [`TimelineSlot`].
pub ghost struct TimelineSlotV {
    pub timestamp_ms: int,
    pub value_bits: Seq<u64>,
}

/// The values of slots.
pub open spec fn slot_values(v: Seq<TimelineSlot>) -> Seq<TimelineSlotV> {
    v.map_values(
        |s: TimelineSlot|
            TimelineSlotV { timestamp_ms: s.timestamp_ms as int, value_bits: s.value_bits@ },
    )
}

/// The points of all series, one series behind the other.
pub open spec fn all_points(series: Seq<TimelineSeries>) -> Seq<TimelinePoint>
    decreases series.len(),
{
    if series.len() == 0 {
        seq![]
    } else {
        all_points(series.drop_last()) + series.last().points@
    }
}

/// The exemplars of all series, one series behind the other.
pub open spec fn all_exemplars(series: Seq<TimelineSeries>) -> Seq<TimelineExemplar>
    decreases series.len(),
{
    if series.len() == 0 {
        seq![]
    } else {
        all_exemplars(series.drop_last()) + series.last().exemplars@
    }
}

/// Points in the order of time; those at the same time stay in their order.
pub open spec fn by_time(points: Seq<TimelinePoint>) -> Seq<TimelinePoint> {
    arranged(points, stable_order(points.map_values(|p: TimelinePoint| p.timestamp_ms as int)))
}

/// Points, with neighbours at the same time taken together.
pub open spec fn grouped(points: Seq<TimelinePoint>) -> Seq<TimelineSlotV>
    decreases points.len(),
{
    if points.len() == 0 {
        seq![]
    } else {
        let before = grouped(points.drop_last());
        let p = points.last();
        if before.len() > 0 && before.last().timestamp_ms == p.timestamp_ms {
            before.drop_last().push(
                TimelineSlotV {
                    timestamp_ms: p.timestamp_ms as int,
                    value_bits: before.last().value_bits.push(p.value_bits),
                },
            )
        } else {
            before.push(
                TimelineSlotV {
                    timestamp_ms: p.timestamp_ms as int,
                    value_bits: seq![p.value_bits],
                },
            )
        }
    }
}

/// Exemplars from the greatest value to the smallest; equal ones stay in their
/// order.
pub open spec fn by_value(exemplars: Seq<TimelineExemplar>) -> Seq<TimelineExemplar> {
    arranged(exemplars, stable_order(exemplars.map_values(|e: TimelineExemplar| -e.value)))
}

/// Values behind references.
pub open spec fn pointees<T>(s: Seq<&T>) -> Seq<T> {
    s.map_values(|r: &T| *r)
}

/// Labels to show: of the exemplars, or where there are none of the series.
pub open spec fn timeline_keys(series: Seq<TimelineSeries>) -> Seq<Seq<char>> {
    if all_exemplars(series).len() > 0 {
        exemplar_keys(
            by_value(all_exemplars(series)).map_values(|e: TimelineExemplar| &e.labels),
        )
    } else if series.len() <= 1 {
        seq![]
    } else {
        varying_keys(series.map_values(|s: TimelineSeries| &s.labels))
    }
}

/// Exemplars sorted by value, descending.
pub(crate) fn sort_exemplars<'a>(exemplars: &Vec<&'a TimelineExemplar>) -> (r: Vec<
    &'a TimelineExemplar,
>)
    ensures
        pointees(r@) == by_value(pointees(exemplars@)),
        r.len() == exemplars.len(),
{
    let mut keys: Vec<i128> = Vec::new();
    let mut i: usize = 0;
    while i < exemplars.len()
        invariant
            i <= exemplars.len(),
            keys.len() == i,
            forall|k: int| 0 <= k < i ==> #[trigger] keys@[k] == -exemplars@[k].value,
        decreases exemplars.len() - i,
    {
        keys.push(-(exemplars[i].value as i128));
        i += 1;
    }
    let order = order_by_keys(&keys);
    let ghost all = pointees(exemplars@);
    assert(int_keys(keys@) =~= all.map_values(|e: TimelineExemplar| -e.value));
    let mut out: Vec<&'a TimelineExemplar> = Vec::new();
    let mut k: usize = 0;
    while k < order.len()
        invariant
            k <= order.len(),
            forall|k: int| 0 <= k < order.len() ==> #[trigger] order@[k] < exemplars.len(),
            out.len() == k,
            forall|j: int| 0 <= j < k ==> #[trigger] out@[j] == exemplars@[order@[j] as int],
        decreases order.len() - k,
    {
        assert(order@[k as int] < exemplars.len());
        let e: &'a TimelineExemplar = exemplars[order[k]];
        out.push(e);
        k += 1;
    }
    proof {
        let places_ = places(order@);
        assert(places_.len() == order.len());
        assert forall|j: int| 0 <= j < out.len() implies pointees(out@)[j] == by_value(all)[j] by {
            assert(out@[j] == exemplars@[order@[j] as int]);
            assert(places_[j] == order@[j]);
        }
        assert(pointees(out@) =~= by_value(all));
    }
    out
}

fn collect_points(series: &Vec<TimelineSeries>) -> (r: Vec<TimelinePoint>)
    ensures
        r@ == all_points(series@),
{
    let mut out: Vec<TimelinePoint> = Vec::new();
    let mut s: usize = 0;
    assert(series@.take(0) =~= seq![]);
    while s < series.len()
        invariant
            s <= series.len(),
            out@ == all_points(series@.take(s as int)),
        decreases series.len() - s,
    {
        let points = &series[s].points;
        let ghost before = out@;
        let mut i: usize = 0;
        assert(before + points@.take(0) =~= before);
        while i < points.len()
            invariant
                i <= points.len(),
                out@ == before + points@.take(i as int),
            decreases points.len() - i,
        {
            out.push(points[i]);
            assert(points@.take(i + 1) =~= points@.take(i as int).push(points@[i as int]));
            i += 1;
        }
        assert(points@.take(i as int) =~= points@);
        assert(series@.take(s + 1).drop_last() =~= series@.take(s as int));
        s += 1;
    }
    assert(series@.take(s as int) =~= series@);
    out
}

pub(crate) fn append_exemplars<'a>(out: &mut Vec<&'a TimelineExemplar>, list: &'a Vec<TimelineExemplar>)
    ensures
        pointees(final(out)@) == pointees(old(out)@) + list@,
{
    let ghost before = pointees(out@);
    let mut i: usize = 0;
    assert(before + list@.take(0) =~= before);
    while i < list.len()
        invariant
            i <= list.len(),
            pointees(out@) == before + list@.take(i as int),
        decreases list.len() - i,
    {
        let ghost so_far = pointees(out@);
        let e: &'a TimelineExemplar = &list[i];
        out.push(e);
        assert(pointees(out@) =~= so_far.push(*e));
        assert(list@.take(i + 1) =~= list@.take(i as int).push(list@[i as int]));
        i += 1;
    }
    assert(list@.take(i as int) =~= list@);
}

pub(crate) fn collect_exemplars<'a>(series: &'a Vec<TimelineSeries>) -> (r: Vec<&'a TimelineExemplar>)
    ensures
        pointees(r@) == all_exemplars(series@),
{
    let mut out: Vec<&'a TimelineExemplar> = Vec::new();
    let mut s: usize = 0;
    assert(series@.take(0) =~= seq![]);
    assert(pointees(out@) =~= seq![]);
    while s < series.len()
        invariant
            s <= series.len(),
            pointees(out@) == all_exemplars(series@.take(s as int)),
        decreases series.len() - s,
    {
        append_exemplars(&mut out, &series[s].exemplars);
        assert(series@.take(s + 1).drop_last() =~= series@.take(s as int));
        s += 1;
    }
    assert(series@.take(s as int) =~= series@);
    out
}

/// Groups points by time.
fn group_points(points: &Vec<TimelinePoint>) -> (r: Vec<TimelineSlot>)
    ensures
        slot_values(r@) == grouped(by_time(points@)),
{
    let mut keys: Vec<i128> = Vec::new();
    let mut i: usize = 0;
    while i < points.len()
        invariant
            i <= points.len(),
            keys.len() == i,
            forall|k: int| 0 <= k < i ==> #[trigger] keys@[k] == points@[k].timestamp_ms,
        decreases points.len() - i,
    {
        keys.push(points[i].timestamp_ms as i128);
        i += 1;
    }
    let order = order_by_keys(&keys);
    let ghost sorted = by_time(points@);
    proof {
        assert(int_keys(keys@) =~= points@.map_values(|p: TimelinePoint| p.timestamp_ms as int));
        assert(places(order@).len() == order.len());
        assert forall|k: int| 0 <= k < order.len() implies #[trigger] sorted[k]
            == points@[order@[k] as int] by {
            assert(places(order@)[k] == order@[k]);
        }
    }
    let mut out: Vec<TimelineSlot> = Vec::new();
    let mut k: usize = 0;
    assert(slot_values(out@) =~= seq![]);
    assert(sorted.take(0) =~= seq![]);
    while k < order.len()
        invariant
            k <= order.len(),
            sorted.len() == order.len(),
            forall|k: int| 0 <= k < order.len() ==> #[trigger] order@[k] < points.len(),
            forall|k: int|
                0 <= k < order.len() ==> #[trigger] sorted[k] == points@[order@[k] as int],
            slot_values(out@) == grouped(sorted.take(k as int)),
        decreases order.len() - k,
    {
        assert(order@[k as int] < points.len());
        let p = points[order[k]];
        let ghost before = slot_values(out@);
        let ghost upto = sorted.take(k + 1);
        assert(upto.drop_last() =~= sorted.take(k as int));
        assert(upto.last() == p);
        let n = out.len();
        if n > 0 && out[n - 1].timestamp_ms == p.timestamp_ms {
            let mut slot = out.pop().unwrap();
            slot.value_bits.push(p.value_bits);
            out.push(slot);
            assert(slot_values(out@) =~= before.drop_last().push(
                TimelineSlotV {
                    timestamp_ms: p.timestamp_ms as int,
                    value_bits: before.last().value_bits.push(p.value_bits),
                },
            ));
        } else {
            let mut value_bits: Vec<u64> = Vec::new();
            value_bits.push(p.value_bits);
            assert(value_bits@ =~= seq![p.value_bits]);
            out.push(TimelineSlot { timestamp_ms: p.timestamp_ms, value_bits });
            assert(slot_values(out@) =~= before.push(
                TimelineSlotV {
                    timestamp_ms: p.timestamp_ms as int,
                    value_bits: seq![p.value_bits],
                },
            ));
        }
        k += 1;
    }
    assert(sorted.take(k as int) =~= sorted);
    out
}

/// Label keys that vary across series.
fn compute_varying_label_keys(series: &Vec<TimelineSeries>) -> (r: Vec<String>)
    ensures
        texts(r@) == (if series.len() <= 1 {
            seq![]
        } else {
            varying_keys(series@.map_values(|s: TimelineSeries| &s.labels))
        }),
{
    if series.len() <= 1 {
        let r: Vec<String> = Vec::new();
        assert(texts(r@) =~= seq![]);
        return r;
    }
    let mut lists: Vec<&Vec<(String, String)>> = Vec::new();
    let mut i: usize = 0;
    while i < series.len()
        invariant
            i <= series.len(),
            lists.len() == i,
            forall|k: int| 0 <= k < i ==> *(#[trigger] lists@[k]) == series@[k].labels,
        decreases series.len() - i,
    {
        lists.push(&series[i].labels);
        i += 1;
    }
    assert(lists@ =~= series@.map_values(|s: TimelineSeries| &s.labels));
    compute_varying(&lists)
}

proof fn lemma_grouped(points: Seq<TimelinePoint>)
    ensures
        grouped(points).len() == 0 <==> points.len() == 0,
        points.len() > 0 ==> grouped(points)[0].timestamp_ms == points[0].timestamp_ms
            && grouped(points).last().timestamp_ms == points.last().timestamp_ms,
    decreases points.len(),
{
    if points.len() > 0 {
        lemma_grouped(points.drop_last());
    }
}

/// Whether `v` shows the timeline of some series.
pub open spec fn timeline_shows(series: Seq<TimelineSeries>, v: TimelineView<'_>) -> bool {
    let points = by_time(all_points(series));
    &&& slot_values(v.slots@) == grouped(points)
    &&& v.start_ms == points[0].timestamp_ms
    &&& v.end_ms == points.last().timestamp_ms
    &&& v.series@ == series
    &&& pointees(v.exemplars@) == by_value(all_exemplars(series))
    &&& texts(v.varying_label_keys@) == timeline_keys(series)
}

/// The timeline of some series; `None` without points.
pub fn build_timeline_view(series_list: &Vec<TimelineSeries>) -> (r: Option<TimelineView<'_>>)
    ensures
        r is None <==> all_points(series_list@).len() == 0,
        match r {
            Some(v) => timeline_shows(series_list@, v),
            None => true,
        },
{
    let points = collect_points(series_list);
    if points.len() == 0 {
        return None;
    }
    let slots = group_points(&points);
    proof {
        lemma_stable_order(
            points@.map_values(|p: TimelinePoint| p.timestamp_ms as int),
        );
        lemma_grouped(by_time(points@));
        assert(slot_values(slots@).len() == slots.len());
        assert(slot_values(slots@)[0].timestamp_ms == slots@[0].timestamp_ms);
        assert(slot_values(slots@).last().timestamp_ms == slots@.last().timestamp_ms);
    }
    let start_ms = slots[0].timestamp_ms;
    let end_ms = slots[slots.len() - 1].timestamp_ms;
    let unsorted = collect_exemplars(series_list);
    let exemplars = sort_exemplars(&unsorted);
    proof {
        assert(pointees(unsorted@).len() == unsorted.len());
        assert(label_lists(exemplars@) =~= by_value(all_exemplars(series_list@)).map_values(
            |e: TimelineExemplar| &e.labels,
        )) by {
            assert(label_lists(exemplars@) =~= pointees(exemplars@).map_values(
                |e: TimelineExemplar| &e.labels,
            ));
        }
    }
    let varying_label_keys = if exemplars.len() == 0 {
        compute_varying_label_keys(series_list)
    } else {
        compute_exemplar_keys(&exemplars)
    };
    Some(
        TimelineView {
            slots,
            start_ms,
            end_ms,
            series: series_list,
            exemplars,
            varying_label_keys,
        },
    )
}

proof fn lemma_grouped_ascends(points: Seq<TimelinePoint>)
    requires
        forall|i: int, j: int|
            0 <= i < j < points.len() ==> (#[trigger] points[i]).timestamp_ms <= (
            #[trigger] points[j]).timestamp_ms,
    ensures
        forall|i: int, j: int|
            0 <= i < j < grouped(points).len() ==> (#[trigger] grouped(points)[i]).timestamp_ms < (
            #[trigger] grouped(points)[j]).timestamp_ms,
    decreases points.len(),
{
    if points.len() > 0 {
        let init = points.drop_last();
        assert forall|i: int, j: int| 0 <= i < j < init.len() implies (
        #[trigger] init[i]).timestamp_ms <= (#[trigger] init[j]).timestamp_ms by {
            assert(init[i] == points[i] && init[j] == points[j]);
        }
        lemma_grouped_ascends(init);
        lemma_grouped(init);
        if init.len() > 0 {
            assert(init.last() == points[points.len() - 2]);
            assert(points[points.len() - 2].timestamp_ms <= points[points.len()
                - 1].timestamp_ms);
        }
    }
}

/// The slots of a timeline ascend in time, one slot for each time.
pub proof fn lemma_slots_ascend(points: Seq<TimelinePoint>)
    ensures
        forall|i: int, j: int|
            0 <= i < j < grouped(by_time(points)).len() ==> (#[trigger] grouped(
                by_time(points),
            )[i]).timestamp_ms < (#[trigger] grouped(by_time(points))[j]).timestamp_ms,
{
    let keys = points.map_values(|p: TimelinePoint| p.timestamp_ms as int);
    lemma_stable_order(keys);
    let sorted = by_time(points);
    assert forall|i: int, j: int| 0 <= i < j < sorted.len() implies (
    #[trigger] sorted[i]).timestamp_ms <= (#[trigger] sorted[j]).timestamp_ms by {
        let a = stable_order(keys)[i];
        let b = stable_order(keys)[j];
        assert(keys[a] <= keys[b]);
    }
    lemma_grouped_ascends(sorted);
}

} // verus!
