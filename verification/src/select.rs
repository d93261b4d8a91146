//! Selection: filters, the order in which lists are shown, and moving in them.

use crate::collections::StringSet;
use crate::edit::to_chars;
use crate::model::{Datasource, Model, PyroscopeSeriesItem};
use crate::order::places;
use crate::text::{ascii_lower, str_eq};
use vstd::arithmetic::div_mod::*;
use vstd::prelude::*;
use vstd::string::*;

verus! {

// ── Moving in a list ─────────────────────────────────────────────────────────

/// The place after `i` in a list of `n`, around its end.
pub open spec fn next_of(i: int, n: int) -> int {
    (i + 1) % n
}

/// The place before `i` in a list of `n`, around its start.
pub open spec fn prev_of(i: int, n: int) -> int {
    (i + n - 1) % n
}

/// The place after `i`.
pub fn next_index(i: usize, n: usize) -> (r: usize)
    requires
        n > 0,
    ensures
        r == next_of(i as int, n as int),
        r < n,
{
    let m = i % n;
    proof {
        lemma_add_mod_noop(i as int, 1, n as int);
        lemma_mod_twice(i as int, n as int);
        if n == 1 {
            assert((i + 1) % 1 == 0);
        } else {
            lemma_small_mod(1, n as nat);
            if m + 1 < n {
                lemma_small_mod((m + 1) as nat, n as nat);
            } else {
                lemma_mod_self_0(n as int);
            }
        }
    }
    if m == n - 1 {
        0
    } else {
        m + 1
    }
}

/// The place before `i`.
pub fn prev_index(i: usize, n: usize) -> (r: usize)
    requires
        n > 0,
    ensures
        r == prev_of(i as int, n as int),
        r < n,
{
    let m = i % n;
    proof {
        lemma_add_mod_noop(i as int, n - 1, n as int);
        lemma_small_mod((n - 1) as nat, n as nat);
        if m == 0 {
            lemma_small_mod((n - 1) as nat, n as nat);
        } else {
            lemma_mod_add_multiples_vanish(m - 1, n as int);
            lemma_small_mod((m - 1) as nat, n as nat);
        }
    }
    if m == 0 {
        n - 1
    } else {
        m - 1
    }
}

/// Moving on and back again leads to the same place.
pub proof fn lemma_next_prev(i: int, n: int)
    requires
        0 <= i < n,
    ensures
        prev_of(next_of(i, n), n) == i,
        next_of(prev_of(i, n), n) == i,
{
    if i + 1 < n {
        lemma_small_mod((i + 1) as nat, n as nat);
        lemma_mod_add_multiples_vanish(i, n);
        lemma_small_mod(i as nat, n as nat);
    } else {
        lemma_mod_self_0(n);
        lemma_small_mod((n - 1) as nat, n as nat);
    }
    if i > 0 {
        lemma_mod_add_multiples_vanish(i - 1, n);
        lemma_small_mod((i - 1) as nat, n as nat);
        lemma_small_mod(i as nat, n as nat);
    } else {
        lemma_small_mod((n - 1) as nat, n as nat);
        lemma_mod_self_0(n);
    }
}

/// `i` cut to the places of a list of `n`.
pub open spec fn clamped(i: int, n: int) -> int {
    if n == 0 {
        0
    } else if i < n {
        i
    } else {
        n - 1
    }
}

/// Cuts `i` to the places of a list.
pub fn clamp_index(i: usize, n: usize) -> (r: usize)
    ensures
        r == clamped(i as int, n as int),
{
    if n == 0 {
        0
    } else if i < n {
        i
    } else {
        n - 1
    }
}

// ── Fuzzy match ──────────────────────────────────────────────────────────────

/// Whether the characters of `needle` occur in `haystack` in their order, the
/// case of ASCII letters aside.
pub open spec fn fuzzy(haystack: Seq<char>, needle: Seq<char>) -> bool
    decreases haystack.len(),
{
    if needle.len() == 0 {
        true
    } else if haystack.len() == 0 {
        false
    } else if ascii_lower(haystack[0]) == ascii_lower(needle[0]) {
        fuzzy(haystack.drop_first(), needle.drop_first())
    } else {
        fuzzy(haystack.drop_first(), needle)
    }
}

fn lower(c: char) -> (r: char)
    ensures
        r == ascii_lower(c),
{
    if 'A' <= c && c <= 'Z' {
        (c as u8 + 32) as char
    } else {
        c
    }
}

/// Whether `needle` fuzzily matches `haystack`.
pub(crate) fn fuzzy_match(haystack: &str, needle: &str) -> (r: bool)
    ensures
        r == fuzzy(haystack@, needle@),
{
    let h = to_chars(haystack);
    let n = to_chars(needle);
    let mut i: usize = 0;
    let mut k: usize = 0;
    assert(h@.skip(0) =~= h@);
    assert(n@.skip(0) =~= n@);
    while i < h.len() && k < n.len()
        invariant
            i <= h.len(),
            k <= n.len(),
            h@ == haystack@,
            n@ == needle@,
            fuzzy(haystack@, needle@) == fuzzy(h@.skip(i as int), n@.skip(k as int)),
        decreases h.len() - i,
    {
        assert(h@.skip(i as int)[0] == h@[i as int]);
        assert(n@.skip(k as int)[0] == n@[k as int]);
        assert(h@.skip(i as int).drop_first() =~= h@.skip(i + 1));
        if lower(h[i]) == lower(n[k]) {
            assert(n@.skip(k as int).drop_first() =~= n@.skip(k + 1));
            k += 1;
        }
        i += 1;
    }
    k == n.len()
}

// ── Datasources ──────────────────────────────────────────────────────────────

/// The first `n` datasources that match the filter.
pub open spec fn matching_upto(ds: Seq<Datasource>, filter: Seq<char>, n: int) -> Seq<int>
    decreases n,
{
    if n <= 0 {
        seq![]
    } else {
        let before = matching_upto(ds, filter, n - 1);
        if fuzzy(ds[n - 1].name@, filter) {
            before.push(n - 1)
        } else {
            before
        }
    }
}

/// The datasources of a state that match its filter.
pub open spec fn filtered(m: Model) -> Seq<int> {
    matching_upto(m.datasources.items@, m.datasources.filter@, m.datasources.items@.len() as int)
}

/// Those of `indices` whose datasources are favourites, or are not.
pub open spec fn by_favour(
    ds: Seq<Datasource>,
    favourites: Set<Seq<char>>,
    indices: Seq<int>,
    favourite: bool,
) -> Seq<int>
    decreases indices.len(),
{
    if indices.len() == 0 {
        seq![]
    } else {
        let before = by_favour(ds, favourites, indices.drop_last(), favourite);
        if favourites.contains(ds[indices.last()].uid@) == favourite {
            before.push(indices.last())
        } else {
            before
        }
    }
}

/// `indices` with favourites first, otherwise in their order.
pub open spec fn favourites_first(
    ds: Seq<Datasource>,
    favourites: Set<Seq<char>>,
    indices: Seq<int>,
) -> Seq<int> {
    by_favour(ds, favourites, indices, true) + by_favour(ds, favourites, indices, false)
}

/// The datasources as they are shown: those that match, favourites first.
pub open spec fn listed_datasources(m: Model) -> Seq<int> {
    favourites_first(m.datasources.items@, m.datasources.favourites@, filtered(m))
}

/// The datasource that the selected place points to.
pub open spec fn active(m: Model) -> Option<Datasource> {
    let shown = listed_datasources(m);
    if m.datasources.selected_index < shown.len() {
        Some(m.datasources.items@[shown[m.datasources.selected_index as int]])
    } else {
        None
    }
}

/// The place of `x` in `s`.
pub open spec fn place_of(s: Seq<int>, x: int) -> Option<int>
    decreases s.len(),
{
    if s.len() == 0 {
        None
    } else {
        match place_of(s.drop_last(), x) {
            Some(i) => Some(i),
            None => if s.last() == x {
                Some(s.len() - 1)
            } else {
                None
            },
        }
    }
}

/// The place of `x` in `s`.
pub(crate) fn find_place(s: &Vec<usize>, x: usize) -> (r: Option<usize>)
    ensures
        match r {
            Some(i) => place_of(places(s@), x as int) == Some(i as int) && i < s.len(),
            None => place_of(places(s@), x as int) is None,
        },
{
    let ghost all = places(s@);
    let mut i: usize = 0;
    assert(all.take(0) =~= seq![]);
    while i < s.len()
        invariant
            i <= s.len(),
            all == places(s@),
            place_of(all.take(i as int), x as int) is None,
        decreases s.len() - i,
    {
        proof {
            let upto = all.take(i + 1);
            assert(upto.drop_last() =~= all.take(i as int));
            assert(upto.last() == s@[i as int]);
            if s@[i as int] == x {
                lemma_place_of_prefix(all, x as int, i + 1);
            }
        }
        if s[i] == x {
            return Some(i);
        }
        i += 1;
    }
    assert(all.take(i as int) =~= all);
    None
}

proof fn lemma_place_of_prefix(s: Seq<int>, x: int, k: int)
    requires
        0 <= k <= s.len(),
        place_of(s.take(k), x) is Some,
    ensures
        place_of(s, x) == place_of(s.take(k), x),
    decreases s.len(),
{
    if k < s.len() {
        assert(s.drop_last().take(k) =~= s.take(k));
        lemma_place_of_prefix(s.drop_last(), x, k);
    } else {
        assert(s.take(k) =~= s);
    }
}

/// The datasources that match the filter.
pub(crate) fn filtered_datasource_indices(m: &Model) -> (r: Vec<usize>)
    ensures
        places(r@) == filtered(*m),
        forall|k: int| 0 <= k < r.len() ==> #[trigger] r@[k] < m.datasources.items.len(),
{
    let mut out: Vec<usize> = Vec::new();
    let mut i: usize = 0;
    assert(places(out@) =~= seq![]);
    while i < m.datasources.items.len()
        invariant
            i <= m.datasources.items.len(),
            places(out@) == matching_upto(m.datasources.items@, m.datasources.filter@, i as int),
            forall|k: int| 0 <= k < out.len() ==> #[trigger] out@[k] < m.datasources.items.len(),
        decreases m.datasources.items.len() - i,
    {
        if fuzzy_match(m.datasources.items[i].name.as_str(), m.datasources.filter.as_str()) {
            let ghost before = places(out@);
            out.push(i);
            assert(places(out@) =~= before.push(i as int));
        }
        i += 1;
    }
    out
}

/// Appends those of `indices` whose datasources are favourites, or are not.
fn append_by_favour(
    ds: &Vec<Datasource>,
    favourites: &StringSet,
    indices: &Vec<usize>,
    favourite: bool,
    out: &mut Vec<usize>,
)
    requires
        forall|k: int| 0 <= k < indices.len() ==> #[trigger] indices@[k] < ds.len(),
        forall|k: int| 0 <= k < old(out).len() ==> #[trigger] old(out)@[k] < ds.len(),
    ensures
        places(final(out)@) == places(old(out)@) + by_favour(
            ds@,
            favourites@,
            places(indices@),
            favourite,
        ),
        forall|k: int| 0 <= k < final(out).len() ==> #[trigger] final(out)@[k] < ds.len(),
{
    let ghost all = places(indices@);
    let ghost start = places(out@);
    let mut i: usize = 0;
    assert(all.take(0) =~= seq![]);
    assert(start + Seq::<int>::empty() =~= start);
    while i < indices.len()
        invariant
            i <= indices.len(),
            all == places(indices@),
            forall|k: int| 0 <= k < indices.len() ==> #[trigger] indices@[k] < ds.len(),
            forall|k: int| 0 <= k < out.len() ==> #[trigger] out@[k] < ds.len(),
            places(out@) == start + by_favour(
                ds@,
                favourites@,
                all.take(i as int),
                favourite,
            ),
        decreases indices.len() - i,
    {
        let k = indices[i];
        proof {
            let upto = all.take(i + 1);
            assert(upto.drop_last() =~= all.take(i as int));
            assert(upto.last() == k);
            assert(indices@[i as int] < ds.len());
        }
        if favourites.contains(ds[k].uid.as_str()) == favourite {
            let ghost before = places(out@);
            out.push(k);
            proof {
                assert(places(out@) =~= before.push(k as int));
                let so_far = by_favour(ds@, favourites@, all.take(i as int), favourite);
                assert(start + so_far.push(k as int) =~= (start + so_far).push(k as int));
            }
        }
        i += 1;
    }
    assert(all.take(i as int) =~= all);
}

/// `indices` with favourites first.
pub(crate) fn order_favourites(
    ds: &Vec<Datasource>,
    favourites: &StringSet,
    indices: &Vec<usize>,
) -> (r: Vec<usize>)
    requires
        forall|k: int| 0 <= k < indices.len() ==> #[trigger] indices@[k] < ds.len(),
    ensures
        places(r@) == favourites_first(ds@, favourites@, places(indices@)),
        forall|k: int| 0 <= k < r.len() ==> #[trigger] r@[k] < ds.len(),
{
    let mut out: Vec<usize> = Vec::new();
    assert(places(out@) =~= seq![]);
    append_by_favour(ds, favourites, indices, true, &mut out);
    append_by_favour(ds, favourites, indices, false, &mut out);
    assert(places(out@) =~= favourites_first(ds@, favourites@, places(indices@)));
    out
}

/// The datasources in the order in which they are shown.
pub(crate) fn sorted_datasource_indices(m: &Model) -> (r: Vec<usize>)
    ensures
        places(r@) == listed_datasources(*m),
        r.len() == listed_datasources(*m).len(),
        forall|k: int| 0 <= k < r.len() ==> #[trigger] r@[k] < m.datasources.items.len(),
{
    let indices = filtered_datasource_indices(m);
    let r = order_favourites(&m.datasources.items, &m.datasources.favourites, &indices);
    assert(places(r@).len() == r.len());
    r
}

/// The datasource that the selected place points to.
pub(crate) fn active_datasource(m: &Model) -> (r: Option<&Datasource>)
    ensures
        match r {
            Some(ds) => active(*m) == Some(*ds),
            None => active(*m) is None,
        },
{
    let shown = sorted_datasource_indices(m);
    if m.datasources.selected_index < shown.len() {
        let i = shown[m.datasources.selected_index];
        assert(places(shown@)[m.datasources.selected_index as int] == i);
        Some(&m.datasources.items[i])
    } else {
        None
    }
}

proof fn lemma_place_of(s: Seq<int>, x: int)
    requires
        s.contains(x),
    ensures
        place_of(s, x) is Some,
        0 <= place_of(s, x)->0 < s.len(),
        s[place_of(s, x)->0] == x,
    decreases s.len(),
{
    let init = s.drop_last();
    let i = choose|i: int| 0 <= i < s.len() && s[i] == x;
    if i < init.len() {
        assert(init[i] == x);
        lemma_place_of(init, x);
    } else if place_of(init, x) is Some {
        lemma_place_of_some(init, x);
    }
}

proof fn lemma_place_of_some(s: Seq<int>, x: int)
    requires
        place_of(s, x) is Some,
    ensures
        0 <= place_of(s, x)->0 < s.len(),
        s[place_of(s, x)->0] == x,
    decreases s.len(),
{
    if s.len() > 0 && place_of(s.drop_last(), x) is Some {
        lemma_place_of_some(s.drop_last(), x);
    }
}

proof fn lemma_matching_all(ds: Seq<Datasource>, filter: Seq<char>, n: int, i: int)
    requires
        filter.len() == 0,
        0 <= i < n,
    ensures
        matching_upto(ds, filter, n).contains(i),
    decreases n,
{
    let before = matching_upto(ds, filter, n - 1);
    let all = matching_upto(ds, filter, n);
    assert(all == before.push(n - 1));
    if i < n - 1 {
        lemma_matching_all(ds, filter, n - 1, i);
        let k = choose|k: int| 0 <= k < before.len() && before[k] == i;
        assert(all[k] == i);
    } else {
        assert(all[before.len() as int] == i);
    }
}

proof fn lemma_by_favour(
    ds: Seq<Datasource>,
    favourites: Set<Seq<char>>,
    indices: Seq<int>,
    i: int,
)
    requires
        indices.contains(i),
    ensures
        by_favour(ds, favourites, indices, favourites.contains(ds[i].uid@)).contains(i),
    decreases indices.len(),
{
    let fav = favourites.contains(ds[i].uid@);
    let init = indices.drop_last();
    let before = by_favour(ds, favourites, init, fav);
    let all = by_favour(ds, favourites, indices, fav);
    let k = choose|k: int| 0 <= k < indices.len() && indices[k] == i;
    if k < init.len() {
        assert(init[k] == i);
        lemma_by_favour(ds, favourites, init, i);
        let p = choose|p: int| 0 <= p < before.len() && before[p] == i;
        assert(all[p] == i);
    } else {
        assert(all[before.len() as int] == i);
    }
}

/// Without a filter every datasource is shown, at the place that `place_of`
/// gives.
pub proof fn lemma_all_listed(m: Model, i: int)
    requires
        m.datasources.filter@.len() == 0,
        0 <= i < m.datasources.items@.len(),
    ensures
        place_of(listed_datasources(m), i) is Some,
        0 <= place_of(listed_datasources(m), i)->0 < listed_datasources(m).len(),
        listed_datasources(m)[place_of(listed_datasources(m), i)->0] == i,
{
    let ds = m.datasources.items@;
    let shown = filtered(m);
    lemma_matching_all(ds, m.datasources.filter@, ds.len() as int, i);
    lemma_by_favour(ds, m.datasources.favourites@, shown, i);
    let a = by_favour(ds, m.datasources.favourites@, shown, true);
    let b = by_favour(ds, m.datasources.favourites@, shown, false);
    if m.datasources.favourites@.contains(ds[i].uid@) {
        let k = choose|k: int| 0 <= k < a.len() && a[k] == i;
        assert((a + b)[k] == i);
    } else {
        let k = choose|k: int| 0 <= k < b.len() && b[k] == i;
        assert((a + b)[a.len() + k] == i);
    }
    lemma_place_of(listed_datasources(m), i);
}

proof fn lemma_favour_count(ds: Seq<Datasource>, favourites: Set<Seq<char>>, indices: Seq<int>)
    ensures
        favourites_first(ds, favourites, indices).len() == indices.len(),
    decreases indices.len(),
{
    if indices.len() > 0 {
        lemma_favour_count(ds, favourites, indices.drop_last());
    }
}

/// Favourites come first without any datasource lost or shown twice: as many are
/// shown as match the filter.
pub proof fn lemma_listed_count(m: Model)
    ensures
        listed_datasources(m).len() == filtered(m).len(),
{
    lemma_favour_count(m.datasources.items@, m.datasources.favourites@, filtered(m));
}

/// The first `n` datasources of traces.
pub open spec fn tempo_upto(ds: Seq<Datasource>, n: int) -> Seq<int>
    decreases n,
{
    if n <= 0 {
        seq![]
    } else if ds[n - 1].ds_type@ == "tempo"@ {
        tempo_upto(ds, n - 1).push(n - 1)
    } else {
        tempo_upto(ds, n - 1)
    }
}

/// The datasources of traces.
pub open spec fn tempo_datasources(ds: Seq<Datasource>) -> Seq<int> {
    tempo_upto(ds, ds.len() as int)
}

/// The datasources of traces.
pub(crate) fn tempo_datasource_indices(ds: &Vec<Datasource>) -> (r: Vec<usize>)
    ensures
        places(r@) == tempo_datasources(ds@),
        r.len() == tempo_datasources(ds@).len(),
        forall|k: int| 0 <= k < r.len() ==> #[trigger] r@[k] < ds.len(),
{
    let mut out: Vec<usize> = Vec::new();
    let mut i: usize = 0;
    assert(places(out@) =~= seq![]);
    while i < ds.len()
        invariant
            i <= ds.len(),
            places(out@) == tempo_upto(ds@, i as int),
            forall|k: int| 0 <= k < out.len() ==> #[trigger] out@[k] < ds.len(),
        decreases ds.len() - i,
    {
        if str_eq(ds[i].ds_type.as_str(), "tempo") {
            let ghost before = places(out@);
            out.push(i);
            assert(places(out@) =~= before.push(i as int));
        }
        i += 1;
    }
    assert(places(out@).len() == out.len());
    out
}

// ── Profile series ───────────────────────────────────────────────────────────

/// The selected profile type; empty where there is none.
pub open spec fn selected_profile_type(m: Model) -> Seq<char> {
    if m.series.profile_type_index < m.series.profile_types@.len() {
        m.series.profile_types@[m.series.profile_type_index as int]@
    } else {
        seq![]
    }
}

/// The first `n` series of the profile type that match the filter.
pub open spec fn matching_series_upto(
    series: Seq<PyroscopeSeriesItem>,
    profile_type: Seq<char>,
    filter: Seq<char>,
    n: int,
) -> Seq<int>
    decreases n,
{
    if n <= 0 {
        seq![]
    } else {
        let before = matching_series_upto(series, profile_type, filter, n - 1);
        let item = series[n - 1];
        if item.profile_type_id@ == profile_type && fuzzy(item.service_name@, filter) {
            before.push(n - 1)
        } else {
            before
        }
    }
}

/// The series that are shown: those of the selected profile type that match the
/// filter.
pub open spec fn listed_series(m: Model) -> Seq<int> {
    matching_series_upto(
        m.series.items@,
        selected_profile_type(m),
        m.series.filter@,
        m.series.items@.len() as int,
    )
}

/// The series that are shown.
pub(crate) fn filtered_pyroscope_series_indices(m: &Model) -> (r: Vec<usize>)
    ensures
        places(r@) == listed_series(*m),
        r.len() == listed_series(*m).len(),
        forall|k: int| 0 <= k < r.len() ==> #[trigger] r@[k] < m.series.items.len(),
{
    let profile_type = if m.series.profile_type_index < m.series.profile_types.len() {
        m.series.profile_types[m.series.profile_type_index].as_str()
    } else {
        proof {
            reveal_strlit("");
            assert(""@ =~= seq![]);
        }
        ""
    };
    let mut out: Vec<usize> = Vec::new();
    let mut i: usize = 0;
    assert(places(out@) =~= seq![]);
    while i < m.series.items.len()
        invariant
            i <= m.series.items.len(),
            profile_type@ == selected_profile_type(*m),
            places(out@) == matching_series_upto(
                m.series.items@,
                selected_profile_type(*m),
                m.series.filter@,
                i as int,
            ),
            forall|k: int| 0 <= k < out.len() ==> #[trigger] out@[k] < m.series.items.len(),
        decreases m.series.items.len() - i,
    {
        let item = &m.series.items[i];
        if str_eq(item.profile_type_id.as_str(), profile_type) && fuzzy_match(
            item.service_name.as_str(),
            m.series.filter.as_str(),
        ) {
            let ghost before = places(out@);
            out.push(i);
            assert(places(out@) =~= before.push(i as int));
        }
        i += 1;
    }
    assert(places(out@).len() == out.len());
    out
}

} // verus!
