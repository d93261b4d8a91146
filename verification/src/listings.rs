//! What lists show, and in which order.

use crate::list::{datasource_named, explorable, first_name, first_uid, supported};
use crate::model::{Datasource, Model};
use crate::pyroscope::app::{
    cpu_type, first_cpu, first_equal, first_segment, preferred_type,
};
use crate::select::{
    by_favour, filtered, fuzzy, listed_datasources, listed_series, matching_series_upto,
    matching_upto, selected_profile_type, tempo_datasources, tempo_upto,
};
use crate::tempo::app::{matching_spans, span_matches};
use crate::tempo::types::TempoSpan;
use crate::text::ascii_lower;
use crate::view::{datasource_shows, shows, DatasourceView, ViewModel};
use vstd::prelude::*;
use vstd::string::*;

verus! {

// ── Search ───────────────────────────────────────────────────────────────────

/// Whether two characters are the same but for the case of ASCII letters.
pub open spec fn same_letter(c: char, d: char) -> bool {
    ||| c == d
    ||| 'a' <= c <= 'z' && c as u32 == d as u32 + 32
    ||| 'a' <= d <= 'z' && d as u32 == c as u32 + 32
}

/// Whether the characters of `needle` stand in `haystack` at the places `at`, in their order.
pub open spec fn found_at(haystack: Seq<char>, needle: Seq<char>, at: Seq<int>) -> bool {
    &&& at.len() == needle.len()
    &&& forall|k: int|
        #![trigger at[k]]
        0 <= k < at.len() ==> 0 <= at[k] < haystack.len() && same_letter(
            haystack[at[k]],
            needle[k],
        )
    &&& forall|j: int, k: int| #![trigger at[j], at[k]] 0 <= j < k < at.len() ==> at[j] < at[k]
}

proof fn lemma_same_letter(c: char, d: char)
    ensures
        (ascii_lower(c) == ascii_lower(d)) == same_letter(c, d),
{
}

/// A text matches a search exactly if the characters of the search stand in it in their order,
/// whatever their case.
pub proof fn lemma_fuzzy(haystack: Seq<char>, needle: Seq<char>)
    ensures
        fuzzy(haystack, needle) <==> exists|at: Seq<int>| #[trigger] found_at(haystack, needle, at),
{
    if fuzzy(haystack, needle) {
        let at = lemma_fuzzy_found(haystack, needle);
        assert(found_at(haystack, needle, at));
    }
    if exists|at: Seq<int>| #[trigger] found_at(haystack, needle, at) {
        let at = choose|at: Seq<int>| #[trigger] found_at(haystack, needle, at);
        lemma_found_fuzzy(haystack, needle, at);
    }
}

proof fn lemma_fuzzy_found(haystack: Seq<char>, needle: Seq<char>) -> (at: Seq<int>)
    requires
        fuzzy(haystack, needle),
    ensures
        found_at(haystack, needle, at),
    decreases haystack.len(),
{
    if needle.len() == 0 {
        seq![]
    } else {
        let rest = haystack.drop_first();
        lemma_same_letter(haystack[0], needle[0]);
        if ascii_lower(haystack[0]) == ascii_lower(needle[0]) {
            let inner = lemma_fuzzy_found(rest, needle.drop_first());
            let at = Seq::new(
                needle.len(),
                |k: int|
                    if k == 0 {
                        0
                    } else {
                        inner[k - 1] + 1
                    },
            );
            assert forall|k: int| #![trigger at[k]] 0 <= k < at.len() implies 0 <= at[k]
                < haystack.len() && same_letter(haystack[at[k]], needle[k]) by {
                if k > 0 {
                    assert(inner[k - 1] >= 0);
                    assert(rest[inner[k - 1]] == haystack[at[k]]);
                    assert(needle.drop_first()[k - 1] == needle[k]);
                }
            }
            assert forall|j: int, k: int| #![trigger at[j], at[k]] 0 <= j < k
                < at.len() implies at[j] < at[k] by {
                assert(inner[k - 1] >= 0);
                if j > 0 {
                    assert(inner[j - 1] < inner[k - 1]);
                }
            }
            at
        } else {
            let inner = lemma_fuzzy_found(rest, needle);
            let at = Seq::new(needle.len(), |k: int| inner[k] + 1);
            assert forall|k: int| #![trigger at[k]] 0 <= k < at.len() implies 0 <= at[k]
                < haystack.len() && same_letter(haystack[at[k]], needle[k]) by {
                assert(inner[k] >= 0);
                assert(rest[inner[k]] == haystack[at[k]]);
            }
            assert forall|j: int, k: int| #![trigger at[j], at[k]] 0 <= j < k
                < at.len() implies at[j] < at[k] by {
                assert(inner[j] < inner[k]);
            }
            at
        }
    }
}

proof fn lemma_found_fuzzy(haystack: Seq<char>, needle: Seq<char>, at: Seq<int>)
    requires
        found_at(haystack, needle, at),
    ensures
        fuzzy(haystack, needle),
    decreases haystack.len(),
{
    if needle.len() > 0 {
        assert(0 <= at[0] < haystack.len());
        let rest = haystack.drop_first();
        lemma_same_letter(haystack[0], needle[0]);
        if ascii_lower(haystack[0]) == ascii_lower(needle[0]) {
            let inner = Seq::new((needle.len() - 1) as nat, |k: int| at[k + 1] - 1);
            assert forall|k: int| #![trigger inner[k]] 0 <= k < inner.len() implies 0 <= inner[k]
                < rest.len() && same_letter(rest[inner[k]], needle.drop_first()[k]) by {
                assert(at[0] < at[k + 1]);
                assert(rest[inner[k]] == haystack[at[k + 1]]);
            }
            assert forall|j: int, k: int| #![trigger inner[j], inner[k]] 0 <= j < k
                < inner.len() implies inner[j] < inner[k] by {
                assert(at[j + 1] < at[k + 1]);
            }
            lemma_found_fuzzy(rest, needle.drop_first(), inner);
        } else {
            let inner = Seq::new(needle.len(), |k: int| at[k] - 1);
            assert forall|k: int| #![trigger inner[k]] 0 <= k < inner.len() implies 0 <= inner[k]
                < rest.len() && same_letter(rest[inner[k]], needle[k]) by {
                assert(at[0] != 0);
                if k > 0 {
                    assert(at[0] < at[k]);
                }
                assert(rest[inner[k]] == haystack[at[k]]);
            }
            assert forall|j: int, k: int| #![trigger inner[j], inner[k]] 0 <= j < k
                < inner.len() implies inner[j] < inner[k] by {
                assert(at[j] < at[k]);
            }
            lemma_found_fuzzy(rest, needle, inner);
        }
    }
}

// ── Datasources ──────────────────────────────────────────────────────────────

/// Whether a datasource is of metrics, profiles, traces or logs.
pub open spec fn of_signals(ds: Datasource) -> bool {
    let t = ds.ds_type@;
    t == "prometheus"@ || t == "grafana-pyroscope-datasource"@ || t == "phlare"@ || t == "tempo"@
        || t == "loki"@
}

/// Of the datasources that are loaded those of metrics, profiles, traces and logs are kept, and no
/// others.
pub proof fn lemma_explorable(all: Seq<Datasource>, i: int)
    requires
        0 <= i < all.len(),
    ensures
        explorable(all).contains(all[i]) == of_signals(all[i]),
        forall|k: int|
            0 <= k < explorable(all).len() ==> of_signals(#[trigger] explorable(all)[k]),
{
    let pred = |ds: Datasource| supported(ds.ds_type@);
    if of_signals(all[i]) {
        all.lemma_filter_contains(pred, i);
    }
    assert forall|k: int| 0 <= k < explorable(all).len() implies of_signals(
        #[trigger] explorable(all)[k],
    ) by {
        all.lemma_filter_pred(pred, k);
    }
}

/// Datasources of profiles are shown as such, whichever their type; all others under their type.
pub proof fn lemma_shown_type(ds: Datasource, favourites: Set<Seq<char>>, v: DatasourceView)
    requires
        datasource_shows(ds, favourites, v),
    ensures
        v.ds_type@ == if ds.ds_type@ == "grafana-pyroscope-datasource"@ || ds.ds_type@ == "phlare"@ {
            "pyroscope"@
        } else {
            ds.ds_type@
        },
        v.uid@ == ds.uid@,
        v.is_favourite == favourites.contains(ds.uid@),
{
}

/// Whether datasource `d` is a favourite.
pub open spec fn favourite(m: Model, d: int) -> bool {
    m.datasources.favourites@.contains(m.datasources.items@[d].uid@)
}

/// Favourites are shown before all other datasources, and either in the order in which they were
/// loaded. What is shown matches the filter.
pub proof fn lemma_favourites_first(m: Model, i: int, j: int)
    requires
        0 <= i < j < listed_datasources(m).len(),
    ensures
        ({
            let (d, e) = (listed_datasources(m)[i], listed_datasources(m)[j]);
            &&& favourite(m, e) ==> favourite(m, d)
            &&& favourite(m, d) == favourite(m, e) ==> d < e
            &&& 0 <= d < m.datasources.items@.len()
            &&& fuzzy(m.datasources.items@[d].name@, m.datasources.filter@)
        }),
{
    let ds = m.datasources.items@;
    let shown = filtered(m);
    lemma_matching(ds, m.datasources.filter@, ds.len() as int);
    lemma_favoured(ds, m.datasources.favourites@, shown, true);
    lemma_favoured(ds, m.datasources.favourites@, shown, false);
    let a = by_favour(ds, m.datasources.favourites@, shown, true);
    let b = by_favour(ds, m.datasources.favourites@, shown, false);
    assert(listed_datasources(m) == a + b);
    let d = listed_datasources(m)[i];
    if i < a.len() {
        assert(d == a[i]);
        assert(shown.contains(a[i]));
    } else {
        assert(d == b[i - a.len()]);
        assert(shown.contains(b[i - a.len()]));
    }
    let k = shown.index_of(d);
    assert(shown[k] == d);
}

proof fn lemma_matching(ds: Seq<Datasource>, filter: Seq<char>, n: int)
    requires
        0 <= n <= ds.len(),
    ensures
        forall|k: int|
            #![trigger matching_upto(ds, filter, n)[k]]
            0 <= k < matching_upto(ds, filter, n).len() ==> {
                &&& 0 <= matching_upto(ds, filter, n)[k] < n
                &&& fuzzy(ds[matching_upto(ds, filter, n)[k]].name@, filter)
            },
        ascending(matching_upto(ds, filter, n)),
    decreases n,
{
    if n > 0 {
        lemma_matching(ds, filter, n - 1);
    }
}

/// Whether places ascend.
pub open spec fn ascending(s: Seq<int>) -> bool {
    forall|i: int, j: int| #![trigger s[i], s[j]] 0 <= i < j < s.len() ==> s[i] < s[j]
}

proof fn lemma_favoured(
    ds: Seq<Datasource>,
    favourites: Set<Seq<char>>,
    indices: Seq<int>,
    wanted: bool,
)
    requires
        ascending(indices),
    ensures
        ascending(by_favour(ds, favourites, indices, wanted)),
        forall|k: int|
            #![trigger by_favour(ds, favourites, indices, wanted)[k]]
            0 <= k < by_favour(ds, favourites, indices, wanted).len() ==> {
                let d = by_favour(ds, favourites, indices, wanted)[k];
                indices.contains(d) && favourites.contains(ds[d].uid@) == wanted
            },
    decreases indices.len(),
{
    if indices.len() > 0 {
        let init = indices.drop_last();
        lemma_favoured(ds, favourites, init, wanted);
        let before = by_favour(ds, favourites, init, wanted);
        let all = by_favour(ds, favourites, indices, wanted);
        assert forall|k: int| 0 <= k < before.len() implies #[trigger] before[k] < indices.last()
            && indices.contains(before[k]) by {
            let m = init.index_of(before[k]);
            assert(init[m] == before[k]);
            assert(indices[m] == init[m]);
        }
        assert(indices[indices.len() - 1] == indices.last());
        assert forall|k: int| 0 <= k < all.len() implies indices.contains(#[trigger] all[k])
            && favourites.contains(ds[all[k]].uid@) == wanted by {
            if k < before.len() {
                assert(all[k] == before[k]);
            }
        }
    }
}

/// The datasources of traces are those of type `tempo`, in the order in which they were loaded.
pub proof fn lemma_trace_sources(ds: Seq<Datasource>, i: int)
    requires
        0 <= i < ds.len(),
    ensures
        tempo_datasources(ds).contains(i) == (ds[i].ds_type@ == "tempo"@),
        ascending(tempo_datasources(ds)),
{
    lemma_trace_sources_upto(ds, ds.len() as int, i);
}

proof fn lemma_trace_sources_upto(ds: Seq<Datasource>, n: int, i: int)
    requires
        0 <= n <= ds.len(),
        0 <= i,
    ensures
        tempo_upto(ds, n).contains(i) == (i < n && ds[i].ds_type@ == "tempo"@),
        ascending(tempo_upto(ds, n)),
        forall|k: int| 0 <= k < tempo_upto(ds, n).len() ==> #[trigger] tempo_upto(ds, n)[k] < n,
    decreases n,
{
    if n > 0 {
        lemma_trace_sources_upto(ds, n - 1, i);
        let before = tempo_upto(ds, n - 1);
        let all = tempo_upto(ds, n);
        if before.contains(i) {
            let k = before.index_of(i);
            assert(all[k] == i);
        }
        if all.contains(i) && i != n - 1 {
            let k = all.index_of(i);
            assert(before[k] == i);
        }
        if all.len() > before.len() {
            assert(all.last() == n - 1);
        }
    }
}

/// A datasource is found by its UID before its name, and by either the first that has it.
pub proof fn lemma_found_by_uid(ds: Seq<Datasource>, uid: Seq<char>, name: Seq<char>, i: int)
    requires
        0 <= i < ds.len(),
    ensures
        match datasource_named(ds, uid, name) {
            Some(raw) => {
                &&& 0 <= raw < ds.len()
                &&& uid.len() > 0 && ds[i].uid@ == uid ==> ds[raw].uid@ == uid && raw <= i
                &&& !(uid.len() > 0 && ds[raw].uid@ == uid) ==> name.len() > 0 && ds[raw].name@
                    == name && (ds[i].name@ == name ==> raw <= i)
            },
            None => !(uid.len() > 0 && ds[i].uid@ == uid) && !(name.len() > 0 && ds[i].name@
                == name),
        },
{
    lemma_first_uid(ds, 0, uid, i);
    lemma_first_name(ds, 0, name, i);
}

proof fn lemma_first_uid(ds: Seq<Datasource>, from: int, uid: Seq<char>, i: int)
    requires
        0 <= from,
    ensures
        match first_uid(ds, from, uid) {
            Some(f) => from <= f < ds.len() && ds[f].uid@ == uid && (from <= i < f ==> ds[i].uid@
                != uid),
            None => from <= i < ds.len() ==> ds[i].uid@ != uid,
        },
    decreases ds.len() - from,
{
    if from < ds.len() && ds[from].uid@ != uid {
        lemma_first_uid(ds, from + 1, uid, i);
    }
}

proof fn lemma_first_name(ds: Seq<Datasource>, from: int, name: Seq<char>, i: int)
    requires
        0 <= from,
    ensures
        match first_name(ds, from, name) {
            Some(f) => from <= f < ds.len() && ds[f].name@ == name && (from <= i < f
                ==> ds[i].name@ != name),
            None => from <= i < ds.len() ==> ds[i].name@ != name,
        },
    decreases ds.len() - from,
{
    if from < ds.len() && ds[from].name@ != name {
        lemma_first_name(ds, from + 1, name, i);
    }
}

/// What is shown as selected is what is selected if it is there, and else the last that is.
pub proof fn lemma_shown_selection(m: Model, v: ViewModel<'_>)
    requires
        shows(m, v),
    ensures
        v.datasources@.len() == listed_datasources(m).len(),
        m.datasources.selected_index < v.datasources@.len() ==> v.selected_index
            == m.datasources.selected_index,
        0 < v.datasources@.len() <= m.datasources.selected_index ==> v.selected_index
            == v.datasources@.len() - 1,
        m.series.index < v.pyroscope_series@.len() ==> v.pyroscope_series_index == m.series.index,
        0 < v.pyroscope_series@.len() <= m.series.index ==> v.pyroscope_series_index
            == v.pyroscope_series@.len() - 1,
{
}

// ── Spans ────────────────────────────────────────────────────────────────────

/// A span is found by its name, its service, and the names and values of all of its attributes,
/// and by nothing else.
pub proof fn lemma_span_found(span: TempoSpan, needle: Seq<char>, k: int)
    ensures
        fuzzy(span.name@, needle) ==> span_matches(span, needle),
        fuzzy(span.service_name@, needle) ==> span_matches(span, needle),
        0 <= k < span.resource_attrs@.len() && (fuzzy(span.resource_attrs@[k].0@, needle) || fuzzy(
            span.resource_attrs@[k].1@,
            needle,
        )) ==> span_matches(span, needle),
        0 <= k < span.span_attrs@.len() && (fuzzy(span.span_attrs@[k].0@, needle) || fuzzy(
            span.span_attrs@[k].1@,
            needle,
        )) ==> span_matches(span, needle),
        span_matches(span, needle) ==> {
            ||| fuzzy(span.name@, needle)
            ||| fuzzy(span.service_name@, needle)
            ||| exists|i: int|
                0 <= i < span.resource_attrs@.len() && (fuzzy(
                    (#[trigger] span.resource_attrs@[i]).0@,
                    needle,
                ) || fuzzy(span.resource_attrs@[i].1@, needle))
            ||| exists|i: int|
                0 <= i < span.span_attrs@.len() && (fuzzy(
                    (#[trigger] span.span_attrs@[i]).0@,
                    needle,
                ) || fuzzy(span.span_attrs@[i].1@, needle))
        },
{
}

/// No more spans are shown than there are, and without a search all of them.
pub proof fn lemma_spans_narrowed(spans: Seq<TempoSpan>, needle: Seq<char>, n: int)
    requires
        0 <= n <= spans.len(),
    ensures
        0 <= matching_spans(spans, needle, n) <= n,
        needle.len() == 0 ==> matching_spans(spans, needle, n) == n,
    decreases n,
{
    if n > 0 {
        lemma_spans_narrowed(spans, needle, n - 1);
    }
}

// ── Services ─────────────────────────────────────────────────────────────────

/// The services shown are those with the selected type of profile whose name matches the filter.
pub proof fn lemma_services(m: Model, i: int)
    requires
        0 <= i < m.series.items@.len(),
    ensures
        listed_series(m).contains(i) == (m.series.items@[i].profile_type_id@
            == selected_profile_type(m) && fuzzy(
            m.series.items@[i].service_name@,
            m.series.filter@,
        )),
{
    lemma_services_upto(m, m.series.items@.len() as int, i);
}

proof fn lemma_services_upto(m: Model, n: int, i: int)
    requires
        0 <= n <= m.series.items@.len(),
        0 <= i,
    ensures
        matching_series_upto(
            m.series.items@,
            selected_profile_type(m),
            m.series.filter@,
            n,
        ).contains(i) == (i < n && m.series.items@[i].profile_type_id@ == selected_profile_type(m)
            && fuzzy(m.series.items@[i].service_name@, m.series.filter@)),
    decreases n,
{
    if n > 0 {
        lemma_services_upto(m, n - 1, i);
        let before = matching_series_upto(
            m.series.items@,
            selected_profile_type(m),
            m.series.filter@,
            n - 1,
        );
        let all = matching_series_upto(
            m.series.items@,
            selected_profile_type(m),
            m.series.filter@,
            n,
        );
        if before.contains(i) {
            let k = before.index_of(i);
            assert(all[k] == i);
        }
        if all.contains(i) && i != n - 1 {
            let k = all.index_of(i);
            assert(before[k] == i);
        }
        if all.len() > before.len() {
            assert(all.last() == n - 1);
        }
    }
}

/// Whether a type of profile is one of CPU time.
pub open spec fn of_cpu(id: Seq<char>) -> bool {
    first_segment(id) == "process_cpu"@ || first_segment(id) == "cpu"@
}

/// The type that is selected first is the CPU time of processes in nanoseconds; where there is none
/// the first of CPU time; and only where there is none of these the first of all.
pub proof fn lemma_preferred_type(types: Seq<Seq<char>>, i: int)
    requires
        0 <= i < types.len(),
    ensures
        ({
            let p = preferred_type(types);
            let best = "process_cpu:cpu:nanoseconds:cpu:nanoseconds"@;
            &&& 0 <= p < types.len()
            &&& types[i] == best ==> types[p] == best
            &&& of_cpu(types[i]) ==> of_cpu(types[p]) || types[p] == best
            &&& types[p] != best && of_cpu(types[p]) && i < p ==> !of_cpu(types[i])
            &&& types[p] != best && !of_cpu(types[p]) ==> p == 0
        }),
{
    lemma_first_equal(types, 0, "process_cpu:cpu:nanoseconds:cpu:nanoseconds"@, i);
    lemma_first_cpu(types, 0, i);
}

proof fn lemma_first_equal(s: Seq<Seq<char>>, from: int, x: Seq<char>, i: int)
    requires
        0 <= from,
    ensures
        match first_equal(s, from, x) {
            Some(f) => from <= f < s.len() && s[f] == x,
            None => from <= i < s.len() ==> s[i] != x,
        },
    decreases s.len() - from,
{
    if from < s.len() && s[from] != x {
        lemma_first_equal(s, from + 1, x, i);
    }
}

proof fn lemma_first_cpu(s: Seq<Seq<char>>, from: int, i: int)
    requires
        0 <= from,
    ensures
        match first_cpu(s, from) {
            Some(f) => from <= f < s.len() && of_cpu(s[f]) && (from <= i < f ==> !of_cpu(s[i])),
            None => from <= i < s.len() ==> !of_cpu(s[i]),
        },
    decreases s.len() - from,
{
    if from < s.len() && !cpu_type(s[from]) {
        lemma_first_cpu(s, from + 1, i);
    }
}

} // verus!
