//! How label lists, matchers and requests are written.

use crate::logql::ast::{LabelMatcherV, MatchOp, StreamSelectorV};
use crate::logql::completions::{matcher_text, matchers_text, selector_text};
use crate::logql::selectors::{
    all_plain, bytes_at, length, lengths, lemma_matcher_stands, lemma_matcher_tokens,
    lemma_op_bytes, lemma_selector_text, matcher_start, plain, stands_from, text_from,
};
use crate::model::{Command, Model};
use crate::order::{lemma_text_order, sorted_texts, text_order};
use crate::prometheus::app::{accepted, completion_accepted, encoded_byte, percent_encoded};
use crate::prometheus::context::{
    cached_names, comma_separated, complete_matchers, completions_of, keywords,
    label_names_matching, matcher_end, CompletionCtxV, LABEL_LIST_KEYWORDS,
};
use crate::scan::{run_end, ByteClass};
use crate::suggest::{
    lemma_distinct_texts, lemma_names_complete, matching_names, matching_words, without_repeats,
};
use crate::text::{
    lemma_boundary, lemma_byte_offset, lemma_encode_concat, lemma_range_valid, lemma_text_split,
    listed, lowercase, text_in,
};
use crate::util::{char_to_byte_of, word_byte, word_start};
use vstd::multiset::*;
use vstd::prelude::*;
use vstd::seq_lib::*;
use vstd::string::*;
use vstd::utf8::*;

verus! {

// ── Label lists ──────────────────────────────────────────────────────────────

/// The words before a list of labels: those that group, and those that match and keep.
pub proof fn lemma_label_list_words(word: Seq<char>)
    ensures
        listed(LABEL_LIST_KEYWORDS@, word) <==> word == "by"@ || word == "without"@ || word == "on"@
            || word == "ignoring"@ || word == "group_left"@ || word == "group_right"@,
{
    let k = LABEL_LIST_KEYWORDS@;
    assert(k[0]@ == "by"@ && k[1]@ == "without"@ && k[2]@ == "on"@ && k[3]@ == "ignoring"@ && k[4]@
        == "group_left"@ && k[5]@ == "group_right"@);
}

// ── Matchers ─────────────────────────────────────────────────────────────────

/// A matcher that is written out is complete, whichever its operator.
pub proof fn lemma_matcher_complete(b: Seq<u8>, p: int, m: LabelMatcherV)
    requires
        plain(m),
        bytes_at(b, p, m),
    ensures
        matcher_end(b, p) == Some(p + length(m)),
{
    lemma_matcher_tokens(b, p, m);
    lemma_op_bytes(m.op);
    let (n, o, v) = lengths(m);
    let name = p + n;
    assert(run_end(b, p, ByteClass::Word) == name);
    assert(run_end(b, name, ByteClass::Blank) == name);
    assert(run_end(b, name + o, ByteClass::Blank) == name + o);
}

/// The texts of matchers.
pub open spec fn matcher_texts(ms: Seq<LabelMatcherV>) -> Seq<Seq<char>> {
    ms.map_values(|m: LabelMatcherV| matcher_text(m))
}

proof fn lemma_complete_from(b: Seq<u8>, ms: Seq<LabelMatcherV>, k: int)
    requires
        all_plain(ms),
        0 <= k < ms.len(),
        stands_from(b, ms, k),
    ensures
        complete_matchers(b, matcher_start(ms, k)) == matcher_texts(ms.skip(k)),
    decreases ms.len() - k,
{
    let p = matcher_start(ms, k);
    let m = ms[k];
    assert(plain(m));
    lemma_matcher_stands(b, ms, k);
    lemma_matcher_complete(b, p, m);
    lemma_matcher_tokens(b, p, m);
    let end = p + length(m);
    assert(b[p] != ' ' as u8 && b[p] != '\t' as u8 && b[p] != ',' as u8);
    assert(run_end(b, p, ByteClass::Separator) == p);
    encode_utf8_decode_utf8(matcher_text(m));
    assert(text_in(b, p, end) == matcher_text(m));
    assert(complete_matchers(b, p) == seq![matcher_text(m)] + complete_matchers(b, end));
    if k + 1 < ms.len() {
        lemma_complete_from(b, ms, k + 1);
        let q = end + 1;
        assert(matcher_start(ms, k + 1) == q);
        lemma_matcher_stands(b, ms, k + 1);
        assert(plain(ms[k + 1]));
        lemma_matcher_tokens(b, q, ms[k + 1]);
        assert(run_end(b, q, ByteClass::Separator) == q);
        assert(run_end(b, end, ByteClass::Separator) == run_end(b, q, ByteClass::Separator));
        assert(complete_matchers(b, end) == complete_matchers(b, q)) by {
            lemma_from_separator(b, end);
        }
        assert(matcher_texts(ms.skip(k)) =~= seq![matcher_text(m)] + matcher_texts(
            ms.skip(k + 1),
        ));
    } else {
        assert(run_end(b, end, ByteClass::Separator) == end);
        assert(run_end(b, end, ByteClass::Word) == end);
        assert(run_end(b, end, ByteClass::Blank) == end);
        assert(complete_matchers(b, end).len() == 0);
        assert(matcher_texts(ms.skip(k)) =~= seq![matcher_text(m)] + complete_matchers(b, end));
    }
}

/// A separator before matchers makes no difference.
proof fn lemma_from_separator(b: Seq<u8>, p: int)
    requires
        0 <= p < b.len(),
        b[p] == ',' as u8,
        matcher_end(b, run_end(b, p + 1, ByteClass::Separator)) is Some ==> p + 1 < matcher_end(
            b,
            run_end(b, p + 1, ByteClass::Separator),
        )->0,
    ensures
        complete_matchers(b, p) == complete_matchers(b, p + 1),
{
    assert(run_end(b, p, ByteClass::Separator) == run_end(b, p + 1, ByteClass::Separator));
}

proof fn lemma_comma_separated(ms: Seq<LabelMatcherV>)
    ensures
        comma_separated(matcher_texts(ms)) == matchers_text(ms),
    decreases ms.len(),
{
    if ms.len() > 1 {
        lemma_comma_separated(ms.drop_last());
        assert(matcher_texts(ms).drop_last() =~= matcher_texts(ms.drop_last()));
    }
}

/// The matchers of a selector, read from behind its brace and put together again, are those of the
/// selector, whichever their operators.
pub proof fn lemma_selector_kept(s: StreamSelectorV)
    requires
        s.matchers.len() > 0,
        forall|k: int| 0 <= k < s.matchers.len() ==> plain(#[trigger] s.matchers[k]),
    ensures
        "{"@ + comma_separated(complete_matchers(encode_utf8(selector_text(s)), 1)) + "}"@
            == selector_text(s),
{
    let ms = s.matchers;
    let b = encode_utf8(selector_text(s));
    lemma_selector_text(s);
    lemma_op_bytes(MatchOp::Eq);
    lemma_encode_concat("{"@, text_from(ms, 0));
    assert(b.subrange(1, b.len() as int) =~= encode_utf8(text_from(ms, 0)));
    lemma_complete_from(b, ms, 0);
    assert(ms.skip(0) =~= ms);
    lemma_comma_separated(ms);
}

// ── Completions ──────────────────────────────────────────────────────────────

proof fn lemma_matching_word(words: Seq<&'static str>, prefix: Seq<char>, k: int)
    requires
        0 <= k < words.len(),
        prefix.is_prefix_of(words[k]@),
    ensures
        matching_words(words, prefix).contains(words[k]@),
    decreases words.len(),
{
    let init = words.drop_last();
    let all = matching_words(words, prefix);
    if k < init.len() {
        lemma_matching_word(init, prefix, k);
        let before = matching_words(init, prefix);
        let m = before.index_of(words[k]@);
        assert(init[k] == words[k]);
        assert(all[m] == words[k]@);
    } else {
        assert(all.last() == words[k]@);
    }
}

proof fn lemma_sorted_holds(s: Seq<Seq<char>>, x: Seq<char>)
    requires
        s.contains(x),
    ensures
        sorted_texts(s).contains(x),
{
    lemma_text_order();
    s.lemma_sort_by_ensures(text_order());
    broadcast use group_to_multiset_ensures;

    assert(s.to_multiset().count(x) > 0);
}

/// Where fewer completions are offered than could be, none is missing: in a query every keyword and
/// every metric that starts with what has been typed, in a selector every label and every value
/// that is known for it, and `__name__` where nothing is selected yet.
pub proof fn lemma_metrics_offered(
    prefix: Seq<char>,
    label: Seq<char>,
    selector: Seq<char>,
    metrics: Seq<Seq<char>>,
    names: Map<Seq<char>, Vec<String>>,
    values: Map<(Seq<char>, Seq<char>), Vec<String>>,
    max: int,
    k: int,
)
    requires
        0 <= max,
        0 <= k,
    ensures
        ({
            let found = completions_of(
                CompletionCtxV::MetricOrKeyword { prefix },
                metrics,
                names,
                values,
                max,
            );
            prefix.len() > 0 && found.len() < max ==> {
                &&& k < metrics.len() && lowercase(prefix).is_prefix_of(lowercase(metrics[k]))
                    ==> found.contains(metrics[k])
                &&& k < keywords().len() && lowercase(prefix).is_prefix_of(keywords()[k]@)
                    ==> found.contains(keywords()[k]@)
            }
        }),
        ({
            let found = completions_of(
                CompletionCtxV::LabelName { prefix, selector },
                metrics,
                names,
                values,
                max,
            );
            found.len() < max ==> {
                &&& names.contains_key(selector) && k < names[selector]@.len() && lowercase(
                    prefix,
                ).is_prefix_of(lowercase(names[selector]@[k]@)) ==> found.contains(
                    names[selector]@[k]@,
                )
                &&& selector.len() == 0 && lowercase(prefix).is_prefix_of("__name__"@)
                    ==> found.contains("__name__"@)
            }
        }),
        ({
            let found = completions_of(
                CompletionCtxV::LabelValue { label, prefix, selector },
                metrics,
                names,
                values,
                max,
            );
            let key = (label, selector);
            found.len() < max && values.contains_key(key) && k < values[key]@.len() && lowercase(
                prefix,
            ).is_prefix_of(lowercase(values[key]@[k]@)) ==> found.contains(values[key]@[k]@)
        }),
{
    let typed = lowercase(prefix);
    let words = matching_words(keywords(), typed);
    let matching = matching_names(metrics, typed);
    let all = words + matching;
    lemma_distinct_texts(all);
    if k < metrics.len() && typed.is_prefix_of(lowercase(metrics[k])) {
        lemma_names_complete(metrics, typed);
        assert(metrics.contains(metrics[k]));
        assert(matching.contains(metrics[k]));
        let m = matching.index_of(metrics[k]);
        assert(all[words.len() + m] == metrics[k]);
        assert(all.contains(metrics[k]));
        assert(without_repeats(sorted_texts(all)).contains(metrics[k]));
    }
    if k < keywords().len() && typed.is_prefix_of(keywords()[k]@) {
        lemma_matching_word(keywords(), typed, k);
        let m = words.index_of(keywords()[k]@);
        assert(all[m] == keywords()[k]@);
        assert(all.contains(keywords()[k]@));
        assert(without_repeats(sorted_texts(all)).contains(keywords()[k]@));
    }
    let known = cached_names(names, selector);
    let labels = label_names_matching(known, typed, selector);
    let plain_labels = matching_names(known, typed);
    if names.contains_key(selector) && k < names[selector]@.len() && typed.is_prefix_of(
        lowercase(names[selector]@[k]@),
    ) {
        assert(known[k] == names[selector]@[k]@);
        lemma_names_complete(known, typed);
        assert(known.contains(known[k]));
        assert(plain_labels.contains(known[k]));
        let m = plain_labels.index_of(known[k]);
        assert(labels[m] == known[k]);
        lemma_sorted_holds(labels, known[k]);
    }
    if selector.len() == 0 && typed.is_prefix_of("__name__"@) {
        if !plain_labels.contains("__name__"@) {
            assert(labels.last() == "__name__"@);
        }
        assert(labels.contains("__name__"@));
        lemma_sorted_holds(labels, "__name__"@);
    }
    let key = (label, selector);
    let found = cached_names(values, key);
    if values.contains_key(key) && k < values[key]@.len() && typed.is_prefix_of(
        lowercase(values[key]@[k]@),
    ) {
        assert(found[k] == values[key]@[k]@);
        lemma_names_complete(found, typed);
        assert(found.contains(found[k]));
        assert(matching_names(found, typed).contains(found[k]));
        lemma_sorted_holds(matching_names(found, typed), found[k]);
    }
}

// ── Words ────────────────────────────────────────────────────────────────────

/// Whether a byte can stand in the name of a metric: a letter of ASCII, a digit, `_` or `:`.
pub open spec fn name_byte(c: u8) -> bool {
    'a' as u8 <= c <= 'z' as u8 || 'A' as u8 <= c <= 'Z' as u8 || '0' as u8 <= c <= '9' as u8 || c
        == '_' as u8 || c == ':' as u8
}

/// Whether the name before the byte `end` starts at `start`: bytes of a name only, and none before
/// them.
pub open spec fn name_between(b: Seq<u8>, start: int, end: int) -> bool {
    &&& 0 <= start <= end <= b.len()
    &&& forall|i: int| start <= i < end ==> name_byte(#[trigger] b[i])
    &&& start > 0 ==> !name_byte(b[start - 1])
}

pub(crate) proof fn lemma_name_start(b: Seq<u8>, end: int)
    requires
        0 <= end <= b.len(),
    ensures
        name_between(b, word_start(b, end, true), end),
    decreases end,
{
    if 0 < end && word_byte(b[end - 1], true) {
        lemma_name_start(b, end - 1);
    }
}

/// A completion that is accepted stands in place of the name before the cursor, which goes behind
/// it; what stands around the name stays.
pub proof fn lemma_accepted_replaces_name(a: Model, b: Model, cmd: Command)
    requires
        completion_accepted(a, b, cmd),
        accepted(a) is Some,
    ensures
        exists|before: Seq<char>, name: Seq<char>, behind: Seq<char>|
            {
                &&& a.promql.query@ == #[trigger] (before + name + behind)
                &&& b.promql.query@ == before + accepted(a)->0 + behind
                &&& b.promql.cursor_pos == (before + accepted(a)->0).len()
                &&& name_between(
                    encode_utf8(before + name),
                    encode_utf8(before).len() as int,
                    encode_utf8(before + name).len() as int,
                )
            },
{
    let q = a.promql;
    let bytes = encode_utf8(q.query@);
    let n = bytes.len() as int;
    let cursor = char_to_byte_of(q.query@, q.cursor_pos as int);
    encode_utf8_valid_utf8(q.query@);
    encode_utf8_decode_utf8(q.query@);
    is_char_boundary_start_end_of_seq(bytes);
    if q.cursor_pos < q.query@.len() {
        lemma_byte_offset(q.query@, q.cursor_pos as int);
    }
    let head = bytes.subrange(0, cursor);
    let start = word_start(head, cursor, true);
    lemma_name_start(head, cursor);
    lemma_boundary(bytes, start);
    if start < cursor {
        assert(head[start] == bytes[start]);
        assert(name_byte(head[start]));
    }
    let before = text_in(bytes, 0, start);
    let name = text_in(bytes, start, cursor);
    let behind = text_in(bytes, cursor, n);
    lemma_text_split(bytes, 0, start, n);
    lemma_text_split(bytes, start, cursor, n);
    lemma_text_split(bytes, 0, start, cursor);
    assert(bytes.subrange(0, n) =~= bytes);
    assert(q.query@ =~= before + name + behind);
    lemma_range_valid(bytes, 0, start);
    lemma_range_valid(bytes, 0, cursor);
    decode_utf8_encode_utf8(bytes.subrange(0, start));
    decode_utf8_encode_utf8(head);
    assert(encode_utf8(before + name) == head);
    assert(encode_utf8(before).len() == start);
}

// ── Requests ─────────────────────────────────────────────────────────────────

/// Whether a character can stand in a request as it is: a letter, a digit, `-`, `_`, `.` or `~`.
pub open spec fn stands_for_itself(c: char) -> bool {
    'a' <= c <= 'z' || 'A' <= c <= 'Z' || '0' <= c <= '9' || c == '-' || c == '_' || c == '.' || c
        == '~'
}

/// Text for a request holds no characters but those that stand for themselves, and `%`.
pub proof fn lemma_percent_safe(b: Seq<u8>, i: int)
    requires
        0 <= i < percent_encoded(b).len(),
    ensures
        stands_for_itself(percent_encoded(b)[i]) || percent_encoded(b)[i] == '%',
    decreases b.len(),
{
    if b.len() > 0 {
        let before = percent_encoded(b.drop_last());
        if i < before.len() {
            lemma_percent_safe(b.drop_last(), i);
        } else {
            let c = b.last();
            assert(percent_encoded(b)[i] == encoded_byte(c)[i - before.len()]);
            assert(0 <= c as int / 16 < 16 && 0 <= c as int % 16 < 16);
        }
    }
}

/// Text that needs no escapes is sent as it is.
pub proof fn lemma_percent_plain(text: Seq<char>)
    requires
        forall|i: int| 0 <= i < text.len() ==> stands_for_itself(#[trigger] text[i]),
    ensures
        percent_encoded(encode_utf8(text)) == text,
    decreases text.len(),
{
    assert forall|i: int| 0 <= i < text.len() implies '\0' <= #[trigger] text[i] <= '\u{7f}' by {
        assert(stands_for_itself(text[i]));
    }
    assert(is_ascii_chars(text));
    is_ascii_chars_encode_utf8(text);
    if text.len() == 0 {
        assert(percent_encoded(encode_utf8(text)) =~= text);
    } else {
        let init = text.drop_last();
        assert forall|i: int| 0 <= i < init.len() implies stands_for_itself(#[trigger] init[i]) by {
            assert(init[i] == text[i]);
        }
        lemma_percent_plain(init);
        lemma_encode_concat(init, seq![text.last()]);
        assert(text =~= init + seq![text.last()]);
        let b = encode_utf8(text);
        assert(is_ascii_chars(init));
        is_ascii_chars_encode_utf8(init);
        assert(b.drop_last() =~= encode_utf8(init));
        assert(b.last() == text.last() as u8);
        assert(stands_for_itself(text[text.len() - 1]));
        assert(b.last() as char == text.last());
        assert(percent_encoded(b) =~= text);
    }
}

} // verus!
