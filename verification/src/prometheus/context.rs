//! What the cursor stands in, in a PromQL query, and what completes it.
//!
//! Works on the text before the cursor alone, which need not be well-formed.

use crate::collections::AssocMap;
use crate::order::{sort_strings, sorted_texts, text_order, texts};
use crate::prometheus::keywords::{
    all_completable_keywords, AGGREGATION_MODIFIERS, AGGREGATION_OPS, BINARY_KEYWORDS,
    BINARY_MODIFIERS, FUNCTIONS, LITERALS,
};
use crate::scan::{lemma_run_end, quoted_end, run_end, skip_quoted, skip_run, ByteClass};
use crate::suggest::{
    all_complete, at_most, contains_string, drop_repeats, filter_names, filter_words, keep_strings,
    lemma_names_complete, lemma_sorted_complete, lemma_words_complete, matching_names,
    matching_words, without_repeats,
};
use crate::text::{
    cat4, contains_word, has_prefix, lemma_boundary_after_ascii, listed, lowercase, substr,
    text_in, trimmed_end,
};
pub use crate::util::{char_to_byte, word_boundary_byte};
use crate::util::{char_to_byte_of, is_word_byte, word_start};
use vstd::prelude::*;
use vstd::relations::*;
use vstd::string::*;
use vstd::utf8::*;

verus! {

/// What the cursor stands in.
#[derive(Debug, Clone)]
pub enum CompletionCtx {
    /// Outside `{}`: a metric name or keyword
    MetricOrKeyword { prefix: String },
    /// Inside `{}` but not in a string: a label name. `selector` is as in
    /// `LabelValue`; empty inside `by(...)` and the like.
    LabelName { prefix: String, selector: String },
    /// Inside a string of a label matcher: a label value. `selector` is built
    /// from the other complete matchers of the same block, as in
    /// `up{namespace="prod"}`; empty without any.
    LabelValue { label: String, prefix: String, selector: String },
    /// Nothing to complete
    Nothing,
}

/// Value of a [`CompletionCtx`].
pub ghost enum CompletionCtxV {
    MetricOrKeyword { prefix: Seq<char> },
    LabelName { prefix: Seq<char>, selector: Seq<char> },
    LabelValue { label: Seq<char>, prefix: Seq<char>, selector: Seq<char> },
    Nothing,
}

impl View for CompletionCtx {
    type V = CompletionCtxV;

    open spec fn view(&self) -> CompletionCtxV {
        match self {
            CompletionCtx::MetricOrKeyword { prefix } => CompletionCtxV::MetricOrKeyword {
                prefix: prefix@,
            },
            CompletionCtx::LabelName { prefix, selector } => CompletionCtxV::LabelName {
                prefix: prefix@,
                selector: selector@,
            },
            CompletionCtx::LabelValue { label, prefix, selector } => CompletionCtxV::LabelValue {
                label: label@,
                prefix: prefix@,
                selector: selector@,
            },
            CompletionCtx::Nothing => CompletionCtxV::Nothing,
        }
    }
}

/// Keywords whose parenthesised argument list contains label names.
pub const LABEL_LIST_KEYWORDS: [&'static str; 6] = [
    "by",
    "without",
    "on",
    "ignoring",
    "group_left",
    "group_right",
];

// ── Outside string literals ──────────────────────────────────────────────────

/// Bytes that start a string literal.
pub open spec fn quote(b: u8) -> bool {
    b == '"' as u8 || b == '\'' as u8 || b == '`' as u8
}

/// Whether backslashes escape in a string that `delim` opens: with `raw`, not in
/// backtick strings.
pub open spec fn escaping(delim: u8, raw: bool) -> bool {
    !(raw && delim == '`' as u8)
}

/// The offsets from `pos` on that are outside string literals.
pub open spec fn unquoted(b: Seq<u8>, pos: int, raw: bool) -> Seq<int>
    decreases b.len() - pos,
{
    if pos < 0 || pos >= b.len() {
        seq![]
    } else if quote(b[pos]) {
        let end = quoted_end(b, pos + 1, b[pos], escaping(b[pos], raw)).0;
        if pos < end <= b.len() {
            unquoted(b, end, raw)
        } else {
            seq![]
        }
    } else {
        seq![pos] + unquoted(b, pos + 1, raw)
    }
}

/// How many `open` are not closed at the given offsets; a `close` too many
/// counts for nothing.
pub open spec fn depth(b: Seq<u8>, at: Seq<int>, open: u8, close: u8) -> nat
    decreases at.len(),
{
    if at.len() == 0 {
        0
    } else {
        let before = depth(b, at.drop_last(), open, close);
        let c = b[at.last()];
        if c == open {
            before + 1
        } else if c == close && before > 0 {
            (before - 1) as nat
        } else {
            before
        }
    }
}

/// The offsets, among those given, of the `open` that are not closed.
pub open spec fn unclosed(b: Seq<u8>, at: Seq<int>, open: u8, close: u8) -> Seq<int>
    decreases at.len(),
{
    if at.len() == 0 {
        seq![]
    } else {
        let before = unclosed(b, at.drop_last(), open, close);
        let c = b[at.last()];
        if c == open {
            before.push(at.last())
        } else if c == close && before.len() > 0 {
            before.drop_last()
        } else {
            before
        }
    }
}

/// Whether the text ends inside `[...]`.
pub open spec fn in_brackets(b: Seq<u8>) -> bool {
    depth(b, unquoted(b, 0, false), '[' as u8, ']' as u8) > 0
}

/// How many braces are open at the end of the text.
pub open spec fn brace_depth(b: Seq<u8>) -> nat {
    depth(b, unquoted(b, 0, false), '{' as u8, '}' as u8)
}

/// The word that ends at `end`, white space in between aside.
pub open spec fn word_before(b: Seq<u8>, end: int) -> Seq<char> {
    let t = encode_utf8(trimmed_end(text_in(b, 0, end)));
    text_in(t, word_start(t, t.len() as int, true), t.len() as int)
}

/// Whether the innermost open parenthesis of the text lists labels.
pub open spec fn in_label_list(b: Seq<u8>) -> bool {
    let open = unclosed(b, unquoted(b, 0, false), '(' as u8, ')' as u8);
    open.len() > 0 && listed(LABEL_LIST_KEYWORDS@, word_before(b, open.last()))
}

// ── Label values ─────────────────────────────────────────────────────────────

/// Where the string starts that is not closed at the end of the text, among the
/// strings inside braces. `depth` braces are open at `pos`.
pub open spec fn open_string(b: Seq<u8>, pos: int, depth: nat) -> Option<int>
    decreases b.len() - pos,
{
    if pos < 0 || pos >= b.len() {
        None
    } else if quote(b[pos]) && depth > 0 {
        let (end, closed) = quoted_end(b, pos + 1, b[pos], true);
        if !closed {
            Some(pos)
        } else if pos < end <= b.len() {
            open_string(b, end, depth)
        } else {
            None
        }
    } else if b[pos] == '{' as u8 {
        open_string(b, pos + 1, depth + 1)
    } else if b[pos] == '}' as u8 && depth > 0 {
        open_string(b, pos + 1, (depth - 1) as nat)
    } else {
        open_string(b, pos + 1, depth)
    }
}

/// Bytes of matcher operators.
pub open spec fn operator_byte(b: u8) -> bool {
    b == '=' as u8 || b == '~' as u8 || b == '!' as u8
}

/// The start of the run of operator bytes that ends at `end`.
pub open spec fn operator_start(b: Seq<u8>, end: int) -> int
    decreases end,
{
    if 0 < end <= b.len() && operator_byte(b[end - 1]) {
        operator_start(b, end - 1)
    } else {
        end
    }
}

/// The label of the matcher whose value starts at `start`, white space around its
/// operator aside.
pub open spec fn label_of_value(b: Seq<u8>, start: int) -> Seq<char> {
    let head = encode_utf8(trimmed_end(text_in(b, 0, start)));
    word_before(head, operator_start(head, head.len() as int))
}

/// Label and typed part of the value, where the text ends in an open string
/// behind a label.
pub open spec fn label_value_at_end(b: Seq<u8>) -> Option<(Seq<char>, Seq<char>)> {
    match open_string(b, 0, 0) {
        None => None,
        Some(start) => {
            let label = label_of_value(b, start);
            if label.len() == 0 {
                None
            } else {
                Some((label, text_in(b, start + 1, b.len() as int)))
            }
        },
    }
}

// ── Selectors ────────────────────────────────────────────────────────────────

/// The end of a matcher operator at `pos`: `=`, `=~`, `!=` or `!~`.
pub open spec fn operator_end(b: Seq<u8>, pos: int) -> Option<int> {
    if pos >= b.len() {
        None
    } else if b[pos] == '=' as u8 {
        if pos + 1 < b.len() && b[pos + 1] == '~' as u8 {
            Some(pos + 2)
        } else {
            Some(pos + 1)
        }
    } else if b[pos] == '!' as u8 && pos + 1 < b.len() && (b[pos + 1] == '=' as u8 || b[pos + 1]
        == '~' as u8) {
        Some(pos + 2)
    } else {
        None
    }
}

/// The end of the matcher `label op "value"` at `pos`, if one stands there that
/// is complete.
pub open spec fn matcher_end(b: Seq<u8>, pos: int) -> Option<int> {
    let name = run_end(b, pos, ByteClass::Word);
    let op = run_end(b, name, ByteClass::Blank);
    match operator_end(b, op) {
        None => None,
        Some(op_end) => {
            let value = run_end(b, op_end, ByteClass::Blank);
            let (end, closed) = quoted_end(b, value + 1, '"' as u8, true);
            if name == pos || value >= b.len() || b[value] != '"' as u8 || !closed {
                None
            } else {
                Some(end)
            }
        },
    }
}

/// The texts of the complete matchers from `pos` on, up to the first that is not.
pub open spec fn complete_matchers(b: Seq<u8>, pos: int) -> Seq<Seq<char>>
    decreases b.len() - pos,
{
    let start = run_end(b, pos, ByteClass::Separator);
    match matcher_end(b, start) {
        None => seq![],
        Some(end) => if pos < end <= b.len() {
            seq![text_in(b, start, end)] + complete_matchers(b, end)
        } else {
            seq![]
        },
    }
}

/// Texts, separated by commas.
pub open spec fn comma_separated(s: Seq<Seq<char>>) -> Seq<char>
    decreases s.len(),
{
    if s.len() == 0 {
        seq![]
    } else if s.len() == 1 {
        s[0]
    } else {
        comma_separated(s.drop_last()) + ","@ + s.last()
    }
}

/// The start of the run of spaces that ends at `end`.
pub open spec fn spaces_start(b: Seq<u8>, end: int) -> int
    decreases end,
{
    if 0 < end <= b.len() && b[end - 1] == ' ' as u8 {
        spaces_start(b, end - 1)
    } else {
        end
    }
}

/// The metric name that stands before the brace at `brace`.
pub open spec fn metric_name_before(b: Seq<u8>, brace: int) -> Seq<char> {
    let end = spaces_start(b, brace);
    text_in(b, word_start(b, end, true), end)
}

/// The selector made of the complete matchers in the innermost open block, with
/// the metric name before it; empty without complete matchers.
pub open spec fn open_selector(b: Seq<u8>) -> Seq<char> {
    let braces = unclosed(b, unquoted(b, 0, true), '{' as u8, '}' as u8);
    if braces.len() == 0 {
        seq![]
    } else {
        let brace = braces.last();
        let matchers = complete_matchers(b.subrange(brace + 1, b.len() as int), 0);
        if matchers.len() == 0 {
            seq![]
        } else {
            metric_name_before(b, brace) + "{"@ + comma_separated(matchers) + "}"@
        }
    }
}

// ── Context ──────────────────────────────────────────────────────────────────

/// Whether the text ends in an operator byte, white space aside.
pub open spec fn ends_in_operator(b: Seq<u8>) -> bool {
    let t = encode_utf8(trimmed_end(decode_utf8(b)));
    t.len() > 0 && operator_byte(t.last())
}

/// The context at the end of the text `b`.
pub open spec fn context_at_end(b: Seq<u8>) -> CompletionCtxV {
    let start = word_start(b, b.len() as int, true);
    let prefix = text_in(b, start, b.len() as int);
    match label_value_at_end(b) {
        Some((label, value)) => CompletionCtxV::LabelValue {
            label,
            prefix: value,
            selector: open_selector(b),
        },
        None => if brace_depth(b) > 0 {
            if start == b.len() && ends_in_operator(b) {
                CompletionCtxV::Nothing
            } else {
                CompletionCtxV::LabelName { prefix, selector: open_selector(b) }
            }
        } else if in_brackets(b) {
            CompletionCtxV::Nothing
        } else if in_label_list(b) {
            CompletionCtxV::LabelName { prefix, selector: seq![] }
        } else {
            CompletionCtxV::MetricOrKeyword { prefix }
        },
    }
}

/// The context of a cursor, which is that of the text before it.
pub open spec fn context_of(query: Seq<char>, cursor_pos: int) -> CompletionCtxV {
    context_at_end(encode_utf8(query).subrange(0, char_to_byte_of(query, cursor_pos)))
}

// ── Completions ──────────────────────────────────────────────────────────────

/// All keywords of a query expression.
pub open spec fn keywords() -> Seq<&'static str> {
    AGGREGATION_OPS@ + AGGREGATION_MODIFIERS@ + FUNCTIONS@ + BINARY_KEYWORDS@ + BINARY_MODIFIERS@
        + LITERALS@
}

/// The names cached under `key`, or none.
pub open spec fn cached_names<K>(cache: Map<K, Vec<String>>, key: K) -> Seq<Seq<char>> {
    if cache.contains_key(key) {
        texts(cache[key]@)
    } else {
        seq![]
    }
}

/// The label names that match. `__name__` is one as well where no selector
/// limits the names.
pub open spec fn label_names_matching(
    names: Seq<Seq<char>>,
    prefix: Seq<char>,
    selector: Seq<char>,
) -> Seq<Seq<char>> {
    let found = matching_names(names, prefix);
    if selector.len() == 0 && prefix.is_prefix_of("__name__"@) && !found.contains("__name__"@) {
        found.push("__name__"@)
    } else {
        found
    }
}

/// The completions of a context, in the order of text.
pub open spec fn completions_of(
    ctx: CompletionCtxV,
    metrics: Seq<Seq<char>>,
    names: Map<Seq<char>, Vec<String>>,
    values: Map<(Seq<char>, Seq<char>), Vec<String>>,
    max: int,
) -> Seq<Seq<char>> {
    match ctx {
        CompletionCtxV::MetricOrKeyword { prefix } => if prefix.len() == 0 {
            seq![]
        } else {
            at_most(
                without_repeats(
                    sorted_texts(
                        matching_words(keywords(), lowercase(prefix)) + matching_names(
                            metrics,
                            lowercase(prefix),
                        ),
                    ),
                ),
                max,
            )
        },
        CompletionCtxV::LabelName { prefix, selector } => at_most(
            sorted_texts(
                label_names_matching(cached_names(names, selector), lowercase(prefix), selector),
            ),
            max,
        ),
        CompletionCtxV::LabelValue { label, prefix, selector } => at_most(
            sorted_texts(
                matching_names(cached_names(values, (label, selector)), lowercase(prefix)),
            ),
            max,
        ),
        CompletionCtxV::Nothing => seq![],
    }
}

// ── Scanners ─────────────────────────────────────────────────────────────────

/// Offsets as integers.
pub open spec fn offsets(v: Seq<usize>) -> Seq<int> {
    v.map_values(|i: usize| i as int)
}

fn is_quote(b: u8) -> (r: bool)
    ensures
        r == quote(b),
{
    b == '"' as u8 || b == '\'' as u8 || b == '`' as u8
}

/// The offsets of `bytes` outside string literals.
fn unquoted_offsets(bytes: &[u8], raw: bool) -> (r: Vec<usize>)
    ensures
        offsets(r@) == unquoted(bytes@, 0, raw),
        forall|i: int| 0 <= i < r.len() ==> #[trigger] r@[i] < bytes.len(),
{
    let mut out: Vec<usize> = Vec::new();
    let mut pos: usize = 0;
    assert(offsets(out@) + unquoted(bytes@, 0, raw) =~= unquoted(bytes@, 0, raw));
    while pos < bytes.len()
        invariant
            pos <= bytes.len(),
            offsets(out@) + unquoted(bytes@, pos as int, raw) == unquoted(bytes@, 0, raw),
            forall|i: int| 0 <= i < out.len() ==> #[trigger] out@[i] < bytes.len(),
        decreases bytes.len() - pos,
    {
        let c = bytes[pos];
        if is_quote(c) {
            let (end, _) = skip_quoted(bytes, pos + 1, c, !(raw && c == '`' as u8));
            pos = end;
        } else {
            let ghost before = offsets(out@);
            out.push(pos);
            proof {
                assert(offsets(out@) =~= before.push(pos as int));
                assert(before + (seq![pos as int] + unquoted(bytes@, pos + 1, raw)) =~= before.push(
                    pos as int,
                ) + unquoted(bytes@, pos + 1, raw));
            }
            pos += 1;
        }
    }
    assert(offsets(out@) + Seq::<int>::empty() =~= offsets(out@));
    out
}

/// How many `open` are not closed.
fn count_depth(bytes: &[u8], at: &Vec<usize>, open: u8, close: u8) -> (r: usize)
    requires
        forall|i: int| 0 <= i < at.len() ==> #[trigger] at@[i] < bytes.len(),
    ensures
        r == depth(bytes@, offsets(at@), open, close),
{
    let mut depth_so_far: usize = 0;
    let mut i: usize = 0;
    let ghost all = offsets(at@);
    assert(all.take(0) =~= seq![]);
    while i < at.len()
        invariant
            i <= at.len(),
            all == offsets(at@),
            forall|i: int| 0 <= i < at.len() ==> #[trigger] at@[i] < bytes.len(),
            depth_so_far == depth(bytes@, all.take(i as int), open, close),
            depth_so_far <= i,
        decreases at.len() - i,
    {
        let ghost upto = all.take(i + 1);
        assert(upto.drop_last() =~= all.take(i as int));
        assert(upto.last() == at@[i as int]);
        let c = bytes[at[i]];
        if c == open {
            depth_so_far += 1;
        } else if c == close && depth_so_far > 0 {
            depth_so_far -= 1;
        }
        i += 1;
    }
    assert(all.take(i as int) =~= all);
    depth_so_far
}

/// The offset of the last `open` that is not closed.
fn last_unclosed(bytes: &[u8], at: &Vec<usize>, open: u8, close: u8) -> (r: Option<usize>)
    requires
        forall|i: int| 0 <= i < at.len() ==> #[trigger] at@[i] < bytes.len(),
    ensures
        ({
            let stack = unclosed(bytes@, offsets(at@), open, close);
            match r {
                Some(i) => {
                    &&& stack.len() > 0
                    &&& stack.last() == i
                    &&& i < bytes.len()
                    &&& bytes@[i as int] == open
                },
                None => stack.len() == 0,
            }
        }),
{
    let mut stack: Vec<usize> = Vec::new();
    let mut i: usize = 0;
    let ghost all = offsets(at@);
    assert(all.take(0) =~= seq![]);
    assert(offsets(stack@) =~= seq![]);
    while i < at.len()
        invariant
            i <= at.len(),
            all == offsets(at@),
            forall|i: int| 0 <= i < at.len() ==> #[trigger] at@[i] < bytes.len(),
            offsets(stack@) == unclosed(bytes@, all.take(i as int), open, close),
            forall|k: int|
                0 <= k < stack.len() ==> {
                    &&& #[trigger] stack@[k] < bytes.len()
                    &&& bytes@[stack@[k] as int] == open
                },
        decreases at.len() - i,
    {
        let ghost upto = all.take(i + 1);
        assert(upto.drop_last() =~= all.take(i as int));
        assert(upto.last() == at@[i as int]);
        let ghost before = offsets(stack@);
        let c = bytes[at[i]];
        if c == open {
            stack.push(at[i]);
            assert(offsets(stack@) =~= before.push(at@[i as int] as int));
        } else if c == close {
            stack.pop();
            assert(before.len() > 0 ==> offsets(stack@) =~= before.drop_last());
            assert(before.len() == 0 ==> offsets(stack@) =~= before);
        }
        i += 1;
    }
    assert(all.take(i as int) =~= all);
    if stack.is_empty() {
        None
    } else {
        Some(stack[stack.len() - 1])
    }
}

/// True if the cursor sits inside an unmatched `[...]` (range vector or
/// subquery).
pub(crate) fn in_bracket_context(before: &str) -> (r: bool)
    ensures
        r == in_brackets(before.spec_bytes()),
{
    let bytes = before.as_bytes();
    let at = unquoted_offsets(bytes, false);
    count_depth(bytes, &at, '[' as u8, ']' as u8) > 0
}

/// Count the net open-brace depth of `s`, respecting string literals.
pub(crate) fn count_brace_depth(s: &str) -> (r: usize)
    ensures
        r == brace_depth(s.spec_bytes()),
{
    let bytes = s.as_bytes();
    let at = unquoted_offsets(bytes, false);
    count_depth(bytes, &at, '{' as u8, '}' as u8)
}

/// The word that ends at `end`, white space in between aside.
fn last_word_before<'a>(before: &'a str, end: usize) -> (r: &'a str)
    requires
        end <= before.spec_bytes().len(),
        is_char_boundary(before.spec_bytes(), end as int),
    ensures
        r@ == word_before(before.spec_bytes(), end as int),
{
    proof {
        encode_utf8_valid_utf8(before@);
        is_char_boundary_start_end_of_seq(before.spec_bytes());
    }
    let head = substr(before, 0, end).trim_end();
    let start = word_boundary_byte(head);
    let len = head.as_bytes().len();
    proof {
        encode_utf8_valid_utf8(head@);
        is_char_boundary_start_end_of_seq(head.spec_bytes());
    }
    substr(head, start, len)
}

/// True if the cursor sits inside a group opened by a label-list keyword.
fn in_label_list_paren(before: &str) -> (r: bool)
    ensures
        r == in_label_list(before.spec_bytes()),
{
    let bytes = before.as_bytes();
    let at = unquoted_offsets(bytes, false);
    match last_unclosed(bytes, &at, '(' as u8, ')' as u8) {
        Some(i) => {
            proof {
                encode_utf8_valid_utf8(before@);
                lemma_boundary_after_ascii(bytes@, i as int);
            }
            contains_word(&LABEL_LIST_KEYWORDS, last_word_before(before, i))
        },
        None => false,
    }
}

/// Where the string starts that is not closed at the end, among those inside
/// braces.
fn find_open_string(bytes: &[u8]) -> (r: Option<usize>)
    ensures
        match r {
            Some(i) => {
                &&& open_string(bytes@, 0, 0) == Some(i as int)
                &&& i < bytes.len()
                &&& quote(bytes@[i as int])
            },
            None => open_string(bytes@, 0, 0) is None,
        },
{
    let mut pos: usize = 0;
    let mut depth_so_far: usize = 0;
    while pos < bytes.len()
        invariant
            pos <= bytes.len(),
            depth_so_far <= pos,
            open_string(bytes@, 0, 0) == open_string(bytes@, pos as int, depth_so_far as nat),
        decreases bytes.len() - pos,
    {
        let c = bytes[pos];
        if is_quote(c) && depth_so_far > 0 {
            let (end, closed) = skip_quoted(bytes, pos + 1, c, true);
            if !closed {
                return Some(pos);
            }
            pos = end;
        } else {
            if c == '{' as u8 {
                depth_so_far += 1;
            } else if c == '}' as u8 && depth_so_far > 0 {
                depth_so_far -= 1;
            }
            pos += 1;
        }
    }
    None
}

/// The label of the matcher whose value starts at `start`.
fn label_before_value(before: &str, start: usize) -> (r: String)
    requires
        start <= before.spec_bytes().len(),
        is_char_boundary(before.spec_bytes(), start as int),
    ensures
        r@ == label_of_value(before.spec_bytes(), start as int),
{
    proof {
        encode_utf8_valid_utf8(before@);
        is_char_boundary_start_end_of_seq(before.spec_bytes());
    }
    let head = substr(before, 0, start).trim_end();
    let bytes = head.as_bytes();
    let mut op: usize = bytes.len();
    proof {
        encode_utf8_valid_utf8(head@);
        is_char_boundary_start_end_of_seq(bytes@);
    }
    while op > 0 && (bytes[op - 1] == '=' as u8 || bytes[op - 1] == '~' as u8 || bytes[op - 1]
        == '!' as u8)
        invariant
            op <= bytes.len(),
            valid_utf8(bytes@),
            is_char_boundary(bytes@, op as int),
            operator_start(bytes@, bytes.len() as int) == operator_start(bytes@, op as int),
        decreases op,
    {
        proof {
            lemma_boundary_after_ascii(bytes@, op - 1);
        }
        op -= 1;
    }
    last_word_before(head, op).to_string()
}

/// Find label value completion context: `(label_name, value_prefix)` if the
/// cursor is inside an unclosed string that is part of a label matcher.
pub(crate) fn find_label_value_context(before: &str) -> (r: Option<(String, String)>)
    ensures
        match r {
            Some((label, prefix)) => label_value_at_end(before.spec_bytes()) == Some(
                (label@, prefix@),
            ),
            None => label_value_at_end(before.spec_bytes()) is None,
        },
{
    let bytes = before.as_bytes();
    proof {
        encode_utf8_valid_utf8(before@);
        is_char_boundary_start_end_of_seq(bytes@);
    }
    let start = match find_open_string(bytes) {
        Some(i) => i,
        None => {
            return None;
        },
    };
    proof {
        lemma_boundary_after_ascii(bytes@, start as int);
    }
    let label = label_before_value(before, start);
    if label.as_str().is_empty() {
        return None;
    }
    let prefix = substr(before, start + 1, bytes.len()).to_string();
    Some((label, prefix))
}

fn skip_operator(bytes: &[u8], pos: usize) -> (r: Option<usize>)
    requires
        pos <= bytes.len(),
    ensures
        match r {
            Some(e) => operator_end(bytes@, pos as int) == Some(e as int) && pos < e
                <= bytes.len(),
            None => operator_end(bytes@, pos as int) is None,
        },
{
    let len = bytes.len();
    if pos >= len {
        return None;
    }
    if bytes[pos] == '=' as u8 {
        if len - pos > 1 && bytes[pos + 1] == '~' as u8 {
            Some(pos + 2)
        } else {
            Some(pos + 1)
        }
    } else if bytes[pos] == '!' as u8 && len - pos > 1 && (bytes[pos + 1] == '=' as u8 || bytes[pos
        + 1] == '~' as u8) {
        Some(pos + 2)
    } else {
        None
    }
}

fn skip_matcher(bytes: &[u8], pos: usize) -> (r: Option<usize>)
    requires
        pos <= bytes.len(),
    ensures
        match r {
            Some(e) => {
                &&& matcher_end(bytes@, pos as int) == Some(e as int)
                &&& pos < e <= bytes.len()
                &&& bytes@[pos as int] < 0x80
                &&& bytes@[e - 1] < 0x80
            },
            None => matcher_end(bytes@, pos as int) is None,
        },
{
    let name = skip_run(bytes, pos, ByteClass::Word);
    if name == pos {
        return None;
    }
    proof {
        lemma_run_end(bytes@, pos as int, ByteClass::Word);
        assert(ByteClass::Word.has(bytes@[pos as int]));
    }
    let op = skip_run(bytes, name, ByteClass::Blank);
    let op_end = match skip_operator(bytes, op) {
        Some(e) => e,
        None => {
            return None;
        },
    };
    let value = skip_run(bytes, op_end, ByteClass::Blank);
    if value >= bytes.len() || bytes[value] != '"' as u8 {
        return None;
    }
    let (end, closed) = skip_quoted(bytes, value + 1, '"' as u8, true);
    if closed {
        Some(end)
    } else {
        None
    }
}

/// Parse fully-formed `label op "value"` matchers from the text inside a `{...}`
/// block. Stops at the first that is incomplete. Returns each matcher as it is
/// written, e.g. `namespace="prod"` or `job!~"prom.*"`.
fn parse_complete_matchers(s: &str) -> (r: Vec<String>)
    ensures
        texts(r@) == complete_matchers(s.spec_bytes(), 0),
{
    let bytes = s.as_bytes();
    let mut matchers: Vec<String> = Vec::new();
    let mut pos: usize = 0;
    proof {
        encode_utf8_valid_utf8(s@);
        assert(texts(matchers@) + complete_matchers(bytes@, 0) =~= complete_matchers(bytes@, 0));
    }
    loop
        invariant
            pos <= bytes.len(),
            bytes@ == s.spec_bytes(),
            valid_utf8(bytes@),
            texts(matchers@) + complete_matchers(bytes@, pos as int) == complete_matchers(
                bytes@,
                0,
            ),
        decreases bytes.len() - pos,
    {
        let start = skip_run(bytes, pos, ByteClass::Separator);
        match skip_matcher(bytes, start) {
            None => {
                assert(texts(matchers@) + Seq::<Seq<char>>::empty() =~= texts(matchers@));
                return matchers;
            },
            Some(end) => {
                proof {
                    lemma_boundary_after_ascii(bytes@, start as int);
                    lemma_boundary_after_ascii(bytes@, end - 1);
                }
                let m = substr(s, start, end).to_string();
                let ghost before = texts(matchers@);
                let ghost value = m@;
                matchers.push(m);
                proof {
                    assert(texts(matchers@) =~= before.push(value));
                    assert(before + (seq![value] + complete_matchers(bytes@, end as int))
                        =~= before.push(value) + complete_matchers(bytes@, end as int));
                }
                pos = end;
            },
        }
    }
}

/// Joins strings with commas.
fn join_commas(v: &Vec<String>) -> (r: String)
    ensures
        r@ == comma_separated(texts(v@)),
{
    let mut out = String::new();
    let mut i: usize = 0;
    let ghost all = texts(v@);
    assert(all.take(0) =~= seq![]);
    assert(out@ =~= seq![]);
    while i < v.len()
        invariant
            i <= v.len(),
            all == texts(v@),
            out@ == comma_separated(all.take(i as int)),
        decreases v.len() - i,
    {
        let ghost before = out@;
        if i > 0 {
            out.append(",");
        }
        out.append(v[i].as_str());
        proof {
            let upto = all.take(i + 1);
            assert(upto.drop_last() =~= all.take(i as int));
            assert(upto.last() == v@[i as int]@);
            if i == 0 {
                assert(upto[0] == v@[0]@);
                assert(out@ =~= v@[0]@);
            } else {
                assert(out@ =~= before + ","@ + v@[i as int]@);
            }
        }
        i += 1;
    }
    assert(all.take(i as int) =~= all);
    out
}

/// The metric name that stands before the brace at `brace`.
fn metric_name<'a>(before: &'a str, brace: usize) -> (r: &'a str)
    requires
        brace <= before.spec_bytes().len(),
        is_char_boundary(before.spec_bytes(), brace as int),
    ensures
        r@ == metric_name_before(before.spec_bytes(), brace as int),
{
    let bytes = before.as_bytes();
    proof {
        encode_utf8_valid_utf8(before@);
        is_char_boundary_start_end_of_seq(bytes@);
    }
    let mut end: usize = brace;
    while end > 0 && bytes[end - 1] == ' ' as u8
        invariant
            end <= brace <= bytes.len(),
            valid_utf8(bytes@),
            is_char_boundary(bytes@, end as int),
            spaces_start(bytes@, brace as int) == spaces_start(bytes@, end as int),
        decreases end,
    {
        proof {
            lemma_boundary_after_ascii(bytes@, end - 1);
        }
        end -= 1;
    }
    let mut start: usize = end;
    while start > 0 && is_word_byte(bytes[start - 1], true)
        invariant
            start <= end <= bytes.len(),
            valid_utf8(bytes@),
            is_char_boundary(bytes@, start as int),
            word_start(bytes@, end as int, true) == word_start(bytes@, start as int, true),
        decreases start,
    {
        proof {
            lemma_boundary_after_ascii(bytes@, start - 1);
        }
        start -= 1;
    }
    substr(before, start, end)
}

/// Build a series selector from the complete label matchers that appear before
/// the cursor inside the same `{...}` block.
///
/// For `up{namespace="prod",pod="` this returns `up{namespace="prod"}`. Returns
/// an empty string when there are no complete matchers.
pub fn extract_label_selector(before: &str) -> (r: String)
    ensures
        r@ == open_selector(before.spec_bytes()),
{
    let bytes = before.as_bytes();
    proof {
        encode_utf8_valid_utf8(before@);
        is_char_boundary_start_end_of_seq(bytes@);
    }
    let at = unquoted_offsets(bytes, true);
    if let Some(brace) = last_unclosed(bytes, &at, '{' as u8, '}' as u8) {
        proof {
            lemma_boundary_after_ascii(bytes@, brace as int);
        }
        let matchers = parse_complete_matchers(substr(before, brace + 1, bytes.len()));
        assert(texts(matchers@).len() == matchers.len());
        if !matchers.is_empty() {
            let joined = join_commas(&matchers);
            return cat4(metric_name(before, brace), "{", joined.as_str(), "}");
        }
    }
    let r = String::new();
    assert(r@ =~= seq![]);
    r
}

/// Whether the text ends in an operator byte, white space aside.
pub(crate) fn after_operator(before: &str) -> (r: bool)
    ensures
        r == ends_in_operator(before.spec_bytes()),
{
    proof {
        encode_utf8_decode_utf8(before@);
    }
    let head = before.trim_end();
    let bytes = head.as_bytes();
    if bytes.len() == 0 {
        return false;
    }
    let c = bytes[bytes.len() - 1];
    c == '=' as u8 || c == '~' as u8 || c == '!' as u8
}

/// Detect the completion context from the part of the query before the cursor.
pub fn detect_context(query: &str, cursor_pos: usize) -> (r: CompletionCtx)
    ensures
        r@ == context_of(query@, cursor_pos as int),
{
    let cursor_byte = char_to_byte(query, cursor_pos);
    proof {
        encode_utf8_valid_utf8(query@);
        is_char_boundary_start_end_of_seq(query.spec_bytes());
    }
    let before = substr(query, 0, cursor_byte);
    proof {
        encode_utf8_valid_utf8(before@);
        is_char_boundary_start_end_of_seq(before.spec_bytes());
    }
    // An unclosed string inside braces
    if let Some((label, prefix)) = find_label_value_context(before) {
        let selector = extract_label_selector(before);
        return CompletionCtx::LabelValue { label, prefix, selector };
    }
    let start = word_boundary_byte(before);
    let len = before.as_bytes().len();
    let prefix = substr(before, start, len).to_string();

    // Inside a label selector; right after an operator a string follows
    if count_brace_depth(before) > 0 {
        if start == len && after_operator(before) {
            return CompletionCtx::Nothing;
        }
        let selector = extract_label_selector(before);
        return CompletionCtx::LabelName { prefix, selector };
    }
    // Inside a range, which takes durations only

    if in_bracket_context(before) {
        return CompletionCtx::Nothing;
    }
    // Inside `by(...)`, `on(...)` and the like

    if in_label_list_paren(before) {
        let selector = String::new();
        assert(selector@ =~= seq![]);
        return CompletionCtx::LabelName { prefix, selector };
    }
    CompletionCtx::MetricOrKeyword { prefix }
}

/// The cached names that match.
pub(crate) fn filter_cached(names: Option<&Vec<String>>, prefix: &str) -> (r: Vec<String>)
    ensures
        texts(r@) == matching_names(
            match names {
                Some(n) => texts(n@),
                None => seq![],
            },
            prefix@,
        ),
{
    match names {
        Some(n) => filter_names(n.as_slice(), prefix),
        None => {
            let r: Vec<String> = Vec::new();
            assert(texts(r@) =~= seq![]);
            r
        },
    }
}

/// The completions of a context.
pub fn compute_completions(
    ctx: &CompletionCtx,
    metric_names: &[String],
    label_names_cache: &AssocMap<String, Vec<String>>,
    label_values_cache: &AssocMap<(String, String), Vec<String>>,
    max: usize,
) -> (r: Vec<String>)
    ensures
        texts(r@) == completions_of(
            ctx@,
            texts(metric_names@),
            label_names_cache@,
            label_values_cache@,
            max as int,
        ),
{
    match ctx {
        CompletionCtx::MetricOrKeyword { prefix } => {
            if prefix.as_str().is_empty() {
                let r: Vec<String> = Vec::new();
                assert(texts(r@) =~= seq![]);
                return r;
            }
            let pl = prefix.as_str().to_lowercase();
            let mut results = filter_words(&all_completable_keywords(), pl.as_str());
            let mut names = filter_names(metric_names, pl.as_str());
            let ghost a = texts(results@);
            let ghost b = texts(names@);
            results.append(&mut names);
            assert(texts(results@) =~= a + b);
            sort_strings(&mut results);
            let mut results = drop_repeats(&results);
            keep_strings(&mut results, max);
            results
        },
        CompletionCtx::LabelName { prefix, selector } => {
            let pl = prefix.as_str().to_lowercase();
            let mut results = filter_cached(label_names_cache.get(selector), pl.as_str());
            if selector.as_str().is_empty() && has_prefix("__name__", pl.as_str())
                && !contains_string(&results, "__name__") {
                let ghost before = texts(results@);
                results.push("__name__".to_string());
                assert(texts(results@) =~= before.push("__name__"@));
            }
            sort_strings(&mut results);
            keep_strings(&mut results, max);
            results
        },
        CompletionCtx::LabelValue { label, prefix, selector } => {
            let pl = prefix.as_str().to_lowercase();
            let key = (label.clone(), selector.clone());
            let mut results = filter_cached(label_values_cache.get(&key), pl.as_str());
            sort_strings(&mut results);
            keep_strings(&mut results, max);
            results
        },
        CompletionCtx::Nothing => {
            let r: Vec<String> = Vec::new();
            assert(texts(r@) =~= seq![]);
            r
        },
    }
}

// ── Laws ─────────────────────────────────────────────────────────────────────

/// What has been typed of the word at the cursor.
pub open spec fn typed_in(ctx: CompletionCtxV) -> Seq<char> {
    match ctx {
        CompletionCtxV::MetricOrKeyword { prefix } => prefix,
        CompletionCtxV::LabelName { prefix, .. } => prefix,
        CompletionCtxV::LabelValue { prefix, .. } => prefix,
        CompletionCtxV::Nothing => seq![],
    }
}

/// At most `max` completions are offered. All complete what has been typed, and
/// they come in the order of text.
pub proof fn lemma_completions_complete(
    ctx: CompletionCtxV,
    metrics: Seq<Seq<char>>,
    names: Map<Seq<char>, Vec<String>>,
    values: Map<(Seq<char>, Seq<char>), Vec<String>>,
    max: int,
)
    requires
        0 <= max,
    ensures
        completions_of(ctx, metrics, names, values, max).len() <= max,
        all_complete(
            completions_of(ctx, metrics, names, values, max),
            lowercase(typed_in(ctx)),
        ),
        sorted_by(completions_of(ctx, metrics, names, values, max), text_order()),
        ctx is MetricOrKeyword ==> completions_of(
            ctx,
            metrics,
            names,
            values,
            max,
        ).no_duplicates(),
{
    let typed = lowercase(typed_in(ctx));
    match ctx {
        CompletionCtxV::MetricOrKeyword { prefix } => {
            lemma_words_complete(keywords(), typed);
            lemma_names_complete(metrics, typed);
            let found = matching_words(keywords(), typed) + matching_names(metrics, typed);
            assert(all_complete(found, typed));
            lemma_sorted_complete(found, typed, max);
        },
        CompletionCtxV::LabelName { prefix, selector } => {
            let known = cached_names(names, selector);
            lemma_names_complete(known, typed);
            let found = label_names_matching(known, typed, selector);
            assert(all_complete(found, typed));
            lemma_sorted_complete(found, typed, max);
        },
        CompletionCtxV::LabelValue { label, prefix, selector } => {
            let known = cached_names(values, (label, selector));
            lemma_names_complete(known, typed);
            lemma_sorted_complete(matching_names(known, typed), typed, max);
        },
        CompletionCtxV::Nothing => {},
    }
}

} // verus!
