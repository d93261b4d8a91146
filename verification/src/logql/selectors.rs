//! The selector of a context reads back as it was typed.

use crate::logql::ast::{
    ExprKindV, ExprV, LabelMatcherV, MatchOp, ParseErrorV, StreamSelectorV,
};
use crate::logql::completions::{
    context_at_end, deepest_selector, matcher_text, matchers_text, nesting, op_text,
    open_selector, selector_text, CursorContextV,
};
use crate::logql::lexemes::lemma_lexemes;
use crate::logql::parser::{parse_of, significant, significant_tokens, At, Source};
use crate::logql::reading::{
    aggregation_name, lemma_ascii, lemma_lexed, lemma_tree_reads, opened_at, param_at,
    range_function, selector_at, sign_at, tree_at,
};
use crate::logql::tokenizer::{
    lemma_tokens_cover, make_token, token_at, tokens_from, tokens_of, well_placed, Token,
    TokenKind,
};
use crate::scan::{quoted_end, run_end, ByteClass};
use crate::text::{
    lemma_boundary_after_ascii, lemma_encode_concat, lemma_range_valid, lemma_text_split, text_in,
};
use vstd::prelude::*;
use vstd::string::*;
use vstd::utf8::*;

verus! {

// ── Matchers that need no escapes ────────────────────────────────────────────

/// Whether a character can stand in a name.
pub open spec fn name_char(c: char) -> bool {
    'a' <= c <= 'z' || 'A' <= c <= 'Z' || '0' <= c <= '9' || c == '_'
}

/// Whether a matcher can be written as it is: its name is one, and nothing in its value has to be
/// escaped between double quotes.
pub open spec fn plain(m: LabelMatcherV) -> bool {
    &&& m.name.len() > 0
    &&& !('0' <= m.name[0] <= '9')
    &&& forall|i: int| 0 <= i < m.name.len() ==> name_char(#[trigger] m.name[i])
    &&& !m.value.contains('"')
    &&& !m.value.contains('\\')
}

/// Whether matchers are the same but for where they stand.
pub open spec fn same_matchers(x: Seq<LabelMatcherV>, y: Seq<LabelMatcherV>) -> bool {
    &&& x.len() == y.len()
    &&& forall|k: int|
        #![trigger x[k]]
        #![trigger y[k]]
        0 <= k < x.len() ==> x[k].name == y[k].name && x[k].op == y[k].op && x[k].value
            == y[k].value
}

/// Whether a text reads back as matchers: it parses without errors, as a log query without stages
/// and with these matchers.
pub open spec fn reads_back(text: Seq<char>, matchers: Seq<LabelMatcherV>) -> bool {
    &&& parse_of(encode_utf8(text)).1.len() == 0
    &&& match parse_of(encode_utf8(text)).0 {
        Some(e) => match e.kind {
            ExprKindV::LogQuery { selector, pipeline } => pipeline.len() == 0 && same_matchers(
                selector.matchers,
                matchers,
            ),
            _ => false,
        },
        None => false,
    }
}

// ── Bytes ────────────────────────────────────────────────────────────────────

/// A text without an ASCII character has no byte of it.
proof fn lemma_no_byte(text: Seq<char>, c: char, i: int)
    requires
        c as u32 <= 0x7f,
        !text.contains(c),
        0 <= i < encode_utf8(text).len(),
    ensures
        encode_utf8(text)[i] != c as u8,
{
    let b = encode_utf8(text);
    if b[i] == c as u8 {
        encode_utf8_valid_utf8(text);
        encode_utf8_decode_utf8(text);
        let n = b.len() as int;
        lemma_boundary_after_ascii(b, i);
        is_char_boundary_start_end_of_seq(b);
        lemma_text_split(b, 0, i, n);
        lemma_text_split(b, i, i + 1, n);
        lemma_ascii(b, i, c);
        assert(b.subrange(0, n) =~= b);
        assert(text == text_in(b, 0, i) + (seq![c] + text_in(b, i + 1, n)));
        assert(text[text_in(b, 0, i).len() as int] == c);
    }
}

/// A quoted text without quotes and backslashes ends at the next quote.
proof fn lemma_quoted(b: Seq<u8>, pos: int, end: int)
    requires
        0 <= pos <= end < b.len(),
        b[end] == '"' as u8,
        forall|i: int| pos <= i < end ==> #[trigger] b[i] != '"' as u8 && b[i] != '\\' as u8,
    ensures
        quoted_end(b, pos, '"' as u8, true) == (end + 1, true),
    decreases end - pos,
{
    if pos < end {
        lemma_quoted(b, pos + 1, end);
    }
}

proof fn lemma_run(b: Seq<u8>, pos: int, end: int)
    requires
        0 <= pos <= end < b.len(),
        !ByteClass::Word.has(b[end]),
        forall|i: int| pos <= i < end ==> ByteClass::Word.has(#[trigger] b[i]),
    ensures
        run_end(b, pos, ByteClass::Word) == end,
    decreases end - pos,
{
    if pos < end {
        lemma_run(b, pos + 1, end);
    }
}

/// The kind of a matcher operator's token.
pub open spec fn op_kind(op: MatchOp) -> TokenKind {
    match op {
        MatchOp::Eq => TokenKind::Eq,
        MatchOp::Neq => TokenKind::NotEqual,
        MatchOp::Re => TokenKind::EqRegex,
        MatchOp::Nre => TokenKind::NotMatch,
    }
}

/// The first byte of an operator.
spec fn op_first(op: MatchOp) -> u8 {
    match op {
        MatchOp::Eq | MatchOp::Re => '=' as u8,
        MatchOp::Neq | MatchOp::Nre => '!' as u8,
    }
}

pub(crate) proof fn lemma_op_bytes(op: MatchOp)
    ensures
        encode_utf8(op_text(op)) == match op {
            MatchOp::Eq => seq!['=' as u8],
            MatchOp::Neq => seq!['!' as u8, '=' as u8],
            MatchOp::Re => seq!['=' as u8, '~' as u8],
            MatchOp::Nre => seq!['!' as u8, '~' as u8],
        },
        encode_utf8("\""@) == seq!['"' as u8],
        encode_utf8(","@) == seq![',' as u8],
        encode_utf8("{"@) == seq!['{' as u8],
        encode_utf8("}"@) == seq!['}' as u8],
{
    reveal_strlit("=");
    reveal_strlit("!=");
    reveal_strlit("=~");
    reveal_strlit("!~");
    reveal_strlit("\"");
    reveal_strlit(",");
    reveal_strlit("{");
    reveal_strlit("}");
    assert(is_ascii_chars(op_text(op)));
    is_ascii_chars_encode_utf8(op_text(op));
    assert(is_ascii_chars("\""@) && is_ascii_chars(","@) && is_ascii_chars("{"@) && is_ascii_chars(
        "}"@,
    ));
    is_ascii_chars_encode_utf8("\""@);
    is_ascii_chars_encode_utf8(","@);
    is_ascii_chars_encode_utf8("{"@);
    is_ascii_chars_encode_utf8("}"@);
    assert(encode_utf8("\""@) =~= seq!['"' as u8]);
    assert(encode_utf8(","@) =~= seq![',' as u8]);
    assert(encode_utf8("{"@) =~= seq!['{' as u8]);
    assert(encode_utf8("}"@) =~= seq!['}' as u8]);
    match op {
        MatchOp::Eq => {
            assert(encode_utf8(op_text(op)) =~= seq!['=' as u8]);
        },
        MatchOp::Neq => {
            assert(encode_utf8(op_text(op)) =~= seq!['!' as u8, '=' as u8]);
        },
        MatchOp::Re => {
            assert(encode_utf8(op_text(op)) =~= seq!['=' as u8, '~' as u8]);
        },
        MatchOp::Nre => {
            assert(encode_utf8(op_text(op)) =~= seq!['!' as u8, '~' as u8]);
        },
    }
}

/// The length of a matcher's name, operator and value in bytes.
pub open spec fn lengths(m: LabelMatcherV) -> (int, int, int) {
    (
        m.name.len() as int,
        encode_utf8(op_text(m.op)).len() as int,
        encode_utf8(m.value).len() as int,
    )
}

/// The length of a matcher in bytes.
pub open spec fn length(m: LabelMatcherV) -> int {
    lengths(m).0 + lengths(m).1 + lengths(m).2 + 2
}

proof fn lemma_matcher_bytes(m: LabelMatcherV)
    requires
        plain(m),
    ensures
        encode_utf8(matcher_text(m)) == encode_utf8(m.name) + encode_utf8(op_text(m.op))
            + seq!['"' as u8] + encode_utf8(m.value) + seq!['"' as u8],
        encode_utf8(m.name).len() == m.name.len(),
        forall|i: int|
            0 <= i < m.name.len() ==> #[trigger] encode_utf8(m.name)[i] == m.name[i] as u8,
        encode_utf8(matcher_text(m)).len() == length(m),
{
    lemma_op_bytes(m.op);
    lemma_encode_concat(m.name, op_text(m.op));
    lemma_encode_concat(m.name + op_text(m.op), "\""@);
    lemma_encode_concat(m.name + op_text(m.op) + "\""@, m.value);
    lemma_encode_concat(m.name + op_text(m.op) + "\""@ + m.value, "\""@);
    assert forall|i: int| 0 <= i < m.name.len() implies '\0' <= #[trigger] m.name[i] <= '\u{7f}' by {
        assert(name_char(m.name[i]));
    }
    assert(is_ascii_chars(m.name));
    is_ascii_chars_encode_utf8(m.name);
}

/// Whether a matcher is written at byte `p`.
pub open spec fn bytes_at(b: Seq<u8>, p: int, m: LabelMatcherV) -> bool {
    0 <= p && p + length(m) <= b.len() && b.subrange(p, p + length(m)) == encode_utf8(
        matcher_text(m),
    )
}

pub(crate) proof fn lemma_matcher_tokens(b: Seq<u8>, p: int, m: LabelMatcherV)
    requires
        plain(m),
        bytes_at(b, p, m),
    ensures
        ({
            let (n, o, v) = lengths(m);
            &&& n > 0 && o > 0 && v >= 0
            &&& token_at(b, p) == (TokenKind::Ident, p + n)
            &&& token_at(b, p + n) == (op_kind(m.op), p + n + o)
            &&& token_at(b, p + n + o) == (TokenKind::String, p + n + o + v + 2)
            &&& b[p + n + o] == '"' as u8
            &&& text_in(b, p, p + n) == m.name
            &&& text_in(b, p + n + o + 1, p + n + o + 1 + v) == m.value
        }),
{
    lemma_matcher_bytes(m);
    lemma_op_bytes(m.op);
    let (n, o, v) = lengths(m);
    let mb = encode_utf8(matcher_text(m));
    let part = b.subrange(p, p + length(m));
    assert forall|i: int| 0 <= i < length(m) implies #[trigger] mb[i] == b[p + i] by {
        assert(part[i] == b[p + i]);
    }
    assert forall|i: int| p <= i < p + n implies ByteClass::Word.has(#[trigger] b[i]) by {
        assert(mb[i - p] == b[p + (i - p)]);
        assert(mb[i - p] == encode_utf8(m.name)[i - p]);
        assert(name_char(m.name[i - p]));
    }
    let op = encode_utf8(op_text(m.op));
    assert forall|i: int| 0 <= i < o implies #[trigger] op[i] == b[p + n + i] by {
        assert(mb[n + i] == op[i]);
        assert(mb[n + i] == b[p + (n + i)]);
    }
    assert(mb[n + o] == '"' as u8 && mb[n + o] == b[p + (n + o)]);
    assert(b[p + n + o] == '"' as u8);
    assert(mb[n + o + 1 + v] == '"' as u8 && mb[n + o + 1 + v] == b[p + (n + o + 1 + v)]);
    assert(b[p + n + o + 1 + v] == '"' as u8);
    assert(op[0] == op_first(m.op));
    assert(b[p + n + 0] == op_first(m.op));
    lemma_run(b, p, p + n);
    assert(m.name[0] as u8 == encode_utf8(m.name)[0] && mb[0] == b[p + 0]);
    assert(name_char(m.name[0]));
    if o == 2 {
        assert(op[1] == b[p + n + 1]);
    }
    let w = encode_utf8(m.value);
    assert forall|i: int| p + n + o + 1 <= i < p + n + o + 1 + v implies #[trigger] b[i]
        != '"' as u8 && b[i] != '\\' as u8 by {
        let j = i - (p + n + o + 1);
        assert(mb[n + o + 1 + j] == w[j]);
        assert(mb[n + o + 1 + j] == b[p + (n + o + 1 + j)]);
        lemma_no_byte(m.value, '"', j);
        lemma_no_byte(m.value, '\\', j);
    }
    lemma_quoted(b, p + n + o + 1, p + n + o + 1 + v);
    assert(b.subrange(p, p + n) =~= encode_utf8(m.name)) by {
        assert forall|i: int| 0 <= i < n implies b.subrange(p, p + n)[i] == encode_utf8(
            m.name,
        )[i] by {
            assert(mb[i] == b[p + i]);
        }
    }
    encode_utf8_decode_utf8(m.name);
    assert(b.subrange(p + n + o + 1, p + n + o + 1 + v) =~= w) by {
        assert forall|i: int| 0 <= i < v implies b.subrange(p + n + o + 1, p + n + o + 1 + v)[i]
            == w[i] by {
            assert(mb[n + o + 1 + i] == w[i]);
            assert(mb[n + o + 1 + i] == b[p + (n + o + 1 + i)]);
        }
    }
    encode_utf8_decode_utf8(m.value);
}

// ── Tokens ───────────────────────────────────────────────────────────────────

/// What stands behind the opening brace from matcher `k` on.
pub open spec fn text_from(ms: Seq<LabelMatcherV>, k: int) -> Seq<char>
    decreases ms.len() - k,
{
    if k + 1 < ms.len() {
        matcher_text(ms[k]) + (","@ + text_from(ms, k + 1))
    } else {
        matcher_text(ms[k]) + "}"@
    }
}

/// Where matcher `k` starts.
pub open spec fn matcher_start(ms: Seq<LabelMatcherV>, k: int) -> int
    decreases k,
{
    if k <= 0 {
        1
    } else {
        matcher_start(ms, k - 1) + length(ms[k - 1]) + 1
    }
}

proof fn lemma_text_from(ms: Seq<LabelMatcherV>, k: int)
    requires
        0 < k < ms.len(),
    ensures
        matchers_text(ms.take(k)) + (","@ + text_from(ms, k)) == matchers_text(ms) + "}"@,
    decreases ms.len() - k,
{
    let next = ms.take(k + 1);
    assert(next.drop_last() =~= ms.take(k));
    assert(next.last() == ms[k]);
    assert(matchers_text(next) == matchers_text(ms.take(k)) + ","@ + matcher_text(ms[k]));
    if k + 1 < ms.len() {
        lemma_text_from(ms, k + 1);
        assert(matchers_text(ms.take(k)) + (","@ + text_from(ms, k)) =~= matchers_text(next) + (
        ","@ + text_from(ms, k + 1)));
    } else {
        assert(next =~= ms);
        assert(matchers_text(ms.take(k)) + (","@ + text_from(ms, k)) =~= matchers_text(next)
            + "}"@);
    }
}

pub(crate) proof fn lemma_selector_text(s: StreamSelectorV)
    requires
        s.matchers.len() > 0,
    ensures
        selector_text(s) == "{"@ + text_from(s.matchers, 0),
{
    let ms = s.matchers;
    if ms.len() > 1 {
        lemma_text_from(ms, 1);
        assert(ms.take(1).len() == 1 && ms.take(1)[0] == ms[0]);
        assert(selector_text(s) =~= "{"@ + text_from(ms, 0));
    } else {
        assert(selector_text(s) =~= "{"@ + text_from(ms, 0));
    }
}

/// Whether all matchers can be written as they are.
pub open spec fn all_plain(ms: Seq<LabelMatcherV>) -> bool {
    forall|k: int| 0 <= k < ms.len() ==> plain(#[trigger] ms[k])
}

/// Token `r` of matcher `k`: its name, its operator, its value, and what closes it.
spec fn matcher_token(ms: Seq<LabelMatcherV>, k: int, r: int) -> Token {
    let p = matcher_start(ms, k);
    let (n, o, v) = lengths(ms[k]);
    let end = p + n + o + v + 2;
    if r == 0 {
        make_token(TokenKind::Ident, p, p + n)
    } else if r == 1 {
        make_token(op_kind(ms[k].op), p + n, p + n + o)
    } else if r == 2 {
        make_token(TokenKind::String, p + n + o, end)
    } else {
        make_token(
            if k + 1 < ms.len() {
                TokenKind::Comma
            } else {
                TokenKind::RBrace
            },
            end,
            end + 1,
        )
    }
}

/// The text from matcher `k` on stands where the matcher starts.
pub open spec fn stands_from(b: Seq<u8>, ms: Seq<LabelMatcherV>, k: int) -> bool {
    let p = matcher_start(ms, k);
    0 < p <= b.len() && b.subrange(p, b.len() as int) == encode_utf8(text_from(ms, k))
}

pub(crate) proof fn lemma_matcher_stands(b: Seq<u8>, ms: Seq<LabelMatcherV>, k: int)
    requires
        all_plain(ms),
        0 <= k < ms.len(),
        stands_from(b, ms, k),
    ensures
        bytes_at(b, matcher_start(ms, k), ms[k]),
        ({
            let end = matcher_start(ms, k) + length(ms[k]);
            &&& k + 1 < ms.len() ==> end + 1 < b.len() && b[end] == ',' as u8 && stands_from(
                b,
                ms,
                k + 1,
            )
            &&& k + 1 == ms.len() ==> end + 1 == b.len() && b[end] == '}' as u8
        }),
{
    let m = ms[k];
    let p = matcher_start(ms, k);
    assert(plain(m));
    lemma_matcher_bytes(m);
    lemma_op_bytes(m.op);
    let mb = encode_utf8(matcher_text(m));
    let suffix = b.subrange(p, b.len() as int);
    if k + 1 < ms.len() {
        let rest = text_from(ms, k + 1);
        lemma_encode_concat(matcher_text(m), ","@ + rest);
        lemma_encode_concat(","@, rest);
        assert(suffix == mb + (seq![',' as u8] + encode_utf8(rest)));
        assert(suffix[mb.len() as int] == ',' as u8);
        let q = p + length(m) + 1;
        assert(matcher_start(ms, k + 1) == q);
        assert(b.subrange(q, b.len() as int) =~= encode_utf8(rest)) by {
            assert forall|i: int| 0 <= i < encode_utf8(rest).len() implies b.subrange(
                q,
                b.len() as int,
            )[i] == encode_utf8(rest)[i] by {
                assert(suffix[length(m) + 1 + i] == b[q + i]);
            }
        }
        assert(plain(ms[k + 1]));
        lemma_matcher_bytes(ms[k + 1]);
        lemma_text_from_nonempty(ms, k + 1);
    } else {
        lemma_encode_concat(matcher_text(m), "}"@);
        assert(suffix == mb + seq!['}' as u8]);
        assert(suffix[mb.len() as int] == '}' as u8);
    }
    assert(b.subrange(p, p + length(m)) =~= mb) by {
        assert forall|i: int| 0 <= i < mb.len() implies b.subrange(p, p + length(m))[i] == mb[i] by {
            assert(suffix[i] == b[p + i]);
        }
    }
}

proof fn lemma_text_from_nonempty(ms: Seq<LabelMatcherV>, k: int)
    requires
        all_plain(ms),
        0 <= k < ms.len(),
    ensures
        encode_utf8(text_from(ms, k)).len() > 0,
{
    assert(plain(ms[k]));
    lemma_matcher_bytes(ms[k]);
    let rest = if k + 1 < ms.len() {
        ","@ + text_from(ms, k + 1)
    } else {
        "}"@
    };
    lemma_encode_concat(matcher_text(ms[k]), rest);
}

proof fn lemma_tokens_from(b: Seq<u8>, ms: Seq<LabelMatcherV>, k: int)
    requires
        all_plain(ms),
        0 <= k < ms.len(),
        stands_from(b, ms, k),
        b.len() <= usize::MAX,
    ensures
        ({
            let t = tokens_from(b, matcher_start(ms, k));
            &&& t.len() == 4 * (ms.len() - k) + 1
            &&& forall|j: int, r: int|
                k <= j < ms.len() && 0 <= r < 4 ==> t[4 * (j - k) + r] == #[trigger] matcher_token(
                    ms,
                    j,
                    r,
                )
            &&& t.last().kind == TokenKind::Eof
        }),
    decreases ms.len() - k,
{
    let m = ms[k];
    let p = matcher_start(ms, k);
    assert(plain(m));
    lemma_matcher_stands(b, ms, k);
    lemma_matcher_tokens(b, p, m);
    let (n, o, v) = lengths(m);
    let end = p + n + o + v + 2;
    let first = seq![matcher_token(ms, k, 0)];
    let second = seq![matcher_token(ms, k, 1)];
    let third = seq![matcher_token(ms, k, 2)];
    let fourth = seq![matcher_token(ms, k, 3)];
    assert(tokens_from(b, p) == first + tokens_from(b, p + n));
    assert(tokens_from(b, p + n) == second + tokens_from(b, p + n + o));
    assert(tokens_from(b, p + n + o) == third + tokens_from(b, end));
    assert(tokens_from(b, end) == fourth + tokens_from(b, end + 1));
    let rest = tokens_from(b, end + 1);
    let t = tokens_from(b, p);
    assert(t =~= first + second + third + fourth + rest);
    assert forall|j: int, r: int| k <= j < ms.len() && 0 <= r < 4 implies t[4 * (j - k) + r]
        == #[trigger] matcher_token(ms, j, r) by {
        if j > k {
            lemma_tokens_from(b, ms, k + 1);
            assert(rest[4 * (j - (k + 1)) + r] == matcher_token(ms, j, r));
            assert(t[4 + (4 * (j - (k + 1)) + r)] == rest[4 * (j - (k + 1)) + r]);
        }
    }
    if k + 1 < ms.len() {
        lemma_tokens_from(b, ms, k + 1);
        assert(t.last() == rest.last());
    } else {
        assert(rest.len() == 1);
    }
}

proof fn lemma_all_significant(t: Seq<Token>)
    requires
        forall|i: int| 0 <= i < t.len() ==> significant(#[trigger] t[i]),
    ensures
        significant_tokens(t) == t,
    decreases t.len(),
{
    if t.len() > 0 {
        lemma_all_significant(t.drop_last());
        assert(t.drop_last().push(t.last()) =~= t);
    } else {
        assert(significant_tokens(t) =~= t);
    }
}

/// The tokens of a selector's text: the brace, four for each matcher, and the end.
spec fn selector_tokens(src: Source, ms: Seq<LabelMatcherV>) -> bool {
    &&& src.tokens.len() == 4 * ms.len() + 2
    &&& src.tokens[0].kind == TokenKind::LBrace
    &&& src.tokens.last().kind == TokenKind::Eof
    &&& forall|k: int, r: int|
        0 <= k < ms.len() && 0 <= r < 4 ==> src.tokens[1 + 4 * k + r] == #[trigger] matcher_token(
            ms,
            k,
            r,
        )
}

proof fn lemma_selector_tokens(s: StreamSelectorV)
    requires
        s.matchers.len() > 0,
        all_plain(s.matchers),
        encode_utf8(selector_text(s)).len() <= usize::MAX,
    ensures
        ({
            let b = encode_utf8(selector_text(s));
            let src = Source { text: b, tokens: significant_tokens(tokens_of(b)) };
            stands_from(b, s.matchers, 0) && selector_tokens(src, s.matchers)
        }),
{
    let ms = s.matchers;
    let b = encode_utf8(selector_text(s));
    lemma_selector_text(s);
    lemma_op_bytes(MatchOp::Eq);
    lemma_encode_concat("{"@, text_from(ms, 0));
    assert(b == seq!['{' as u8] + encode_utf8(text_from(ms, 0)));
    assert(b.subrange(1, b.len() as int) =~= encode_utf8(text_from(ms, 0)));
    lemma_tokens_from(b, ms, 0);
    let t = tokens_of(b);
    let rest = tokens_from(b, 1);
    assert(token_at(b, 0) == (TokenKind::LBrace, 1int));
    assert(t == seq![make_token(TokenKind::LBrace, 0, 1)] + rest);
    assert forall|k: int, r: int| 0 <= k < ms.len() && 0 <= r < 4 implies t[1 + 4 * k + r]
        == #[trigger] matcher_token(ms, k, r) by {
        assert(rest[4 * (k - 0) + r] == matcher_token(ms, k, r));
        assert(t[1 + (4 * k + r)] == rest[4 * k + r]);
    }
    assert(t.last() == rest.last());
    assert forall|i: int| 0 <= i < t.len() implies significant(#[trigger] t[i]) by {
        if 0 < i < t.len() - 1 {
            let k = (i - 1) / 4;
            let r = (i - 1) % 4;
            assert(i == 1 + 4 * k + r);
            assert(t[i] == matcher_token(ms, k, r));
        }
    }
    lemma_all_significant(t);
}

// ── Parsing ──────────────────────────────────────────────────────────────────

proof fn lemma_parse_matcher(src: Source, ms: Seq<LabelMatcherV>, k: int, errors: Seq<ParseErrorV>)
    requires
        all_plain(ms),
        0 <= k < ms.len(),
        selector_tokens(src, ms),
        stands_from(src.text, ms, k),
        src.text.len() <= usize::MAX,
    ensures
        ({
            let (m, s) = src.label_matcher(At { pos: 1 + 4 * k, errors });
            &&& m matches Some(m) && m.name == ms[k].name && m.op == ms[k].op && m.value
                == ms[k].value
            &&& s == At { pos: 4 + 4 * k, errors }
        }),
{
    lemma_matcher_stands(src.text, ms, k);
    assert(plain(ms[k]));
    lemma_matcher_tokens(src.text, matcher_start(ms, k), ms[k]);
    assert(src.tokens[1 + 4 * k + 0] == matcher_token(ms, k, 0));
    assert(src.tokens[1 + 4 * k + 1] == matcher_token(ms, k, 1));
    assert(src.tokens[1 + 4 * k + 2] == matcher_token(ms, k, 2));
}

proof fn lemma_parse_matchers(
    src: Source,
    ms: Seq<LabelMatcherV>,
    k: int,
    acc: Seq<LabelMatcherV>,
    errors: Seq<ParseErrorV>,
)
    requires
        all_plain(ms),
        0 <= k < ms.len(),
        selector_tokens(src, ms),
        stands_from(src.text, ms, k),
        src.text.len() <= usize::MAX,
        same_matchers(acc, ms.take(k)),
    ensures
        ({
            let (found, s) = src.label_matchers(At { pos: 1 + 4 * k, errors }, acc);
            &&& same_matchers(found, ms)
            &&& s == At { pos: 4 * ms.len() as int, errors }
        }),
    decreases ms.len() - k,
{
    let s = At { pos: 1 + 4 * k, errors };
    lemma_parse_matcher(src, ms, k, errors);
    lemma_matcher_stands(src.text, ms, k);
    let (m, s1) = src.label_matcher(s);
    let more = acc.push(m->0);
    assert(src.tokens[1 + 4 * k + 0] == matcher_token(ms, k, 0));
    assert(src.tokens[1 + 4 * k + 3] == matcher_token(ms, k, 3));
    assert(same_matchers(more, ms.take(k + 1))) by {
        assert forall|j: int| 0 <= j < more.len() implies (#[trigger] more[j]).name == ms.take(
            k + 1,
        )[j].name && more[j].op == ms.take(k + 1)[j].op && more[j].value == ms.take(
            k + 1,
        )[j].value by {
            if j < k {
                assert(more[j] == acc[j]);
                assert(acc[j].name == ms.take(k)[j].name);
            }
        }
    }
    if k + 1 < ms.len() {
        assert(src.skip_comma(s1) == At { pos: 1 + 4 * (k + 1), errors });
        lemma_parse_matchers(src, ms, k + 1, more, errors);
    } else {
        assert(ms.take(k + 1) =~= ms);
        assert(src.peek(s1) == TokenKind::RBrace);
        assert(src.skip_comma(s1) == s1);
        assert(src.label_matchers(s1, more) == (more, s1));
    }
}

/// The text of a selector whose matchers need no escapes reads back: it parses as a log query with
/// the same names, operators and values, in the same order, and without errors.
pub proof fn lemma_selector_reads_back(s: StreamSelectorV)
    requires
        s.matchers.len() > 0,
        forall|k: int| 0 <= k < s.matchers.len() ==> plain(#[trigger] s.matchers[k]),
        encode_utf8(selector_text(s)).len() <= usize::MAX,
    ensures
        reads_back(selector_text(s), s.matchers),
{
    let ms = s.matchers;
    let b = encode_utf8(selector_text(s));
    let src = Source { text: b, tokens: significant_tokens(tokens_of(b)) };
    let start = At { pos: 0, errors: seq![] };
    lemma_selector_tokens(s);
    assert(same_matchers(seq![], ms.take(0)));
    lemma_parse_matchers(src, ms, 0, seq![], seq![]);
    let last = At { pos: 4 * ms.len() as int, errors: seq![] };
    let k = ms.len() - 1;
    assert(src.tokens[1 + 4 * k + 3] == matcher_token(ms, k, 3));
    assert(src.peek(last) == TokenKind::RBrace);
    let end = last.next();
    assert(src.peek(end) == TokenKind::Eof);
    let (selector, s1) = src.stream_selector(start);
    assert(s1 == end);
    assert(src.pipeline(end, seq![], (selector->0).span.end).0.len() == 0);
    let (query, s2) = src.log_query(start);
    assert(s2 == end);
    assert(src.unary_expr(start) == (query, s2));
    assert(src.binary_rest(end, query->0, 1) == (query->0, end));
    assert(src.binary_expr(start, 1) == (query, end));
}

// ── The innermost open brace ─────────────────────────────────────────────────

/// How many more braces are opened than closed by the tokens `from..to`.
pub open spec fn depth(tokens: Seq<Token>, from: int, to: int) -> int
    decreases to - from,
{
    if to <= from {
        0
    } else {
        depth(tokens, from, to - 1) + match tokens[to - 1].kind {
            TokenKind::LBrace => 1int,
            TokenKind::RBrace => -1,
            _ => 0,
        }
    }
}

/// Whether token `i` is a brace that no token behind it closes.
pub open spec fn stays_open(tokens: Seq<Token>, i: int) -> bool {
    &&& 0 <= i < tokens.len()
    &&& tokens[i].kind == TokenKind::LBrace
    &&& forall|j: int| i < j <= tokens.len() ==> #[trigger] depth(tokens, i, j) > 0
}

/// The indices of the open braces.
pub open spec fn open_at(tokens: Seq<Token>, braces: Seq<usize>, idx: Seq<int>) -> bool {
    &&& idx.len() == braces.len()
    &&& forall|m: int|
        #![trigger idx[m]]
        0 <= m < idx.len() ==> {
            &&& stays_open(tokens, idx[m])
            &&& braces[m] == tokens[idx[m]].span.start
            &&& depth(tokens, idx[m], tokens.len() as int) == idx.len() - m
        }
    &&& forall|m: int, n: int|
        #![trigger idx[m], idx[n]]
        0 <= m < n < idx.len() ==> idx[m] < idx[n]
    &&& forall|i: int| #[trigger] stays_open(tokens, i) ==> idx.contains(i)
}

proof fn lemma_depth_prefix(tokens: Seq<Token>, from: int, to: int)
    requires
        0 <= from,
        to < tokens.len(),
    ensures
        depth(tokens, from, to) == depth(tokens.drop_last(), from, to),
    decreases to - from,
{
    if from < to {
        lemma_depth_prefix(tokens, from, to - 1);
        assert(tokens.drop_last()[to - 1] == tokens[to - 1]);
    }
}

/// A brace that stays open behind all tokens does so behind all but the last.
proof fn lemma_open_prefix(tokens: Seq<Token>, i: int)
    requires
        tokens.len() > 0,
        0 <= i < tokens.len() - 1,
    ensures
        stays_open(tokens, i) ==> stays_open(tokens.drop_last(), i),
        stays_open(tokens.drop_last(), i) && depth(tokens, i, tokens.len() as int) > 0
            ==> stays_open(tokens, i),
        depth(tokens, i, tokens.len() as int) == depth(
            tokens.drop_last(),
            i,
            tokens.len() - 1,
        ) + match tokens.last().kind {
            TokenKind::LBrace => 1int,
            TokenKind::RBrace => -1,
            _ => 0,
        },
{
    let init = tokens.drop_last();
    lemma_depth_prefix(tokens, i, tokens.len() - 1);
    assert(init[i] == tokens[i]);
    if stays_open(tokens, i) {
        assert forall|j: int| i < j <= init.len() implies #[trigger] depth(init, i, j) > 0 by {
            lemma_depth_prefix(tokens, i, j);
            assert(depth(tokens, i, j) > 0);
        }
    }
    if stays_open(init, i) && depth(tokens, i, tokens.len() as int) > 0 {
        assert forall|j: int| i < j <= tokens.len() implies #[trigger] depth(tokens, i, j) > 0 by {
            if j < tokens.len() {
                lemma_depth_prefix(tokens, i, j);
                assert(depth(init, i, j) > 0);
            }
        }
    }
}

pub(crate) proof fn lemma_nesting(tokens: Seq<Token>) -> (idx: Seq<int>)
    ensures
        open_at(tokens, nesting(tokens).braces, idx),
    decreases tokens.len(),
{
    if tokens.len() == 0 {
        seq![]
    } else {
        let init = tokens.drop_last();
        let n = tokens.len() as int;
        let before = lemma_nesting(init);
        let kind = tokens.last().kind;
        assert forall|i: int| 0 <= i < n - 1 implies #[trigger] stays_open(tokens, i)
            ==> before.contains(i) by {
            lemma_open_prefix(tokens, i);
        }
        assert forall|m: int| 0 <= m < before.len() implies {
            &&& #[trigger] depth(tokens, before[m], n) == before.len() - m + match kind {
                TokenKind::LBrace => 1int,
                TokenKind::RBrace => -1,
                _ => 0,
            }
            &&& depth(tokens, before[m], n) > 0 ==> stays_open(tokens, before[m])
            &&& tokens[before[m]] == init[before[m]]
        } by {
            assert(stays_open(init, before[m]));
            lemma_open_prefix(tokens, before[m]);
        }
        if kind == TokenKind::LBrace {
            let idx = before.push(n - 1);
            assert(depth(tokens, n - 1, n - 1) == 0);
            assert(depth(tokens, n - 1, n) == 1);
            assert(stays_open(tokens, n - 1));
            assert forall|m: int| #![trigger idx[m]] 0 <= m < idx.len() implies {
                &&& stays_open(tokens, idx[m])
                &&& nesting(tokens).braces[m] == tokens[idx[m]].span.start
                &&& depth(tokens, idx[m], n) == idx.len() - m
            } by {
                if m < before.len() {
                    assert(idx[m] == before[m]);
                    assert(depth(tokens, before[m], n) == before.len() - m + 1);
                }
            }
            assert forall|m: int, k: int| #![trigger idx[m], idx[k]] 0 <= m < k
                < idx.len() implies idx[m] < idx[k] by {
                assert(idx[m] == before[m]);
                assert(stays_open(init, before[m]));
                if k < before.len() {
                    assert(idx[k] == before[k]);
                }
            }
            assert forall|i: int| #[trigger] stays_open(tokens, i) implies idx.contains(i) by {
                if i < n - 1 {
                    assert(before.contains(i));
                    let m = before.index_of(i);
                    assert(idx[m] == i);
                } else {
                    assert(idx[before.len() as int] == i);
                }
            }
            idx
        } else if kind == TokenKind::RBrace && before.len() > 0 {
            let idx = before.drop_last();
            assert forall|m: int| #![trigger idx[m]] 0 <= m < idx.len() implies {
                &&& stays_open(tokens, idx[m])
                &&& nesting(tokens).braces[m] == tokens[idx[m]].span.start
                &&& depth(tokens, idx[m], n) == idx.len() - m
            } by {
                assert(idx[m] == before[m]);
                assert(depth(tokens, before[m], n) == before.len() - m - 1);
            }
            assert forall|m: int, k: int| #![trigger idx[m], idx[k]] 0 <= m < k
                < idx.len() implies idx[m] < idx[k] by {
                assert(idx[m] == before[m] && idx[k] == before[k]);
            }
            assert forall|i: int| #[trigger] stays_open(tokens, i) implies idx.contains(i) by {
                assert(i < n - 1);
                assert(before.contains(i));
                let m = before.index_of(i);
                assert(before[m] == i);
                assert(depth(tokens, before[m], n) == before.len() - m - 1);
                assert(depth(tokens, i, n) > 0);
                assert(idx[m] == i);
            }
            idx
        } else {
            assert forall|i: int| #[trigger] stays_open(tokens, i) implies before.contains(i) by {
                assert(i < n - 1);
            }
            assert forall|m: int| #![trigger before[m]] 0 <= m < before.len() implies {
                &&& stays_open(tokens, before[m])
                &&& nesting(tokens).braces[m] == tokens[before[m]].span.start
                &&& depth(tokens, before[m], n) == before.len() - m
            } by {
                assert(depth(tokens, before[m], n) == before.len() - m);
            }
            before
        }
    }
}

// ── The selector of a context ────────────────────────────────────────────────

proof fn lemma_first_significant(t: Seq<Token>)
    requires
        t.len() > 0,
        significant(t[0]),
    ensures
        significant_tokens(t).len() > 0,
        significant_tokens(t)[0] == t[0],
    decreases t.len(),
{
    if t.len() > 1 {
        lemma_first_significant(t.drop_last());
    } else {
        assert(significant_tokens(t.drop_last()).len() == 0);
    }
}

/// Behind the only brace there is no other selector in a tree.
proof fn lemma_no_selector(src: Source, e: ExprV, p: int)
    requires
        tree_at(src, e, p),
        0 < p,
        forall|j: int| 0 < j < src.tokens.len() ==> #[trigger] src.word(j) != "{"@,
    ensures
        deepest_selector(e) is None,
    decreases e,
{
    match e.kind {
        ExprKindV::LogQuery { selector, .. } => {
            reveal(selector_at);
            assert(src.word(p) == "{"@);
        },
        ExprKindV::RangeAggregation { func, log_query, param, .. } => {
            let to = choose|to: int| #[trigger]
                param_at(src, param, func, p + 1, to) && tree_at(src, *log_query, to);
            lemma_no_selector(src, *log_query, to);
        },
        ExprKindV::Aggregation { op, expr, grouping, param } => {
            let (q, to) = choose|q: int, to: int|
                {
                    &&& opened_at(src, grouping, p, q)
                    &&& #[trigger] param_at(src, param, op, q, to)
                    &&& tree_at(src, *expr, to)
                };
            lemma_no_selector(src, *expr, to);
        },
        ExprKindV::BinOp { op, lhs, rhs } => {
            let q = choose|q: int|
                p < q && #[trigger] sign_at(src, op, *lhs, q) && tree_at(src, *rhs, q + 1);
            lemma_no_selector(src, *lhs, p);
            lemma_no_selector(src, *rhs, q + 1);
        },
        ExprKindV::Paren(inner) => {
            lemma_no_selector(src, *inner, p + 1);
        },
        _ => {},
    }
}

/// The selector of a tree that starts with the only brace is written there.
proof fn lemma_only_selector(src: Source, e: ExprV)
    requires
        tree_at(src, e, 0),
        src.word(0) == "{"@,
        src.kind(0) == TokenKind::LBrace,
        forall|j: int| 0 < j < src.tokens.len() ==> #[trigger] src.word(j) != "{"@,
    ensures
        match deepest_selector(e) {
            Some(sel) => selector_at(src, sel, 0),
            None => false,
        },
    decreases e,
{
    match e.kind {
        ExprKindV::RangeAggregation { func, .. } => {
            lemma_not_names();
        },
        ExprKindV::Aggregation { op, .. } => {
            lemma_not_names();
        },
        ExprKindV::BinOp { op, lhs, rhs } => {
            let q = choose|q: int|
                0 < q && #[trigger] sign_at(src, op, *lhs, q) && tree_at(src, *rhs, q + 1);
            lemma_only_selector(src, *lhs);
            lemma_no_selector(src, *rhs, q + 1);
        },
        ExprKindV::Paren(inner) => {
            reveal_strlit("{");
            reveal_strlit("(");
            assert("{"@[0] != "("@[0]);
        },
        _ => {},
    }
}

proof fn lemma_not_names()
    ensures
        !range_function("{"@),
        !aggregation_name("{"@),
{
    reveal_strlit("{");
    reveal_strlit("absent_over_time");
    reveal_strlit("avg_over_time");
    reveal_strlit("bytes_over_time");
    reveal_strlit("bytes_rate");
    reveal_strlit("count_over_time");
    reveal_strlit("first_over_time");
    reveal_strlit("last_over_time");
    reveal_strlit("max_over_time");
    reveal_strlit("min_over_time");
    reveal_strlit("quantile_over_time");
    reveal_strlit("rate");
    reveal_strlit("stddev_over_time");
    reveal_strlit("stdvar_over_time");
    reveal_strlit("sum_over_time");
    reveal_strlit("avg");
    reveal_strlit("bottomk");
    reveal_strlit("count");
    reveal_strlit("max");
    reveal_strlit("min");
    reveal_strlit("sort");
    reveal_strlit("sort_desc");
    reveal_strlit("stddev");
    reveal_strlit("stdvar");
    reveal_strlit("sum");
    reveal_strlit("topk");
    assert("{"@.len() == 1);
}

/// The text from token `i` on, as a source.
pub open spec fn source_from(b: Seq<u8>, i: int) -> Source {
    let c = b.subrange(tokens_of(b)[i].span.start as int, b.len() as int);
    Source { text: c, tokens: significant_tokens(tokens_of(c)) }
}

proof fn lemma_brace_first(b: Seq<u8>, i: int)
    requires
        valid_utf8(b),
        b.len() <= usize::MAX,
        0 <= i < tokens_of(b).len(),
        tokens_of(b)[i].kind == TokenKind::LBrace,
    ensures
        valid_utf8(source_from(b, i).text),
        source_from(b, i).text.len() <= usize::MAX,
        source_from(b, i).kind(0) == TokenKind::LBrace,
        source_from(b, i).word(0) == "{"@,
        parse_of(source_from(b, i).text).0 is Some,
{
    lemma_tokens_cover(b);
    lemma_lexemes(b, i);
    let t = tokens_of(b)[i];
    let start = t.span.start as int;
    assert(well_placed(t, b));
    is_char_boundary_start_end_of_seq(b);
    lemma_range_valid(b, start, b.len() as int);
    let src = source_from(b, i);
    let c = src.text;
    let part = b.subrange(start, t.span.end as int);
    lemma_range_valid(b, start, t.span.end as int);
    decode_utf8_encode_utf8(part);
    lemma_op_bytes(MatchOp::Eq);
    assert(part == seq!['{' as u8]);
    assert(b[start] == part[0]);
    assert(c[0] == '{' as u8);
    assert(token_at(c, 0) == (TokenKind::LBrace, 1int));
    assert(tokens_of(c)[0] == make_token(TokenKind::LBrace, 0, 1));
    lemma_first_significant(tokens_of(c));
    lemma_lexed(c);
    assert(src.reads(0));
    let s = At { pos: 0, errors: seq![] };
    assert(src.stream_selector(s).0 is Some);
    assert(src.unary_expr(s).0 is Some);
}

/// The selector of a context inside a brace reads back as the complete matchers that stand behind
/// that brace, in their order: those of a selector that is written there. The brace is the
/// innermost open one, and no other is opened behind it.
pub proof fn lemma_context_selector(b: Seq<u8>, i: int)
    requires
        valid_utf8(b),
        b.len() <= usize::MAX,
        stays_open(tokens_of(b), i),
        forall|j: int| i < j ==> !(#[trigger] stays_open(tokens_of(b), j)),
        forall|j: int|
            0 < j < source_from(b, i).tokens.len() ==> #[trigger] source_from(b, i).word(j) != "{"@,
    ensures
        match context_at_end(b) {
            CursorContextV::LabelName { selector, .. }
            | CursorContextV::LabelValue { selector, .. } => exists|sel: StreamSelectorV|
                {
                    &&& #[trigger] selector_at(source_from(b, i), sel, 0)
                    &&& sel.matchers.len() == 0 ==> selector.len() == 0
                    &&& sel.matchers.len() > 0 && encode_utf8(selector).len() <= usize::MAX && (
                    forall|k: int| 0 <= k < sel.matchers.len() ==> plain(#[trigger] sel.matchers[k]))
                        ==> reads_back(selector, sel.matchers)
                },
            _ => true,
        },
{
    let tokens = tokens_of(b);
    let idx = lemma_nesting(tokens);
    let braces = nesting(tokens).braces;
    assert(idx.contains(i));
    assert(stays_open(tokens, idx.last()));
    assert(idx.last() == i) by {
        let m = idx.index_of(i);
        assert(idx[m] == i);
    }
    assert(braces.last() == tokens[i].span.start);
    lemma_brace_first(b, i);
    let src = source_from(b, i);
    lemma_tree_reads(src.text);
    let e = parse_of(src.text).0->0;
    lemma_only_selector(src, e);
    let sel = deepest_selector(e)->0;
    assert(open_selector(b, braces) == selector_text(sel));
    if sel.matchers.len() > 0 && encode_utf8(selector_text(sel)).len() <= usize::MAX && (forall|
        k: int,
    | 0 <= k < sel.matchers.len() ==> plain(#[trigger] sel.matchers[k])) {
        lemma_selector_reads_back(sel);
    }
}

} // verus!
