//! Every node of a tree reads as it is written in the query.

use crate::logql::ast::{
    BinOpKind, ExprKindV, ExprV, FilterOp, GroupingV, LabelFilterOp, LabelMatcherV, LabelOpKind,
    MatchOp, ParserKind, PipelineStageV, StreamSelectorV,
};
use crate::logql::keywords::{AGGREGATION_OPS, RANGE_FUNCTIONS};
use crate::logql::lexemes::{lemma_lexemes, symbol};
use crate::logql::parser::{
    bin_op, binary_op, line_filter, match_op, parse_of, significant_tokens, At, Source,
};
use crate::logql::spans::{
    lemma_binary_expr, lemma_expect, lemma_filter_stage, lemma_grouping, lemma_label_matcher,
    lemma_labels, lemma_log_query, lemma_mapping, lemma_next, lemma_onward, lemma_ordered,
    lemma_param, lemma_pipe_stage, lemma_stream_selector, lemma_unary_expr, tree_from,
};
use crate::logql::tokenizer::{
    keyword_kind, lemma_tokens_cover, tokens_of, KeywordKind, Span, Token, TokenKind,
};
use crate::text::{lemma_text_split, text_in};
use vstd::prelude::*;
use vstd::string::*;
use vstd::utf8::*;

verus! {

// ── How things are written ───────────────────────────────────────────────────

/// How a matcher operator is written.
pub open spec fn match_sign(op: MatchOp) -> Seq<char> {
    match op {
        MatchOp::Eq => "="@,
        MatchOp::Neq => "!="@,
        MatchOp::Re => "=~"@,
        MatchOp::Nre => "!~"@,
    }
}

/// How a line filter operator is written.
pub open spec fn filter_sign(op: FilterOp) -> Seq<char> {
    match op {
        FilterOp::PipeExact => "|="@,
        FilterOp::PipeMatch => "|~"@,
        FilterOp::NotEqual => "!="@,
        FilterOp::NotMatch => "!~"@,
    }
}

/// How a label filter operator is written.
pub open spec fn label_filter_sign(op: LabelFilterOp) -> Seq<char> {
    match op {
        LabelFilterOp::Eq => "="@,
        LabelFilterOp::Neq => "!="@,
        LabelFilterOp::Re => "=~"@,
        LabelFilterOp::Nre => "!~"@,
        LabelFilterOp::Gt => ">"@,
        LabelFilterOp::GtEq => ">="@,
        LabelFilterOp::Lt => "<"@,
        LabelFilterOp::LtEq => "<="@,
        LabelFilterOp::CmpEq => "=="@,
    }
}

/// How a binary operator is written.
pub open spec fn binary_sign(op: BinOpKind) -> Seq<char> {
    match op {
        BinOpKind::Add => "+"@,
        BinOpKind::Sub => "-"@,
        BinOpKind::Mul => "*"@,
        BinOpKind::Div => "/"@,
        BinOpKind::Mod => "%"@,
        BinOpKind::Pow => "^"@,
        BinOpKind::CmpEq => "=="@,
        BinOpKind::Neq => "!="@,
        BinOpKind::Lt => "<"@,
        BinOpKind::Gt => ">"@,
        BinOpKind::LtEq => "<="@,
        BinOpKind::GtEq => ">="@,
        BinOpKind::And => "and"@,
        BinOpKind::Or => "or"@,
        BinOpKind::Unless => "unless"@,
    }
}

/// How a parser is called.
pub open spec fn parser_word(kind: ParserKind) -> Seq<char> {
    match kind {
        ParserKind::Json => "json"@,
        ParserKind::Logfmt => "logfmt"@,
        ParserKind::Pattern => "pattern"@,
        ParserKind::Regexp => "regexp"@,
        ParserKind::Unpack => "unpack"@,
        ParserKind::Pack => "pack"@,
    }
}

/// How a label operation is called.
pub open spec fn label_op_word(kind: LabelOpKind) -> Seq<char> {
    match kind {
        LabelOpKind::Drop => "drop"@,
        LabelOpKind::Keep => "keep"@,
    }
}

/// Whether `text` is `inner` between two equal quotes.
pub open spec fn quotes(text: Seq<char>, inner: Seq<char>) -> bool {
    exists|q: char| (q == '"' || q == '\'' || q == '`') && #[trigger] quoted_in(text, inner, q)
}

/// `text` is `inner` between two `q`.
pub open spec fn quoted_in(text: Seq<char>, inner: Seq<char>, q: char) -> bool {
    text == seq![q] + inner + seq![q]
}

// ── Lexed sources ────────────────────────────────────────────────────────────

impl Source {
    /// The text of token `i`; nothing beyond the last.
    pub open spec fn word(self, i: int) -> Seq<char> {
        if 0 <= i < self.tokens.len() {
            self.text_of(self.tokens[i])
        } else {
            seq![]
        }
    }

    /// Where token `i` starts.
    pub open spec fn start(self, i: int) -> usize {
        self.tokens[i].span.start
    }

    /// Where token `i` ends.
    pub open spec fn end(self, i: int) -> usize {
        self.tokens[i].span.end
    }

    /// The kind of token `i`; the end beyond the last.
    pub open spec fn kind(self, i: int) -> TokenKind {
        if 0 <= i < self.tokens.len() {
            self.tokens[i].kind
        } else {
            TokenKind::Eof
        }
    }

    /// Tokens read as their kinds say.
    pub open spec fn lexed(self) -> bool {
        &&& self.ordered()
        &&& forall|i: int| #![trigger self.tokens[i]] 0 <= i < self.tokens.len() ==> self.reads(i)
    }

    /// Token `i` reads as its kind says.
    pub open spec fn reads(self, i: int) -> bool {
        let t = self.tokens[i];
        &&& match symbol(t.kind) {
            Some(x) => self.word(i) == x,
            None => true,
        }
        &&& t.kind == TokenKind::String ==> quotes(self.word(i), self.string_of(t))
    }
}

pub(crate) proof fn lemma_kept(tokens: Seq<Token>, i: int)
    requires
        0 <= i < significant_tokens(tokens).len(),
    ensures
        exists|k: int| 0 <= k < tokens.len() && #[trigger] tokens[k] == significant_tokens(tokens)[i],
    decreases tokens.len(),
{
    let init = significant_tokens(tokens.drop_last());
    if i < init.len() {
        lemma_kept(tokens.drop_last(), i);
        let k = choose|k: int|
            0 <= k < tokens.drop_last().len() && #[trigger] tokens.drop_last()[k] == init[i];
        assert(tokens[k] == init[i]);
    } else {
        assert(tokens[tokens.len() - 1] == significant_tokens(tokens)[i]);
    }
}

pub(crate) proof fn lemma_ascii(b: Seq<u8>, p: int, c: char)
    requires
        0 <= p < b.len(),
        c as u32 <= 0x7f,
        b[p] == c as u8,
    ensures
        text_in(b, p, p + 1) == seq![c],
{
    let s = seq![c];
    assert(is_ascii_chars(s));
    is_ascii_chars_encode_utf8(s);
    assert(encode_utf8(s) =~= b.subrange(p, p + 1));
    encode_utf8_decode_utf8(s);
}

proof fn lemma_string_reads(b: Seq<u8>, start: int, end: int, q: char)
    requires
        valid_utf8(b),
        0 <= start,
        start + 2 <= end <= b.len(),
        is_char_boundary(b, start),
        is_char_boundary(b, end),
        q as u32 <= 0x7f,
        b[start] == q as u8,
        b[end - 1] == q as u8,
    ensures
        quoted_in(text_in(b, start, end), text_in(b, start + 1, end - 1), q),
{
    crate::text::lemma_boundary_after_ascii(b, start);
    crate::text::lemma_boundary_after_ascii(b, end - 1);
    lemma_text_split(b, start, start + 1, end);
    lemma_text_split(b, start + 1, end - 1, end);
    lemma_ascii(b, start, q);
    lemma_ascii(b, end - 1, q);
    assert(text_in(b, start, end) =~= seq![q] + text_in(b, start + 1, end - 1) + seq![q]);
}

/// The significant tokens of a text read as their kinds say.
pub proof fn lemma_lexed(b: Seq<u8>)
    requires
        valid_utf8(b),
        b.len() <= usize::MAX,
    ensures
        (Source { text: b, tokens: significant_tokens(tokens_of(b)) }).lexed(),
{
    let all = tokens_of(b);
    let src = Source { text: b, tokens: significant_tokens(all) };
    lemma_ordered(b);
    lemma_tokens_cover(b);
    assert forall|i: int| #![trigger src.tokens[i]] 0 <= i < src.tokens.len() implies src.reads(
        i,
    ) by {
        lemma_kept(all, i);
        let k = choose|k: int| 0 <= k < all.len() && #[trigger] all[k] == src.tokens[i];
        let t = src.tokens[i];
        if k < all.len() - 1 {
            lemma_lexemes(b, k);
            let (start, end) = (t.span.start as int, t.span.end as int);
            if t.kind == TokenKind::String {
                let c = b[start];
                if c == '"' as u8 {
                    lemma_string_reads(b, start, end, '"');
                } else if c == '\'' as u8 {
                    lemma_string_reads(b, start, end, '\'');
                } else {
                    lemma_string_reads(b, start, end, '`');
                }
            }
        }
    }
}

// ── Selectors ────────────────────────────────────────────────────────────────

/// Whether a matcher is written at token `p`: name, operator and quoted value.
pub open spec fn matcher_at(src: Source, m: LabelMatcherV, p: int) -> bool {
    &&& src.kind(p) == TokenKind::Ident
    &&& src.word(p) == m.name
    &&& src.word(p + 1) == match_sign(m.op)
    &&& src.kind(p + 2) == TokenKind::String
    &&& quotes(src.word(p + 2), m.value)
    &&& m.span == (Span { start: src.start(p), end: src.end(p + 2) })
}

/// The token behind `n` matchers from `from` on, and the commas behind each.
pub open spec fn behind_matchers(src: Source, from: int, n: int) -> int
    decreases n,
{
    if n <= 0 {
        from
    } else {
        let p = behind_matchers(src, from, n - 1) + 3;
        if src.kind(p) == TokenKind::Comma {
            p + 1
        } else {
            p
        }
    }
}

/// Whether a complete matcher is written at token `p`.
pub open spec fn complete_matcher(src: Source, p: int) -> bool {
    &&& src.kind(p) == TokenKind::Ident
    &&& (src.kind(p + 1) == TokenKind::Eq || src.kind(p + 1) == TokenKind::NotEqual || src.kind(
        p + 1,
    ) == TokenKind::EqRegex || src.kind(p + 1) == TokenKind::NotMatch)
    &&& src.kind(p + 2) == TokenKind::String
}

/// Whether a selector is written at token `p`: its matchers stand behind the brace
/// one after the other, none but they are complete, and it ends with the closing
/// brace, where there is one behind them.
#[verifier::opaque]
pub open spec fn selector_at(src: Source, sel: StreamSelectorV, p: int) -> bool {
    let n = sel.matchers.len() as int;
    let q = behind_matchers(src, p + 1, n);
    &&& src.word(p) == "{"@
    &&& sel.span.start == src.start(p)
    &&& forall|k: int|
        0 <= k < n ==> matcher_at(
            src,
            #[trigger] sel.matchers[k],
            behind_matchers(src, p + 1, k),
        )
    &&& !complete_matcher(src, q)
    &&& src.kind(q) == TokenKind::RBrace ==> sel.span.end == src.end(q)
}

proof fn lemma_reads_matcher(src: Source, s: At)
    requires
        src.lexed(),
        src.valid(s),
    ensures
        match src.label_matcher(s).0 {
            Some(m) => matcher_at(src, m, s.pos) && src.label_matcher(s).1.pos == s.pos + 3,
            None => true,
        },
{
    lemma_expect(src, s, TokenKind::Ident);
    let (found, s1) = src.expect(s, TokenKind::Ident);
    if found is Some && match_op(src.peek(s1)) is Some {
        lemma_next(src, s1);
        lemma_expect(src, s1.next(), TokenKind::String);
        assert(src.reads(s.pos));
        assert(src.reads(s.pos + 1));
        let value = src.expect(s1.next(), TokenKind::String).0;
        if value is Some {
            assert(src.reads(s.pos + 2));
        }
    }
}

/// Matchers stand behind each other from token `from` on, up to the position.
spec fn matchers_to(src: Source, ms: Seq<LabelMatcherV>, from: int, s: At) -> bool {
    &&& s.pos == behind_matchers(src, from, ms.len() as int)
    &&& forall|k: int|
        0 <= k < ms.len() ==> matcher_at(src, #[trigger] ms[k], behind_matchers(src, from, k))
}

proof fn lemma_reads_matchers(src: Source, s: At, acc: Seq<LabelMatcherV>, from: int)
    requires
        src.lexed(),
        src.valid(s),
        matchers_to(src, acc, from, s),
    ensures
        ({
            let (ms, s1) = src.label_matchers(s, acc);
            let q = behind_matchers(src, from, ms.len() as int);
            &&& forall|k: int|
                0 <= k < ms.len() ==> matcher_at(
                    src,
                    #[trigger] ms[k],
                    behind_matchers(src, from, k),
                )
            &&& !complete_matcher(src, q)
            &&& src.kind(q) == TokenKind::RBrace ==> s1.pos == q
        }),
    decreases src.tokens.len() - s.pos,
{
    if src.peek(s) != TokenKind::RBrace && src.peek(s) != TokenKind::Eof {
        lemma_label_matcher(src, s);
        lemma_reads_matcher(src, s);
        let (m, s1) = src.label_matcher(s);
        match m {
            None => {
                lemma_incomplete(src, s);
            },
            Some(m) => {
                if src.peek(s1) == TokenKind::Comma {
                    lemma_next(src, s1);
                }
                let s2 = src.skip_comma(s1);
                let more = acc.push(m);
                assert(matchers_to(src, more, from, s2));
                lemma_reads_matchers(src, s2, more, from);
            },
        }
    }
}

/// Where no matcher is found none is complete.
proof fn lemma_incomplete(src: Source, s: At)
    requires
        src.lexed(),
        src.valid(s),
        src.label_matcher(s).0 is None,
    ensures
        !complete_matcher(src, s.pos),
{
    if complete_matcher(src, s.pos) {
        lemma_next(src, s);
        lemma_next(src, s.next());
    }
}

proof fn lemma_reads_selector(src: Source, s: At)
    requires
        src.lexed(),
        src.valid(s),
    ensures
        match src.stream_selector(s).0 {
            Some(sel) => selector_at(src, sel, s.pos),
            None => true,
        },
{
    reveal(selector_at);
    lemma_expect(src, s, TokenKind::LBrace);
    let (open, s1) = src.expect(s, TokenKind::LBrace);
    if open is Some {
        assert(src.reads(s.pos));
        assert(matchers_to(src, seq![], s1.pos, s1));
        lemma_reads_matchers(src, s1, seq![], s1.pos);
    }
}

// ── Stages ───────────────────────────────────────────────────────────────────

/// The end of a mapping that starts at token `p`: `dst`, or `dst=value`.
pub open spec fn behind_mapping(src: Source, p: int) -> int {
    if src.kind(p + 1) == TokenKind::Eq {
        p + 3
    } else {
        p + 1
    }
}

/// Whether a mapping is written at token `p`.
pub open spec fn mapping_at(src: Source, m: (Seq<char>, Seq<char>), p: int) -> bool {
    &&& src.kind(p) == TokenKind::Ident
    &&& src.word(p) == m.0
    &&& if src.kind(p + 1) == TokenKind::Eq {
        (src.kind(p + 2) == TokenKind::String && quotes(src.word(p + 2), m.1)) || (src.kind(p + 2)
            == TokenKind::Ident && src.word(p + 2) == m.1)
    } else {
        m.1.len() == 0
    }
}

/// Where mapping `k` starts, with a comma behind each before it.
pub open spec fn mapping_start(src: Source, from: int, k: int) -> int
    decreases k,
{
    if k <= 0 {
        from
    } else {
        behind_mapping(src, mapping_start(src, from, k - 1)) + 1
    }
}

/// Whether name `k` of a list that starts at token `from` is written there, behind a comma unless
/// it is the first.
pub open spec fn name_at(src: Source, name: Seq<char>, from: int, k: int) -> bool {
    &&& src.kind(from + 2 * k) == TokenKind::Ident
    &&& src.word(from + 2 * k) == name
    &&& k > 0 ==> src.kind(from + 2 * k - 1) == TokenKind::Comma
}

/// Whether names are written from token `from` on, with a comma between each, and no more of them
/// follow.
pub open spec fn names_at(src: Source, names: Seq<Seq<char>>, from: int) -> bool {
    &&& forall|k: int| 0 <= k < names.len() ==> name_at(src, #[trigger] names[k], from, k)
    &&& names.len() == 0 ==> src.kind(from) != TokenKind::Ident
    &&& names.len() > 0 ==> !(src.kind(from + 2 * names.len() - 1) == TokenKind::Comma && src.kind(
        from + 2 * names.len(),
    ) == TokenKind::Ident)
}

/// The last token of names from `from` on; the one before without names.
pub open spec fn last_name(names: Seq<Seq<char>>, from: int) -> int {
    if names.len() == 0 {
        from - 1
    } else {
        from + 2 * (names.len() - 1)
    }
}

/// Whether a stage is written at token `p`, up to the end of its span.
pub open spec fn stage_at(src: Source, stage: PipelineStageV, p: int) -> bool {
    &&& stage.span().start == src.start(p)
    &&& stage is Filter || src.word(p) == "|"@
    &&& match stage {
        PipelineStageV::Filter { op, pattern, span } => {
            &&& src.word(p) == filter_sign(op)
            &&& quotes(src.word(p + 1), pattern)
            &&& span.end == src.end(p + 1)
        },
        PipelineStageV::Parser { kind, params, span } => {
            &&& src.word(p + 1) == parser_word(kind)
            &&& if src.kind(p + 2) == TokenKind::String {
                &&& params.len() == 1
                &&& quotes(src.word(p + 2), params[0])
                &&& span.end == src.end(p + 2)
            } else {
                params.len() == 0 && span.end == src.end(p + 1)
            }
        },
        PipelineStageV::LabelFormat { mappings, span } => {
            &&& src.word(p + 1) == "label_format"@
            &&& forall|k: int|
                0 <= k < mappings.len() ==> mapping_at(
                    src,
                    #[trigger] mappings[k],
                    mapping_start(src, p + 2, k),
                )
            &&& span.end == src.end(
                if mappings.len() == 0 {
                    p + 1
                } else {
                    behind_mapping(src, mapping_start(src, p + 2, mappings.len() - 1)) - 1
                },
            )
        },
        PipelineStageV::LineFormat { template, span } => {
            &&& src.word(p + 1) == "line_format"@
            &&& quotes(src.word(p + 2), template)
            &&& span.end == src.end(p + 2)
        },
        PipelineStageV::LabelOp { kind, labels, span } => {
            &&& src.word(p + 1) == label_op_word(kind)
            &&& names_at(src, labels, p + 2)
            &&& span.end == src.end(last_name(labels, p + 2))
        },
        PipelineStageV::Unwrap { label, conversion, span } => {
            &&& src.word(p + 1) == "unwrap"@
            &&& match conversion {
                None => {
                    &&& src.word(p + 2) == label
                    &&& src.kind(p + 2) == TokenKind::Ident
                    &&& span.end == src.end(p + 2)
                    &&& !(src.kind(p + 3) == TokenKind::LParen && (label == "duration"@ || label
                        == "duration_seconds"@ || label == "bytes"@))
                },
                Some(conversion) => {
                    &&& conversion == "duration"@ || conversion == "duration_seconds"@ || conversion
                        == "bytes"@
                    &&& src.word(p + 2) == conversion
                    &&& src.word(p + 3) == "("@
                    &&& src.word(p + 4) == label
                    &&& src.kind(p + 4) == TokenKind::Ident
                    &&& span.end == src.end(
                        if src.kind(p + 5) == TokenKind::RParen {
                            p + 5
                        } else {
                            p + 4
                        },
                    )
                },
            }
        },
        PipelineStageV::Decolorize { span } => {
            &&& src.word(p + 1) == "decolorize"@
            &&& span.end == src.end(p + 1)
        },
        PipelineStageV::LabelFilter { name, op, value, span } => {
            &&& src.kind(p + 1) == TokenKind::Ident
            &&& src.word(p + 1) == name
            &&& src.word(p + 2) == label_filter_sign(op)
            &&& (src.kind(p + 3) == TokenKind::String && quotes(src.word(p + 3), value)) || (
            src.kind(p + 3) == TokenKind::Number && src.word(p + 3) == value)
            &&& span.end == src.end(p + 3)
        },
    }
}

proof fn lemma_reads_mapping(src: Source, s: At)
    requires
        src.lexed(),
        src.valid(s),
        src.peek(s) == TokenKind::Ident,
    ensures
        match src.mapping(s).0 {
            Some((m, end)) => {
                &&& mapping_at(src, m, s.pos)
                &&& src.mapping(s).1.pos == behind_mapping(src, s.pos)
                &&& end == src.end(behind_mapping(src, s.pos) - 1)
            },
            None => true,
        },
{
    lemma_next(src, s);
    assert(src.reads(s.pos));
    let s1 = s.next();
    if src.peek(s1) == TokenKind::Eq {
        lemma_next(src, s1);
        assert(src.reads(s1.next().pos));
    }
}

proof fn lemma_reads_mappings(
    src: Source,
    s: At,
    acc: Seq<(Seq<char>, Seq<char>)>,
    end: usize,
    from: int,
)
    requires
        src.lexed(),
        src.valid(s),
        s.pos == mapping_start(src, from, acc.len() as int),
        forall|k: int|
            0 <= k < acc.len() ==> mapping_at(src, #[trigger] acc[k], mapping_start(src, from, k)),
        end == src.end(
            if acc.len() == 0 {
                from - 1
            } else {
                behind_mapping(src, mapping_start(src, from, acc.len() - 1)) - 1
            },
        ),
    ensures
        ({
            let (ms, to, s1) = src.mappings(s, acc, end);
            &&& forall|k: int|
                0 <= k < ms.len() ==> mapping_at(src, #[trigger] ms[k], mapping_start(src, from, k))
            &&& to == src.end(
                if ms.len() == 0 {
                    from - 1
                } else {
                    behind_mapping(src, mapping_start(src, from, ms.len() - 1)) - 1
                },
            )
        }),
    decreases src.tokens.len() - s.pos,
{
    if src.peek(s) == TokenKind::Ident {
        lemma_mapping(src, s);
        lemma_reads_mapping(src, s);
        let (m, s1) = src.mapping(s);
        if let Some((m, end1)) = m {
            let more = acc.push(m);
            assert forall|k: int| 0 <= k < more.len() implies mapping_at(
                src,
                #[trigger] more[k],
                mapping_start(src, from, k),
            ) by {
                if k < acc.len() {
                    assert(more[k] == acc[k]);
                }
            }
            if src.peek(s1) == TokenKind::Comma {
                lemma_next(src, s1);
                lemma_reads_mappings(src, s1.next(), more, end1, from);
            }
        }
    }
}

proof fn lemma_reads_labels(src: Source, s: At, acc: Seq<Seq<char>>, end: usize, from: int)
    requires
        src.lexed(),
        src.valid(s),
        s.pos == from + 2 * acc.len(),
        0 < from,
        forall|k: int| 0 <= k < acc.len() ==> name_at(src, #[trigger] acc[k], from, k),
        acc.len() > 0 ==> src.kind(from + 2 * acc.len() - 1) == TokenKind::Comma,
        end == src.end(last_name(acc, from)),
    ensures
        ({
            let (names, to, s1) = src.labels(s, acc, end);
            &&& names_at(src, names, from)
            &&& to == src.end(last_name(names, from))
            &&& src.kind(last_name(names, from) + 1) == TokenKind::RParen ==> s1.pos == last_name(
                names,
                from,
            ) + 1
        }),
    decreases src.tokens.len() - s.pos,
{
    if src.peek(s) == TokenKind::Ident {
        lemma_next(src, s);
        let label = src.token(s);
        let more = acc.push(src.text_of(label));
        assert(name_at(src, src.word(s.pos), from, acc.len() as int));
        assert forall|k: int| 0 <= k < more.len() implies name_at(src, #[trigger] more[k], from, k) by {
            if k < acc.len() {
                assert(more[k] == acc[k]);
            }
        }
        let s1 = s.next();
        if src.peek(s1) == TokenKind::Comma {
            lemma_next(src, s1);
            lemma_reads_labels(src, s1.next(), more, label.span.end, from);
        } else {
            assert(src.kind(from + 2 * more.len() - 1) != TokenKind::Comma);
        }
    } else {
        assert(src.kind(from + 2 * acc.len()) != TokenKind::Ident);
    }
}

proof fn lemma_reads_filter(src: Source, s: At)
    requires
        src.lexed(),
        src.valid(s),
        line_filter(src.peek(s)),
    ensures
        match src.filter_stage(s).0 {
            Some(stage) => stage_at(src, stage, s.pos),
            None => true,
        },
{
    lemma_next(src, s);
    assert(src.reads(s.pos));
    assert(src.reads(s.pos + 1));
}

proof fn lemma_reads_unwrap(src: Source, s: At)
    requires
        src.lexed(),
        src.valid(s),
        src.peek(s) == TokenKind::Ident,
        src.word(s.pos) == "unwrap"@,
        0 < s.pos,
        src.word(s.pos - 1) == "|"@,
    ensures
        match src.unwrap_stage(s, src.start(s.pos - 1)).0 {
            Some(stage) => stage_at(src, stage, s.pos - 1),
            None => true,
        },
{
    lemma_next(src, s);
    let s1 = s.next();
    if src.peek(s1) == TokenKind::Ident {
        lemma_next(src, s1);
        let s2 = s1.next();
        assert(src.reads(s2.pos));
        if src.peek(s2) == TokenKind::LParen {
            lemma_next(src, s2);
            lemma_expect(src, s2.next(), TokenKind::Ident);
            let s3 = src.expect(s2.next(), TokenKind::Ident).1;
            lemma_expect(src, s3, TokenKind::RParen);
        }
    }
}

proof fn lemma_reads_label_filter(src: Source, s: At)
    requires
        src.lexed(),
        src.valid(s),
        src.peek(s) == TokenKind::Ident,
        0 < s.pos,
        src.word(s.pos - 1) == "|"@,
    ensures
        match src.label_filter_or_error(s, src.start(s.pos - 1)).0 {
            Some(stage) => stage_at(src, stage, s.pos - 1),
            None => true,
        },
{
    lemma_next(src, s);
    let s1 = s.next();
    assert(src.reads(s1.pos));
    if src.peek(s1) != TokenKind::Eof {
        lemma_next(src, s1);
        assert(src.reads(s1.next().pos));
    }
}

proof fn lemma_reads_keyword_stage(src: Source, s: At)
    requires
        src.lexed(),
        src.valid(s),
        src.peek(s) == TokenKind::Ident,
        0 < s.pos,
        src.word(s.pos - 1) == "|"@,
    ensures
        keyword_kind(src.word(s.pos)) == KeywordKind::PipelineParser ==> stage_at(
            src,
            src.parser_stage(s, src.start(s.pos - 1)).0->0,
            s.pos - 1,
        ),
        keyword_kind(src.word(s.pos)) == KeywordKind::PipelineFormatter ==> match src.formatter_stage(
            s,
            src.start(s.pos - 1),
        ).0 {
            Some(stage) => stage_at(src, stage, s.pos - 1),
            None => true,
        },
        keyword_kind(src.word(s.pos)) == KeywordKind::PipelineLabelOp ==> stage_at(
            src,
            src.label_op_stage(s, src.start(s.pos - 1)).0->0,
            s.pos - 1,
        ),
{
    lemma_next(src, s);
    let end = src.token(s).span.end;
    let s1 = s.next();
    assert(src.reads(s1.pos));
    lemma_reads_mappings(src, s1, seq![], end, s1.pos);
    lemma_reads_labels(src, s1, seq![], end, s1.pos);
    if keyword_kind(src.word(s.pos)) == KeywordKind::PipelineParser {
        let stage = src.parser_stage(s, src.start(s.pos - 1)).0->0;
        assert(stage_at(src, stage, s.pos - 1));
    }
}

proof fn lemma_reads_pipe(src: Source, s: At)
    requires
        src.lexed(),
        src.valid(s),
        src.peek(s) == TokenKind::Pipe,
    ensures
        match src.pipe_stage(s).0 {
            Some(stage) => stage_at(src, stage, s.pos),
            None => true,
        },
{
    lemma_next(src, s);
    assert(src.reads(s.pos));
    let s1 = s.next();
    if src.peek(s1) == TokenKind::Ident {
        let word = src.text_of(src.token(s1));
        assert(word == src.word(s1.pos));
        lemma_reads_keyword_stage(src, s1);
        if keyword_kind(word) == KeywordKind::FilterKeyword {
            lemma_reads_unwrap(src, s1);
        }
        lemma_reads_label_filter(src, s1);
    }
}

/// Whether a stage is written somewhere.
pub open spec fn stage_written(src: Source, stage: PipelineStageV) -> bool {
    exists|p: int| 0 <= p < src.tokens.len() && #[trigger] stage_at(src, stage, p)
}

/// Whether all stages are written somewhere, one behind the other.
#[verifier::opaque]
pub open spec fn pipeline_written(src: Source, stages: Seq<PipelineStageV>) -> bool {
    &&& forall|k: int| 0 <= k < stages.len() ==> stage_written(src, #[trigger] stages[k])
    &&& forall|j: int, k: int|
        #![trigger stages[j], stages[k]]
        0 <= j < k < stages.len() ==> stages[j].span().end <= stages[k].span().start
}

proof fn lemma_reads_pipeline(src: Source, s: At, acc: Seq<PipelineStageV>, end: usize)
    requires
        src.lexed(),
        src.valid(s),
        pipeline_written(src, acc),
        forall|k: int|
            0 <= k < acc.len() ==> (#[trigger] acc[k]).span().end <= src.token(s).span.start,
        acc.len() > 0 ==> end == acc.last().span().end,
    ensures
        pipeline_written(src, src.pipeline(s, acc, end).0),
        src.pipeline(s, acc, end).1 == if src.pipeline(s, acc, end).0.len() == 0 {
            end
        } else {
            src.pipeline(s, acc, end).0.last().span().end
        },
        acc.len() <= src.pipeline(s, acc, end).0.len(),
    decreases src.tokens.len() - s.pos,
{
    reveal(pipeline_written);
    if line_filter(src.peek(s)) || src.peek(s) == TokenKind::Pipe {
        lemma_filter_stage(src, s);
        lemma_pipe_stage(src, s);
        let (stage, s1) = if line_filter(src.peek(s)) {
            lemma_reads_filter(src, s);
            src.filter_stage(s)
        } else {
            lemma_reads_pipe(src, s);
            src.pipe_stage(s)
        };
        lemma_onward(src, s, s1);
        if s.pos < s1.pos {
            match stage {
                Some(stage) => {
                    assert(stage_at(src, stage, s.pos));
                    let more = acc.push(stage);
                    assert(pipeline_written(src, more));
                    lemma_reads_pipeline(src, s1, more, stage.span().end);
                },
                None => {
                    lemma_reads_pipeline(src, s1, acc, end);
                },
            }
        }
    }
}

// ── Expressions ──────────────────────────────────────────────────────────────

/// Whether `name` is that of a range aggregation.
pub open spec fn range_function(name: Seq<char>) -> bool {
    name == "absent_over_time"@ || name == "avg_over_time"@ || name == "bytes_over_time"@ || name
        == "bytes_rate"@ || name == "count_over_time"@ || name == "first_over_time"@ || name
        == "last_over_time"@ || name == "max_over_time"@ || name == "min_over_time"@ || name
        == "quantile_over_time"@ || name == "rate"@ || name == "stddev_over_time"@ || name
        == "stdvar_over_time"@ || name == "sum_over_time"@
}

/// Whether `name` is that of an aggregation.
pub open spec fn aggregation_name(name: Seq<char>) -> bool {
    name == "avg"@ || name == "bottomk"@ || name == "count"@ || name == "max"@ || name == "min"@
        || name == "sort"@ || name == "sort_desc"@ || name == "stddev"@ || name == "stdvar"@ || name
        == "sum"@ || name == "topk"@
}

/// Whether a grouping is written at token `p`.
pub open spec fn grouping_at(src: Source, g: GroupingV, p: int) -> bool {
    &&& src.word(p) == if g.without {
        "without"@
    } else {
        "by"@
    }
    &&& src.word(p + 1) == "("@
    &&& names_at(src, g.labels, p + 2)
    &&& g.span.start == src.start(p)
    &&& src.kind(last_name(g.labels, p + 2) + 1) == TokenKind::RParen ==> g.span.end == src.end(
        last_name(g.labels, p + 2) + 1,
    )
}

/// Whether a number is written at token `p`.
pub open spec fn number_at(src: Source, e: ExprV, p: int) -> bool {
    &&& src.kind(p) == TokenKind::Number
    &&& e == (ExprV { kind: ExprKindV::NumberLit(src.word(p)), span: src.tokens[p].span })
}

/// Whether a function takes a number before its operand.
pub open spec fn takes_number(name: Seq<char>) -> bool {
    name == "topk"@ || name == "bottomk"@ || name == "quantile_over_time"@
}

/// Whether the parameter of a function is written behind the parenthesis `q`: the function takes
/// one and a number stands there. The operand stands at `to`, behind it and a comma.
pub open spec fn param_at(
    src: Source,
    param: Option<Box<ExprV>>,
    name: Seq<char>,
    q: int,
    to: int,
) -> bool {
    match param {
        Some(n) => {
            &&& takes_number(name)
            &&& number_at(src, *n, q + 1)
            &&& to == if src.kind(q + 2) == TokenKind::Comma {
                q + 3
            } else {
                q + 2
            }
        },
        None => !(takes_number(name) && src.kind(q + 1) == TokenKind::Number) && to == q + 1,
    }
}

/// Whether a binary operator is written at token `q`, behind its left operand.
pub open spec fn sign_at(src: Source, op: BinOpKind, lhs: ExprV, q: int) -> bool {
    src.word(q) == binary_sign(op) && lhs.span.end <= src.start(q)
}

/// Whether the range `[duration]` is written at token `q`, up to the end of an aggregation.
pub open spec fn range_at(src: Source, duration: Seq<char>, q: int, end: usize) -> bool {
    &&& src.word(q) == "["@
    &&& src.kind(q + 1) == TokenKind::Duration
    &&& src.word(q + 1) == duration
    &&& src.kind(q + 2) == TokenKind::RBracket && src.kind(q + 3) == TokenKind::RParen ==> end
        == src.end(q + 3)
}

/// Whether the parenthesis that opens an aggregation, called at token `p`, stands at `q`: behind
/// the name, or behind a grouping that follows it.
pub open spec fn opened_at(src: Source, grouping: Option<GroupingV>, p: int, q: int) -> bool {
    &&& src.word(q) == "("@
    &&& if src.word(p + 1) == "by"@ || src.word(p + 1) == "without"@ {
        &&& p + 2 < q
        &&& match grouping {
            Some(g) => grouping_at(src, g, p + 1),
            None => false,
        }
    } else {
        q == p + 1
    }
}

/// Whether a tree is written from token `p` on: each of its nodes reads as it is written.
pub open spec fn tree_at(src: Source, e: ExprV, p: int) -> bool
    decreases e,
{
    &&& 0 <= p < src.tokens.len()
    &&& e.span.start == src.start(p)
    &&& match e.kind {
        ExprKindV::LogQuery { selector, pipeline } => {
            &&& selector_at(src, selector, p)
            &&& pipeline_written(src, pipeline)
            &&& e.span.end == if pipeline.len() == 0 {
                selector.span.end
            } else {
                pipeline.last().span().end
            }
        },
        ExprKindV::RangeAggregation { func, log_query, duration, param } => {
            &&& range_function(func)
            &&& src.word(p) == func
            &&& src.word(p + 1) == "("@
            &&& log_query.kind is LogQuery
            &&& exists|to: int| #[trigger]
                param_at(src, param, func, p + 1, to) && tree_at(src, *log_query, to)
            &&& exists|q: int| #[trigger]
                range_at(src, duration, q, e.span.end) && p + 2 < q && log_query.span.end
                    <= src.start(q)
        },
        ExprKindV::Aggregation { op, expr, grouping, param } => {
            &&& aggregation_name(op)
            &&& src.word(p) == op
            &&& exists|q: int, to: int|
                {
                    &&& opened_at(src, grouping, p, q)
                    &&& #[trigger] param_at(src, param, op, q, to)
                    &&& tree_at(src, *expr, to)
                }
            &&& match grouping {
                Some(g) => exists|r: int|
                    p < r < src.tokens.len() && #[trigger] grouping_at(src, g, r) && (r == p + 1
                        || expr.span.end <= g.span.start && e.span.end == g.span.end),
                None => true,
            }
        },
        ExprKindV::BinOp { op, lhs, rhs } => {
            &&& tree_at(src, *lhs, p)
            &&& e.span.end == rhs.span.end
            &&& exists|q: int|
                p < q && #[trigger] sign_at(src, op, *lhs, q) && tree_at(src, *rhs, q + 1)
        },
        ExprKindV::NumberLit(_) => number_at(src, e, p),
        ExprKindV::StringLit(text) => {
            &&& src.kind(p) == TokenKind::String
            &&& quotes(src.word(p), text)
            &&& e.span.end == src.end(p)
        },
        ExprKindV::Paren(inner) => {
            &&& src.word(p) == "("@
            &&& tree_at(src, *inner, p + 1)
            &&& e.span.end == inner.span.end || exists|q: int|
                p < q < src.tokens.len() && #[trigger] src.word(q) == ")"@ && e.span.end == src.end(
                    q,
                ) && inner.span.end <= src.start(q)
        },
    }
}

proof fn lemma_function_names(text: Seq<char>)
    ensures
        keyword_kind(text) == KeywordKind::RangeFunction ==> range_function(text),
        keyword_kind(text) == KeywordKind::AggregationOp ==> aggregation_name(text),
{
    if keyword_kind(text) == KeywordKind::RangeFunction {
        let i = choose|i: int|
            0 <= i < RANGE_FUNCTIONS@.len() && (#[trigger] RANGE_FUNCTIONS@[i])@ == text;
        assert(range_function(RANGE_FUNCTIONS@[i]@));
    } else if keyword_kind(text) == KeywordKind::AggregationOp {
        let i = choose|i: int|
            0 <= i < AGGREGATION_OPS@.len() && (#[trigger] AGGREGATION_OPS@[i])@ == text;
        assert(aggregation_name(AGGREGATION_OPS@[i]@));
    }
}

proof fn lemma_reads_grouping(src: Source, s: At)
    requires
        src.lexed(),
        src.valid(s),
        0 < s.pos,
    ensures
        match src.opt_grouping(s).0 {
            Some(g) => {
                &&& grouping_at(src, g, s.pos)
                &&& src.at_grouping(s)
                &&& g.span.start == src.start(s.pos)
                &&& s.pos + 1 < src.opt_grouping(s).1.pos
            },
            None => src.at_grouping(s) ==> src.peek(src.opt_grouping(s).1) != TokenKind::LParen,
        },
{
    if src.at_grouping(s) {
        lemma_next(src, s);
        lemma_expect(src, s.next(), TokenKind::LParen);
        let (open, s1) = src.expect(s.next(), TokenKind::LParen);
        if open is Some {
            assert(src.reads(s.pos + 1));
            let end = src.token(s).span.end;
            lemma_onward(src, s, s1);
            lemma_labels(src, s1, seq![], end, end);
            lemma_reads_labels(src, s1, seq![], src.end(s1.pos - 1), s1.pos);
            lemma_labels_alone(src, s1, seq![], end, src.end(s1.pos - 1));
            let s2 = src.labels(s1, seq![], end).2;
            lemma_expect(src, s2, TokenKind::RParen);
        }
    }
}

/// Which labels are found does not hang on the end that is handed on.
proof fn lemma_labels_alone(src: Source, s: At, acc: Seq<Seq<char>>, end: usize, other: usize)
    ensures
        src.labels(s, acc, end).0 == src.labels(s, acc, other).0,
        src.labels(s, acc, end).2 == src.labels(s, acc, other).2,
    decreases src.tokens.len() - s.pos,
{
    if src.peek(s) == TokenKind::Ident {
        let label = src.token(s);
        let s1 = s.next();
        if src.peek(s1) == TokenKind::Comma && 0 <= s.pos < src.tokens.len() {
            lemma_labels_alone(
                src,
                s1.next(),
                acc.push(src.text_of(label)),
                label.span.end,
                label.span.end,
            );
        }
    }
}

proof fn lemma_reads_log_query(src: Source, s: At)
    requires
        src.lexed(),
        src.valid(s),
    ensures
        match src.log_query(s).0 {
            Some(e) => tree_at(src, e, s.pos) && e.kind is LogQuery,
            None => true,
        },
{
    reveal(pipeline_written);
    lemma_stream_selector(src, s);
    lemma_reads_selector(src, s);
    let (selector, s1) = src.stream_selector(s);
    if let Some(selector) = selector {
        lemma_reads_pipeline(src, s1, seq![], selector.span.end);
    }
}

proof fn lemma_reads_param(src: Source, s: At, name: Seq<char>)
    requires
        src.lexed(),
        src.valid(s),
    ensures
        param_at(
            src,
            src.opt_param(s, takes_number(name)).0,
            name,
            s.pos - 1,
            src.opt_param(s, takes_number(name)).1.pos,
        ),
{
    if takes_number(name) && src.peek(s) == TokenKind::Number {
        lemma_next(src, s);
    }
}

/// The range aggregation that takes a number is `quantile_over_time`; the aggregations that do
/// are `topk` and `bottomk`.
pub(crate) proof fn lemma_takes_number(name: Seq<char>)
    ensures
        range_function(name) ==> takes_number(name) == (name == "quantile_over_time"@),
        aggregation_name(name) ==> takes_number(name) == (name == "topk"@ || name == "bottomk"@),
{
    reveal_strlit("absent_over_time");
    reveal_strlit("avg_over_time");
    reveal_strlit("bytes_over_time");
    reveal_strlit("bytes_rate");
    reveal_strlit("count_over_time");
    reveal_strlit("first_over_time");
    reveal_strlit("last_over_time");
    reveal_strlit("max_over_time");
    reveal_strlit("min_over_time");
    reveal_strlit("quantile_over_time");
    reveal_strlit("rate");
    reveal_strlit("stddev_over_time");
    reveal_strlit("stdvar_over_time");
    reveal_strlit("sum_over_time");
    reveal_strlit("topk");
    reveal_strlit("bottomk");
    reveal_strlit("sort_desc");
    if name == "topk"@ {
        assert(name.len() == 4 && name[0] == 't');
        assert(!range_function(name));
    }
    if name == "bottomk"@ {
        assert(name.len() == 7);
        assert(!range_function(name));
    }
    assert("quantile_over_time"@.len() == 18);
    if aggregation_name(name) && name == "quantile_over_time"@ {
        reveal_strlit("avg");
        reveal_strlit("count");
        reveal_strlit("max");
        reveal_strlit("min");
        reveal_strlit("sort");
        reveal_strlit("stddev");
        reveal_strlit("stdvar");
        reveal_strlit("sum");
    }
}

proof fn lemma_range_tree(src: Source, e: ExprV, p: int, to: int, q: int)
    requires
        0 <= p < src.tokens.len(),
        e.span.start == src.start(p),
        e.kind is RangeAggregation,
        range_function(e.kind->func),
        src.word(p) == e.kind->func,
        src.word(p + 1) == "("@,
        e.kind->log_query.kind is LogQuery,
        tree_at(src, *e.kind->log_query, to),
        param_at(src, e.kind->RangeAggregation_param, e.kind->func, p + 1, to),
        range_at(src, e.kind->duration, q, e.span.end),
        p + 2 < q,
        e.kind->log_query.span.end <= src.start(q),
    ensures
        tree_at(src, e, p),
{
}

proof fn lemma_aggregation_tree(src: Source, e: ExprV, p: int, q: int, to: int, r: int)
    requires
        0 <= p < src.tokens.len(),
        e.span.start == src.start(p),
        e.kind is Aggregation,
        aggregation_name(e.kind->Aggregation_op),
        src.word(p) == e.kind->Aggregation_op,
        opened_at(src, e.kind->grouping, p, q),
        tree_at(src, *e.kind->expr, to),
        param_at(src, e.kind->Aggregation_param, e.kind->Aggregation_op, q, to),
        match e.kind->grouping {
            Some(g) => p < r < src.tokens.len() && grouping_at(src, g, r) && (r == p + 1
                || e.kind->expr.span.end <= g.span.start && e.span.end == g.span.end),
            None => true,
        },
    ensures
        tree_at(src, e, p),
{
}

proof fn lemma_binary_tree(src: Source, op: BinOpKind, lhs: ExprV, rhs: ExprV, p: int, q: int)
    requires
        tree_at(src, lhs, p),
        tree_at(src, rhs, q + 1),
        p < q,
        sign_at(src, op, lhs, q),
    ensures
        tree_at(src, bin_op(op, lhs, rhs), p),
{
}

#[verifier::rlimit(40)]
proof fn lemma_reads_range(src: Source, s: At)
    requires
        src.lexed(),
        src.valid(s),
        src.peek(s) == TokenKind::Ident,
        range_function(src.word(s.pos)),
    ensures
        match src.range_aggregation(s).0 {
            Some(e) => tree_at(src, e, s.pos),
            None => true,
        },
{
    lemma_next(src, s);
    let func = src.text_of(src.token(s));
    lemma_expect(src, s.next(), TokenKind::LParen);
    let (open, s1) = src.expect(s.next(), TokenKind::LParen);
    if open is Some {
        assert(src.reads(s.pos + 1));
        lemma_param(src, s1, func == "quantile_over_time"@);
        lemma_takes_number(func);
        lemma_reads_param(src, s1, func);
        let (param, s2) = src.opt_param(s1, func == "quantile_over_time"@);
        lemma_log_query(src, s2);
        lemma_reads_log_query(src, s2);
        let (query, s3) = src.log_query(s2);
        if let Some(query) = query {
            lemma_reads_range_end(src, s3);
            if let Some(e) = src.range_aggregation(s).0 {
                lemma_range_tree(src, e, s.pos, s2.pos, s3.pos);
            }
        }
    }
}

proof fn lemma_reads_range_end(src: Source, s: At)
    requires
        src.lexed(),
        src.valid(s),
    ensures
        ({
            let (bracket, s1) = src.expect(s, TokenKind::LBracket);
            let (duration, s2) = src.expect(s1, TokenKind::Duration);
            let s3 = src.expect(s2, TokenKind::RBracket).1;
            let close = src.expect(s3, TokenKind::RParen).0;
            bracket is Some && duration is Some ==> range_at(
                src,
                src.text_of(duration->0),
                s.pos,
                Source::end_or(close, (duration->0).span.end),
            )
        }),
{
    lemma_expect(src, s, TokenKind::LBracket);
    let (bracket, s1) = src.expect(s, TokenKind::LBracket);
    if bracket is Some {
        assert(src.reads(s.pos));
        lemma_expect(src, s1, TokenKind::Duration);
        let (duration, s2) = src.expect(s1, TokenKind::Duration);
        if duration is Some {
            lemma_expect(src, s2, TokenKind::RBracket);
            lemma_expect(src, src.expect(s2, TokenKind::RBracket).1, TokenKind::RParen);
        }
    }
}

proof fn lemma_reads_paren(src: Source, s: At)
    requires
        src.lexed(),
        src.valid(s),
        src.peek(s) == TokenKind::LParen,
    ensures
        match src.paren_expr(s).0 {
            Some(e) => tree_at(src, e, s.pos),
            None => true,
        },
    decreases src.tokens.len() - s.pos, 0int,
{
    lemma_next(src, s);
    assert(src.reads(s.pos));
    lemma_binary_expr(src, s.next(), 1);
    lemma_reads_binary(src, s.next(), 1);
    let (inner, s1) = src.binary_expr(s.next(), 1);
    if inner is Some {
        lemma_expect(src, s1, TokenKind::RParen);
        if src.peek(s1) == TokenKind::RParen {
            assert(src.reads(s1.pos));
            assert(src.word(s1.pos) == ")"@);
        }
    }
}

#[verifier::rlimit(40)]
proof fn lemma_reads_aggregation(src: Source, s: At)
    requires
        src.lexed(),
        src.valid(s),
        src.peek(s) == TokenKind::Ident,
        aggregation_name(src.word(s.pos)),
    ensures
        match src.aggregation(s).0 {
            Some(e) => tree_at(src, e, s.pos),
            None => true,
        },
    decreases src.tokens.len() - s.pos, 0int,
{
    lemma_next(src, s);
    let op = src.text_of(src.token(s));
    lemma_grouping(src, s.next());
    lemma_reads_grouping(src, s.next());
    let (before, s1) = src.opt_grouping(s.next());
    lemma_expect(src, s1, TokenKind::LParen);
    let (open, s2) = src.expect(s1, TokenKind::LParen);
    if open is Some {
        assert(src.reads(s1.pos));
        let wanted = op == "topk"@ || op == "bottomk"@;
        lemma_param(src, s2, wanted);
        lemma_takes_number(op);
        lemma_reads_param(src, s2, op);
        let (param, s3) = src.opt_param(s2, wanted);
        lemma_binary_expr(src, s3, 1);
        lemma_reads_binary(src, s3, 1);
        let (expr, s4) = src.binary_expr(s3, 1);
        if let Some(expr) = expr {
            lemma_expect(src, s4, TokenKind::RParen);
            let s5 = src.expect(s4, TokenKind::RParen).1;
            lemma_grouping(src, s5);
            lemma_reads_grouping(src, s5);
            lemma_onward(src, s4, s5);
            let e = src.aggregation(s).0->0;
            let grouping = e.kind->grouping;
            lemma_opened(src, s, before, s1);
            assert(opened_at(src, grouping, s.pos, s1.pos));
            let r = if before is Some {
                s.pos + 1
            } else {
                s5.pos
            };
            lemma_aggregation_tree(src, e, s.pos, s1.pos, s3.pos, r);
        }
    }
}

/// Where an aggregation is opened the token behind its name starts a grouping or is the opening
/// parenthesis.
proof fn lemma_opened(src: Source, s: At, before: Option<GroupingV>, s1: At)
    requires
        src.lexed(),
        src.valid(s),
        src.peek(s) == TokenKind::Ident,
        (before, s1) == src.opt_grouping(s.next()),
        src.peek(s1) == TokenKind::LParen,
    ensures
        match before {
            Some(_) => opened_at(src, before, s.pos, s1.pos),
            None => forall|g: Option<GroupingV>| #[trigger] opened_at(src, g, s.pos, s1.pos),
        },
{
    lemma_next(src, s);
    lemma_grouping(src, s.next());
    lemma_reads_grouping(src, s.next());
    assert(src.reads(s1.pos));
    reveal_strlit("(");
    reveal_strlit("by");
    reveal_strlit("without");
    assert("("@.len() == 1 && "by"@.len() == 2 && "without"@.len() == 7);
}

proof fn lemma_reads_unary(src: Source, s: At)
    requires
        src.lexed(),
        src.valid(s),
    ensures
        match src.unary_expr(s).0 {
            Some(e) => tree_at(src, e, s.pos),
            None => true,
        },
    decreases src.tokens.len() - s.pos, 1int,
{
    let tok = src.token(s);
    assert(src.reads(s.pos));
    if src.peek(s) == TokenKind::LBrace {
        lemma_reads_log_query(src, s);
    } else if src.peek(s) == TokenKind::LParen {
        lemma_reads_paren(src, s);
    } else if src.peek(s) == TokenKind::Ident {
        lemma_function_names(src.text_of(tok));
        match keyword_kind(src.text_of(tok)) {
            KeywordKind::RangeFunction => {
                lemma_reads_range(src, s);
            },
            KeywordKind::AggregationOp => {
                lemma_reads_aggregation(src, s);
            },
            _ => {},
        }
    }
}

proof fn lemma_reads_rest(src: Source, s: At, lhs: ExprV, min_prec: u8, from: At)
    requires
        src.lexed(),
        src.valid(s),
        tree_from(src, Some(lhs), from, s),
        tree_at(src, lhs, from.pos),
        from.pos < s.pos,
    ensures
        tree_at(src, src.binary_rest(s, lhs, min_prec).0, from.pos),
    decreases src.tokens.len() - s.pos, 2int,
{
    if let Some((op, prec)) = binary_op(src, s) {
        if prec >= min_prec {
            let next_prec = if op == BinOpKind::Pow {
                prec
            } else {
                (prec + 1) as u8
            };
            lemma_next(src, s);
            lemma_binary_expr(src, s.next(), next_prec);
            lemma_reads_binary(src, s.next(), next_prec);
            let (rhs, s1) = src.binary_expr(s.next(), next_prec);
            lemma_onward(src, s, s1);
            if let Some(rhs) = rhs {
                lemma_onward(src, s, s.next());
                assert(src.reads(s.pos));
                let e = bin_op(op, lhs, rhs);
                assert(src.word(s.pos) == binary_sign(op));
                lemma_binary_tree(src, op, lhs, rhs, from.pos, s.pos);
                lemma_reads_rest(src, s1, e, min_prec, from);
            }
        }
    }
}

proof fn lemma_reads_binary(src: Source, s: At, min_prec: u8)
    requires
        src.lexed(),
        src.valid(s),
    ensures
        match src.binary_expr(s, min_prec).0 {
            Some(e) => tree_at(src, e, s.pos),
            None => true,
        },
    decreases src.tokens.len() - s.pos, 3int,
{
    lemma_unary_expr(src, s);
    lemma_reads_unary(src, s);
    let (lhs, s1) = src.unary_expr(s);
    if let Some(lhs) = lhs {
        if s.pos < s1.pos {
            lemma_reads_rest(src, s1, lhs, min_prec, s);
        }
    }
}

/// Each node of the tree of a query reads as it is written there: matchers, stages, groupings,
/// parameters, ranges and literals as their tokens say, a binary operator as the sign between its
/// operands. A selector leaves out no complete matcher. The number before the operand is the
/// parameter of `topk`, `bottomk` and `quantile_over_time`, and of nothing else.
pub proof fn lemma_tree_reads(b: Seq<u8>)
    requires
        valid_utf8(b),
        b.len() <= usize::MAX,
    ensures
        match parse_of(b).0 {
            Some(e) => tree_at(
                Source { text: b, tokens: significant_tokens(tokens_of(b)) },
                e,
                0,
            ),
            None => true,
        },
{
    let src = Source { text: b, tokens: significant_tokens(tokens_of(b)) };
    lemma_lexed(b);
    lemma_reads_binary(src, At { pos: 0, errors: seq![] }, 1);
}

} // verus!
