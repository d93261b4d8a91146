//! Every span of a tree, an error or a diagnostic maps back to the query.

use crate::logql::analyzer::{
    analysis, check_aggregation, check_quantile, check_range_aggregation, error_if, DiagnosticV,
    ExprType,
};
use crate::logql::ast::{
    BinOpKind, ExprKindV, ExprV, LabelMatcherV, ParseErrorV, PipelineStageV, StreamSelectorV,
};
use crate::logql::parser::{
    bin_op, binary_op, line_filter, parse_of, significant, significant_tokens, At, Source,
};
use crate::logql::tokenizer::{
    keyword_kind, kind_name, lemma_tokens_cover, proper, tokens_of, well_placed, KeywordKind, Span,
    Token, TokenKind,
};
use vstd::prelude::*;
use vstd::utf8::*;

verus! {

// ── What it means to map back ────────────────────────────────────────────────

/// A span that is a slice of the text: it lies inside and cuts no character in
/// two.
pub open spec fn maps_back(b: Seq<u8>, span: Span) -> bool {
    &&& span.start <= span.end <= b.len()
    &&& is_char_boundary(b, span.start as int)
    &&& is_char_boundary(b, span.end as int)
}

/// All errors map back.
pub open spec fn errors_map_back(b: Seq<u8>, errors: Seq<ParseErrorV>) -> bool {
    forall|i: int| 0 <= i < errors.len() ==> maps_back(b, (#[trigger] errors[i]).span)
}

/// All diagnostics map back.
pub open spec fn diagnostics_map_back(b: Seq<u8>, diags: Seq<DiagnosticV>) -> bool {
    forall|i: int| 0 <= i < diags.len() ==> maps_back(b, (#[trigger] diags[i]).span)
}

/// Whether a span lies inside another.
pub open spec fn inside(inner: Span, outer: Span) -> bool {
    outer.start <= inner.start && inner.end <= outer.end
}

/// Matchers map back, inside a span.
pub open spec fn matchers_map_back(
    b: Seq<u8>,
    matchers: Seq<LabelMatcherV>,
    outer: Span,
) -> bool {
    forall|i: int|
        0 <= i < matchers.len() ==> maps_back(b, (#[trigger] matchers[i]).span) && inside(
            matchers[i].span,
            outer,
        )
}

/// A selector maps back, with its matchers inside it.
pub open spec fn selector_maps_back(b: Seq<u8>, selector: StreamSelectorV) -> bool {
    &&& maps_back(b, selector.span)
    &&& matchers_map_back(b, selector.matchers, selector.span)
}

/// Stages map back, inside a span.
pub open spec fn pipeline_maps_back(
    b: Seq<u8>,
    pipeline: Seq<PipelineStageV>,
    outer: Span,
) -> bool {
    forall|i: int|
        0 <= i < pipeline.len() ==> maps_back(b, (#[trigger] pipeline[i]).span()) && inside(
            pipeline[i].span(),
            outer,
        )
}

/// All nodes of a tree map back, each inside its parent.
pub open spec fn tree_maps_back(b: Seq<u8>, e: ExprV) -> bool
    decreases e,
{
    &&& maps_back(b, e.span)
    &&& match e.kind {
        ExprKindV::LogQuery { selector, pipeline } => {
            &&& selector_maps_back(b, selector)
            &&& inside(selector.span, e.span)
            &&& pipeline_maps_back(b, pipeline, e.span)
        },
        ExprKindV::RangeAggregation { log_query, param, .. } => {
            &&& tree_maps_back(b, *log_query)
            &&& inside(log_query.span, e.span)
            &&& match param {
                Some(p) => tree_maps_back(b, *p) && inside(p.span, e.span),
                None => true,
            }
        },
        ExprKindV::Aggregation { expr, grouping, param, .. } => {
            &&& tree_maps_back(b, *expr)
            &&& inside(expr.span, e.span)
            &&& match grouping {
                Some(g) => maps_back(b, g.span) && inside(g.span, e.span),
                None => true,
            }
            &&& match param {
                Some(p) => tree_maps_back(b, *p) && inside(p.span, e.span),
                None => true,
            }
        },
        ExprKindV::BinOp { lhs, rhs, .. } => {
            &&& tree_maps_back(b, *lhs)
            &&& inside(lhs.span, e.span)
            &&& tree_maps_back(b, *rhs)
            &&& inside(rhs.span, e.span)
        },
        ExprKindV::NumberLit(_) => true,
        ExprKindV::StringLit(_) => true,
        ExprKindV::Paren(inner) => tree_maps_back(b, *inner) && inside(inner.span, e.span),
    }
}

// ── Tokens ───────────────────────────────────────────────────────────────────

impl Source {
    /// The tokens follow one another in the text, and only the last is `Eof`.
    pub open spec fn ordered(self) -> bool {
        &&& self.tokens.len() > 0
        &&& self.tokens.last().kind == TokenKind::Eof
        &&& forall|i: int| 0 <= i < self.tokens.len() - 1 ==> proper(#[trigger] self.tokens[i])
        &&& forall|i: int|
            0 <= i < self.tokens.len() ==> well_placed(#[trigger] self.tokens[i], self.text)
        &&& forall|i: int, j: int|
            #![trigger self.tokens[i], self.tokens[j]]
            0 <= i < j < self.tokens.len() ==> self.tokens[i].span.end <= self.tokens[j].span.start
    }

    /// A position among the tokens, with errors that map back.
    pub open spec fn valid(self, s: At) -> bool {
        &&& 0 <= s.pos < self.tokens.len()
        &&& errors_map_back(self.text, s.errors)
    }

    /// `s1` is a valid position not before `s`.
    pub open spec fn onward(self, s: At, s1: At) -> bool {
        &&& self.valid(s1)
        &&& s.pos <= s1.pos
    }

    /// A place between characters, from `lo` on, not behind the token at `s`.
    pub open spec fn place(self, at: usize, lo: usize, s: At) -> bool {
        &&& lo <= at <= self.token(s).span.start
        &&& at <= self.text.len()
        &&& is_char_boundary(self.text, at as int)
    }
}

pub(crate) proof fn lemma_significant(tokens: Seq<Token>, b: Seq<u8>)
    requires
        forall|i: int| 0 <= i < tokens.len() ==> well_placed(#[trigger] tokens[i], b),
        forall|i: int, j: int|
            #![trigger tokens[i], tokens[j]]
            0 <= i && j == i + 1 && j < tokens.len() ==> tokens[i].span.end == tokens[j].span.start,
        forall|i: int| 0 <= i < tokens.len() - 1 ==> proper(#[trigger] tokens[i]),
    ensures
        ({
            let kept = significant_tokens(tokens);
            &&& forall|i: int| 0 <= i < kept.len() ==> well_placed(#[trigger] kept[i], b)
            &&& forall|i: int|
                0 <= i < kept.len() ==> (#[trigger] kept[i]).span.end <= tokens.last().span.end
            &&& forall|i: int, j: int|
                #![trigger kept[i], kept[j]]
                0 <= i < j < kept.len() ==> kept[i].span.end <= kept[j].span.start
            &&& forall|i: int| 0 <= i < kept.len() - 1 ==> proper(#[trigger] kept[i])
            &&& tokens.len() > 0 && significant(tokens.last()) ==> kept.len() > 0 && kept.last()
                == tokens.last()
            &&& tokens.len() > 0 && proper(tokens.last()) ==> forall|i: int|
                0 <= i < kept.len() ==> proper(#[trigger] kept[i])
        }),
    decreases tokens.len(),
{
    if tokens.len() > 0 {
        let init = tokens.drop_last();
        assert forall|i: int| 0 <= i < init.len() implies proper(#[trigger] init[i]) by {
            assert(init[i] == tokens[i]);
        }
        lemma_significant(init, b);
        let kept = significant_tokens(tokens);
        let before = significant_tokens(init);
        if init.len() > 0 {
            assert(init.last() == tokens[tokens.len() - 2]);
            assert(tokens[tokens.len() - 2].span.end == tokens[tokens.len() - 1].span.start);
            assert(proper(init.last()));
        }
        if significant(tokens.last()) {
            assert(kept == before.push(tokens.last()));
            assert(kept.last() == tokens.last());
        } else {
            assert(kept == before);
        }
    }
}

/// The significant tokens of a text follow one another.
pub proof fn lemma_ordered(b: Seq<u8>)
    requires
        valid_utf8(b),
        b.len() <= usize::MAX,
    ensures
        (Source { text: b, tokens: significant_tokens(tokens_of(b)) }).ordered(),
{
    lemma_tokens_cover(b);
    lemma_significant(tokens_of(b), b);
}

pub(crate) proof fn lemma_next(src: Source, s: At)
    requires
        src.ordered(),
        src.valid(s),
        src.peek(s) != TokenKind::Eof,
    ensures
        src.valid(s.next()),
        src.token(s).span.end <= src.token(s.next()).span.start,
{
}

/// Tokens further on stand further on in the text.
pub(crate) proof fn lemma_onward(src: Source, s: At, s1: At)
    requires
        src.ordered(),
        src.valid(s),
        src.onward(s, s1),
    ensures
        src.token(s).span.start <= src.token(s1).span.start,
        s.pos < s1.pos ==> src.token(s).span.end <= src.token(s1).span.start,
{
    assert(well_placed(src.tokens[s.pos], src.text));
    if s.pos < s1.pos {
        assert(src.tokens[s.pos].span.end <= src.tokens[s1.pos].span.start);
    }
}

pub(crate) proof fn lemma_fail(src: Source, s: At, message: Seq<char>, span: Span)
    requires
        src.valid(s),
        maps_back(src.text, span),
    ensures
        src.valid(s.fail(message, span)),
{
}

pub(crate) proof fn lemma_expect(src: Source, s: At, kind: TokenKind)
    requires
        src.ordered(),
        src.valid(s),
        kind != TokenKind::Eof,
    ensures
        src.onward(s, src.expect(s, kind).1),
        match src.expect(s, kind).0 {
            Some(t) => {
                &&& t == src.token(s)
                &&& src.expect(s, kind).1.pos == s.pos + 1
                &&& maps_back(src.text, t.span)
                &&& t.span.end <= src.token(src.expect(s, kind).1).span.start
            },
            None => src.expect(s, kind).1.pos == s.pos,
        },
{
    assert(well_placed(src.tokens[s.pos], src.text));
    if src.peek(s) == kind {
        lemma_next(src, s);
    }
}

pub(crate) proof fn lemma_skip_to_sync(src: Source, s: At)
    requires
        src.ordered(),
        src.valid(s),
    ensures
        src.onward(s, src.skip_to_sync(s)),
    decreases src.tokens.len() - s.pos,
{
    if src.peek(s) != TokenKind::Eof {
        lemma_next(src, s);
        if src.skip_to_sync(s) != s {
            lemma_skip_to_sync(src, s.next());
        }
    }
}

// ── Selectors ────────────────────────────────────────────────────────────────

pub(crate) proof fn lemma_label_matcher(src: Source, s: At)
    requires
        src.ordered(),
        src.valid(s),
    ensures
        src.onward(s, src.label_matcher(s).1),
        match src.label_matcher(s).0 {
            Some(m) => {
                &&& maps_back(src.text, m.span)
                &&& src.token(s).span.start <= m.span.start
                &&& m.span.end <= src.token(src.label_matcher(s).1).span.start
            },
            None => true,
        },
{
    lemma_expect(src, s, TokenKind::Ident);
    let (found, s1) = src.expect(s, TokenKind::Ident);
    assert(well_placed(src.tokens[s1.pos], src.text));
    if found is Some && src.label_matcher(s).0 is Some {
        lemma_next(src, s1);
        lemma_expect(src, s1.next(), TokenKind::String);
    } else if found is Some && src.peek(s1) != TokenKind::Eof {
        lemma_next(src, s1);
        lemma_expect(src, s1.next(), TokenKind::String);
    }
}

/// Matchers map back and follow one another from `lo` on, up to the token at `s`.
pub open spec fn matchers_between(src: Source, acc: Seq<LabelMatcherV>, lo: usize, s: At) -> bool {
    &&& forall|i: int|
        0 <= i < acc.len() ==> {
            &&& maps_back(src.text, (#[trigger] acc[i]).span)
            &&& lo <= acc[i].span.start
            &&& acc[i].span.end <= acc.last().span.end
        }
    &&& acc.len() > 0 ==> acc.last().span.end <= src.token(s).span.start
}

pub(crate) proof fn lemma_label_matchers(src: Source, s: At, acc: Seq<LabelMatcherV>, lo: usize)
    requires
        src.ordered(),
        src.valid(s),
        lo <= src.token(s).span.start,
        matchers_between(src, acc, lo, s),
    ensures
        src.onward(s, src.label_matchers(s, acc).1),
        matchers_between(src, src.label_matchers(s, acc).0, lo, src.label_matchers(s, acc).1),
    decreases src.tokens.len() - s.pos,
{
    if src.peek(s) != TokenKind::RBrace && src.peek(s) != TokenKind::Eof {
        lemma_label_matcher(src, s);
        let (m, s1) = src.label_matcher(s);
        match m {
            None => {
                lemma_skip_to_sync(src, s1);
                lemma_onward(src, s, src.skip_to_sync(s1));
            },
            Some(m) => {
                if src.peek(s1) == TokenKind::Comma {
                    lemma_next(src, s1);
                }
                let s2 = src.skip_comma(s1);
                lemma_onward(src, s1, s2);
                lemma_onward(src, s, s2);
                let more = acc.push(m);
                assert(matchers_between(src, more, lo, s2));
                if s.pos < s2.pos {
                    lemma_label_matchers(src, s2, more, lo);
                }
            },
        }
    }
}

pub(crate) proof fn lemma_stream_selector(src: Source, s: At)
    requires
        src.ordered(),
        src.valid(s),
    ensures
        src.onward(s, src.stream_selector(s).1),
        match src.stream_selector(s).0 {
            Some(selector) => {
                &&& selector_maps_back(src.text, selector)
                &&& selector.span.start == src.token(s).span.start
                &&& selector.span.end <= src.token(src.stream_selector(s).1).span.start
            },
            None => true,
        },
{
    lemma_expect(src, s, TokenKind::LBrace);
    let (open, s1) = src.expect(s, TokenKind::LBrace);
    if let Some(open) = open {
        lemma_label_matchers(src, s1, seq![], open.span.end);
        let (matchers, s2) = src.label_matchers(s1, seq![]);
        lemma_expect(src, s2, TokenKind::RBrace);
        lemma_onward(src, s1, s2);
        assert(well_placed(src.tokens[s2.pos], src.text));
        if matchers.len() > 0 {
            assert(maps_back(src.text, matchers.last().span));
        }
    }
}

// ── Pipelines ────────────────────────────────────────────────────────────────

/// A stage that starts at `start` maps back, and ends before the token at `s`.
pub open spec fn stage_from(src: Source, stage: Option<PipelineStageV>, start: usize, s: At) -> bool {
    match stage {
        Some(stage) => {
            &&& maps_back(src.text, stage.span())
            &&& stage.span().start == start
            &&& stage.span().end <= src.token(s).span.start
        },
        None => true,
    }
}

pub(crate) proof fn lemma_filter_stage(src: Source, s: At)
    requires
        src.ordered(),
        src.valid(s),
        src.peek(s) != TokenKind::Eof,
    ensures
        src.onward(s, src.filter_stage(s).1),
        stage_from(
            src,
            src.filter_stage(s).0,
            src.token(s).span.start,
            src.filter_stage(s).1,
        ),
{
    lemma_next(src, s);
    lemma_expect(src, s.next(), TokenKind::String);
    assert(well_placed(src.tokens[s.pos], src.text));
}

pub(crate) proof fn lemma_parser_stage(src: Source, s: At, start: usize)
    requires
        src.ordered(),
        src.valid(s),
        src.peek(s) != TokenKind::Eof,
        src.place(start, 0, s),
    ensures
        src.onward(s, src.parser_stage(s, start).1),
        stage_from(
            src,
            src.parser_stage(s, start).0,
            start,
            src.parser_stage(s, start).1,
        ),
{
    lemma_next(src, s);
    assert(well_placed(src.tokens[s.pos], src.text));
    let s1 = s.next();
    assert(well_placed(src.tokens[s1.pos], src.text));
    if src.peek(s1) == TokenKind::String {
        lemma_next(src, s1);
    }
}

pub(crate) proof fn lemma_mapping(src: Source, s: At)
    requires
        src.ordered(),
        src.valid(s),
        src.peek(s) != TokenKind::Eof,
    ensures
        src.onward(s, src.mapping(s).1),
        src.mapping(s).1.pos > s.pos,
        match src.mapping(s).0 {
            Some((_, end)) => src.place(end, src.token(s).span.start, src.mapping(s).1),
            None => true,
        },
{
    lemma_next(src, s);
    assert(well_placed(src.tokens[s.pos], src.text));
    let s1 = s.next();
    if src.peek(s1) == TokenKind::Eq {
        lemma_next(src, s1);
        let s2 = s1.next();
        assert(well_placed(src.tokens[s2.pos], src.text));
        assert(src.tokens[s.pos].span.end <= src.tokens[s2.pos].span.start);
        if src.peek(s2) == TokenKind::String || src.peek(s2) == TokenKind::Ident {
            lemma_next(src, s2);
        }
    }
}

pub(crate) proof fn lemma_mappings(
    src: Source,
    s: At,
    acc: Seq<(Seq<char>, Seq<char>)>,
    end: usize,
    lo: usize,
)
    requires
        src.ordered(),
        src.valid(s),
        src.place(end, lo, s),
    ensures
        src.onward(s, src.mappings(s, acc, end).2),
        src.place(src.mappings(s, acc, end).1, lo, src.mappings(s, acc, end).2),
    decreases src.tokens.len() - s.pos,
{
    if src.peek(s) == TokenKind::Ident {
        lemma_mapping(src, s);
        let (m, s1) = src.mapping(s);
        lemma_onward(src, s, s1);
        if let Some((m, end)) = m {
            if src.peek(s1) == TokenKind::Comma {
                lemma_next(src, s1);
                lemma_mappings(src, s1.next(), acc.push(m), end, lo);
            }
        }
    }
}

pub(crate) proof fn lemma_formatter_stage(src: Source, s: At, start: usize)
    requires
        src.ordered(),
        src.valid(s),
        src.peek(s) != TokenKind::Eof,
        src.place(start, 0, s),
    ensures
        src.onward(s, src.formatter_stage(s, start).1),
        stage_from(
            src,
            src.formatter_stage(s, start).0,
            start,
            src.formatter_stage(s, start).1,
        ),
{
    lemma_next(src, s);
    assert(well_placed(src.tokens[s.pos], src.text));
    lemma_expect(src, s.next(), TokenKind::String);
    let end = src.token(s).span.end;
    lemma_mappings(src, s.next(), seq![], end, end);
}

pub(crate) proof fn lemma_labels(src: Source, s: At, acc: Seq<Seq<char>>, end: usize, lo: usize)
    requires
        src.ordered(),
        src.valid(s),
        src.place(end, lo, s),
    ensures
        src.onward(s, src.labels(s, acc, end).2),
        src.place(src.labels(s, acc, end).1, lo, src.labels(s, acc, end).2),
    decreases src.tokens.len() - s.pos,
{
    if src.peek(s) == TokenKind::Ident {
        lemma_next(src, s);
        assert(well_placed(src.tokens[s.pos], src.text));
        let s1 = s.next();
        if src.peek(s1) == TokenKind::Comma {
            lemma_next(src, s1);
            let label = src.token(s);
            lemma_labels(src, s1.next(), acc.push(src.text_of(label)), label.span.end, lo);
        }
    }
}

pub(crate) proof fn lemma_label_op_stage(src: Source, s: At, start: usize)
    requires
        src.ordered(),
        src.valid(s),
        src.peek(s) != TokenKind::Eof,
        src.place(start, 0, s),
    ensures
        src.onward(s, src.label_op_stage(s, start).1),
        stage_from(
            src,
            src.label_op_stage(s, start).0,
            start,
            src.label_op_stage(s, start).1,
        ),
{
    lemma_next(src, s);
    assert(well_placed(src.tokens[s.pos], src.text));
    let end = src.token(s).span.end;
    lemma_labels(src, s.next(), seq![], end, end);
}

pub(crate) proof fn lemma_unwrap_stage(src: Source, s: At, start: usize)
    requires
        src.ordered(),
        src.valid(s),
        src.peek(s) != TokenKind::Eof,
        src.place(start, 0, s),
    ensures
        src.onward(s, src.unwrap_stage(s, start).1),
        stage_from(
            src,
            src.unwrap_stage(s, start).0,
            start,
            src.unwrap_stage(s, start).1,
        ),
{
    lemma_next(src, s);
    let s1 = s.next();
    assert(well_placed(src.tokens[s1.pos], src.text));
    if src.peek(s1) == TokenKind::Ident {
        lemma_next(src, s1);
        let s2 = s1.next();
        if src.peek(s2) == TokenKind::LParen {
            lemma_next(src, s2);
            lemma_expect(src, s2.next(), TokenKind::Ident);
            let (label, s3) = src.expect(s2.next(), TokenKind::Ident);
            lemma_expect(src, s3, TokenKind::RParen);
            assert(src.tokens[s1.pos].span.end <= src.tokens[s2.next().pos].span.start);
            assert(src.tokens[s1.pos].span.end <= src.tokens[s3.pos].span.start);
        }
    }
}

pub(crate) proof fn lemma_label_filter(src: Source, s: At, start: usize)
    requires
        src.ordered(),
        src.valid(s),
        src.peek(s) != TokenKind::Eof,
        src.place(start, 0, s),
    ensures
        src.onward(s, src.label_filter_or_error(s, start).1),
        stage_from(
            src,
            src.label_filter_or_error(s, start).0,
            start,
            src.label_filter_or_error(s, start).1,
        ),
{
    lemma_next(src, s);
    let ident = src.token(s);
    assert(well_placed(src.tokens[s.pos], src.text));
    let s1 = s.next();
    let message = "unexpected '"@ + src.text_of(ident) + "' in pipeline"@;
    let span = Span { start, end: ident.span.end };
    lemma_fail(src, s1, message, span);
    lemma_skip_to_sync(src, s1.fail(message, span));
    if src.peek(s1) != TokenKind::Eof {
        lemma_next(src, s1);
        let s2 = s1.next();
        assert(well_placed(src.tokens[s2.pos], src.text));
        assert(src.tokens[s.pos].span.end <= src.tokens[s2.pos].span.start);
        if src.peek(s2) == TokenKind::String || src.peek(s2) == TokenKind::Number {
            lemma_next(src, s2);
        }
    }
}

pub(crate) proof fn lemma_pipe_stage(src: Source, s: At)
    requires
        src.ordered(),
        src.valid(s),
        src.peek(s) != TokenKind::Eof,
    ensures
        src.onward(s, src.pipe_stage(s).1),
        stage_from(
            src,
            src.pipe_stage(s).0,
            src.token(s).span.start,
            src.pipe_stage(s).1,
        ),
{
    lemma_next(src, s);
    assert(well_placed(src.tokens[s.pos], src.text));
    let start = src.token(s).span.start;
    let s1 = s.next();
    assert(well_placed(src.tokens[s1.pos], src.text));
    if src.peek(s1) != TokenKind::Ident {
        let message = "expected stage keyword after '|', found "@
            + kind_name(src.peek(s1));
        lemma_fail(src, s1, message, src.token(s1).span);
        lemma_skip_to_sync(src, s1.fail(message, src.token(s1).span));
    } else {
        lemma_parser_stage(src, s1, start);
        lemma_formatter_stage(src, s1, start);
        lemma_label_op_stage(src, s1, start);
        lemma_unwrap_stage(src, s1, start);
        lemma_label_filter(src, s1, start);
    }
}

pub(crate) proof fn lemma_pipeline(src: Source, s: At, acc: Seq<PipelineStageV>, end: usize, lo: usize)
    requires
        src.ordered(),
        src.valid(s),
        src.place(end, lo, s),
        pipeline_maps_back(src.text, acc, (Span { start: lo, end })),
    ensures
        src.onward(s, src.pipeline(s, acc, end).2),
        end <= src.pipeline(s, acc, end).1,
        src.place(src.pipeline(s, acc, end).1, lo, src.pipeline(s, acc, end).2),
        pipeline_maps_back(
            src.text,
            src.pipeline(s, acc, end).0,
            (Span { start: lo, end: src.pipeline(s, acc, end).1 }),
        ),
    decreases src.tokens.len() - s.pos,
{
    if line_filter(src.peek(s)) || src.peek(s) == TokenKind::Pipe {
        lemma_filter_stage(src, s);
        lemma_pipe_stage(src, s);
        let (stage, s1) = if line_filter(src.peek(s)) {
            src.filter_stage(s)
        } else {
            src.pipe_stage(s)
        };
        lemma_onward(src, s, s1);
        if s.pos < s1.pos {
            match stage {
                Some(stage) => {
                    lemma_pipeline(src, s1, acc.push(stage), stage.span().end, lo);
                },
                None => {
                    lemma_pipeline(src, s1, acc, end, lo);
                },
            }
        }
    }
}

/// An optional tree maps back, starts with the token at `s` and ends before that
/// at `s1`.
pub open spec fn tree_from(src: Source, e: Option<ExprV>, s: At, s1: At) -> bool {
    match e {
        Some(e) => {
            &&& tree_maps_back(src.text, e)
            &&& src.token(s).span.start == e.span.start
            &&& e.span.end <= src.token(s1).span.start
        },
        None => true,
    }
}

pub(crate) proof fn lemma_log_query(src: Source, s: At)
    requires
        src.ordered(),
        src.valid(s),
    ensures
        src.onward(s, src.log_query(s).1),
        tree_from(src, src.log_query(s).0, s, src.log_query(s).1),
{
    lemma_stream_selector(src, s);
    let (selector, s1) = src.stream_selector(s);
    if let Some(selector) = selector {
        let lo = src.token(s).span.start;
        assert(well_placed(src.tokens[s.pos], src.text));
        lemma_pipeline(src, s1, seq![], selector.span.end, lo);
    }
}

// ── Expressions ──────────────────────────────────────────────────────────────

pub(crate) proof fn lemma_grouping(src: Source, s: At)
    requires
        src.ordered(),
        src.valid(s),
    ensures
        src.onward(s, src.opt_grouping(s).1),
        match src.opt_grouping(s).0 {
            Some(g) => {
                &&& maps_back(src.text, g.span)
                &&& src.token(s).span.start <= g.span.start
                &&& g.span.end <= src.token(src.opt_grouping(s).1).span.start
            },
            None => true,
        },
{
    if src.at_grouping(s) {
        lemma_next(src, s);
        assert(well_placed(src.tokens[s.pos], src.text));
        lemma_expect(src, s.next(), TokenKind::LParen);
        let (open, s1) = src.expect(s.next(), TokenKind::LParen);
        if open is Some {
            let end = src.token(s).span.end;
            lemma_onward(src, s, s1);
            lemma_labels(src, s1, seq![], end, end);
            let s2 = src.labels(s1, seq![], end).2;
            lemma_expect(src, s2, TokenKind::RParen);
            lemma_onward(src, s, s2);
            assert(well_placed(src.tokens[s2.pos], src.text));
        }
    }
}

pub(crate) proof fn lemma_param(src: Source, s: At, wanted: bool)
    requires
        src.ordered(),
        src.valid(s),
    ensures
        src.onward(s, src.opt_param(s, wanted).1),
        match src.opt_param(s, wanted).0 {
            Some(p) => tree_from(src, Some(*p), s, src.opt_param(s, wanted).1),
            None => true,
        },
{
    assert(well_placed(src.tokens[s.pos], src.text));
    if wanted && src.peek(s) == TokenKind::Number {
        lemma_next(src, s);
        if src.peek(s.next()) == TokenKind::Comma {
            lemma_next(src, s.next());
        }
    }
}

#[verifier::rlimit(40)]
pub(crate) proof fn lemma_range_aggregation(src: Source, s: At)
    requires
        src.ordered(),
        src.valid(s),
        src.peek(s) != TokenKind::Eof,
    ensures
        src.onward(s, src.range_aggregation(s).1),
        tree_from(src, src.range_aggregation(s).0, s, src.range_aggregation(s).1),
{
    lemma_next(src, s);
    assert(well_placed(src.tokens[s.pos], src.text));
    let func = src.text_of(src.token(s));
    lemma_expect(src, s.next(), TokenKind::LParen);
    let (open, s1) = src.expect(s.next(), TokenKind::LParen);
    if open is Some {
        lemma_param(src, s1, func == "quantile_over_time"@);
        let (param, s2) = src.opt_param(s1, func == "quantile_over_time"@);
        lemma_log_query(src, s2);
        let (query, s3) = src.log_query(s2);
        if query is Some {
            lemma_expect(src, s3, TokenKind::LBracket);
            let (bracket, s4) = src.expect(s3, TokenKind::LBracket);
            if bracket is Some {
                lemma_expect(src, s4, TokenKind::Duration);
                let (duration, s5) = src.expect(s4, TokenKind::Duration);
                if duration is Some {
                    lemma_expect(src, s5, TokenKind::RBracket);
                    let s6 = src.expect(s5, TokenKind::RBracket).1;
                    lemma_expect(src, s6, TokenKind::RParen);
                    lemma_onward(src, s, s1);
                    lemma_onward(src, s2, s3);
                    lemma_onward(src, s3, s4);
                    lemma_onward(src, s4, s6);
                    assert(well_placed(src.tokens[s2.pos], src.text));
                    assert(well_placed(src.tokens[s4.pos], src.text));
                    assert(well_placed(src.tokens[s6.pos], src.text));
                }
            }
        }
    }
}

pub(crate) proof fn lemma_paren_expr(src: Source, s: At)
    requires
        src.ordered(),
        src.valid(s),
        src.peek(s) != TokenKind::Eof,
    ensures
        src.onward(s, src.paren_expr(s).1),
        tree_from(src, src.paren_expr(s).0, s, src.paren_expr(s).1),
    decreases src.tokens.len() - s.pos, 0int,
{
    lemma_next(src, s);
    assert(well_placed(src.tokens[s.pos], src.text));
    lemma_binary_expr(src, s.next(), 1);
    let (inner, s1) = src.binary_expr(s.next(), 1);
    if inner is Some {
        lemma_expect(src, s1, TokenKind::RParen);
        lemma_onward(src, s, s1);
        assert(well_placed(src.tokens[s1.pos], src.text));
    }
}

#[verifier::rlimit(40)]
pub(crate) proof fn lemma_aggregation(src: Source, s: At)
    requires
        src.ordered(),
        src.valid(s),
        src.peek(s) != TokenKind::Eof,
    ensures
        src.onward(s, src.aggregation(s).1),
        tree_from(src, src.aggregation(s).0, s, src.aggregation(s).1),
    decreases src.tokens.len() - s.pos, 0int,
{
    lemma_next(src, s);
    assert(well_placed(src.tokens[s.pos], src.text));
    let op = src.text_of(src.token(s));
    lemma_grouping(src, s.next());
    let (before, s1) = src.opt_grouping(s.next());
    lemma_expect(src, s1, TokenKind::LParen);
    let (open, s2) = src.expect(s1, TokenKind::LParen);
    if open is Some {
        let wanted = op == "topk"@ || op == "bottomk"@;
        lemma_param(src, s2, wanted);
        let (param, s3) = src.opt_param(s2, wanted);
        lemma_binary_expr(src, s3, 1);
        let (expr, s4) = src.binary_expr(s3, 1);
        if expr is Some {
            lemma_expect(src, s4, TokenKind::RParen);
            let s5 = src.expect(s4, TokenKind::RParen).1;
            lemma_grouping(src, s5);
            lemma_onward(src, s, s3);
            lemma_onward(src, s, s2);
            lemma_onward(src, s1, s3);
            lemma_onward(src, s4, s5);
            assert(well_placed(src.tokens[s4.pos], src.text));
            assert(well_placed(src.tokens[s3.pos], src.text));
        }
    }
}

pub(crate) proof fn lemma_unary_expr(src: Source, s: At)
    requires
        src.ordered(),
        src.valid(s),
    ensures
        src.onward(s, src.unary_expr(s).1),
        tree_from(src, src.unary_expr(s).0, s, src.unary_expr(s).1),
    decreases src.tokens.len() - s.pos, 1int,
{
    let tok = src.token(s);
    assert(well_placed(src.tokens[s.pos], src.text));
    if src.peek(s) == TokenKind::Eof {
    } else if src.peek(s) == TokenKind::LBrace {
        lemma_log_query(src, s);
    } else if src.peek(s) == TokenKind::LParen {
        lemma_paren_expr(src, s);
    } else if src.peek(s) == TokenKind::Number || src.peek(s) == TokenKind::String {
        lemma_next(src, s);
    } else if src.peek(s) == TokenKind::Ident {
        let message = "unexpected identifier '"@ + src.text_of(tok) + "'"@;
        match keyword_kind(src.text_of(tok)) {
            KeywordKind::RangeFunction => {
                lemma_range_aggregation(src, s);
            },
            KeywordKind::AggregationOp => {
                lemma_aggregation(src, s);
            },
            _ => {
                lemma_fail(src, s, message, tok.span);
                lemma_skip_to_sync(src, s.fail(message, tok.span));
            },
        }
    } else {
        let message = "unexpected token "@ + kind_name(src.peek(s));
        lemma_fail(src, s, message, tok.span);
        lemma_skip_to_sync(src, s.fail(message, tok.span));
    }
}

pub(crate) proof fn lemma_binary_rest(src: Source, s: At, lhs: ExprV, min_prec: u8, from: At)
    requires
        src.ordered(),
        src.valid(s),
        tree_from(src, Some(lhs), from, s),
    ensures
        src.onward(s, src.binary_rest(s, lhs, min_prec).1),
        tree_from(
            src,
            Some(src.binary_rest(s, lhs, min_prec).0),
            from,
            src.binary_rest(s, lhs, min_prec).1,
        ),
    decreases src.tokens.len() - s.pos, 2int,
{
    if let Some((op, prec)) = binary_op(src, s) {
        if prec >= min_prec {
            let next_prec = if op == BinOpKind::Pow {
                prec
            } else {
                (prec + 1) as u8
            };
            lemma_next(src, s);
            lemma_binary_expr(src, s.next(), next_prec);
            let (rhs, s1) = src.binary_expr(s.next(), next_prec);
            lemma_onward(src, s, s1);
            if let Some(rhs) = rhs {
                lemma_onward(src, s, s.next());
                lemma_binary_rest(src, s1, bin_op(op, lhs, rhs), min_prec, from);
            }
        }
    }
}

pub(crate) proof fn lemma_binary_expr(src: Source, s: At, min_prec: u8)
    requires
        src.ordered(),
        src.valid(s),
    ensures
        src.onward(s, src.binary_expr(s, min_prec).1),
        tree_from(src, src.binary_expr(s, min_prec).0, s, src.binary_expr(s, min_prec).1),
    decreases src.tokens.len() - s.pos, 3int,
{
    lemma_unary_expr(src, s);
    let (lhs, s1) = src.unary_expr(s);
    if let Some(lhs) = lhs {
        if s.pos < s1.pos {
            lemma_binary_rest(src, s1, lhs, min_prec, s);
        }
    }
}

// ── Laws ─────────────────────────────────────────────────────────────────────

/// Every node of the tree of a query, and every error, has a span that maps back
/// to the query; the span of a node lies inside that of its parent.
pub proof fn lemma_parse_maps_back(b: Seq<u8>)
    requires
        valid_utf8(b),
        b.len() <= usize::MAX,
    ensures
        match parse_of(b).0 {
            Some(e) => tree_maps_back(b, e),
            None => true,
        },
        errors_map_back(b, parse_of(b).1),
{
    let src = Source { text: b, tokens: significant_tokens(tokens_of(b)) };
    let start = At { pos: 0, errors: seq![] };
    lemma_ordered(b);
    lemma_binary_expr(src, start, 1);
    let s = src.binary_expr(start, 1).1;
    assert(well_placed(src.tokens[s.pos], b));
}

pub(crate) proof fn lemma_joined_map_back(b: Seq<u8>, x: Seq<DiagnosticV>, y: Seq<DiagnosticV>)
    requires
        diagnostics_map_back(b, x),
        diagnostics_map_back(b, y),
    ensures
        diagnostics_map_back(b, x + y),
{
}

pub(crate) proof fn lemma_checks_map_back(b: Seq<u8>, e: ExprV)
    requires
        tree_maps_back(b, e),
    ensures
        match e.kind {
            ExprKindV::RangeAggregation { func, log_query, param, .. } => diagnostics_map_back(
                b,
                check_range_aggregation(func, *log_query, param, e.span),
            ),
            ExprKindV::Aggregation { op, param, .. } => diagnostics_map_back(
                b,
                check_aggregation(op, param, e.span),
            ),
            _ => true,
        },
{
    match e.kind {
        ExprKindV::RangeAggregation { func, log_query, param, .. } => {
            if let Some(p) = param {
                assert(tree_maps_back(b, *p));
            }
            assert(diagnostics_map_back(b, check_quantile(func, param, e.span)));
        },
        _ => {},
    }
}

/// The diagnostics of a tree whose nodes map back map back.
pub proof fn lemma_analysis_maps_back(b: Seq<u8>, e: ExprV)
    requires
        tree_maps_back(b, e),
    ensures
        diagnostics_map_back(b, analysis(e).1),
    decreases e,
{
    lemma_checks_map_back(b, e);
    match e.kind {
        ExprKindV::RangeAggregation { func, log_query, param, .. } => {
            lemma_analysis_maps_back(b, *log_query);
            let checks = check_range_aggregation(func, *log_query, param, e.span);
            lemma_joined_map_back(b, checks, analysis(*log_query).1);
            let last = match param {
                Some(p) => analysis(*p).1,
                None => seq![],
            };
            if let Some(p) = param {
                lemma_analysis_maps_back(b, *p);
            }
            lemma_joined_map_back(b, checks + analysis(*log_query).1, last);
            assert(analysis(e).1 == checks + analysis(*log_query).1 + last);
        },
        ExprKindV::Aggregation { op, expr, param, .. } => {
            lemma_analysis_maps_back(b, *expr);
            let checks = check_aggregation(op, param, e.span);
            let inner = checks + analysis(*expr).1;
            let wrong = error_if(
                analysis(*expr).0 == ExprType::Logs,
                "'"@ + op
                    + "' requires a metric expression, got a log query; wrap with a range aggregation like rate(...)"@,
                expr.span,
            );
            let last = match param {
                Some(p) => analysis(*p).1,
                None => seq![],
            };
            if let Some(p) = param {
                lemma_analysis_maps_back(b, *p);
            }
            assert(tree_maps_back(b, *expr));
            lemma_joined_map_back(b, checks, analysis(*expr).1);
            lemma_joined_map_back(b, inner, wrong);
            lemma_joined_map_back(b, inner + wrong, last);
            assert(analysis(e).1 == inner + wrong + last);
        },
        ExprKindV::BinOp { lhs, rhs, .. } => {
            lemma_analysis_maps_back(b, *lhs);
            lemma_analysis_maps_back(b, *rhs);
            assert(tree_maps_back(b, *lhs) && tree_maps_back(b, *rhs));
        },
        ExprKindV::Paren(inner) => {
            lemma_analysis_maps_back(b, *inner);
        },
        _ => {},
    }
}

} // verus!
