//! Recursive-descent parser for LogQL with error recovery.
//!
//! Entry point: [`parse`]. It records [`ParseError`]s and skips to sync points,
//! so that it gives partial trees for incomplete queries.
//!
//! The grammar is stated as spec functions on a token position and the errors
//! so far; each parsing method computes the spec function of the same name.

use crate::logql::ast::{
    error_values, string_pairs, strings, BinOpKind, Expr, ExprKind, ExprKindV, ExprV, FilterOp,
    Grouping, GroupingV, LabelFilterOp, LabelMatcher, LabelMatcherV, LabelOpKind, MatchOp,
    ParseError, ParseErrorV, ParseResult, ParserKind, PipelineStage, PipelineStageV,
    StreamSelector, StreamSelectorV,
};
use crate::logql::tokenizer::{
    classify_keyword, cover, keyword_kind, kind_name, proper, tokenize, tokens_of, well_placed,
    KeywordKind, Span, Token, TokenKind,
};
use crate::text::{
    cat2, cat3, cat4, lemma_boundary_after_ascii, str_eq, substr, text_in,
};
use vstd::prelude::*;
use vstd::string::*;
use vstd::utf8::*;

verus! {

// ── Source and state ─────────────────────────────────────────────────────────

/// What is parsed: the text and its significant tokens.
pub ghost struct Source {
    pub text: Seq<u8>,
    pub tokens: Seq<Token>,
}

/// Where a parse stands: the next token and the errors so far.
pub ghost struct At {
    pub pos: int,
    pub errors: Seq<ParseErrorV>,
}

impl At {
    /// The position behind the next token.
    pub open spec fn next(self) -> At {
        At { pos: self.pos + 1, errors: self.errors }
    }

    /// The same position with one more error.
    pub open spec fn fail(self, message: Seq<char>, span: Span) -> At {
        At { pos: self.pos, errors: self.errors.push(ParseErrorV { message, span }) }
    }
}

impl Source {
    /// The next token.
    pub open spec fn token(self, s: At) -> Token {
        self.tokens[s.pos]
    }

    /// The kind of the next token.
    pub open spec fn peek(self, s: At) -> TokenKind {
        if 0 <= s.pos < self.tokens.len() {
            self.tokens[s.pos].kind
        } else {
            TokenKind::Eof
        }
    }

    /// The text of a token.
    pub open spec fn text_of(self, t: Token) -> Seq<char> {
        text_in(self.text, t.span.start as int, t.span.end as int)
    }

    /// The text of a string token without its delimiters.
    pub open spec fn string_of(self, t: Token) -> Seq<char> {
        if t.span.end - t.span.start < 2 {
            self.text_of(t)
        } else {
            text_in(self.text, t.span.start + 1, t.span.end - 1)
        }
    }

    /// The next token if it has the kind; an error otherwise.
    pub open spec fn expect(self, s: At, kind: TokenKind) -> (Option<Token>, At) {
        if self.peek(s) == kind {
            (Some(self.token(s)), s.next())
        } else {
            (
                None,
                s.fail(
                    "expected "@ + kind_name(kind) + ", found "@ + kind_name(self.peek(s)),
                    self.token(s).span,
                ),
            )
        }
    }

    /// The end of an optional token, or `end` without it.
    pub open spec fn end_or(t: Option<Token>, end: usize) -> usize {
        match t {
            Some(t) => t.span.end,
            None => end,
        }
    }

    /// Skips to the next sync point.
    pub open spec fn skip_to_sync(self, s: At) -> At
        decreases self.tokens.len() - s.pos,
    {
        if self.peek(s) == TokenKind::Eof || sync_point(self.peek(s)) {
            s
        } else {
            self.skip_to_sync(s.next())
        }
    }
}

/// Token kinds at which recovery stops.
pub open spec fn sync_point(kind: TokenKind) -> bool {
    line_filter(kind) || kind == TokenKind::Pipe || kind == TokenKind::RBrace || kind
        == TokenKind::RParen || kind == TokenKind::RBracket
}

/// Token kinds that start a line filter.
pub open spec fn line_filter(kind: TokenKind) -> bool {
    kind == TokenKind::PipeExact || kind == TokenKind::PipeMatch || kind == TokenKind::NotEqual
        || kind == TokenKind::NotMatch
}

// ── Grammar: selectors ───────────────────────────────────────────────────────

/// The matcher operator of a token kind.
pub open spec fn match_op(kind: TokenKind) -> Option<MatchOp> {
    match kind {
        TokenKind::Eq => Some(MatchOp::Eq),
        TokenKind::NotEqual => Some(MatchOp::Neq),
        TokenKind::EqRegex => Some(MatchOp::Re),
        TokenKind::NotMatch => Some(MatchOp::Nre),
        _ => None,
    }
}

impl Source {
    /// `name op "value"`
    pub open spec fn label_matcher(self, s: At) -> (Option<LabelMatcherV>, At) {
        let name = self.token(s);
        let (found, s1) = self.expect(s, TokenKind::Ident);
        if found is None {
            (None, s1)
        } else if match_op(self.peek(s1)) is None {
            (
                None,
                s1.fail(
                    "expected matcher operator, found "@ + kind_name(self.peek(s1)),
                    self.token(s1).span,
                ),
            )
        } else {
            let op = match_op(self.peek(s1))->0;
            let (value, s2) = self.expect(s1.next(), TokenKind::String);
            match value {
                None => (None, s2),
                Some(value) => (
                    Some(
                        LabelMatcherV {
                            name: self.text_of(name),
                            op,
                            value: self.string_of(value),
                            span: Span { start: name.span.start, end: value.span.end },
                        },
                    ),
                    s2,
                ),
            }
        }
    }

    /// Position behind an optional comma.
    pub open spec fn skip_comma(self, s: At) -> At {
        if self.peek(s) == TokenKind::Comma {
            s.next()
        } else {
            s
        }
    }

    /// The matchers up to the closing brace, behind those in `acc`.
    pub open spec fn label_matchers(self, s: At, acc: Seq<LabelMatcherV>) -> (
        Seq<LabelMatcherV>,
        At,
    )
        decreases self.tokens.len() - s.pos,
    {
        if self.peek(s) == TokenKind::RBrace || self.peek(s) == TokenKind::Eof {
            (acc, s)
        } else {
            let (m, s1) = self.label_matcher(s);
            match m {
                None => (acc, self.skip_to_sync(s1)),
                Some(m) => {
                    let s2 = self.skip_comma(s1);
                    if s.pos < s2.pos <= self.tokens.len() {
                        self.label_matchers(s2, acc.push(m))
                    } else {
                        (acc.push(m), s2)
                    }
                },
            }
        }
    }

    /// `{name="value", ...}`
    pub open spec fn stream_selector(self, s: At) -> (Option<StreamSelectorV>, At) {
        let (open, s1) = self.expect(s, TokenKind::LBrace);
        match open {
            None => (None, s1),
            Some(open) => {
                let (matchers, s2) = self.label_matchers(s1, seq![]);
                let (close, s3) = self.expect(s2, TokenKind::RBrace);
                let last = if matchers.len() > 0 {
                    matchers.last().span.end
                } else {
                    open.span.end
                };
                (
                    Some(
                        StreamSelectorV {
                            matchers,
                            span: Span { start: open.span.start, end: Self::end_or(close, last) },
                        },
                    ),
                    s3,
                )
            },
        }
    }
}

// ── Grammar: pipelines ───────────────────────────────────────────────────────

/// The line filter operator of a token kind.
pub open spec fn filter_op(kind: TokenKind) -> FilterOp {
    match kind {
        TokenKind::PipeExact => FilterOp::PipeExact,
        TokenKind::PipeMatch => FilterOp::PipeMatch,
        TokenKind::NotEqual => FilterOp::NotEqual,
        _ => FilterOp::NotMatch,
    }
}

/// The parser that a keyword names.
pub open spec fn parser_kind(text: Seq<char>) -> ParserKind {
    if text == "json"@ {
        ParserKind::Json
    } else if text == "logfmt"@ {
        ParserKind::Logfmt
    } else if text == "pattern"@ {
        ParserKind::Pattern
    } else if text == "regexp"@ {
        ParserKind::Regexp
    } else if text == "unpack"@ {
        ParserKind::Unpack
    } else {
        ParserKind::Pack
    }
}

/// The label filter operator of a token kind.
pub open spec fn label_filter_op(kind: TokenKind) -> Option<LabelFilterOp> {
    match kind {
        TokenKind::Eq => Some(LabelFilterOp::Eq),
        TokenKind::NotEqual => Some(LabelFilterOp::Neq),
        TokenKind::EqRegex => Some(LabelFilterOp::Re),
        TokenKind::NotMatch => Some(LabelFilterOp::Nre),
        TokenKind::CmpEq => Some(LabelFilterOp::CmpEq),
        TokenKind::Gt => Some(LabelFilterOp::Gt),
        TokenKind::GtEq => Some(LabelFilterOp::GtEq),
        TokenKind::Lt => Some(LabelFilterOp::Lt),
        TokenKind::LtEq => Some(LabelFilterOp::LtEq),
        _ => None,
    }
}

/// Whether `unwrap` knows the conversion.
pub open spec fn unwrap_conversion(text: Seq<char>) -> bool {
    text == "duration"@ || text == "duration_seconds"@ || text == "bytes"@
}

impl Source {
    /// `|= "text"` and its kin
    pub open spec fn filter_stage(self, s: At) -> (Option<PipelineStageV>, At) {
        let op = self.token(s);
        let (pattern, s1) = self.expect(s.next(), TokenKind::String);
        match pattern {
            None => (None, s1),
            Some(pattern) => (
                Some(
                    PipelineStageV::Filter {
                        op: filter_op(op.kind),
                        pattern: self.string_of(pattern),
                        span: Span { start: op.span.start, end: pattern.span.end },
                    },
                ),
                s1,
            ),
        }
    }

    /// `json`, or `regexp "pattern"`
    pub open spec fn parser_stage(self, s: At, start: usize) -> (Option<PipelineStageV>, At) {
        let ident = self.token(s);
        let kind = parser_kind(self.text_of(ident));
        let s1 = s.next();
        if self.peek(s1) == TokenKind::String {
            let param = self.token(s1);
            (
                Some(
                    PipelineStageV::Parser {
                        kind,
                        params: seq![self.string_of(param)],
                        span: Span { start, end: param.span.end },
                    },
                ),
                s1.next(),
            )
        } else {
            (
                Some(
                    PipelineStageV::Parser {
                        kind,
                        params: seq![],
                        span: Span { start, end: ident.span.end },
                    },
                ),
                s1,
            )
        }
    }

    /// One mapping of `label_format`: `dst="template"`, `dst=src` or `dst`.
    /// `None` where no value follows the `=`.
    pub open spec fn mapping(self, s: At) -> (Option<((Seq<char>, Seq<char>), usize)>, At) {
        let dst = self.token(s);
        let name = self.text_of(dst);
        let s1 = s.next();
        if self.peek(s1) == TokenKind::Eq {
            let s2 = s1.next();
            let value = self.token(s2);
            if self.peek(s2) == TokenKind::String {
                (Some(((name, self.string_of(value)), value.span.end)), s2.next())
            } else if self.peek(s2) == TokenKind::Ident {
                (Some(((name, self.text_of(value)), value.span.end)), s2.next())
            } else {
                (None, s2)
            }
        } else {
            (Some(((name, seq![]), dst.span.end)), s1)
        }
    }

    /// The mappings of `label_format` behind those in `acc`, and their end.
    pub open spec fn mappings(
        self,
        s: At,
        acc: Seq<(Seq<char>, Seq<char>)>,
        end: usize,
    ) -> (Seq<(Seq<char>, Seq<char>)>, usize, At)
        decreases self.tokens.len() - s.pos,
    {
        if self.peek(s) != TokenKind::Ident {
            (acc, end, s)
        } else {
            let (m, s1) = self.mapping(s);
            match m {
                None => (acc, end, s1),
                Some((m, end)) => if self.peek(s1) == TokenKind::Comma && s.pos < s1.pos {
                    self.mappings(s1.next(), acc.push(m), end)
                } else {
                    (acc.push(m), end, s1)
                },
            }
        }
    }

    /// `line_format "template"` or `label_format dst=src, ...`
    pub open spec fn formatter_stage(self, s: At, start: usize) -> (Option<PipelineStageV>, At) {
        let ident = self.token(s);
        if self.text_of(ident) == "line_format"@ {
            let (template, s1) = self.expect(s.next(), TokenKind::String);
            match template {
                None => (None, s1),
                Some(t) => (
                    Some(
                        PipelineStageV::LineFormat {
                            template: self.string_of(t),
                            span: Span { start, end: t.span.end },
                        },
                    ),
                    s1,
                ),
            }
        } else {
            let (mappings, end, s1) = self.mappings(s.next(), seq![], ident.span.end);
            (Some(PipelineStageV::LabelFormat { mappings, span: Span { start, end } }), s1)
        }
    }

    /// The comma separated identifiers behind those in `acc`, and their end.
    pub open spec fn labels(self, s: At, acc: Seq<Seq<char>>, end: usize) -> (
        Seq<Seq<char>>,
        usize,
        At,
    )
        decreases self.tokens.len() - s.pos,
    {
        if self.peek(s) != TokenKind::Ident {
            (acc, end, s)
        } else {
            let label = self.token(s);
            let all = acc.push(self.text_of(label));
            if self.peek(s.next()) == TokenKind::Comma {
                self.labels(s.next().next(), all, label.span.end)
            } else {
                (all, label.span.end, s.next())
            }
        }
    }

    /// `decolorize`, `drop a, b` or `keep a, b`
    pub open spec fn label_op_stage(self, s: At, start: usize) -> (Option<PipelineStageV>, At) {
        let ident = self.token(s);
        if self.text_of(ident) == "decolorize"@ {
            (
                Some(PipelineStageV::Decolorize { span: Span { start, end: ident.span.end } }),
                s.next(),
            )
        } else {
            let kind = if self.text_of(ident) == "drop"@ {
                LabelOpKind::Drop
            } else {
                LabelOpKind::Keep
            };
            let (labels, end, s1) = self.labels(s.next(), seq![], ident.span.end);
            (Some(PipelineStageV::LabelOp { kind, labels, span: Span { start, end } }), s1)
        }
    }

    /// `unwrap label` or `unwrap bytes(label)`
    pub open spec fn unwrap_stage(self, s: At, start: usize) -> (Option<PipelineStageV>, At) {
        let s1 = s.next();
        let ident = self.token(s1);
        if self.peek(s1) != TokenKind::Ident {
            (None, s1.fail("expected label name after 'unwrap'"@, ident.span))
        } else {
            let s2 = s1.next();
            if self.peek(s2) == TokenKind::LParen && unwrap_conversion(self.text_of(ident)) {
                let (label, s3) = self.expect(s2.next(), TokenKind::Ident);
                match label {
                    None => (None, s3),
                    Some(label) => {
                        let (close, s4) = self.expect(s3, TokenKind::RParen);
                        (
                            Some(
                                PipelineStageV::Unwrap {
                                    label: self.text_of(label),
                                    conversion: Some(self.text_of(ident)),
                                    span: Span { start, end: Self::end_or(close, label.span.end) },
                                },
                            ),
                            s4,
                        )
                    },
                }
            } else {
                (
                    Some(
                        PipelineStageV::Unwrap {
                            label: self.text_of(ident),
                            conversion: None,
                            span: Span { start, end: ident.span.end },
                        },
                    ),
                    s2,
                )
            }
        }
    }

    /// `name op value`, with a string or a number for the value
    pub open spec fn label_filter_or_error(self, s: At, start: usize) -> (
        Option<PipelineStageV>,
        At,
    ) {
        let ident = self.token(s);
        let name = self.text_of(ident);
        let s1 = s.next();
        match label_filter_op(self.peek(s1)) {
            None => (
                None,
                self.skip_to_sync(
                    s1.fail(
                        "unexpected '"@ + name + "' in pipeline"@,
                        Span { start, end: ident.span.end },
                    ),
                ),
            ),
            Some(op) => {
                let s2 = s1.next();
                let tok = self.token(s2);
                let span = Span { start, end: tok.span.end };
                if self.peek(s2) == TokenKind::String {
                    (
                        Some(
                            PipelineStageV::LabelFilter {
                                name,
                                op,
                                value: self.string_of(tok),
                                span,
                            },
                        ),
                        s2.next(),
                    )
                } else if self.peek(s2) == TokenKind::Number {
                    (
                        Some(
                            PipelineStageV::LabelFilter {
                                name,
                                op,
                                value: self.text_of(tok),
                                span,
                            },
                        ),
                        s2.next(),
                    )
                } else {
                    (None, s2.fail("expected value after comparison operator"@, tok.span))
                }
            },
        }
    }

    /// A stage that starts with `|`
    pub open spec fn pipe_stage(self, s: At) -> (Option<PipelineStageV>, At) {
        let start = self.token(s).span.start;
        let s1 = s.next();
        if self.peek(s1) != TokenKind::Ident {
            (
                None,
                self.skip_to_sync(
                    s1.fail(
                        "expected stage keyword after '|', found "@ + kind_name(self.peek(s1)),
                        self.token(s1).span,
                    ),
                ),
            )
        } else {
            match keyword_kind(self.text_of(self.token(s1))) {
                KeywordKind::PipelineParser => self.parser_stage(s1, start),
                KeywordKind::PipelineFormatter => self.formatter_stage(s1, start),
                KeywordKind::PipelineLabelOp => self.label_op_stage(s1, start),
                KeywordKind::FilterKeyword => self.unwrap_stage(s1, start),
                _ => self.label_filter_or_error(s1, start),
            }
        }
    }

    /// The stages behind those in `acc`, and their end.
    pub open spec fn pipeline(self, s: At, acc: Seq<PipelineStageV>, end: usize) -> (
        Seq<PipelineStageV>,
        usize,
        At,
    )
        decreases self.tokens.len() - s.pos,
    {
        if !line_filter(self.peek(s)) && self.peek(s) != TokenKind::Pipe {
            (acc, end, s)
        } else {
            let (stage, s1) = if line_filter(self.peek(s)) {
                self.filter_stage(s)
            } else {
                self.pipe_stage(s)
            };
            if s.pos < s1.pos <= self.tokens.len() {
                match stage {
                    Some(stage) => self.pipeline(s1, acc.push(stage), stage.span().end),
                    None => self.pipeline(s1, acc, end),
                }
            } else {
                (acc, end, s1)
            }
        }
    }

    /// A selector and its pipeline
    pub open spec fn log_query(self, s: At) -> (Option<ExprV>, At) {
        let (selector, s1) = self.stream_selector(s);
        match selector {
            None => (None, s1),
            Some(selector) => {
                let (pipeline, end, s2) = self.pipeline(s1, seq![], selector.span.end);
                (
                    Some(
                        ExprV {
                            kind: ExprKindV::LogQuery { selector, pipeline },
                            span: Span { start: selector.span.start, end },
                        },
                    ),
                    s2,
                )
            },
        }
    }
}

// ── Grammar: expressions ─────────────────────────────────────────────────────

/// The binary operator of the next token, with its precedence: 1 = or,
/// 2 = and/unless, 3 = comparisons, 4 = +/-, 5 = */%, 6 = ^.
pub open spec fn binary_op(src: Source, s: At) -> Option<(BinOpKind, u8)> {
    match src.peek(s) {
        TokenKind::Ident => {
            let text = src.text_of(src.token(s));
            if text == "or"@ {
                Some((BinOpKind::Or, 1u8))
            } else if text == "and"@ {
                Some((BinOpKind::And, 2u8))
            } else if text == "unless"@ {
                Some((BinOpKind::Unless, 2u8))
            } else {
                None
            }
        },
        TokenKind::CmpEq => Some((BinOpKind::CmpEq, 3u8)),
        TokenKind::NotEqual => Some((BinOpKind::Neq, 3u8)),
        TokenKind::Lt => Some((BinOpKind::Lt, 3u8)),
        TokenKind::Gt => Some((BinOpKind::Gt, 3u8)),
        TokenKind::LtEq => Some((BinOpKind::LtEq, 3u8)),
        TokenKind::GtEq => Some((BinOpKind::GtEq, 3u8)),
        TokenKind::Plus => Some((BinOpKind::Add, 4u8)),
        TokenKind::Minus => Some((BinOpKind::Sub, 4u8)),
        TokenKind::Star => Some((BinOpKind::Mul, 5u8)),
        TokenKind::Slash => Some((BinOpKind::Div, 5u8)),
        TokenKind::Percent => Some((BinOpKind::Mod, 5u8)),
        TokenKind::Caret => Some((BinOpKind::Pow, 6u8)),
        _ => None,
    }
}

/// `lhs op rhs`
pub open spec fn bin_op(op: BinOpKind, lhs: ExprV, rhs: ExprV) -> ExprV {
    ExprV {
        kind: ExprKindV::BinOp { op, lhs: Box::new(lhs), rhs: Box::new(rhs) },
        span: Span { start: lhs.span.start, end: rhs.span.end },
    }
}

impl Source {
    /// Whether the next token is `by` or `without`.
    pub open spec fn at_grouping(self, s: At) -> bool {
        self.peek(s) == TokenKind::Ident && {
            let text = self.text_of(self.token(s));
            text == "by"@ || text == "without"@
        }
    }

    /// `by (a, b)` or `without (a, b)`
    pub open spec fn grouping(self, s: At) -> (Option<GroupingV>, At) {
        let modifier = self.token(s);
        let (open, s1) = self.expect(s.next(), TokenKind::LParen);
        if open is None {
            (None, s1)
        } else {
            let (labels, _, s2) = self.labels(s1, seq![], modifier.span.end);
            let (close, s3) = self.expect(s2, TokenKind::RParen);
            (
                Some(
                    GroupingV {
                        without: self.text_of(modifier) == "without"@,
                        labels,
                        span: Span {
                            start: modifier.span.start,
                            end: Self::end_or(close, modifier.span.end),
                        },
                    },
                ),
                s3,
            )
        }
    }

    /// A grouping, where one stands.
    pub open spec fn opt_grouping(self, s: At) -> (Option<GroupingV>, At) {
        if self.at_grouping(s) {
            self.grouping(s)
        } else {
            (None, s)
        }
    }

    /// A number literal
    pub open spec fn number_lit(self, s: At) -> ExprV {
        let tok = self.token(s);
        ExprV { kind: ExprKindV::NumberLit(self.text_of(tok)), span: tok.span }
    }

    /// A number and an optional comma, where `wanted` and a number stands.
    pub open spec fn opt_param(self, s: At, wanted: bool) -> (Option<Box<ExprV>>, At) {
        if wanted && self.peek(s) == TokenKind::Number {
            (Some(Box::new(self.number_lit(s))), self.skip_comma(s.next()))
        } else {
            (None, s)
        }
    }

    /// `rate({...}[5m])`
    pub open spec fn range_aggregation(self, s: At) -> (Option<ExprV>, At) {
        let name = self.token(s);
        let func = self.text_of(name);
        let (open, s1) = self.expect(s.next(), TokenKind::LParen);
        if open is None {
            (None, s1)
        } else {
            let (param, s2) = self.opt_param(s1, func == "quantile_over_time"@);
            let (query, s3) = self.log_query(s2);
            if query is None {
                (None, s3)
            } else {
                let (bracket, s4) = self.expect(s3, TokenKind::LBracket);
                if bracket is None {
                    (None, s4)
                } else {
                    let (duration, s5) = self.expect(s4, TokenKind::Duration);
                    match duration {
                        None => (None, s5),
                        Some(duration) => {
                            let (_, s6) = self.expect(s5, TokenKind::RBracket);
                            let (close, s7) = self.expect(s6, TokenKind::RParen);
                            (
                                Some(
                                    ExprV {
                                        kind: ExprKindV::RangeAggregation {
                                            func,
                                            log_query: Box::new(query->0),
                                            duration: self.text_of(duration),
                                            param,
                                        },
                                        span: Span {
                                            start: name.span.start,
                                            end: Self::end_or(close, duration.span.end),
                                        },
                                    },
                                ),
                                s7,
                            )
                        },
                    }
                }
            }
        }
    }

    /// `(expr)`
    pub open spec fn paren_expr(self, s: At) -> (Option<ExprV>, At)
        decreases self.tokens.len() - s.pos, 0int,
    {
        if !(0 <= s.pos < self.tokens.len()) {
            (None, s)
        } else {
            let (inner, s1) = self.binary_expr(s.next(), 1);
            match inner {
                None => (None, s1),
                Some(inner) => {
                    let (close, s2) = self.expect(s1, TokenKind::RParen);
                    (
                        Some(
                            ExprV {
                                kind: ExprKindV::Paren(Box::new(inner)),
                                span: Span {
                                    start: self.token(s).span.start,
                                    end: Self::end_or(close, inner.span.end),
                                },
                            },
                        ),
                        s2,
                    )
                },
            }
        }
    }

    /// `sum by (label) (expr)`, `topk(10, expr) by (label)`
    pub open spec fn aggregation(self, s: At) -> (Option<ExprV>, At)
        decreases self.tokens.len() - s.pos, 0int,
    {
        let name = self.token(s);
        let op = self.text_of(name);
        let (before, s1) = self.opt_grouping(s.next());
        let (open, s2) = self.expect(s1, TokenKind::LParen);
        if open is None {
            (None, s2)
        } else {
            let (param, s3) = self.opt_param(s2, op == "topk"@ || op == "bottomk"@);
            if !(s.pos < s3.pos <= self.tokens.len()) {
                (None, s3)
            } else {
                let (expr, s4) = self.binary_expr(s3, 1);
                match expr {
                    None => (None, s4),
                    Some(expr) => {
                        let (close, s5) = self.expect(s4, TokenKind::RParen);
                        let (after, s6) = if before is None {
                            self.opt_grouping(s5)
                        } else {
                            (None, s5)
                        };
                        let end = match after {
                            Some(g) => g.span.end,
                            None => Self::end_or(close, expr.span.end),
                        };
                        (
                            Some(
                                ExprV {
                                    kind: ExprKindV::Aggregation {
                                        op,
                                        expr: Box::new(expr),
                                        grouping: if before is Some {
                                            before
                                        } else {
                                            after
                                        },
                                        param,
                                    },
                                    span: Span { start: name.span.start, end },
                                },
                            ),
                            s6,
                        )
                    },
                }
            }
        }
    }

    /// An operand
    pub open spec fn unary_expr(self, s: At) -> (Option<ExprV>, At)
        decreases self.tokens.len() - s.pos, 1int,
    {
        let tok = self.token(s);
        match self.peek(s) {
            TokenKind::LBrace => self.log_query(s),
            TokenKind::LParen => self.paren_expr(s),
            TokenKind::Number => (Some(self.number_lit(s)), s.next()),
            TokenKind::String => (
                Some(ExprV { kind: ExprKindV::StringLit(self.string_of(tok)), span: tok.span }),
                s.next(),
            ),
            TokenKind::Ident => match keyword_kind(self.text_of(tok)) {
                KeywordKind::RangeFunction => self.range_aggregation(s),
                KeywordKind::AggregationOp => self.aggregation(s),
                _ => (
                    None,
                    self.skip_to_sync(
                        s.fail("unexpected identifier '"@ + self.text_of(tok) + "'"@, tok.span),
                    ),
                ),
            },
            TokenKind::Eof => (None, s),
            kind => (
                None,
                self.skip_to_sync(s.fail("unexpected token "@ + kind_name(kind), tok.span)),
            ),
        }
    }

    /// What follows the operand `lhs`: operators of at least `min_prec`. Equal
    /// operators group to the left, except `^`. An operator without a right
    /// operand is dropped.
    pub open spec fn binary_rest(self, s: At, lhs: ExprV, min_prec: u8) -> (ExprV, At)
        decreases self.tokens.len() - s.pos, 2int,
    {
        match binary_op(self, s) {
            None => (lhs, s),
            Some((op, prec)) => if prec < min_prec {
                (lhs, s)
            } else {
                let next_prec = if op == BinOpKind::Pow {
                    prec
                } else {
                    (prec + 1) as u8
                };
                let (rhs, s1) = self.binary_expr(s.next(), next_prec);
                match rhs {
                    None => (lhs, s1),
                    Some(rhs) => if s.pos < s1.pos <= self.tokens.len() {
                        self.binary_rest(s1, bin_op(op, lhs, rhs), min_prec)
                    } else {
                        (bin_op(op, lhs, rhs), s1)
                    },
                }
            },
        }
    }

    /// Operands joined by operators of at least `min_prec`
    pub open spec fn binary_expr(self, s: At, min_prec: u8) -> (Option<ExprV>, At)
        decreases self.tokens.len() - s.pos, 3int,
    {
        let (lhs, s1) = self.unary_expr(s);
        match lhs {
            None => (None, s1),
            Some(lhs) => if s.pos < s1.pos <= self.tokens.len() {
                let (e, s2) = self.binary_rest(s1, lhs, min_prec);
                (Some(e), s2)
            } else {
                (Some(lhs), s1)
            },
        }
    }
}

/// Whether a token matters to the grammar.
pub open spec fn significant(t: Token) -> bool {
    t.kind != TokenKind::Whitespace && t.kind != TokenKind::LineComment
}

/// The significant tokens, in order.
pub open spec fn significant_tokens(tokens: Seq<Token>) -> Seq<Token>
    decreases tokens.len(),
{
    if tokens.len() == 0 {
        seq![]
    } else {
        let init = significant_tokens(tokens.drop_last());
        if significant(tokens.last()) {
            init.push(tokens.last())
        } else {
            init
        }
    }
}

/// The tree and the errors of a text.
pub open spec fn parse_of(text: Seq<u8>) -> (Option<ExprV>, Seq<ParseErrorV>) {
    let src = Source { text, tokens: significant_tokens(tokens_of(text)) };
    let (expr, s) = src.binary_expr(At { pos: 0, errors: seq![] }, 1);
    if src.peek(s) == TokenKind::Eof {
        (expr, s.errors)
    } else {
        (
            expr,
            s.fail(
                "unexpected trailing token "@ + kind_name(src.peek(s)),
                src.token(s).span,
            ).errors,
        )
    }
}

// ── Parser ───────────────────────────────────────────────────────────────────

/// Value of an optional expression.
pub open spec fn opt_expr(e: Option<Expr>) -> Option<ExprV> {
    match e {
        Some(e) => Some(e.value()),
        None => None,
    }
}

/// Value of an optional boxed expression.
pub open spec fn opt_boxed(e: Option<Box<Expr>>) -> Option<Box<ExprV>> {
    match e {
        Some(e) => Some(Box::new((*e).value())),
        None => None,
    }
}

/// Value of an optional stage.
pub open spec fn opt_stage(p: Option<PipelineStage>) -> Option<PipelineStageV> {
    match p {
        Some(p) => Some(p@),
        None => None,
    }
}

/// Value of an optional grouping.
pub open spec fn opt_grouping_value(g: Option<Grouping>) -> Option<GroupingV> {
    match g {
        Some(g) => Some(g@),
        None => None,
    }
}

struct Parser<'a> {
    input: &'a str,
    tokens: Vec<Token>,
    pos: usize,
    errors: Vec<ParseError>,
}

impl<'a> Parser<'a> {
    spec fn src(&self) -> Source {
        Source { text: self.input.spec_bytes(), tokens: self.tokens@ }
    }

    spec fn here(&self) -> At {
        At { pos: self.pos as int, errors: error_values(self.errors@) }
    }

    spec fn wf(&self) -> bool {
        &&& self.pos < self.tokens.len()
        &&& self.tokens@.last().kind == TokenKind::Eof
        &&& forall|i: int|
            0 <= i < self.tokens.len() - 1 ==> (#[trigger] self.tokens@[i]).kind != TokenKind::Eof
        &&& forall|i: int|
            0 <= i < self.tokens.len() ==> well_placed(
                #[trigger] self.tokens@[i],
                self.input.spec_bytes(),
            )
    }

    // ── Token access ────────────────────────────────────────────────────

    fn peek(&self) -> (r: Token)
        requires
            self.wf(),
        ensures
            r == self.src().token(self.here()),
            r.kind == self.src().peek(self.here()),
            well_placed(r, self.src().text),
    {
        self.tokens[self.pos]
    }

    fn peek_kind(&self) -> (r: TokenKind)
        requires
            self.wf(),
        ensures
            r == self.src().peek(self.here()),
    {
        self.peek().kind
    }

    fn at(&self, kind: TokenKind) -> (r: bool)
        requires
            self.wf(),
        ensures
            r == (self.src().peek(self.here()) == kind),
    {
        self.peek_kind() == kind
    }

    fn at_eof(&self) -> (r: bool)
        requires
            self.wf(),
        ensures
            r == (self.src().peek(self.here()) == TokenKind::Eof),
    {
        self.at(TokenKind::Eof)
    }

    fn advance(&mut self) -> (r: Token)
        requires
            old(self).wf(),
            old(self).src().peek(old(self).here()) != TokenKind::Eof,
        ensures
            final(self).wf(),
            final(self).src() == old(self).src(),
            final(self).here() == old(self).here().next(),
            final(self).pos == old(self).pos + 1,
            r == old(self).src().token(old(self).here()),
            r.kind == old(self).src().peek(old(self).here()),
            well_placed(r, old(self).src().text),
    {
        let tok = self.tokens[self.pos];
        self.pos += 1;
        tok
    }

    fn text(&self, token: &Token) -> (r: &'a str)
        requires
            well_placed(*token, self.src().text),
        ensures
            r@ == self.src().text_of(*token),
    {
        token.text(self.input)
    }

    /// Records an error.
    fn fail(&mut self, message: String, span: Span)
        requires
            old(self).wf(),
        ensures
            final(self).wf(),
            final(self).src() == old(self).src(),
            final(self).pos == old(self).pos,
            final(self).here() == old(self).here().fail(message@, span),
    {
        let e = ParseError { message, span };
        let ghost before = self.errors@;
        let ghost value = e@;
        self.errors.push(e);
        assert(error_values(self.errors@) =~= error_values(before).push(value));
    }

    fn expect(&mut self, kind: TokenKind) -> (r: Option<Token>)
        requires
            old(self).wf(),
            kind != TokenKind::Eof,
        ensures
            final(self).wf(),
            final(self).src() == old(self).src(),
            (r, final(self).here()) == old(self).src().expect(old(self).here(), kind),
            r is Some ==> final(self).pos == old(self).pos + 1 && well_placed(
                r->0,
                old(self).src().text,
            ) && r->0.kind == kind,
            r is None ==> final(self).pos == old(self).pos,
    {
        if self.at(kind) {
            Some(self.advance())
        } else {
            let tok = self.peek();
            self.fail(cat4("expected ", kind.name(), ", found ", tok.kind.name()), tok.span);
            None
        }
    }

    /// Strips the delimiters from a string token.
    fn extract_string(&self, token: &Token) -> (r: String)
        requires
            well_placed(*token, self.src().text),
            token.kind == TokenKind::String,
        ensures
            r@ == self.src().string_of(*token),
    {
        proof {
            encode_utf8_valid_utf8(self.input@);
            let b = self.input.spec_bytes();
            lemma_boundary_after_ascii(b, token.span.start as int);
            lemma_boundary_after_ascii(b, token.span.end - 1);
        }
        substr(self.input, token.span.start + 1, token.span.end - 1).to_string()
    }

    /// Skips tokens until a sync point for error recovery.
    fn skip_to_sync(&mut self)
        requires
            old(self).wf(),
        ensures
            final(self).wf(),
            final(self).src() == old(self).src(),
            final(self).here() == old(self).src().skip_to_sync(old(self).here()),
            final(self).pos >= old(self).pos,
    {
        loop
            invariant
                self.wf(),
                self.src() == old(self).src(),
                self.pos >= old(self).pos,
                self.src().skip_to_sync(self.here()) == old(self).src().skip_to_sync(
                    old(self).here(),
                ),
            ensures
                self.here() == old(self).src().skip_to_sync(old(self).here()),
            decreases self.tokens.len() - self.pos,
        {
            match self.peek_kind() {
                TokenKind::Pipe | TokenKind::PipeExact | TokenKind::PipeMatch
                | TokenKind::NotEqual | TokenKind::NotMatch | TokenKind::RBrace
                | TokenKind::RParen | TokenKind::RBracket | TokenKind::Eof => {
                    break;
                },
                _ => {
                    self.advance();
                },
            }
        }
    }

    // ── Stream selectors ────────────────────────────────────────────────

    fn parse_label_matcher(&mut self) -> (r: Option<LabelMatcher>)
        requires
            old(self).wf(),
        ensures
            final(self).wf(),
            final(self).src() == old(self).src(),
            final(self).here() == old(self).src().label_matcher(old(self).here()).1,
            r is Some <==> old(self).src().label_matcher(old(self).here()).0 is Some,
            r is Some ==> r->0@ == old(self).src().label_matcher(old(self).here()).0->0,
            final(self).pos >= old(self).pos,
            r is Some ==> final(self).pos > old(self).pos,
    {
        let name_tok = match self.expect(TokenKind::Ident) {
            Some(t) => t,
            None => {
                return None;
            },
        };
        let name = self.text(&name_tok).to_string();
        let tok = self.peek();
        let op = match tok.kind {
            TokenKind::Eq => MatchOp::Eq,
            TokenKind::NotEqual => MatchOp::Neq,
            TokenKind::EqRegex => MatchOp::Re,
            TokenKind::NotMatch => MatchOp::Nre,
            _ => {
                self.fail(cat2("expected matcher operator, found ", tok.kind.name()), tok.span);
                return None;
            },
        };
        self.advance();
        let value_tok = match self.expect(TokenKind::String) {
            Some(t) => t,
            None => {
                return None;
            },
        };
        let value = self.extract_string(&value_tok);
        let span = Span { start: name_tok.span.start, end: value_tok.span.end };
        Some(LabelMatcher { name, op, value, span })
    }

    fn parse_stream_selector(&mut self) -> (r: Option<StreamSelector>)
        requires
            old(self).wf(),
        ensures
            final(self).wf(),
            final(self).src() == old(self).src(),
            final(self).here() == old(self).src().stream_selector(old(self).here()).1,
            r is Some <==> old(self).src().stream_selector(old(self).here()).0 is Some,
            r is Some ==> r->0@ == old(self).src().stream_selector(old(self).here()).0->0,
            final(self).pos >= old(self).pos,
            r is Some ==> final(self).pos > old(self).pos,
    {
        let open = match self.expect(TokenKind::LBrace) {
            Some(t) => t,
            None => {
                return None;
            },
        };
        let mut matchers: Vec<LabelMatcher> = Vec::new();
        let mut last_end: usize = open.span.end;
        let ghost src = self.src();
        let ghost s1 = self.here();
        assert(matchers@.map_values(|m: LabelMatcher| m@) =~= seq![]);
        while !self.at(TokenKind::RBrace) && !self.at_eof()
            invariant_except_break
                src.label_matchers(self.here(), matchers@.map_values(|m: LabelMatcher| m@))
                    == src.label_matchers(s1, seq![]),
            invariant
                self.wf(),
                self.src() == src,
                self.pos > old(self).pos,
                last_end == (if matchers.len() > 0 {
                    matchers@.last().span.end
                } else {
                    open.span.end
                }),
            ensures
                (matchers@.map_values(|m: LabelMatcher| m@), self.here()) == src.label_matchers(
                    s1,
                    seq![],
                ),
            decreases self.tokens.len() - self.pos,
        {
            match self.parse_label_matcher() {
                Some(m) => {
                    let ghost before = matchers@.map_values(|m: LabelMatcher| m@);
                    let ghost value = m@;
                    last_end = m.span.end;
                    matchers.push(m);
                    assert(matchers@.map_values(|m: LabelMatcher| m@) =~= before.push(value));
                },
                None => {
                    self.skip_to_sync();
                    break;
                },
            }
            if self.at(TokenKind::Comma) {
                self.advance();
            }
        }
        let close = self.expect(TokenKind::RBrace);
        let end = match close {
            Some(t) => t.span.end,
            None => last_end,
        };
        Some(StreamSelector { matchers, span: Span { start: open.span.start, end } })
    }

    // ── Pipeline stages ─────────────────────────────────────────────────

    fn parse_filter_stage(&mut self) -> (r: Option<PipelineStage>)
        requires
            old(self).wf(),
            line_filter(old(self).src().peek(old(self).here())),
        ensures
            final(self).wf(),
            final(self).src() == old(self).src(),
            (opt_stage(r), final(self).here()) == old(self).src().filter_stage(old(self).here()),
            final(self).pos > old(self).pos,
    {
        let tok = self.advance();
        let op = match tok.kind {
            TokenKind::PipeExact => FilterOp::PipeExact,
            TokenKind::PipeMatch => FilterOp::PipeMatch,
            TokenKind::NotEqual => FilterOp::NotEqual,
            _ => FilterOp::NotMatch,
        };
        let pattern_tok = match self.expect(TokenKind::String) {
            Some(t) => t,
            None => {
                return None;
            },
        };
        let pattern = self.extract_string(&pattern_tok);
        let span = Span { start: tok.span.start, end: pattern_tok.span.end };
        Some(PipelineStage::Filter { op, pattern, span })
    }

    fn parse_pipe_stage(&mut self) -> (r: Option<PipelineStage>)
        requires
            old(self).wf(),
            old(self).src().peek(old(self).here()) == TokenKind::Pipe,
        ensures
            final(self).wf(),
            final(self).src() == old(self).src(),
            (opt_stage(r), final(self).here()) == old(self).src().pipe_stage(old(self).here()),
            final(self).pos > old(self).pos,
    {
        let pipe_tok = self.advance();
        let start = pipe_tok.span.start;
        let tok = self.peek();
        if tok.kind != TokenKind::Ident {
            self.fail(
                cat2("expected stage keyword after '|', found ", tok.kind.name()),
                tok.span,
            );
            self.skip_to_sync();
            return None;
        }
        match classify_keyword(self.text(&tok)) {
            KeywordKind::PipelineParser => self.parse_parser_stage(start),
            KeywordKind::PipelineFormatter => self.parse_formatter_stage(start),
            KeywordKind::PipelineLabelOp => self.parse_label_op_stage(start),
            KeywordKind::FilterKeyword => self.parse_unwrap_stage(start),
            _ => self.parse_label_filter_or_error(start),
        }
    }

    fn parse_parser_stage(&mut self, start: usize) -> (r: Option<PipelineStage>)
        requires
            old(self).wf(),
            old(self).src().peek(old(self).here()) == TokenKind::Ident,
        ensures
            final(self).wf(),
            final(self).src() == old(self).src(),
            (opt_stage(r), final(self).here()) == old(self).src().parser_stage(
                old(self).here(),
                start,
            ),
            final(self).pos > old(self).pos,
    {
        let ident_tok = self.advance();
        let text = self.text(&ident_tok);
        let kind = if str_eq(text, "json") {
            ParserKind::Json
        } else if str_eq(text, "logfmt") {
            ParserKind::Logfmt
        } else if str_eq(text, "pattern") {
            ParserKind::Pattern
        } else if str_eq(text, "regexp") {
            ParserKind::Regexp
        } else if str_eq(text, "unpack") {
            ParserKind::Unpack
        } else {
            ParserKind::Pack
        };
        let mut params: Vec<String> = Vec::new();
        let mut end: usize = ident_tok.span.end;
        assert(strings(params@) =~= seq![]);
        if self.at(TokenKind::String) {
            let param_tok = self.advance();
            let param = self.extract_string(&param_tok);
            let ghost value = param@;
            params.push(param);
            assert(strings(params@) =~= seq![value]);
            end = param_tok.span.end;
        }
        Some(PipelineStage::Parser { kind, params, span: Span { start, end } })
    }

    /// One mapping of `label_format` and its end.
    fn parse_mapping(&mut self) -> (r: Option<((String, String), usize)>)
        requires
            old(self).wf(),
            old(self).src().peek(old(self).here()) == TokenKind::Ident,
        ensures
            final(self).wf(),
            final(self).src() == old(self).src(),
            final(self).here() == old(self).src().mapping(old(self).here()).1,
            match r {
                Some(((dst, value), end)) => old(self).src().mapping(old(self).here()).0 == Some(
                    ((dst@, value@), end),
                ),
                None => old(self).src().mapping(old(self).here()).0 is None,
            },
            final(self).pos > old(self).pos,
    {
        let dst_tok = self.advance();
        let dst = self.text(&dst_tok).to_string();
        if self.at(TokenKind::Eq) {
            self.advance();
            if self.at(TokenKind::String) {
                let val_tok = self.advance();
                let value = self.extract_string(&val_tok);
                Some(((dst, value), val_tok.span.end))
            } else if self.at(TokenKind::Ident) {
                let val_tok = self.advance();
                let value = self.text(&val_tok).to_string();
                Some(((dst, value), val_tok.span.end))
            } else {
                None
            }
        } else {
            let value = String::new();
            assert(value@ =~= seq![]);
            Some(((dst, value), dst_tok.span.end))
        }
    }

    fn parse_formatter_stage(&mut self, start: usize) -> (r: Option<PipelineStage>)
        requires
            old(self).wf(),
            old(self).src().peek(old(self).here()) == TokenKind::Ident,
        ensures
            final(self).wf(),
            final(self).src() == old(self).src(),
            (opt_stage(r), final(self).here()) == old(self).src().formatter_stage(
                old(self).here(),
                start,
            ),
            final(self).pos > old(self).pos,
    {
        let ident_tok = self.advance();
        if str_eq(self.text(&ident_tok), "line_format") {
            let tmpl_tok = match self.expect(TokenKind::String) {
                Some(t) => t,
                None => {
                    return None;
                },
            };
            let template = self.extract_string(&tmpl_tok);
            let span = Span { start, end: tmpl_tok.span.end };
            return Some(PipelineStage::LineFormat { template, span });
        }
        let mut mappings: Vec<(String, String)> = Vec::new();
        let mut end: usize = ident_tok.span.end;
        let ghost src = self.src();
        let ghost s1 = self.here();
        assert(string_pairs(mappings@) =~= seq![]);
        while self.at(TokenKind::Ident)
            invariant_except_break
                src.mappings(self.here(), string_pairs(mappings@), end) == src.mappings(
                    s1,
                    seq![],
                    ident_tok.span.end,
                ),
            invariant
                self.wf(),
                self.src() == src,
                self.pos > old(self).pos,
            ensures
                (string_pairs(mappings@), end, self.here()) == src.mappings(
                    s1,
                    seq![],
                    ident_tok.span.end,
                ),
            decreases self.tokens.len() - self.pos,
        {
            match self.parse_mapping() {
                None => {
                    break;
                },
                Some((m, e)) => {
                    let ghost before = string_pairs(mappings@);
                    let ghost value = (m.0@, m.1@);
                    mappings.push(m);
                    end = e;
                    assert(string_pairs(mappings@) =~= before.push(value));
                },
            }
            if self.at(TokenKind::Comma) {
                self.advance();
            } else {
                break;
            }
        }
        Some(PipelineStage::LabelFormat { mappings, span: Span { start, end } })
    }

    /// Comma separated labels and the end of the last (`end` without any).
    fn parse_labels(&mut self, end: usize) -> (r: (Vec<String>, usize))
        requires
            old(self).wf(),
        ensures
            final(self).wf(),
            final(self).src() == old(self).src(),
            (strings(r.0@), r.1, final(self).here()) == old(self).src().labels(
                old(self).here(),
                seq![],
                end,
            ),
            final(self).pos >= old(self).pos,
    {
        let mut labels: Vec<String> = Vec::new();
        let mut last: usize = end;
        let ghost src = self.src();
        assert(strings(labels@) =~= seq![]);
        while self.at(TokenKind::Ident)
            invariant_except_break
                src.labels(self.here(), strings(labels@), last) == src.labels(
                    old(self).here(),
                    seq![],
                    end,
                ),
            invariant
                self.wf(),
                self.src() == src,
                self.pos >= old(self).pos,
            ensures
                (strings(labels@), last, self.here()) == src.labels(
                    old(self).here(),
                    seq![],
                    end,
                ),
            decreases self.tokens.len() - self.pos,
        {
            let label_tok = self.advance();
            let label = self.text(&label_tok).to_string();
            let ghost before = strings(labels@);
            let ghost value = label@;
            labels.push(label);
            assert(strings(labels@) =~= before.push(value));
            last = label_tok.span.end;
            if self.at(TokenKind::Comma) {
                self.advance();
            } else {
                break;
            }
        }
        (labels, last)
    }

    fn parse_label_op_stage(&mut self, start: usize) -> (r: Option<PipelineStage>)
        requires
            old(self).wf(),
            old(self).src().peek(old(self).here()) == TokenKind::Ident,
        ensures
            final(self).wf(),
            final(self).src() == old(self).src(),
            (opt_stage(r), final(self).here()) == old(self).src().label_op_stage(
                old(self).here(),
                start,
            ),
            final(self).pos > old(self).pos,
    {
        let ident_tok = self.advance();
        let text = self.text(&ident_tok);
        if str_eq(text, "decolorize") {
            let span = Span { start, end: ident_tok.span.end };
            return Some(PipelineStage::Decolorize { span });
        }
        let kind = if str_eq(text, "drop") {
            LabelOpKind::Drop
        } else {
            LabelOpKind::Keep
        };
        let (labels, end) = self.parse_labels(ident_tok.span.end);
        Some(PipelineStage::LabelOp { kind, labels, span: Span { start, end } })
    }

    fn parse_unwrap_stage(&mut self, start: usize) -> (r: Option<PipelineStage>)
        requires
            old(self).wf(),
            old(self).src().peek(old(self).here()) == TokenKind::Ident,
        ensures
            final(self).wf(),
            final(self).src() == old(self).src(),
            (opt_stage(r), final(self).here()) == old(self).src().unwrap_stage(
                old(self).here(),
                start,
            ),
            final(self).pos > old(self).pos,
    {
        self.advance();
        if !self.at(TokenKind::Ident) {
            let tok = self.peek();
            self.fail("expected label name after 'unwrap'".to_string(), tok.span);
            return None;
        }
        let ident_tok = self.advance();
        let ident = self.text(&ident_tok);
        if self.at(TokenKind::LParen) && (str_eq(ident, "duration") || str_eq(
            ident,
            "duration_seconds",
        ) || str_eq(ident, "bytes")) {
            self.advance();
            let label_tok = match self.expect(TokenKind::Ident) {
                Some(t) => t,
                None => {
                    return None;
                },
            };
            let label = self.text(&label_tok).to_string();
            let end = match self.expect(TokenKind::RParen) {
                Some(t) => t.span.end,
                None => label_tok.span.end,
            };
            let conversion = Some(ident.to_string());
            Some(PipelineStage::Unwrap { label, conversion, span: Span { start, end } })
        } else {
            let span = Span { start, end: ident_tok.span.end };
            Some(PipelineStage::Unwrap { label: ident.to_string(), conversion: None, span })
        }
    }

    fn parse_label_filter_or_error(&mut self, start: usize) -> (r: Option<PipelineStage>)
        requires
            old(self).wf(),
            old(self).src().peek(old(self).here()) == TokenKind::Ident,
        ensures
            final(self).wf(),
            final(self).src() == old(self).src(),
            (opt_stage(r), final(self).here()) == old(self).src().label_filter_or_error(
                old(self).here(),
                start,
            ),
            final(self).pos > old(self).pos,
    {
        let ident_tok = self.advance();
        let name = self.text(&ident_tok);
        let op = match self.peek_kind() {
            TokenKind::Eq => LabelFilterOp::Eq,
            TokenKind::NotEqual => LabelFilterOp::Neq,
            TokenKind::EqRegex => LabelFilterOp::Re,
            TokenKind::NotMatch => LabelFilterOp::Nre,
            TokenKind::CmpEq => LabelFilterOp::CmpEq,
            TokenKind::Gt => LabelFilterOp::Gt,
            TokenKind::GtEq => LabelFilterOp::GtEq,
            TokenKind::Lt => LabelFilterOp::Lt,
            TokenKind::LtEq => LabelFilterOp::LtEq,
            _ => {
                self.fail(
                    cat3("unexpected '", name, "' in pipeline"),
                    Span { start, end: ident_tok.span.end },
                );
                self.skip_to_sync();
                return None;
            },
        };
        self.advance();
        let tok = self.peek();
        let value = match tok.kind {
            TokenKind::String => self.extract_string(&tok),
            TokenKind::Number => self.text(&tok).to_string(),
            _ => {
                self.fail("expected value after comparison operator".to_string(), tok.span);
                return None;
            },
        };
        self.advance();
        let span = Span { start, end: tok.span.end };
        Some(PipelineStage::LabelFilter { name: name.to_string(), op, value, span })
    }

    // ── Log query ───────────────────────────────────────────────────────

    fn parse_log_query(&mut self) -> (r: Option<Expr>)
        requires
            old(self).wf(),
        ensures
            final(self).wf(),
            final(self).src() == old(self).src(),
            (opt_expr(r), final(self).here()) == old(self).src().log_query(old(self).here()),
            final(self).pos >= old(self).pos,
            r is Some ==> final(self).pos > old(self).pos,
    {
        let selector = match self.parse_stream_selector() {
            Some(s) => s,
            None => {
                return None;
            },
        };
        let start = selector.span.start;
        let mut end: usize = selector.span.end;
        let mut pipeline: Vec<PipelineStage> = Vec::new();
        let ghost src = self.src();
        let ghost s1 = self.here();
        assert(pipeline@.map_values(|p: PipelineStage| p@) =~= seq![]);
        loop
            invariant
                self.wf(),
                self.src() == src,
                self.pos > old(self).pos,
                src.pipeline(self.here(), pipeline@.map_values(|p: PipelineStage| p@), end)
                    == src.pipeline(s1, seq![], selector.span.end),
            ensures
                (pipeline@.map_values(|p: PipelineStage| p@), end, self.here()) == src.pipeline(
                    s1,
                    seq![],
                    selector.span.end,
                ),
            decreases self.tokens.len() - self.pos,
        {
            let stage = match self.peek_kind() {
                TokenKind::PipeExact | TokenKind::PipeMatch | TokenKind::NotEqual
                | TokenKind::NotMatch => self.parse_filter_stage(),
                TokenKind::Pipe => self.parse_pipe_stage(),
                _ => {
                    break;
                },
            };
            match stage {
                Some(stage) => {
                    let ghost before = pipeline@.map_values(|p: PipelineStage| p@);
                    let ghost value = stage@;
                    end = stage.span().end;
                    pipeline.push(stage);
                    assert(pipeline@.map_values(|p: PipelineStage| p@) =~= before.push(value));
                },
                None => {},
            }
        }
        let r = Expr {
            kind: ExprKind::LogQuery { selector, pipeline },
            span: Span { start, end },
        };
        Some(r)
    }

    // ── Expressions ─────────────────────────────────────────────────────

    fn parse_number_lit(&mut self) -> (r: Expr)
        requires
            old(self).wf(),
            old(self).src().peek(old(self).here()) == TokenKind::Number,
        ensures
            final(self).wf(),
            final(self).src() == old(self).src(),
            r.value() == old(self).src().number_lit(old(self).here()),
            final(self).here() == old(self).here().next(),
            final(self).pos == old(self).pos + 1,
    {
        let tok = self.advance();
        Expr { kind: ExprKind::NumberLit(self.text(&tok).to_string()), span: tok.span }
    }

    fn parse_string_lit(&mut self) -> (r: Expr)
        requires
            old(self).wf(),
            old(self).src().peek(old(self).here()) == TokenKind::String,
        ensures
            final(self).wf(),
            final(self).src() == old(self).src(),
            r.value() == (ExprV {
                kind: ExprKindV::StringLit(
                    old(self).src().string_of(old(self).src().token(old(self).here())),
                ),
                span: old(self).src().token(old(self).here()).span,
            }),
            final(self).here() == old(self).here().next(),
            final(self).pos == old(self).pos + 1,
    {
        let tok = self.advance();
        Expr { kind: ExprKind::StringLit(self.extract_string(&tok)), span: tok.span }
    }

    /// A number and an optional comma, where `wanted` and a number stands.
    fn parse_param(&mut self, wanted: bool) -> (r: Option<Box<Expr>>)
        requires
            old(self).wf(),
        ensures
            final(self).wf(),
            final(self).src() == old(self).src(),
            (opt_boxed(r), final(self).here()) == old(self).src().opt_param(
                old(self).here(),
                wanted,
            ),
            final(self).pos >= old(self).pos,
    {
        if wanted && self.at(TokenKind::Number) {
            let num = self.parse_number_lit();
            if self.at(TokenKind::Comma) {
                self.advance();
            }
            Some(Box::new(num))
        } else {
            None
        }
    }

    fn parse_range_aggregation(&mut self) -> (r: Option<Expr>)
        requires
            old(self).wf(),
            old(self).src().peek(old(self).here()) == TokenKind::Ident,
        ensures
            final(self).wf(),
            final(self).src() == old(self).src(),
            (opt_expr(r), final(self).here()) == old(self).src().range_aggregation(
                old(self).here(),
            ),
            final(self).pos > old(self).pos,
    {
        let func_tok = self.advance();
        let func = self.text(&func_tok);
        if self.expect(TokenKind::LParen).is_none() {
            return None;
        }
        let param = self.parse_param(str_eq(func, "quantile_over_time"));
        let log_query = match self.parse_log_query() {
            Some(q) => q,
            None => {
                return None;
            },
        };
        if self.expect(TokenKind::LBracket).is_none() {
            return None;
        }
        let dur_tok = match self.expect(TokenKind::Duration) {
            Some(t) => t,
            None => {
                return None;
            },
        };
        let duration = self.text(&dur_tok).to_string();
        self.expect(TokenKind::RBracket);
        let end = match self.expect(TokenKind::RParen) {
            Some(t) => t.span.end,
            None => dur_tok.span.end,
        };
        Some(
            Expr {
                kind: ExprKind::RangeAggregation {
                    func: func.to_string(),
                    log_query: Box::new(log_query),
                    duration,
                    param,
                },
                span: Span { start: func_tok.span.start, end },
            },
        )
    }

    fn parse_grouping(&mut self) -> (r: Option<Grouping>)
        requires
            old(self).wf(),
            old(self).src().peek(old(self).here()) == TokenKind::Ident,
        ensures
            final(self).wf(),
            final(self).src() == old(self).src(),
            (opt_grouping_value(r), final(self).here()) == old(self).src().grouping(
                old(self).here(),
            ),
            final(self).pos > old(self).pos,
    {
        let mod_tok = self.advance();
        let without = str_eq(self.text(&mod_tok), "without");
        if self.expect(TokenKind::LParen).is_none() {
            return None;
        }
        let (labels, _) = self.parse_labels(mod_tok.span.end);
        let end = match self.expect(TokenKind::RParen) {
            Some(t) => t.span.end,
            None => mod_tok.span.end,
        };
        Some(Grouping { without, labels, span: Span { start: mod_tok.span.start, end } })
    }

    /// A grouping, where one stands.
    fn parse_opt_grouping(&mut self) -> (r: Option<Grouping>)
        requires
            old(self).wf(),
        ensures
            final(self).wf(),
            final(self).src() == old(self).src(),
            (opt_grouping_value(r), final(self).here()) == old(self).src().opt_grouping(
                old(self).here(),
            ),
            final(self).pos >= old(self).pos,
    {
        let tok = self.peek();
        if tok.kind == TokenKind::Ident {
            let text = self.text(&tok);
            if str_eq(text, "by") || str_eq(text, "without") {
                return self.parse_grouping();
            }
        }
        None
    }

    fn parse_aggregation(&mut self) -> (r: Option<Expr>)
        requires
            old(self).wf(),
            old(self).src().peek(old(self).here()) == TokenKind::Ident,
        ensures
            final(self).wf(),
            final(self).src() == old(self).src(),
            (opt_expr(r), final(self).here()) == old(self).src().aggregation(old(self).here()),
            final(self).pos > old(self).pos,
        decreases old(self).tokens.len() - old(self).pos, 0int,
    {
        let op_tok = self.advance();
        let op = self.text(&op_tok);
        let has_param = str_eq(op, "topk") || str_eq(op, "bottomk");
        let mut grouping = self.parse_opt_grouping();
        if self.expect(TokenKind::LParen).is_none() {
            return None;
        }
        let param = self.parse_param(has_param);
        let expr = match self.parse_expr() {
            Some(e) => e,
            None => {
                return None;
            },
        };
        let mut end: usize = match self.expect(TokenKind::RParen) {
            Some(t) => t.span.end,
            None => expr.span.end,
        };
        if grouping.is_none() {
            grouping = self.parse_opt_grouping();
            match &grouping {
                Some(g) => {
                    end = g.span.end;
                },
                None => {},
            }
        }
        Some(
            Expr {
                kind: ExprKind::Aggregation {
                    op: op.to_string(),
                    expr: Box::new(expr),
                    grouping,
                    param,
                },
                span: Span { start: op_tok.span.start, end },
            },
        )
    }

    fn parse_paren_expr(&mut self) -> (r: Option<Expr>)
        requires
            old(self).wf(),
            old(self).src().peek(old(self).here()) == TokenKind::LParen,
        ensures
            final(self).wf(),
            final(self).src() == old(self).src(),
            (opt_expr(r), final(self).here()) == old(self).src().paren_expr(old(self).here()),
            final(self).pos > old(self).pos,
        decreases old(self).tokens.len() - old(self).pos, 0int,
    {
        let open = self.advance();
        let inner = match self.parse_expr() {
            Some(e) => e,
            None => {
                return None;
            },
        };
        let end = match self.expect(TokenKind::RParen) {
            Some(t) => t.span.end,
            None => inner.span.end,
        };
        Some(
            Expr {
                kind: ExprKind::Paren(Box::new(inner)),
                span: Span { start: open.span.start, end },
            },
        )
    }

    fn parse_unary_expr(&mut self) -> (r: Option<Expr>)
        requires
            old(self).wf(),
        ensures
            final(self).wf(),
            final(self).src() == old(self).src(),
            (opt_expr(r), final(self).here()) == old(self).src().unary_expr(old(self).here()),
            final(self).pos >= old(self).pos,
            r is Some ==> final(self).pos > old(self).pos,
        decreases old(self).tokens.len() - old(self).pos, 1int,
    {
        let tok = self.peek();
        match tok.kind {
            TokenKind::LBrace => self.parse_log_query(),
            TokenKind::LParen => self.parse_paren_expr(),
            TokenKind::Number => Some(self.parse_number_lit()),
            TokenKind::String => Some(self.parse_string_lit()),
            TokenKind::Ident => {
                let text = self.text(&tok);
                match classify_keyword(text) {
                    KeywordKind::RangeFunction => self.parse_range_aggregation(),
                    KeywordKind::AggregationOp => self.parse_aggregation(),
                    _ => {
                        self.fail(cat3("unexpected identifier '", text, "'"), tok.span);
                        self.skip_to_sync();
                        None
                    },
                }
            },
            TokenKind::Eof => None,
            _ => {
                self.fail(cat2("unexpected token ", tok.kind.name()), tok.span);
                self.skip_to_sync();
                None
            },
        }
    }

    /// The binary operator of the next token, with its precedence.
    fn peek_binary_op(&self) -> (r: Option<(BinOpKind, u8)>)
        requires
            self.wf(),
        ensures
            r == binary_op(self.src(), self.here()),
            r is Some ==> self.src().peek(self.here()) != TokenKind::Eof && 1 <= (r->0).1 <= 6,
    {
        let tok = self.peek();
        match tok.kind {
            TokenKind::Ident => {
                let text = self.text(&tok);
                if str_eq(text, "or") {
                    Some((BinOpKind::Or, 1u8))
                } else if str_eq(text, "and") {
                    Some((BinOpKind::And, 2u8))
                } else if str_eq(text, "unless") {
                    Some((BinOpKind::Unless, 2u8))
                } else {
                    None
                }
            },
            TokenKind::CmpEq => Some((BinOpKind::CmpEq, 3u8)),
            TokenKind::NotEqual => Some((BinOpKind::Neq, 3u8)),
            TokenKind::Lt => Some((BinOpKind::Lt, 3u8)),
            TokenKind::Gt => Some((BinOpKind::Gt, 3u8)),
            TokenKind::LtEq => Some((BinOpKind::LtEq, 3u8)),
            TokenKind::GtEq => Some((BinOpKind::GtEq, 3u8)),
            TokenKind::Plus => Some((BinOpKind::Add, 4u8)),
            TokenKind::Minus => Some((BinOpKind::Sub, 4u8)),
            TokenKind::Star => Some((BinOpKind::Mul, 5u8)),
            TokenKind::Slash => Some((BinOpKind::Div, 5u8)),
            TokenKind::Percent => Some((BinOpKind::Mod, 5u8)),
            TokenKind::Caret => Some((BinOpKind::Pow, 6u8)),
            _ => None,
        }
    }

    /// Precedence climbing: operands joined by operators of at least `min_prec`.
    fn parse_binary_expr(&mut self, min_prec: u8) -> (r: Option<Expr>)
        requires
            old(self).wf(),
        ensures
            final(self).wf(),
            final(self).src() == old(self).src(),
            (opt_expr(r), final(self).here()) == old(self).src().binary_expr(
                old(self).here(),
                min_prec,
            ),
            final(self).pos >= old(self).pos,
            r is Some ==> final(self).pos > old(self).pos,
        decreases old(self).tokens.len() - old(self).pos, 3int,
    {
        let mut lhs = match self.parse_unary_expr() {
            Some(e) => e,
            None => {
                return None;
            },
        };
        let ghost src = self.src();
        let ghost s1 = self.here();
        let ghost lhs1 = lhs.value();
        loop
            invariant_except_break
                src.binary_rest(self.here(), lhs.value(), min_prec) == src.binary_rest(
                    s1,
                    lhs1,
                    min_prec,
                ),
            invariant
                self.wf(),
                self.src() == src,
                src == old(self).src(),
                self.pos > old(self).pos,
            ensures
                (lhs.value(), self.here()) == src.binary_rest(s1, lhs1, min_prec),
            decreases self.tokens.len() - self.pos,
        {
            let (op, prec) = match self.peek_binary_op() {
                Some(x) => x,
                None => {
                    break;
                },
            };
            if prec < min_prec {
                break;
            }
            self.advance();
            let next_prec: u8 = if op == BinOpKind::Pow {
                prec
            } else {
                prec + 1
            };
            let rhs = match self.parse_binary_expr(next_prec) {
                Some(r) => r,
                None => {
                    break;
                },
            };
            let span = Span { start: lhs.span.start, end: rhs.span.end };
            lhs = Expr { kind: ExprKind::BinOp { op, lhs: Box::new(lhs), rhs: Box::new(rhs) }, span };
        }
        Some(lhs)
    }

    fn parse_expr(&mut self) -> (r: Option<Expr>)
        requires
            old(self).wf(),
        ensures
            final(self).wf(),
            final(self).src() == old(self).src(),
            (opt_expr(r), final(self).here()) == old(self).src().binary_expr(
                old(self).here(),
                1,
            ),
            final(self).pos >= old(self).pos,
            r is Some ==> final(self).pos > old(self).pos,
        decreases old(self).tokens.len() - old(self).pos, 4int,
    {
        self.parse_binary_expr(1)
    }
}

/// The significant tokens of `tokens`.
pub(crate) fn drop_trivia(tokens: &Vec<Token>, text: Ghost<Seq<u8>>) -> (r: Vec<Token>)
    requires
        cover(tokens@, text@),
    ensures
        r@ == significant_tokens(tokens@),
        r.len() > 0,
        r@.last().kind == TokenKind::Eof,
        forall|i: int| 0 <= i < r.len() - 1 ==> proper(#[trigger] r@[i]),
        forall|i: int| 0 <= i < r.len() ==> well_placed(#[trigger] r@[i], text@),
{
    let mut out: Vec<Token> = Vec::new();
    let mut i: usize = 0;
    assert(significant_tokens(tokens@.subrange(0, 0)) =~= seq![]);
    while i < tokens.len()
        invariant
            i <= tokens.len(),
            cover(tokens@, text@),
            out@ == significant_tokens(tokens@.subrange(0, i as int)),
            forall|k: int| 0 <= k < out.len() ==> well_placed(#[trigger] out@[k], text@),
            forall|k: int|
                0 <= k < out.len() && (i < tokens.len() || k < out.len() - 1) ==> proper(
                    #[trigger] out@[k],
                ),
            i == tokens.len() ==> out.len() > 0 && out@.last().kind == TokenKind::Eof,
        decreases tokens.len() - i,
    {
        let t = tokens[i];
        proof {
            let upto = tokens@.subrange(0, i + 1);
            assert(upto.drop_last() =~= tokens@.subrange(0, i as int));
            assert(upto.last() == tokens@[i as int]);
            assert(i < tokens.len() - 1 ==> proper(tokens@[i as int]));
        }
        match t.kind {
            TokenKind::Whitespace | TokenKind::LineComment => {},
            _ => {
                out.push(t);
            },
        }
        i += 1;
    }
    assert(tokens@.subrange(0, i as int) =~= tokens@);
    out
}

/// Parse a LogQL query string into a tree with error recovery.
pub fn parse(input: &str) -> (r: ParseResult)
    ensures
        opt_expr(r.expr) == parse_of(input.spec_bytes()).0,
        error_values(r.errors@) == parse_of(input.spec_bytes()).1,
{
    let all_tokens = tokenize(input);
    let tokens = drop_trivia(&all_tokens, Ghost(input.spec_bytes()));
    let mut parser = Parser { input, tokens, pos: 0, errors: Vec::new() };
    assert(error_values(parser.errors@) =~= seq![]);
    let expr = parser.parse_expr();
    if !parser.at_eof() {
        let tok = parser.peek();
        parser.fail(cat2("unexpected trailing token ", tok.kind.name()), tok.span);
    }
    ParseResult { expr, errors: parser.errors }
}

} // verus!
