//! How operators group.

use crate::logql::ast::{BinOpKind, ExprKindV, ExprV, LabelMatcherV, PipelineStageV};
use crate::logql::parser::{
    bin_op, binary_op, line_filter, parse_of, significant_tokens, At, Source,
};
use crate::logql::spans::{
    lemma_binary_expr, lemma_binary_rest, lemma_expect, lemma_grouping, lemma_label_matchers,
    lemma_log_query, lemma_next, lemma_ordered, lemma_param, lemma_pipeline,
    lemma_stream_selector, lemma_unary_expr, tree_from,
};
use crate::logql::tokenizer::{
    keyword_kind, kind_name, tokens_of, KeywordKind, Span, TokenKind,
};
use vstd::prelude::*;
use vstd::string::*;
use vstd::utf8::*;

verus! {

/// The groups of operators, the loosest first: `or`, then `and` and `unless`, then
/// comparisons, then `+` and `-`, then `*`, `/` and `%`, then `^`.
pub open spec fn tightness(op: BinOpKind) -> int {
    match op {
        BinOpKind::Or => 1,
        BinOpKind::And => 2,
        BinOpKind::Unless => 2,
        BinOpKind::CmpEq => 3,
        BinOpKind::Neq => 3,
        BinOpKind::Lt => 3,
        BinOpKind::Gt => 3,
        BinOpKind::LtEq => 3,
        BinOpKind::GtEq => 3,
        BinOpKind::Add => 4,
        BinOpKind::Sub => 4,
        BinOpKind::Mul => 5,
        BinOpKind::Div => 5,
        BinOpKind::Mod => 5,
        BinOpKind::Pow => 6,
    }
}

/// How tight the outermost operator of an expression is. One that is no operation,
/// or stands in parentheses, is tighter than any.
pub open spec fn outer_tightness(e: ExprV) -> int {
    match e.kind {
        ExprKindV::BinOp { op, .. } => tightness(op),
        _ => 7,
    }
}

/// Whether every right operand in a tree is tighter than its operator; that of `^`
/// may also be of `^`, which groups to the right.
pub open spec fn right_operands_tighter(e: ExprV) -> bool
    decreases e,
{
    match e.kind {
        ExprKindV::LogQuery { .. } => true,
        ExprKindV::RangeAggregation { log_query, param, .. } => {
            &&& right_operands_tighter(*log_query)
            &&& match param {
                Some(p) => right_operands_tighter(*p),
                None => true,
            }
        },
        ExprKindV::Aggregation { expr, param, .. } => {
            &&& right_operands_tighter(*expr)
            &&& match param {
                Some(p) => right_operands_tighter(*p),
                None => true,
            }
        },
        ExprKindV::BinOp { op, lhs, rhs } => {
            &&& right_operands_tighter(*lhs)
            &&& right_operands_tighter(*rhs)
            &&& outer_tightness(*rhs) > tightness(op) || (op == BinOpKind::Pow && outer_tightness(
                *rhs,
            ) == tightness(op))
        },
        ExprKindV::NumberLit(_) => true,
        ExprKindV::StringLit(_) => true,
        ExprKindV::Paren(inner) => right_operands_tighter(*inner),
    }
}

/// Whether no left operand in a tree is looser than its operator; that of `^` is
/// tighter.
pub open spec fn left_operands_no_looser(e: ExprV) -> bool
    decreases e,
{
    match e.kind {
        ExprKindV::LogQuery { .. } => true,
        ExprKindV::RangeAggregation { log_query, param, .. } => {
            &&& left_operands_no_looser(*log_query)
            &&& match param {
                Some(p) => left_operands_no_looser(*p),
                None => true,
            }
        },
        ExprKindV::Aggregation { expr, param, .. } => {
            &&& left_operands_no_looser(*expr)
            &&& match param {
                Some(p) => left_operands_no_looser(*p),
                None => true,
            }
        },
        ExprKindV::BinOp { op, lhs, rhs } => {
            &&& left_operands_no_looser(*lhs)
            &&& left_operands_no_looser(*rhs)
            &&& outer_tightness(*lhs) >= tightness(op)
            &&& op == BinOpKind::Pow ==> outer_tightness(*lhs) > tightness(op)
        },
        ExprKindV::NumberLit(_) => true,
        ExprKindV::StringLit(_) => true,
        ExprKindV::Paren(inner) => left_operands_no_looser(*inner),
    }
}

// ── Right operands ───────────────────────────────────────────────────────────

/// The precedence of an operator is its tightness.
proof fn lemma_precedence(src: Source, s: At)
    ensures
        match binary_op(src, s) {
            Some((op, prec)) => prec == tightness(op),
            None => true,
        },
{
}

/// An optional tree with tighter right operands, whose outermost operator is at
/// least so tight.
spec fn right_at_least(e: Option<ExprV>, min: int) -> bool {
    match e {
        Some(e) => right_operands_tighter(e) && outer_tightness(e) >= min,
        None => true,
    }
}

proof fn lemma_right_range(src: Source, s: At)
    ensures
        right_at_least(src.range_aggregation(s).0, 7),
{
    if let Some(e) = src.range_aggregation(s).0 {
        if let ExprKindV::RangeAggregation { log_query, param, .. } = e.kind {
            assert(right_operands_tighter(*log_query));
            if let Some(p) = param {
                assert(right_operands_tighter(*p));
            }
        }
    }
}

proof fn lemma_right_aggregation(src: Source, s: At)
    ensures
        right_at_least(src.aggregation(s).0, 7),
    decreases src.tokens.len() - s.pos, 0int,
{
    let op = src.text_of(src.token(s));
    let (before, s1) = src.opt_grouping(s.next());
    let (open, s2) = src.expect(s1, TokenKind::LParen);
    let (param, s3) = src.opt_param(s2, op == "topk"@ || op == "bottomk"@);
    if s.pos < s3.pos <= src.tokens.len() {
        lemma_right_expr(src, s3, 1);
    }
    if let Some(p) = param {
        assert(right_operands_tighter(*p));
    }
}

proof fn lemma_right_operand(src: Source, s: At)
    ensures
        right_at_least(src.unary_expr(s).0, 7),
    decreases src.tokens.len() - s.pos, 1int,
{
    if src.peek(s) == TokenKind::LParen {
        lemma_right_expr(src, s.next(), 1);
    } else if src.peek(s) == TokenKind::Ident {
        lemma_right_range(src, s);
        lemma_right_aggregation(src, s);
    }
}

proof fn lemma_right_rest(src: Source, s: At, lhs: ExprV, min_prec: u8)
    requires
        right_operands_tighter(lhs),
        outer_tightness(lhs) >= min_prec,
        min_prec <= 7,
    ensures
        right_at_least(Some(src.binary_rest(s, lhs, min_prec).0), min_prec as int),
    decreases src.tokens.len() - s.pos, 2int,
{
    lemma_precedence(src, s);
    if let Some((op, prec)) = binary_op(src, s) {
        if prec >= min_prec {
            let next_prec = if op == BinOpKind::Pow {
                prec
            } else {
                (prec + 1) as u8
            };
            lemma_right_expr(src, s.next(), next_prec);
            let (rhs, s1) = src.binary_expr(s.next(), next_prec);
            if let Some(rhs) = rhs {
                if s.pos < s1.pos <= src.tokens.len() {
                    lemma_right_rest(src, s1, bin_op(op, lhs, rhs), min_prec);
                }
            }
        }
    }
}

proof fn lemma_right_expr(src: Source, s: At, min_prec: u8)
    requires
        min_prec <= 7,
    ensures
        right_at_least(src.binary_expr(s, min_prec).0, min_prec as int),
    decreases src.tokens.len() - s.pos, 3int,
{
    lemma_right_operand(src, s);
    let (lhs, s1) = src.unary_expr(s);
    if let Some(lhs) = lhs {
        if s.pos < s1.pos <= src.tokens.len() {
            lemma_right_rest(src, s1, lhs, min_prec);
        }
    }
}

/// In the tree of any query a right operand that is not in parentheses is never an
/// operation of the same or a looser group, but that `^` groups to the right.
pub proof fn lemma_right_operands(b: Seq<u8>)
    ensures
        match parse_of(b).0 {
            Some(e) => right_operands_tighter(e),
            None => true,
        },
{
    let src = Source { text: b, tokens: significant_tokens(tokens_of(b)) };
    lemma_right_expr(src, At { pos: 0, errors: seq![] }, 1);
}

// ── Errors only become more ──────────────────────────────────────────────────

/// No errors have gone.
spec fn grew(s: At, s1: At) -> bool {
    s.errors.len() <= s1.errors.len()
}

/// No errors have come.
spec fn calm(s: At, s1: At) -> bool {
    s.errors.len() == s1.errors.len()
}

proof fn lemma_skip_calm(src: Source, s: At)
    ensures
        calm(s, src.skip_to_sync(s)),
    decreases src.tokens.len() - s.pos,
{
    if src.skip_to_sync(s) != s && s.pos < src.tokens.len() {
        lemma_skip_calm(src, s.next());
    }
}

proof fn lemma_matchers_grow(src: Source, s: At, acc: Seq<LabelMatcherV>)
    ensures
        grew(s, src.label_matchers(s, acc).1),
    decreases src.tokens.len() - s.pos,
{
    if src.peek(s) != TokenKind::RBrace && src.peek(s) != TokenKind::Eof {
        let (m, s1) = src.label_matcher(s);
        match m {
            None => {
                lemma_skip_calm(src, s1);
            },
            Some(m) => {
                let s2 = src.skip_comma(s1);
                if s.pos < s2.pos <= src.tokens.len() {
                    lemma_matchers_grow(src, s2, acc.push(m));
                }
            },
        }
    }
}

proof fn lemma_selector_grows(src: Source, s: At)
    ensures
        grew(s, src.stream_selector(s).1),
        src.stream_selector(s).0 is None ==> !calm(s, src.stream_selector(s).1),
{
    let (open, s1) = src.expect(s, TokenKind::LBrace);
    lemma_matchers_grow(src, s1, seq![]);
}

proof fn lemma_mappings_grow(src: Source, s: At, acc: Seq<(Seq<char>, Seq<char>)>, end: usize)
    ensures
        grew(s, src.mappings(s, acc, end).2),
    decreases src.tokens.len() - s.pos,
{
    if src.peek(s) == TokenKind::Ident {
        let (m, s1) = src.mapping(s);
        if let Some((m, end)) = m {
            if src.peek(s1) == TokenKind::Comma && s.pos < s1.pos {
                lemma_mappings_grow(src, s1.next(), acc.push(m), end);
            }
        }
    }
}

proof fn lemma_labels_grow(src: Source, s: At, acc: Seq<Seq<char>>, end: usize)
    ensures
        grew(s, src.labels(s, acc, end).2),
    decreases src.tokens.len() - s.pos,
{
    if src.peek(s) == TokenKind::Ident {
        let label = src.token(s);
        if src.peek(s.next()) == TokenKind::Comma {
            lemma_labels_grow(
                src,
                s.next().next(),
                acc.push(src.text_of(label)),
                label.span.end,
            );
        }
    }
}

proof fn lemma_stage_grows(src: Source, s: At)
    ensures
        grew(s, src.pipe_stage(s).1),
        grew(s, src.filter_stage(s).1),
{
    let start = src.token(s).span.start;
    let s1 = s.next();
    let end = src.token(s1).span.end;
    lemma_mappings_grow(src, s1.next(), seq![], end);
    lemma_labels_grow(src, s1.next(), seq![], end);
    assert(grew(s1, src.label_filter_or_error(s1, start).1)) by {
        let ident = src.token(s1);
        let message = "unexpected '"@ + src.text_of(ident) + "' in pipeline"@;
        lemma_skip_calm(src, s1.next().fail(message, Span { start, end: ident.span.end }));
    }
    if src.peek(s1) != TokenKind::Ident {
        let message = "expected stage keyword after '|', found "@ + kind_name(src.peek(s1));
        lemma_skip_calm(src, s1.fail(message, src.token(s1).span));
    }
}

proof fn lemma_pipeline_grows(src: Source, s: At, acc: Seq<PipelineStageV>, end: usize)
    ensures
        grew(s, src.pipeline(s, acc, end).2),
    decreases src.tokens.len() - s.pos,
{
    if line_filter(src.peek(s)) || src.peek(s) == TokenKind::Pipe {
        lemma_stage_grows(src, s);
        let (stage, s1) = if line_filter(src.peek(s)) {
            src.filter_stage(s)
        } else {
            src.pipe_stage(s)
        };
        if s.pos < s1.pos <= src.tokens.len() {
            match stage {
                Some(stage) => {
                    lemma_pipeline_grows(src, s1, acc.push(stage), stage.span().end);
                },
                None => {
                    lemma_pipeline_grows(src, s1, acc, end);
                },
            }
        }
    }
}

proof fn lemma_query_grows(src: Source, s: At)
    ensures
        grew(s, src.log_query(s).1),
        src.log_query(s).0 is None ==> !calm(s, src.log_query(s).1),
{
    lemma_selector_grows(src, s);
    let (selector, s1) = src.stream_selector(s);
    if let Some(selector) = selector {
        lemma_pipeline_grows(src, s1, seq![], selector.span.end);
    }
}

proof fn lemma_grouping_grows(src: Source, s: At)
    ensures
        grew(s, src.opt_grouping(s).1),
{
    if src.at_grouping(s) {
        let modifier = src.token(s);
        let (open, s1) = src.expect(s.next(), TokenKind::LParen);
        lemma_labels_grow(src, s1, seq![], modifier.span.end);
    }
}

proof fn lemma_range_grows(src: Source, s: At)
    ensures
        grew(s, src.range_aggregation(s).1),
        src.range_aggregation(s).0 is None ==> !calm(s, src.range_aggregation(s).1),
{
    let func = src.text_of(src.token(s));
    let (open, s1) = src.expect(s.next(), TokenKind::LParen);
    let (param, s2) = src.opt_param(s1, func == "quantile_over_time"@);
    lemma_query_grows(src, s2);
}

// ── Left operands ────────────────────────────────────────────────────────────

/// What follows at `s` is no operator of at least `min`.
spec fn looser_behind(src: Source, s: At, min: int) -> bool {
    match binary_op(src, s) {
        Some((_, prec)) => prec < min,
        None => true,
    }
}

/// Without errors a missing expression means that the query has ended, and no
/// operator of at least `min` follows a tree with good left operands.
spec fn left_good(src: Source, e: Option<ExprV>, s: At, s1: At, min: int) -> bool {
    &&& grew(s, s1)
    &&& calm(s, s1) ==> match e {
        Some(e) => {
            &&& left_operands_no_looser(e)
            &&& looser_behind(src, s1, min)
            &&& s.pos < s1.pos
        },
        None => src.peek(s1) == TokenKind::Eof,
    }
}

/// A tree with good left operands that is more than an operand of some operator.
spec fn operand_good(src: Source, e: Option<ExprV>, s: At, s1: At) -> bool {
    &&& grew(s, s1)
    &&& calm(s, s1) ==> match e {
        Some(e) => left_operands_no_looser(e) && outer_tightness(e) == 7 && s.pos < s1.pos,
        None => src.peek(s1) == TokenKind::Eof,
    }
}

proof fn lemma_left_range(src: Source, s: At)
    requires
        src.ordered(),
        src.valid(s),
        src.peek(s) != TokenKind::Eof,
    ensures
        operand_good(src, src.range_aggregation(s).0, s, src.range_aggregation(s).1),
{
    lemma_range_grows(src, s);
    lemma_next(src, s);
    let func = src.text_of(src.token(s));
    lemma_expect(src, s.next(), TokenKind::LParen);
    let (open, s1) = src.expect(s.next(), TokenKind::LParen);
    if open is Some {
        lemma_param(src, s1, func == "quantile_over_time"@);
        let (param, s2) = src.opt_param(s1, func == "quantile_over_time"@);
        lemma_log_query(src, s2);
        if let Some(p) = param {
            assert(left_operands_no_looser(*p));
        }
        if let Some(q) = src.log_query(s2).0 {
            assert(left_operands_no_looser(q));
        }
        let s3 = src.log_query(s2).1;
        lemma_expect(src, s3, TokenKind::LBracket);
        let s4 = src.expect(s3, TokenKind::LBracket).1;
        lemma_expect(src, s4, TokenKind::Duration);
        let s5 = src.expect(s4, TokenKind::Duration).1;
        lemma_expect(src, s5, TokenKind::RBracket);
        let s6 = src.expect(s5, TokenKind::RBracket).1;
        lemma_expect(src, s6, TokenKind::RParen);
    }
}

proof fn lemma_left_paren(src: Source, s: At)
    requires
        src.ordered(),
        src.valid(s),
        src.peek(s) != TokenKind::Eof,
    ensures
        operand_good(src, src.paren_expr(s).0, s, src.paren_expr(s).1),
    decreases src.tokens.len() - s.pos, 0int,
{
    lemma_next(src, s);
    lemma_left_expr(src, s.next(), 1);
    lemma_binary_expr(src, s.next(), 1);
    let (inner, s1) = src.binary_expr(s.next(), 1);
    lemma_expect(src, s1, TokenKind::RParen);
}

proof fn lemma_left_aggregation(src: Source, s: At)
    requires
        src.ordered(),
        src.valid(s),
        src.peek(s) != TokenKind::Eof,
    ensures
        operand_good(src, src.aggregation(s).0, s, src.aggregation(s).1),
    decreases src.tokens.len() - s.pos, 0int,
{
    lemma_next(src, s);
    let op = src.text_of(src.token(s));
    lemma_grouping(src, s.next());
    lemma_grouping_grows(src, s.next());
    let (before, s1) = src.opt_grouping(s.next());
    lemma_expect(src, s1, TokenKind::LParen);
    let (open, s2) = src.expect(s1, TokenKind::LParen);
    if open is Some {
        let wanted = op == "topk"@ || op == "bottomk"@;
        lemma_param(src, s2, wanted);
        let (param, s3) = src.opt_param(s2, wanted);
        if let Some(p) = param {
            assert(left_operands_no_looser(*p));
        }
        lemma_left_expr(src, s3, 1);
        lemma_binary_expr(src, s3, 1);
        let (expr, s4) = src.binary_expr(s3, 1);
        if expr is Some {
            lemma_expect(src, s4, TokenKind::RParen);
            let s5 = src.expect(s4, TokenKind::RParen).1;
            lemma_grouping(src, s5);
            lemma_grouping_grows(src, s5);
        }
    }
}

proof fn lemma_left_operand(src: Source, s: At)
    requires
        src.ordered(),
        src.valid(s),
    ensures
        operand_good(src, src.unary_expr(s).0, s, src.unary_expr(s).1),
    decreases src.tokens.len() - s.pos, 1int,
{
    let tok = src.token(s);
    if src.peek(s) == TokenKind::Eof {
    } else if src.peek(s) == TokenKind::LBrace {
        lemma_query_grows(src, s);
        lemma_stream_selector(src, s);
        lemma_expect(src, s, TokenKind::LBrace);
        lemma_query_moves(src, s);
    } else if src.peek(s) == TokenKind::LParen {
        lemma_left_paren(src, s);
    } else if src.peek(s) == TokenKind::Number || src.peek(s) == TokenKind::String {
        lemma_next(src, s);
    } else if src.peek(s) == TokenKind::Ident {
        match keyword_kind(src.text_of(tok)) {
            KeywordKind::RangeFunction => {
                lemma_left_range(src, s);
            },
            KeywordKind::AggregationOp => {
                lemma_left_aggregation(src, s);
            },
            _ => {
                let message = "unexpected identifier '"@ + src.text_of(tok) + "'"@;
                lemma_skip_calm(src, s.fail(message, tok.span));
            },
        }
    } else {
        let message = "unexpected token "@ + kind_name(src.peek(s));
        lemma_skip_calm(src, s.fail(message, tok.span));
    }
}

proof fn lemma_query_moves(src: Source, s: At)
    requires
        src.ordered(),
        src.valid(s),
        src.peek(s) == TokenKind::LBrace,
    ensures
        src.log_query(s).0 is Some ==> s.pos < src.log_query(s).1.pos,
{
    lemma_expect(src, s, TokenKind::LBrace);
    let (open, s1) = src.expect(s, TokenKind::LBrace);
    lemma_label_matchers(src, s1, seq![], src.token(s).span.end);
    let s2 = src.label_matchers(s1, seq![]).1;
    lemma_expect(src, s2, TokenKind::RBrace);
    lemma_log_query(src, s);
    lemma_stream_selector(src, s);
    if let Some(selector) = src.stream_selector(s).0 {
        let s3 = src.stream_selector(s).1;
        lemma_pipeline(src, s3, seq![], selector.span.end, src.token(s).span.start);
    }
}

/// An operator that follows is not tighter than the tree before it.
spec fn fits_left(src: Source, s: At, lhs: ExprV) -> bool {
    match binary_op(src, s) {
        Some((op, _)) => {
            &&& outer_tightness(lhs) >= tightness(op)
            &&& op == BinOpKind::Pow ==> outer_tightness(lhs) > tightness(op)
        },
        None => true,
    }
}

proof fn lemma_left_rest(src: Source, s: At, lhs: ExprV, min_prec: u8, from: At)
    requires
        src.ordered(),
        src.valid(s),
        left_operands_no_looser(lhs),
        fits_left(src, s, lhs),
        tree_from(src, Some(lhs), from, s),
        from.pos < s.pos,
    ensures
        ({
            let (e, s1) = src.binary_rest(s, lhs, min_prec);
            &&& grew(s, s1)
            &&& s.pos <= s1.pos
            &&& calm(s, s1) ==> left_operands_no_looser(e) && looser_behind(
                src,
                s1,
                min_prec as int,
            )
        }),
    decreases src.tokens.len() - s.pos, 2int,
{
    lemma_precedence(src, s);
    lemma_binary_rest(src, s, lhs, min_prec, from);
    if let Some((op, prec)) = binary_op(src, s) {
        if prec >= min_prec {
            let next_prec = if op == BinOpKind::Pow {
                prec
            } else {
                (prec + 1) as u8
            };
            lemma_next(src, s);
            lemma_left_expr(src, s.next(), next_prec);
            lemma_binary_expr(src, s.next(), next_prec);
            let (rhs, s1) = src.binary_expr(s.next(), next_prec);
            if let Some(rhs) = rhs {
                let whole = bin_op(op, lhs, rhs);
                lemma_binary_rest(src, s1, whole, min_prec, from);
                lemma_rest_grows(src, s1, whole, min_prec);
                if calm(s.next(), s1) {
                    lemma_precedence(src, s1);
                    lemma_left_rest(src, s1, whole, min_prec, from);
                }
            }
        }
    }
}

proof fn lemma_operand_grows(src: Source, s: At)
    ensures
        grew(s, src.unary_expr(s).1),
    decreases src.tokens.len() - s.pos, 1int,
{
    let tok = src.token(s);
    if src.peek(s) == TokenKind::LBrace {
        lemma_query_grows(src, s);
    } else if src.peek(s) == TokenKind::LParen {
        lemma_expr_grows(src, s.next(), 1);
    } else if src.peek(s) == TokenKind::Ident {
        lemma_range_grows(src, s);
        let op = src.text_of(tok);
        lemma_grouping_grows(src, s.next());
        let (before, s1) = src.opt_grouping(s.next());
        let (open, s2) = src.expect(s1, TokenKind::LParen);
        let (param, s3) = src.opt_param(s2, op == "topk"@ || op == "bottomk"@);
        if s.pos < s3.pos <= src.tokens.len() {
            lemma_expr_grows(src, s3, 1);
            let s4 = src.binary_expr(s3, 1).1;
            lemma_grouping_grows(src, src.expect(s4, TokenKind::RParen).1);
        }
        let message = "unexpected identifier '"@ + src.text_of(tok) + "'"@;
        lemma_skip_calm(src, s.fail(message, tok.span));
    } else {
        let message = "unexpected token "@ + kind_name(src.peek(s));
        lemma_skip_calm(src, s.fail(message, tok.span));
    }
}

proof fn lemma_rest_grows(src: Source, s: At, lhs: ExprV, min_prec: u8)
    ensures
        grew(s, src.binary_rest(s, lhs, min_prec).1),
    decreases src.tokens.len() - s.pos, 2int,
{
    if let Some((op, prec)) = binary_op(src, s) {
        if prec >= min_prec {
            let next_prec = if op == BinOpKind::Pow {
                prec
            } else {
                (prec + 1) as u8
            };
            lemma_expr_grows(src, s.next(), next_prec);
            let (rhs, s1) = src.binary_expr(s.next(), next_prec);
            if let Some(rhs) = rhs {
                if s.pos < s1.pos <= src.tokens.len() {
                    lemma_rest_grows(src, s1, bin_op(op, lhs, rhs), min_prec);
                }
            }
        }
    }
}

proof fn lemma_expr_grows(src: Source, s: At, min_prec: u8)
    ensures
        grew(s, src.binary_expr(s, min_prec).1),
    decreases src.tokens.len() - s.pos, 3int,
{
    lemma_operand_grows(src, s);
    let (lhs, s1) = src.unary_expr(s);
    if let Some(lhs) = lhs {
        if s.pos < s1.pos <= src.tokens.len() {
            lemma_rest_grows(src, s1, lhs, min_prec);
        }
    }
}

proof fn lemma_left_expr(src: Source, s: At, min_prec: u8)
    requires
        src.ordered(),
        src.valid(s),
    ensures
        left_good(
            src,
            src.binary_expr(s, min_prec).0,
            s,
            src.binary_expr(s, min_prec).1,
            min_prec as int,
        ),
    decreases src.tokens.len() - s.pos, 3int,
{
    lemma_expr_grows(src, s, min_prec);
    lemma_left_operand(src, s);
    lemma_unary_expr(src, s);
    let (lhs, s1) = src.unary_expr(s);
    if let Some(lhs) = lhs {
        if s.pos < s1.pos {
            lemma_rest_grows(src, s1, lhs, min_prec);
            lemma_precedence(src, s1);
            if calm(s, s1) {
                lemma_left_rest(src, s1, lhs, min_prec, s);
            }
        }
    }
}

/// In the tree of a query without errors a left operand that is not in parentheses
/// is never an operation of a looser group, and that of `^` is none of `^`.
///
/// With an operand missing the parser drops its operator, and what follows may
/// take a looser operation as its left operand.
pub proof fn lemma_left_operands(b: Seq<u8>)
    requires
        valid_utf8(b),
        b.len() <= usize::MAX,
        parse_of(b).1.len() == 0,
    ensures
        match parse_of(b).0 {
            Some(e) => left_operands_no_looser(e),
            None => true,
        },
{
    let src = Source { text: b, tokens: significant_tokens(tokens_of(b)) };
    lemma_ordered(b);
    lemma_left_expr(src, At { pos: 0, errors: seq![] }, 1);
}

} // verus!
