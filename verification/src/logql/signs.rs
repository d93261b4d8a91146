//! Every sign and word of the language is known.

use crate::logql::ast::{
    BinOpKind, FilterOp, LabelFilterOp, MatchOp, ParserKind,
};
use crate::logql::keywords::{AGGREGATION_MODIFIERS, BINARY_KEYWORDS};
use crate::logql::lexemes::symbol;
use crate::logql::parser::{
    binary_op, filter_op, label_filter_op, line_filter, match_op, parser_kind, At, Source,
};
use crate::logql::precedence::tightness;
use crate::logql::reading::{
    aggregation_name, binary_sign, filter_sign, label_filter_sign, match_sign, parser_word,
    range_function,
};
use crate::logql::rules::lemma_listed_names;
use crate::logql::tokenizer::{keyword_kind, KeywordKind, TokenKind};
use vstd::prelude::*;
use vstd::string::*;

verus! {

// ── Signs ────────────────────────────────────────────────────────────────────

/// Tokens that are always written the same are written differently.
proof fn lemma_symbols_differ(x: TokenKind, y: TokenKind)
    requires
        symbol(x) is Some,
        symbol(x) == symbol(y),
    ensures
        x == y,
{
    reveal_strlit("|");
    reveal_strlit("|=");
    reveal_strlit("|~");
    reveal_strlit("!=");
    reveal_strlit("!~");
    reveal_strlit("=");
    reveal_strlit("=~");
    reveal_strlit("+");
    reveal_strlit("-");
    reveal_strlit("*");
    reveal_strlit("/");
    reveal_strlit("%");
    reveal_strlit("^");
    reveal_strlit("<");
    reveal_strlit(">");
    reveal_strlit("<=");
    reveal_strlit(">=");
    reveal_strlit("==");
    reveal_strlit("{");
    reveal_strlit("}");
    reveal_strlit("(");
    reveal_strlit(")");
    reveal_strlit("[");
    reveal_strlit("]");
    reveal_strlit(",");
    reveal_strlit(".");
    let a = symbol(x)->0;
    let b = symbol(y)->0;
    assert(a.len() == b.len() && a[0] == b[0]);
    if a.len() == 2 {
        assert(a[1] == b[1]);
    }
}

/// Whether a binary operator is written as a word.
pub open spec fn word_operator(op: BinOpKind) -> bool {
    op is And || op is Or || op is Unless
}

/// A token that is written as a binary operator is one, as tight as it has to be.
pub proof fn lemma_binary_signs(src: Source, s: At, op: BinOpKind)
    requires
        0 <= s.pos < src.tokens.len(),
        if word_operator(op) {
            src.kind(s.pos) == TokenKind::Ident && src.word(s.pos) == binary_sign(op)
        } else {
            symbol(src.kind(s.pos)) == Some(binary_sign(op))
        },
    ensures
        match binary_op(src, s) {
            Some((found, prec)) => found == op && prec == tightness(op),
            None => false,
        },
{
    let kind = match op {
        BinOpKind::Add => TokenKind::Plus,
        BinOpKind::Sub => TokenKind::Minus,
        BinOpKind::Mul => TokenKind::Star,
        BinOpKind::Div => TokenKind::Slash,
        BinOpKind::Mod => TokenKind::Percent,
        BinOpKind::Pow => TokenKind::Caret,
        BinOpKind::CmpEq => TokenKind::CmpEq,
        BinOpKind::Neq => TokenKind::NotEqual,
        BinOpKind::Lt => TokenKind::Lt,
        BinOpKind::Gt => TokenKind::Gt,
        BinOpKind::LtEq => TokenKind::LtEq,
        BinOpKind::GtEq => TokenKind::GtEq,
        _ => TokenKind::Ident,
    };
    if word_operator(op) {
        reveal_strlit("or");
        reveal_strlit("and");
        reveal_strlit("unless");
        assert("or"@.len() == 2 && "and"@.len() == 3 && "unless"@.len() == 6);
    } else {
        lemma_symbols_differ(src.kind(s.pos), kind);
    }
}

/// The signs of matchers, line filters and label filters are known, each as what it is.
pub proof fn lemma_operator_signs(kind: TokenKind)
    ensures
        forall|op: MatchOp|
            symbol(kind) == Some(#[trigger] match_sign(op)) <==> match_op(kind) == Some(op),
        forall|op: FilterOp|
            symbol(kind) == Some(#[trigger] filter_sign(op)) <==> line_filter(kind) && filter_op(
                kind,
            ) == op,
        forall|op: LabelFilterOp|
            symbol(kind) == Some(#[trigger] label_filter_sign(op)) <==> label_filter_op(kind)
                == Some(op),
{
    assert forall|op: MatchOp|
        symbol(kind) == Some(#[trigger] match_sign(op)) <==> match_op(kind) == Some(op) by {
        let k = match op {
            MatchOp::Eq => TokenKind::Eq,
            MatchOp::Neq => TokenKind::NotEqual,
            MatchOp::Re => TokenKind::EqRegex,
            MatchOp::Nre => TokenKind::NotMatch,
        };
        if symbol(kind) == Some(match_sign(op)) {
            lemma_symbols_differ(kind, k);
        }
    }
    assert forall|op: FilterOp|
        symbol(kind) == Some(#[trigger] filter_sign(op)) <==> line_filter(kind) && filter_op(kind)
            == op by {
        let k = match op {
            FilterOp::PipeExact => TokenKind::PipeExact,
            FilterOp::PipeMatch => TokenKind::PipeMatch,
            FilterOp::NotEqual => TokenKind::NotEqual,
            FilterOp::NotMatch => TokenKind::NotMatch,
        };
        if symbol(kind) == Some(filter_sign(op)) {
            lemma_symbols_differ(kind, k);
        }
    }
    assert forall|op: LabelFilterOp|
        symbol(kind) == Some(#[trigger] label_filter_sign(op)) <==> label_filter_op(kind) == Some(
            op,
        ) by {
        let k = match op {
            LabelFilterOp::Eq => TokenKind::Eq,
            LabelFilterOp::Neq => TokenKind::NotEqual,
            LabelFilterOp::Re => TokenKind::EqRegex,
            LabelFilterOp::Nre => TokenKind::NotMatch,
            LabelFilterOp::Gt => TokenKind::Gt,
            LabelFilterOp::GtEq => TokenKind::GtEq,
            LabelFilterOp::Lt => TokenKind::Lt,
            LabelFilterOp::LtEq => TokenKind::LtEq,
            LabelFilterOp::CmpEq => TokenKind::CmpEq,
        };
        if symbol(kind) == Some(label_filter_sign(op)) {
            lemma_symbols_differ(kind, k);
        }
    }
}

// ── Words ────────────────────────────────────────────────────────────────────

/// Whether a word is one of the language.
pub open spec fn known_word(text: Seq<char>) -> bool {
    keyword_kind(text) != KeywordKind::NotKeyword
}

/// The kind of a word: the functions and aggregations, what groups and what joins, and what can
/// stand behind `|`.
pub proof fn lemma_words(text: Seq<char>)
    ensures
        range_function(text) ==> keyword_kind(text) == KeywordKind::RangeFunction,
        keyword_kind(text) == KeywordKind::RangeFunction ==> range_function(text),
        keyword_kind(text) == KeywordKind::AggregationOp ==> aggregation_name(text),
        aggregation_name(text) && !range_function(text) ==> keyword_kind(text)
            == KeywordKind::AggregationOp,
        keyword_kind(text) == KeywordKind::AggregationModifier ==> text == "by"@ || text
            == "without"@,
        keyword_kind(text) == KeywordKind::BinaryKeyword ==> text == "and"@ || text == "or"@ || text
            == "unless"@,
        known_word(text) ==> range_function(text) || aggregation_name(text) || text == "by"@ || text
            == "without"@ || text == "and"@ || text == "or"@ || text == "unless"@ || text == "json"@
            || text == "logfmt"@ || text == "pattern"@ || text == "regexp"@ || text == "unpack"@
            || text == "pack"@ || text == "line_format"@ || text == "label_format"@ || text
            == "drop"@ || text == "keep"@ || text == "decolorize"@ || text == "unwrap"@,
{
    lemma_listed_names(text);
    let m = AGGREGATION_MODIFIERS@;
    assert(m[0]@ == "by"@ && m[1]@ == "without"@);
    let k = BINARY_KEYWORDS@;
    assert(k[0]@ == "and"@ && k[1]@ == "or"@ && k[2]@ == "unless"@);
}

/// The word of a parser names that parser.
pub proof fn lemma_parser_words(kind: ParserKind)
    ensures
        parser_kind(parser_word(kind)) == kind,
{
    reveal_strlit("json");
    reveal_strlit("logfmt");
    reveal_strlit("pattern");
    reveal_strlit("regexp");
    reveal_strlit("unpack");
    reveal_strlit("pack");
    let w = parser_word(kind);
    assert("json"@[0] == 'j' && "logfmt"@[0] == 'l' && "pattern"@.len() == 7 && "regexp"@[0] == 'r'
        && "unpack"@[0] == 'u' && "pack"@.len() == 4 && "pack"@[0] == 'p' && "json"@.len() == 4);
}

// ── Stages ───────────────────────────────────────────────────────────────────

/// A stage that is written behind `|` is taken without an error: a label with an operator and a
/// value, `line_format` with a text, `unwrap` with a label, a parser, `decolorize`, and `drop`,
/// `keep` and `label_format` with whatever follows them.
pub proof fn lemma_stages_taken(src: Source, s: At, op: LabelFilterOp)
    requires
        0 <= s.pos,
        src.kind(s.pos + 1) == TokenKind::Ident,
    ensures
        ({
            let word = src.word(s.pos + 1);
            let (stage, after) = src.pipe_stage(s);
            let taken = stage is Some && after.errors == s.errors;
            &&& keyword_kind(word) == KeywordKind::PipelineParser ==> taken && stage->0 is Parser
            &&& keyword_kind(word) == KeywordKind::PipelineLabelOp && word == "decolorize"@ ==> taken
                && stage->0 is Decolorize && after.pos == s.pos + 2
            &&& keyword_kind(word) == KeywordKind::PipelineFormatter && word == "line_format"@
                && src.kind(s.pos + 2) == TokenKind::String ==> taken && stage->0 is LineFormat
            &&& keyword_kind(word) == KeywordKind::FilterKeyword && src.kind(s.pos + 2)
                == TokenKind::Ident && src.kind(s.pos + 3) != TokenKind::LParen ==> taken
                && stage->0 is Unwrap && after.pos == s.pos + 3
            &&& !known_word(word) && symbol(src.kind(s.pos + 2)) == Some(label_filter_sign(op)) && (
            src.kind(s.pos + 3) == TokenKind::String || src.kind(s.pos + 3) == TokenKind::Number)
                ==> taken && stage->0 is LabelFilter && after.pos == s.pos + 4
        }),
{
    lemma_operator_signs(src.kind(s.pos + 2));
    let s1 = s.next();
    assert(src.text_of(src.token(s1)) == src.word(s.pos + 1));
}

} // verus!
