//! What stands in a query where a token does.

use crate::logql::tokenizer::{
    make_token, token_at, tokens_from, tokens_of, TokenKind, lemma_token_at,
};
use crate::logql::tokenizer::{
    duration_tail_end, exponent_end, fraction_end, number_token, unit_end,
};
use crate::scan::{lemma_quoted_end, lemma_run_end, run_end, ByteClass};
use crate::text::text_in;
use vstd::prelude::*;
use vstd::string::*;
use vstd::utf8::*;

verus! {

/// How a token that is always written the same is written.
pub open spec fn symbol(kind: TokenKind) -> Option<Seq<char>> {
    match kind {
        TokenKind::Pipe => Some("|"@),
        TokenKind::PipeExact => Some("|="@),
        TokenKind::PipeMatch => Some("|~"@),
        TokenKind::NotEqual => Some("!="@),
        TokenKind::NotMatch => Some("!~"@),
        TokenKind::Eq => Some("="@),
        TokenKind::EqRegex => Some("=~"@),
        TokenKind::Plus => Some("+"@),
        TokenKind::Minus => Some("-"@),
        TokenKind::Star => Some("*"@),
        TokenKind::Slash => Some("/"@),
        TokenKind::Percent => Some("%"@),
        TokenKind::Caret => Some("^"@),
        TokenKind::Lt => Some("<"@),
        TokenKind::Gt => Some(">"@),
        TokenKind::LtEq => Some("<="@),
        TokenKind::GtEq => Some(">="@),
        TokenKind::CmpEq => Some("=="@),
        TokenKind::LBrace => Some("{"@),
        TokenKind::RBrace => Some("}"@),
        TokenKind::LParen => Some("("@),
        TokenKind::RParen => Some(")"@),
        TokenKind::LBracket => Some("["@),
        TokenKind::RBracket => Some("]"@),
        TokenKind::Comma => Some(","@),
        TokenKind::Dot => Some("."@),
        _ => None,
    }
}

/// A letter of ASCII, a digit or `_`.
pub open spec fn of_word(c: u8) -> bool {
    ('a' as u8 <= c <= 'z' as u8) || ('A' as u8 <= c <= 'Z' as u8) || ('0' as u8 <= c <= '9' as u8)
        || c == '_' as u8
}

/// A digit of ASCII.
pub open spec fn of_number(c: u8) -> bool {
    '0' as u8 <= c <= '9' as u8
}

/// White space between tokens.
pub open spec fn of_space(c: u8) -> bool {
    c == ' ' as u8 || c == '\t' as u8 || c == '\r' as u8 || c == '\n' as u8
}

/// What strings are enclosed in.
pub open spec fn of_quotes(c: u8) -> bool {
    c == '"' as u8 || c == '\'' as u8 || c == '`' as u8
}

/// What durations are made of: digits, and the letters of `ns`, `us`, `ms`, `s`,
/// `m`, `h`, `d`, `w` and `y`.
pub open spec fn of_duration(c: u8) -> bool {
    of_number(c) || c == 'n' as u8 || c == 'u' as u8 || c == 's' as u8 || c == 'm' as u8 || c
        == 'h' as u8 || c == 'd' as u8 || c == 'w' as u8 || c == 'y' as u8
}

/// Whether the bytes from `start` to `end` read as a token of the kind.
pub open spec fn reads_as(b: Seq<u8>, start: int, end: int, kind: TokenKind) -> bool {
    let c = b[start];
    match kind {
        TokenKind::Whitespace => forall|i: int| start <= i < end ==> of_space(#[trigger] b[i]),
        TokenKind::LineComment => {
            &&& c == '#' as u8
            &&& forall|i: int| start <= i < end ==> #[trigger] b[i] != '\n' as u8
        },
        TokenKind::String => {
            &&& of_quotes(c)
            &&& start + 2 <= end
            &&& b[end - 1] == c
        },
        TokenKind::Number => of_number(c) || (c == '.' as u8 && start + 1 < end && of_number(
            b[start + 1],
        )),
        TokenKind::Duration => {
            &&& of_number(c)
            &&& forall|i: int| start <= i < end ==> of_duration(#[trigger] b[i])
            &&& exists|i: int| start <= i < end && !of_number(#[trigger] b[i])
        },
        TokenKind::Ident => {
            &&& !of_number(c)
            &&& forall|i: int| start <= i < end ==> of_word(#[trigger] b[i])
        },
        TokenKind::Error => {
            ||| of_quotes(c) && end == b.len()
            ||| c == '!' as u8 && end == start + 1
            ||| !of_space(c) && !of_quotes(c) && !of_word(c) && c != '#' as u8
        },
        TokenKind::Eof => false,
        _ => text_in(b, start, end) == symbol(kind)->0,
    }
}

/// Whether a token ends where it has to: none could be longer.
pub open spec fn ends_there(b: Seq<u8>, start: int, end: int, kind: TokenKind) -> bool {
    end < b.len() ==> {
        let c = b[end];
        match kind {
            TokenKind::Whitespace => !of_space(c),
            TokenKind::LineComment => c == '\n' as u8,
            TokenKind::Ident => !of_word(c),
            TokenKind::Pipe => c != '=' as u8 && c != '~' as u8,
            TokenKind::Eq => c != '=' as u8 && c != '~' as u8,
            TokenKind::Lt => c != '=' as u8,
            TokenKind::Gt => c != '=' as u8,
            TokenKind::Dot => !of_number(c),
            TokenKind::Error => b[start] == '!' as u8 ==> c != '=' as u8 && c != '~' as u8,
            _ => true,
        }
    }
}

proof fn lemma_one(b: Seq<u8>, p: int, c: char)
    requires
        0 <= p < b.len(),
        c as u32 <= 0x7f,
        b[p] == c as u8,
    ensures
        text_in(b, p, p + 1) == seq![c],
{
    let s = seq![c];
    assert(is_ascii_chars(s));
    is_ascii_chars_encode_utf8(s);
    assert(encode_utf8(s) =~= b.subrange(p, p + 1));
    encode_utf8_decode_utf8(s);
}

proof fn lemma_two(b: Seq<u8>, p: int, c: char, d: char)
    requires
        0 <= p,
        p + 1 < b.len(),
        c as u32 <= 0x7f,
        d as u32 <= 0x7f,
        b[p] == c as u8,
        b[p + 1] == d as u8,
    ensures
        text_in(b, p, p + 2) == seq![c, d],
{
    let s = seq![c, d];
    assert(is_ascii_chars(s));
    is_ascii_chars_encode_utf8(s);
    assert(encode_utf8(s) =~= b.subrange(p, p + 2));
    encode_utf8_decode_utf8(s);
}

proof fn lemma_unit(b: Seq<u8>, pos: int)
    requires
        0 <= pos <= b.len(),
    ensures
        pos <= unit_end(b, pos) <= b.len(),
        forall|i: int| pos <= i < unit_end(b, pos) ==> of_duration(#[trigger] b[i]) && !of_number(b[i]),
{
}

proof fn lemma_tail(b: Seq<u8>, pos: int)
    requires
        0 <= pos <= b.len(),
    ensures
        pos <= duration_tail_end(b, pos) <= b.len(),
        forall|i: int| pos <= i < duration_tail_end(b, pos) ==> of_duration(#[trigger] b[i]),
    decreases b.len() - pos,
{
    let d = run_end(b, pos, ByteClass::Digit);
    lemma_run_end(b, pos, ByteClass::Digit);
    if d > pos && d < b.len() {
        let u = unit_end(b, d);
        lemma_unit(b, d);
        if u > d {
            lemma_tail(b, u);
        }
    }
}

proof fn lemma_duration(b: Seq<u8>, p: int)
    requires
        0 <= p < b.len(),
        of_number(b[p]),
    ensures
        number_token(b, p).0 == TokenKind::Duration || number_token(b, p).0 == TokenKind::Number,
        number_token(b, p).0 == TokenKind::Duration ==> reads_as(
            b,
            p,
            number_token(b, p).1,
            TokenKind::Duration,
        ),
{
    let whole = run_end(b, p, ByteClass::Digit);
    lemma_run_end(b, p, ByteClass::Digit);
    lemma_unit(b, whole);
    let u = unit_end(b, whole);
    if u > whole {
        lemma_tail(b, u);
        assert(!of_number(b[whole]));
    }
}

/// What a token reads as, and that it could not be longer.
proof fn lemma_token_reads(b: Seq<u8>, p: int)
    requires
        0 <= p < b.len(),
    ensures
        reads_as(b, p, token_at(b, p).1, token_at(b, p).0),
        ends_there(b, p, token_at(b, p).1, token_at(b, p).0),
{
    let c = b[p];
    let (kind, end) = token_at(b, p);
    lemma_token_at(b, p);
    lemma_run_end(b, p, ByteClass::Space);
    lemma_run_end(b, p, ByteClass::Word);
    lemma_run_end(b, p, ByteClass::NotNewline);
    lemma_quoted_end(b, p + 1, c, c != '`' as u8);
    if of_number(c) {
        lemma_duration(b, p);
    }
    if c == '.' as u8 && p + 1 < b.len() && of_number(b[p + 1]) {
        lemma_run_end(b, p + 1, ByteClass::Digit);
        let f = fraction_end(b, p);
        if f < b.len() {
            lemma_run_end(b, f + 1, ByteClass::Digit);
            if f + 1 < b.len() {
                lemma_run_end(b, f + 2, ByteClass::Digit);
            }
        }
        assert(exponent_end(b, f) >= f);
    }
    match kind {
        TokenKind::Pipe => {
            reveal_strlit("|");
            assert("|"@ =~= seq!['|']);
            lemma_one(b, p, '|');
        },
        TokenKind::PipeExact => {
            reveal_strlit("|=");
            assert("|="@ =~= seq!['|', '=']);
            lemma_two(b, p, '|', '=');
        },
        TokenKind::PipeMatch => {
            reveal_strlit("|~");
            assert("|~"@ =~= seq!['|', '~']);
            lemma_two(b, p, '|', '~');
        },
        TokenKind::NotEqual => {
            reveal_strlit("!=");
            assert("!="@ =~= seq!['!', '=']);
            lemma_two(b, p, '!', '=');
        },
        TokenKind::NotMatch => {
            reveal_strlit("!~");
            assert("!~"@ =~= seq!['!', '~']);
            lemma_two(b, p, '!', '~');
        },
        TokenKind::Eq => {
            reveal_strlit("=");
            assert("="@ =~= seq!['=']);
            lemma_one(b, p, '=');
        },
        TokenKind::EqRegex => {
            reveal_strlit("=~");
            assert("=~"@ =~= seq!['=', '~']);
            lemma_two(b, p, '=', '~');
        },
        TokenKind::Plus => {
            reveal_strlit("+");
            assert("+"@ =~= seq!['+']);
            lemma_one(b, p, '+');
        },
        TokenKind::Minus => {
            reveal_strlit("-");
            assert("-"@ =~= seq!['-']);
            lemma_one(b, p, '-');
        },
        TokenKind::Star => {
            reveal_strlit("*");
            assert("*"@ =~= seq!['*']);
            lemma_one(b, p, '*');
        },
        TokenKind::Slash => {
            reveal_strlit("/");
            assert("/"@ =~= seq!['/']);
            lemma_one(b, p, '/');
        },
        TokenKind::Percent => {
            reveal_strlit("%");
            assert("%"@ =~= seq!['%']);
            lemma_one(b, p, '%');
        },
        TokenKind::Caret => {
            reveal_strlit("^");
            assert("^"@ =~= seq!['^']);
            lemma_one(b, p, '^');
        },
        TokenKind::Lt => {
            reveal_strlit("<");
            assert("<"@ =~= seq!['<']);
            lemma_one(b, p, '<');
        },
        TokenKind::Gt => {
            reveal_strlit(">");
            assert(">"@ =~= seq!['>']);
            lemma_one(b, p, '>');
        },
        TokenKind::LtEq => {
            reveal_strlit("<=");
            assert("<="@ =~= seq!['<', '=']);
            lemma_two(b, p, '<', '=');
        },
        TokenKind::GtEq => {
            reveal_strlit(">=");
            assert(">="@ =~= seq!['>', '=']);
            lemma_two(b, p, '>', '=');
        },
        TokenKind::CmpEq => {
            reveal_strlit("==");
            assert("=="@ =~= seq!['=', '=']);
            lemma_two(b, p, '=', '=');
        },
        TokenKind::LBrace => {
            reveal_strlit("{");
            assert("{"@ =~= seq!['{']);
            lemma_one(b, p, '{');
        },
        TokenKind::RBrace => {
            reveal_strlit("}");
            assert("}"@ =~= seq!['}']);
            lemma_one(b, p, '}');
        },
        TokenKind::LParen => {
            reveal_strlit("(");
            assert("("@ =~= seq!['(']);
            lemma_one(b, p, '(');
        },
        TokenKind::RParen => {
            reveal_strlit(")");
            assert(")"@ =~= seq![')']);
            lemma_one(b, p, ')');
        },
        TokenKind::LBracket => {
            reveal_strlit("[");
            assert("["@ =~= seq!['[']);
            lemma_one(b, p, '[');
        },
        TokenKind::RBracket => {
            reveal_strlit("]");
            assert("]"@ =~= seq![']']);
            lemma_one(b, p, ']');
        },
        TokenKind::Comma => {
            reveal_strlit(",");
            assert(","@ =~= seq![',']);
            lemma_one(b, p, ',');
        },
        TokenKind::Dot => {
            reveal_strlit(".");
            assert("."@ =~= seq!['.']);
            lemma_one(b, p, '.');
        },
        _ => {},
    }
}

proof fn lemma_tokens_at(b: Seq<u8>, pos: int, i: int)
    requires
        0 <= pos <= b.len(),
        b.len() <= usize::MAX,
        0 <= i < tokens_from(b, pos).len() - 1,
    ensures
        ({
            let t = tokens_from(b, pos)[i];
            &&& 0 <= t.span.start < b.len()
            &&& t == make_token(
                token_at(b, t.span.start as int).0,
                t.span.start as int,
                token_at(b, t.span.start as int).1,
            )
            &&& t.span.end == token_at(b, t.span.start as int).1
        }),
    decreases b.len() - pos,
{
    if pos < b.len() {
        let (kind, end) = token_at(b, pos);
        lemma_token_at(b, pos);
        let rest = tokens_from(b, end);
        assert(tokens_from(b, pos) == seq![make_token(kind, pos, end)] + rest);
        if i > 0 {
            assert(tokens_from(b, pos)[i] == rest[i - 1]);
            lemma_tokens_at(b, end, i - 1);
        }
    }
}

/// Every token reads as its kind says, and ends where it has to.
pub proof fn lemma_lexemes(b: Seq<u8>, i: int)
    requires
        valid_utf8(b),
        b.len() <= usize::MAX,
        0 <= i < tokens_of(b).len() - 1,
    ensures
        ({
            let t = tokens_of(b)[i];
            &&& reads_as(b, t.span.start as int, t.span.end as int, t.kind)
            &&& ends_there(b, t.span.start as int, t.span.end as int, t.kind)
        }),
{
    lemma_tokens_at(b, 0, i);
    lemma_token_reads(b, tokens_of(b)[i].span.start as int);
}

} // verus!
