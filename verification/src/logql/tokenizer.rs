//! Lossless tokenizer for LogQL.
//!
//! Every byte of the input belongs to exactly one token, so the input can be
//! rebuilt from the tokens. Malformed input becomes `Error` tokens.

use crate::logql::keywords::{
    AGGREGATION_MODIFIERS, AGGREGATION_OPS, BINARY_KEYWORDS, RANGE_FUNCTIONS,
};
use crate::scan::{
    lemma_quoted_end, lemma_run_end, quoted_end, run_end, skip_quoted, skip_run, ByteClass,
};
use crate::text::{
    char_width, contains_word, lemma_boundary, lemma_boundary_after_ascii, lemma_boundary_next,
    lemma_text_split, listed, str_eq, substr, text_in,
};
use vstd::prelude::*;
use vstd::string::*;
use vstd::utf8::*;

verus! {

/// What a token is.
#[derive(Debug, Clone, Copy, PartialEq, Eq, Structural)]
pub enum TokenKind {
    /// `"..."`, `'...'` or a backtick string
    String,
    /// `42`, `3.14`, `.5`, `1e10`
    Number,
    /// `5m`, `1h30m`, `500ms`
    Duration,
    /// Label names, function names and keywords
    Ident,
    /// `|`
    Pipe,
    /// `|=`
    PipeExact,
    /// `|~`
    PipeMatch,
    /// `!=`
    NotEqual,
    /// `!~`
    NotMatch,
    /// `=`
    Eq,
    /// `=~`
    EqRegex,
    /// `+`
    Plus,
    /// `-`
    Minus,
    /// `*`
    Star,
    /// `/`
    Slash,
    /// `%`
    Percent,
    /// `^`
    Caret,
    /// `<`
    Lt,
    /// `>`
    Gt,
    /// `<=`
    LtEq,
    /// `>=`
    GtEq,
    /// `==`
    CmpEq,
    /// `{`
    LBrace,
    /// `}`
    RBrace,
    /// `(`
    LParen,
    /// `)`
    RParen,
    /// `[`
    LBracket,
    /// `]`
    RBracket,
    /// `,`
    Comma,
    /// `.`
    Dot,
    /// Spaces, tabs and newlines
    Whitespace,
    /// `# ...`
    LineComment,
    /// Anything unrecognised, and unterminated strings
    Error,
    /// End of input
    Eof,
}

/// The name of a token kind.
pub open spec fn kind_name(kind: TokenKind) -> Seq<char> {
    match kind {
        TokenKind::String => "String"@,
        TokenKind::Number => "Number"@,
        TokenKind::Duration => "Duration"@,
        TokenKind::Ident => "Ident"@,
        TokenKind::Pipe => "Pipe"@,
        TokenKind::PipeExact => "PipeExact"@,
        TokenKind::PipeMatch => "PipeMatch"@,
        TokenKind::NotEqual => "NotEqual"@,
        TokenKind::NotMatch => "NotMatch"@,
        TokenKind::Eq => "Eq"@,
        TokenKind::EqRegex => "EqRegex"@,
        TokenKind::Plus => "Plus"@,
        TokenKind::Minus => "Minus"@,
        TokenKind::Star => "Star"@,
        TokenKind::Slash => "Slash"@,
        TokenKind::Percent => "Percent"@,
        TokenKind::Caret => "Caret"@,
        TokenKind::Lt => "Lt"@,
        TokenKind::Gt => "Gt"@,
        TokenKind::LtEq => "LtEq"@,
        TokenKind::GtEq => "GtEq"@,
        TokenKind::CmpEq => "CmpEq"@,
        TokenKind::LBrace => "LBrace"@,
        TokenKind::RBrace => "RBrace"@,
        TokenKind::LParen => "LParen"@,
        TokenKind::RParen => "RParen"@,
        TokenKind::LBracket => "LBracket"@,
        TokenKind::RBracket => "RBracket"@,
        TokenKind::Comma => "Comma"@,
        TokenKind::Dot => "Dot"@,
        TokenKind::Whitespace => "Whitespace"@,
        TokenKind::LineComment => "LineComment"@,
        TokenKind::Error => "Error"@,
        TokenKind::Eof => "Eof"@,
    }
}

impl TokenKind {
    /// The name of the kind, as messages give it.
    pub fn name(self) -> (r: &'static str)
        ensures
            r@ == kind_name(self),
    {
        match self {
            TokenKind::String => "String",
            TokenKind::Number => "Number",
            TokenKind::Duration => "Duration",
            TokenKind::Ident => "Ident",
            TokenKind::Pipe => "Pipe",
            TokenKind::PipeExact => "PipeExact",
            TokenKind::PipeMatch => "PipeMatch",
            TokenKind::NotEqual => "NotEqual",
            TokenKind::NotMatch => "NotMatch",
            TokenKind::Eq => "Eq",
            TokenKind::EqRegex => "EqRegex",
            TokenKind::Plus => "Plus",
            TokenKind::Minus => "Minus",
            TokenKind::Star => "Star",
            TokenKind::Slash => "Slash",
            TokenKind::Percent => "Percent",
            TokenKind::Caret => "Caret",
            TokenKind::Lt => "Lt",
            TokenKind::Gt => "Gt",
            TokenKind::LtEq => "LtEq",
            TokenKind::GtEq => "GtEq",
            TokenKind::CmpEq => "CmpEq",
            TokenKind::LBrace => "LBrace",
            TokenKind::RBrace => "RBrace",
            TokenKind::LParen => "LParen",
            TokenKind::RParen => "RParen",
            TokenKind::LBracket => "LBracket",
            TokenKind::RBracket => "RBracket",
            TokenKind::Comma => "Comma",
            TokenKind::Dot => "Dot",
            TokenKind::Whitespace => "Whitespace",
            TokenKind::LineComment => "LineComment",
            TokenKind::Error => "Error",
            TokenKind::Eof => "Eof",
        }
    }
}

/// A byte range of the input.
#[derive(Debug, Clone, Copy, PartialEq, Eq, Structural)]
pub struct Span {
    /// First byte
    pub start: usize,
    /// Just behind the last byte
    pub end: usize,
}

/// A token and where it stands.
#[derive(Debug, Clone, Copy, PartialEq, Eq, Structural)]
pub struct Token {
    pub kind: TokenKind,
    pub span: Span,
}

impl Token {
    /// The text of this token in the input it was cut from.
    pub fn text<'a>(&self, input: &'a str) -> (r: &'a str)
        requires
            self.span.start <= self.span.end <= input.spec_bytes().len(),
            is_char_boundary(input.spec_bytes(), self.span.start as int),
            is_char_boundary(input.spec_bytes(), self.span.end as int),
        ensures
            r@ == text_in(input.spec_bytes(), self.span.start as int, self.span.end as int),
            r.spec_bytes() == input.spec_bytes().subrange(
                self.span.start as int,
                self.span.end as int,
            ),
    {
        substr(input, self.span.start, self.span.end)
    }
}

/// The role of an identifier in LogQL.
#[derive(Debug, Clone, Copy, PartialEq, Eq, Structural)]
pub enum KeywordKind {
    /// `rate`, `count_over_time`, ...
    RangeFunction,
    /// `sum`, `avg`, `topk`, ...
    AggregationOp,
    /// `by`, `without`
    AggregationModifier,
    /// `and`, `or`, `unless`
    BinaryKeyword,
    /// `json`, `logfmt`, `pattern`, `regexp`, `unpack`, `pack`
    PipelineParser,
    /// `line_format`, `label_format`
    PipelineFormatter,
    /// `drop`, `keep`, `decolorize`
    PipelineLabelOp,
    /// `unwrap`
    FilterKeyword,
    /// Not a keyword
    NotKeyword,
}

/// The keyword kind of an identifier.
pub open spec fn keyword_kind(text: Seq<char>) -> KeywordKind {
    if listed(RANGE_FUNCTIONS@, text) {
        KeywordKind::RangeFunction
    } else if listed(AGGREGATION_OPS@, text) {
        KeywordKind::AggregationOp
    } else if listed(AGGREGATION_MODIFIERS@, text) {
        KeywordKind::AggregationModifier
    } else if listed(BINARY_KEYWORDS@, text) {
        KeywordKind::BinaryKeyword
    } else if text == "json"@ || text == "logfmt"@ || text == "pattern"@ || text == "regexp"@
        || text == "unpack"@ || text == "pack"@ {
        KeywordKind::PipelineParser
    } else if text == "line_format"@ || text == "label_format"@ {
        KeywordKind::PipelineFormatter
    } else if text == "drop"@ || text == "keep"@ || text == "decolorize"@ {
        KeywordKind::PipelineLabelOp
    } else if text == "unwrap"@ {
        KeywordKind::FilterKeyword
    } else {
        KeywordKind::NotKeyword
    }
}

/// Categorize an identifier.
pub fn classify_keyword(text: &str) -> (r: KeywordKind)
    ensures
        r == keyword_kind(text@),
{
    if contains_word(&RANGE_FUNCTIONS, text) {
        KeywordKind::RangeFunction
    } else if contains_word(&AGGREGATION_OPS, text) {
        KeywordKind::AggregationOp
    } else if contains_word(&AGGREGATION_MODIFIERS, text) {
        KeywordKind::AggregationModifier
    } else if contains_word(&BINARY_KEYWORDS, text) {
        KeywordKind::BinaryKeyword
    } else if str_eq(text, "json") || str_eq(text, "logfmt") || str_eq(text, "pattern")
        || str_eq(text, "regexp") || str_eq(text, "unpack") || str_eq(text, "pack") {
        KeywordKind::PipelineParser
    } else if str_eq(text, "line_format") || str_eq(text, "label_format") {
        KeywordKind::PipelineFormatter
    } else if str_eq(text, "drop") || str_eq(text, "keep") || str_eq(text, "decolorize") {
        KeywordKind::PipelineLabelOp
    } else if str_eq(text, "unwrap") {
        KeywordKind::FilterKeyword
    } else {
        KeywordKind::NotKeyword
    }
}

// ── Numbers and durations ────────────────────────────────────────────────────

/// The end of the decimal part at `pos`: a dot counts only before a digit.
pub open spec fn fraction_end(b: Seq<u8>, pos: int) -> int {
    if pos + 1 < b.len() && b[pos] == '.' as u8 && ByteClass::Digit.has(b[pos + 1]) {
        run_end(b, pos + 1, ByteClass::Digit)
    } else {
        pos
    }
}

/// The end of the exponent at `pos`.
pub open spec fn exponent_end(b: Seq<u8>, pos: int) -> int {
    if pos < b.len() && (b[pos] == 'e' as u8 || b[pos] == 'E' as u8) {
        if pos + 1 < b.len() && (b[pos + 1] == '+' as u8 || b[pos + 1] == '-' as u8) {
            run_end(b, pos + 2, ByteClass::Digit)
        } else {
            run_end(b, pos + 1, ByteClass::Digit)
        }
    } else {
        pos
    }
}

/// The end of one duration unit at `pos`, or `pos` where none stands there.
pub open spec fn unit_end(b: Seq<u8>, pos: int) -> int {
    if pos >= b.len() {
        pos
    } else if b[pos] == 'n' as u8 || b[pos] == 'u' as u8 {
        if pos + 1 < b.len() && b[pos + 1] == 's' as u8 {
            pos + 2
        } else {
            pos
        }
    } else if b[pos] == 'm' as u8 {
        if pos + 1 < b.len() && b[pos + 1] == 's' as u8 {
            pos + 2
        } else {
            pos + 1
        }
    } else if b[pos] == 's' as u8 || b[pos] == 'h' as u8 || b[pos] == 'd' as u8 || b[pos] == 'w' as u8 || b[pos]
        == 'y' as u8 {
        pos + 1
    } else {
        pos
    }
}

/// The end of what continues a duration behind a unit: digits and units in turn.
pub open spec fn duration_tail_end(b: Seq<u8>, pos: int) -> int
    decreases b.len() - pos,
{
    let d = run_end(b, pos, ByteClass::Digit);
    if pos < 0 || d <= pos || d >= b.len() {
        d
    } else {
        let u = unit_end(b, d);
        if u <= d {
            d
        } else {
            duration_tail_end(b, u)
        }
    }
}

/// The end of the duration suffix at `pos`, or `pos` where none stands there.
pub open spec fn duration_end(b: Seq<u8>, pos: int) -> int {
    let u = unit_end(b, pos);
    if u == pos {
        pos
    } else {
        duration_tail_end(b, u)
    }
}

/// Kind and end of the token at `pos` that starts with a digit.
pub open spec fn number_token(b: Seq<u8>, pos: int) -> (TokenKind, int) {
    let whole = run_end(b, pos, ByteClass::Digit);
    let end = exponent_end(b, fraction_end(b, whole));
    if end == whole && duration_end(b, whole) > whole {
        (TokenKind::Duration, duration_end(b, whole))
    } else {
        (TokenKind::Number, end)
    }
}

fn skip_exponent(bytes: &[u8], pos: usize) -> (end: usize)
    requires
        pos <= bytes.len(),
    ensures
        end == exponent_end(bytes@, pos as int),
        pos <= end <= bytes.len(),
{
    let len = bytes.len();
    if pos < len && (bytes[pos] == 'e' as u8 || bytes[pos] == 'E' as u8) {
        if len - pos > 1 && (bytes[pos + 1] == '+' as u8 || bytes[pos + 1] == '-' as u8) {
            skip_run(bytes, pos + 2, ByteClass::Digit)
        } else {
            skip_run(bytes, pos + 1, ByteClass::Digit)
        }
    } else {
        pos
    }
}

fn skip_unit(bytes: &[u8], pos: usize) -> (end: usize)
    requires
        pos <= bytes.len(),
    ensures
        end == unit_end(bytes@, pos as int),
        pos <= end <= bytes.len(),
{
    let len = bytes.len();
    if pos >= len {
        return pos;
    }
    let c = bytes[pos];
    let before_s = len - pos > 1 && bytes[pos + 1] == 's' as u8;
    if c == 'n' as u8 || c == 'u' as u8 {
        if before_s {
            pos + 2
        } else {
            pos
        }
    } else if c == 'm' as u8 {
        if before_s {
            pos + 2
        } else {
            pos + 1
        }
    } else if is_duration_suffix_start(c) {
        pos + 1
    } else {
        pos
    }
}

/// The number of bytes of the duration suffix at `pos` (0 if there is none):
/// one or more units with digits between them, as in the tail of `1h30m10s`.
fn eat_duration_suffix(bytes: &[u8], pos: usize) -> (consumed: usize)
    requires
        pos <= bytes.len(),
    ensures
        pos + consumed == duration_end(bytes@, pos as int),
        pos + consumed <= bytes.len(),
{
    let mut p: usize = skip_unit(bytes, pos);
    if p == pos {
        return 0;
    }
    loop
        invariant
            pos < p <= bytes.len(),
            duration_end(bytes@, pos as int) == duration_tail_end(bytes@, p as int),
        decreases bytes.len() - p,
    {
        let d = skip_run(bytes, p, ByteClass::Digit);
        if d == p || d >= bytes.len() {
            return d - pos;
        }
        let u = skip_unit(bytes, d);
        if u == d {
            return d - pos;
        }
        p = u;
    }
}

/// Whether `b` can start a duration unit.
fn is_duration_suffix_start(b: u8) -> (r: bool)
    ensures
        r == (b == 'n' as u8 || b == 'u' as u8 || b == 'm' as u8 || b == 's' as u8 || b == 'h' as u8 || b == 'd' as u8 || b
            == 'w' as u8 || b == 'y' as u8),
{
    b == 'n' as u8 || b == 'u' as u8 || b == 'm' as u8 || b == 's' as u8 || b == 'h' as u8 || b == 'd' as u8 || b == 'w' as u8 || b
        == 'y' as u8
}

fn lex_number(bytes: &[u8], pos: usize) -> (r: (TokenKind, usize))
    requires
        pos < bytes.len(),
    ensures
        (r.0, r.1 as int) == number_token(bytes@, pos as int),
        pos <= r.1 <= bytes.len(),
{
    let len = bytes.len();
    let whole = skip_run(bytes, pos, ByteClass::Digit);
    let mut end: usize = whole;
    if len - end > 1 && bytes[end] == '.' as u8 && ByteClass::Digit.test(bytes[end + 1]) {
        end = skip_run(bytes, end + 1, ByteClass::Digit);
    }
    proof {
        lemma_run_end(bytes@, pos as int, ByteClass::Digit);
        if whole + 1 < len {
            lemma_run_end(bytes@, whole + 1, ByteClass::Digit);
        }
    }
    let end = skip_exponent(bytes, end);
    if end == whole && end < len && is_duration_suffix_start(bytes[end]) {
        let consumed = eat_duration_suffix(bytes, end);
        if consumed > 0 {
            return (TokenKind::Duration, end + consumed);
        }
    }
    (TokenKind::Number, end)
}

// ── Tokens ───────────────────────────────────────────────────────────────────

/// Whether the byte behind `pos` is `c`.
pub open spec fn followed_by(b: Seq<u8>, pos: int, c: u8) -> bool {
    pos + 1 < b.len() && b[pos + 1] == c
}

/// The kind of a token that is a single byte whatever follows it.
pub open spec fn single_byte_kind(c: u8) -> Option<TokenKind> {
    if c == '+' as u8 {
        Some(TokenKind::Plus)
    } else if c == '-' as u8 {
        Some(TokenKind::Minus)
    } else if c == '*' as u8 {
        Some(TokenKind::Star)
    } else if c == '/' as u8 {
        Some(TokenKind::Slash)
    } else if c == '%' as u8 {
        Some(TokenKind::Percent)
    } else if c == '^' as u8 {
        Some(TokenKind::Caret)
    } else if c == '{' as u8 {
        Some(TokenKind::LBrace)
    } else if c == '}' as u8 {
        Some(TokenKind::RBrace)
    } else if c == '(' as u8 {
        Some(TokenKind::LParen)
    } else if c == ')' as u8 {
        Some(TokenKind::RParen)
    } else if c == '[' as u8 {
        Some(TokenKind::LBracket)
    } else if c == ']' as u8 {
        Some(TokenKind::RBracket)
    } else if c == ',' as u8 {
        Some(TokenKind::Comma)
    } else {
        None
    }
}

/// An operator of one byte, or of two where the second is `c1` or `c2`.
pub open spec fn operator_token(
    b: Seq<u8>,
    pos: int,
    alone: TokenKind,
    c1: u8,
    k1: TokenKind,
    c2: u8,
    k2: TokenKind,
) -> (TokenKind, int) {
    if followed_by(b, pos, c1) {
        (k1, pos + 2)
    } else if followed_by(b, pos, c2) {
        (k2, pos + 2)
    } else {
        (alone, pos + 1)
    }
}

/// Kind and end of the token that starts at `pos`.
pub open spec fn token_at(b: Seq<u8>, pos: int) -> (TokenKind, int) {
    let c = b[pos];
    if ByteClass::Space.has(c) {
        (TokenKind::Whitespace, run_end(b, pos, ByteClass::Space))
    } else if c == '#' as u8 {
        (TokenKind::LineComment, run_end(b, pos, ByteClass::NotNewline))
    } else if c == '"' as u8 || c == '\'' as u8 || c == '`' as u8 {
        let (end, closed) = quoted_end(b, pos + 1, c, c != '`' as u8);
        (
            if closed {
                TokenKind::String
            } else {
                TokenKind::Error
            },
            end,
        )
    } else if ByteClass::Digit.has(c) {
        number_token(b, pos)
    } else if c == '.' as u8 && pos + 1 < b.len() && ByteClass::Digit.has(b[pos + 1]) {
        (TokenKind::Number, exponent_end(b, fraction_end(b, pos)))
    } else if ByteClass::Word.has(c) {
        (TokenKind::Ident, run_end(b, pos, ByteClass::Word))
    } else if c == '|' as u8 {
        operator_token(
            b,
            pos,
            TokenKind::Pipe,
            '=' as u8,
            TokenKind::PipeExact,
            '~' as u8,
            TokenKind::PipeMatch,
        )
    } else if c == '!' as u8 {
        operator_token(
            b,
            pos,
            TokenKind::Error,
            '=' as u8,
            TokenKind::NotEqual,
            '~' as u8,
            TokenKind::NotMatch,
        )
    } else if c == '=' as u8 {
        operator_token(
            b,
            pos,
            TokenKind::Eq,
            '~' as u8,
            TokenKind::EqRegex,
            '=' as u8,
            TokenKind::CmpEq,
        )
    } else if c == '<' as u8 {
        operator_token(b, pos, TokenKind::Lt, '=' as u8, TokenKind::LtEq, '=' as u8, TokenKind::LtEq)
    } else if c == '>' as u8 {
        operator_token(b, pos, TokenKind::Gt, '=' as u8, TokenKind::GtEq, '=' as u8, TokenKind::GtEq)
    } else if single_byte_kind(c) is Some {
        (single_byte_kind(c)->0, pos + 1)
    } else if c == '.' as u8 {
        (TokenKind::Dot, pos + 1)
    } else {
        let end = pos + char_width(c);
        (
            TokenKind::Error,
            if end <= b.len() {
                end
            } else {
                b.len() as int
            },
        )
    }
}

proof fn lemma_duration_tail_end(b: Seq<u8>, pos: int)
    requires
        0 < pos <= b.len(),
        b[pos - 1] < 0x80,
    ensures
        pos <= duration_tail_end(b, pos) <= b.len(),
        b[duration_tail_end(b, pos) - 1] < 0x80,
    decreases b.len() - pos,
{
    lemma_run_end(b, pos, ByteClass::Digit);
    let d = run_end(b, pos, ByteClass::Digit);
    if d > pos {
        assert(ByteClass::Digit.has(b[d - 1]));
    }
    if d > pos && d < b.len() {
        let u = unit_end(b, d);
        if u > d {
            lemma_duration_tail_end(b, u);
        }
    }
}

/// Tokens are not empty and stay inside the input; unless the first byte is
/// outside ASCII, the token ends at the end of the input, before a newline or
/// behind an ASCII byte.
pub(crate) proof fn lemma_token_at(b: Seq<u8>, pos: int)
    requires
        0 <= pos < b.len(),
    ensures
        pos < token_at(b, pos).1 <= b.len(),
        token_at(b, pos).0 != TokenKind::Eof,
        token_at(b, pos).0 == TokenKind::String ==> {
            &&& pos + 2 <= token_at(b, pos).1
            &&& b[pos] < 0x80
            &&& b[token_at(b, pos).1 - 1] < 0x80
        },
        b[pos] < 0x80 ==> {
            let e = token_at(b, pos).1;
            e == b.len() || b[e] == '\n' as u8 || b[e - 1] < 0x80
        },
{
    let c = b[pos];
    lemma_run_end(b, pos, ByteClass::Space);
    lemma_run_end(b, pos, ByteClass::Digit);
    lemma_run_end(b, pos, ByteClass::Word);
    lemma_run_end(b, pos, ByteClass::NotNewline);
    lemma_run_end(b, pos + 1, ByteClass::Digit);
    lemma_quoted_end(b, pos + 1, c, c != '`' as u8);
    let whole = run_end(b, pos, ByteClass::Digit);
    if whole < b.len() {
        lemma_run_end(b, whole + 1, ByteClass::Digit);
        if unit_end(b, whole) > whole {
            lemma_duration_tail_end(b, unit_end(b, whole));
        }
    }
    lemma_exponent(b, fraction_end(b, whole));
    lemma_exponent(b, fraction_end(b, pos));
}

proof fn lemma_exponent(b: Seq<u8>, pos: int)
    requires
        0 <= pos <= b.len(),
    ensures
        pos <= exponent_end(b, pos) <= b.len(),
        exponent_end(b, pos) > pos ==> b[exponent_end(b, pos) - 1] < 0x80,
{
    if pos < b.len() {
        lemma_run_end(b, pos + 1, ByteClass::Digit);
        if pos + 1 < b.len() {
            lemma_run_end(b, pos + 2, ByteClass::Digit);
        }
    }
}

fn single_byte(c: u8) -> (r: Option<TokenKind>)
    ensures
        r == single_byte_kind(c),
{
    if c == '+' as u8 {
        Some(TokenKind::Plus)
    } else if c == '-' as u8 {
        Some(TokenKind::Minus)
    } else if c == '*' as u8 {
        Some(TokenKind::Star)
    } else if c == '/' as u8 {
        Some(TokenKind::Slash)
    } else if c == '%' as u8 {
        Some(TokenKind::Percent)
    } else if c == '^' as u8 {
        Some(TokenKind::Caret)
    } else if c == '{' as u8 {
        Some(TokenKind::LBrace)
    } else if c == '}' as u8 {
        Some(TokenKind::RBrace)
    } else if c == '(' as u8 {
        Some(TokenKind::LParen)
    } else if c == ')' as u8 {
        Some(TokenKind::RParen)
    } else if c == '[' as u8 {
        Some(TokenKind::LBracket)
    } else if c == ']' as u8 {
        Some(TokenKind::RBracket)
    } else if c == ',' as u8 {
        Some(TokenKind::Comma)
    } else {
        None
    }
}

fn lex_operator(
    bytes: &[u8],
    pos: usize,
    alone: TokenKind,
    c1: u8,
    k1: TokenKind,
    c2: u8,
    k2: TokenKind,
) -> (r: (TokenKind, usize))
    requires
        pos < bytes.len(),
    ensures
        (r.0, r.1 as int) == operator_token(bytes@, pos as int, alone, c1, k1, c2, k2),
{
    if bytes.len() - pos > 1 {
        let next = bytes[pos + 1];
        if next == c1 {
            return (k1, pos + 2);
        }
        if next == c2 {
            return (k2, pos + 2);
        }
    }
    (alone, pos + 1)
}

/// Kind and end of the token that starts at `pos`.
fn next_token(bytes: &[u8], pos: usize) -> (r: (TokenKind, usize))
    requires
        pos < bytes.len(),
    ensures
        (r.0, r.1 as int) == token_at(bytes@, pos as int),
{
    let len = bytes.len();
    let c = bytes[pos];
    if ByteClass::Space.test(c) {
        (TokenKind::Whitespace, skip_run(bytes, pos, ByteClass::Space))
    } else if c == '#' as u8 {
        (TokenKind::LineComment, skip_run(bytes, pos, ByteClass::NotNewline))
    } else if c == '"' as u8 || c == '\'' as u8 || c == '`' as u8 {
        let (end, closed) = skip_quoted(bytes, pos + 1, c, c != '`' as u8);
        let kind = if closed {
            TokenKind::String
        } else {
            TokenKind::Error
        };
        (kind, end)
    } else if ByteClass::Digit.test(c) {
        lex_number(bytes, pos)
    } else if c == '.' as u8 && len - pos > 1 && ByteClass::Digit.test(bytes[pos + 1]) {
        let end = skip_run(bytes, pos + 1, ByteClass::Digit);
        (TokenKind::Number, skip_exponent(bytes, end))
    } else if ByteClass::Word.test(c) {
        (TokenKind::Ident, skip_run(bytes, pos, ByteClass::Word))
    } else if c == '|' as u8 {
        lex_operator(
            bytes,
            pos,
            TokenKind::Pipe,
            '=' as u8,
            TokenKind::PipeExact,
            '~' as u8,
            TokenKind::PipeMatch,
        )
    } else if c == '!' as u8 {
        lex_operator(
            bytes,
            pos,
            TokenKind::Error,
            '=' as u8,
            TokenKind::NotEqual,
            '~' as u8,
            TokenKind::NotMatch,
        )
    } else if c == '=' as u8 {
        lex_operator(
            bytes,
            pos,
            TokenKind::Eq,
            '~' as u8,
            TokenKind::EqRegex,
            '=' as u8,
            TokenKind::CmpEq,
        )
    } else if c == '<' as u8 {
        lex_operator(bytes, pos, TokenKind::Lt, '=' as u8, TokenKind::LtEq, '=' as u8, TokenKind::LtEq)
    } else if c == '>' as u8 {
        lex_operator(bytes, pos, TokenKind::Gt, '=' as u8, TokenKind::GtEq, '=' as u8, TokenKind::GtEq)
    } else {
        match single_byte(c) {
            Some(kind) => (kind, pos + 1),
            None => if c == '.' as u8 {
                (TokenKind::Dot, pos + 1)
            } else {
                let width: usize = if c < 0x80 {
                    1
                } else if c < 0xe0 {
                    2
                } else if c < 0xf0 {
                    3
                } else {
                    4
                };
                if width <= len - pos {
                    (TokenKind::Error, pos + width)
                } else {
                    (TokenKind::Error, len)
                }
            },
        }
    }
}

/// The token of `kind` over the bytes `start..end`.
pub open spec fn make_token(kind: TokenKind, start: int, end: int) -> Token {
    Token { kind, span: Span { start: start as usize, end: end as usize } }
}

/// The tokens of `b` from `pos` on, with the final `Eof`.
pub open spec fn tokens_from(b: Seq<u8>, pos: int) -> Seq<Token>
    decreases b.len() - pos,
{
    if pos < 0 || pos >= b.len() {
        seq![make_token(TokenKind::Eof, b.len() as int, b.len() as int)]
    } else {
        let (kind, end) = token_at(b, pos);
        if end <= pos || b.len() < end {
            seq![]
        } else {
            seq![make_token(kind, pos, end)] + tokens_from(b, end)
        }
    }
}

/// The tokens of a text.
pub open spec fn tokens_of(b: Seq<u8>) -> Seq<Token> {
    tokens_from(b, 0)
}

/// Tokenize a LogQL input string.
///
/// The tokens cover every byte of the input: their spans are contiguous and do
/// not overlap. An `Eof` token always stands at the end.
pub fn tokenize(input: &str) -> (tokens: Vec<Token>)
    ensures
        tokens@ == tokens_of(input.spec_bytes()),
        cover(tokens@, input.spec_bytes()),
{
    let bytes = input.as_bytes();
    let len = bytes.len();
    let mut pos: usize = 0;
    let mut tokens: Vec<Token> = Vec::new();
    while pos < len
        invariant
            pos <= len,
            len == bytes.len(),
            tokens@ + tokens_from(bytes@, pos as int) == tokens_of(bytes@),
        decreases len - pos,
    {
        let start = pos;
        let (kind, end) = next_token(bytes, pos);
        proof {
            lemma_token_at(bytes@, pos as int);
        }
        let ghost before = tokens@;
        tokens.push(Token { kind, span: Span { start, end } });
        pos = end;
        assert(before + tokens_from(bytes@, start as int) =~= tokens@ + tokens_from(
            bytes@,
            pos as int,
        ));
    }
    tokens.push(Token { kind: TokenKind::Eof, span: Span { start: len, end: len } });
    proof {
        encode_utf8_valid_utf8(input@);
        lemma_tokens_cover(bytes@);
    }
    tokens
}

// ── Laws ─────────────────────────────────────────────────────────────────────

/// A token lies inside the text and does not cut a character in two; a string
/// has a delimiter at either end.
pub open spec fn well_placed(t: Token, b: Seq<u8>) -> bool {
    &&& t.span.start <= t.span.end <= b.len()
    &&& is_char_boundary(b, t.span.start as int)
    &&& is_char_boundary(b, t.span.end as int)
    &&& t.kind == TokenKind::String ==> {
        &&& t.span.start + 2 <= t.span.end
        &&& b[t.span.start as int] < 0x80
        &&& b[t.span.end - 1] < 0x80
    }
}

/// A token that is not the last is neither `Eof` nor empty.
pub open spec fn proper(t: Token) -> bool {
    t.kind != TokenKind::Eof && t.span.start < t.span.end
}

/// `cover`, for tokens that start at `pos`.
pub open spec fn cover_from(tokens: Seq<Token>, b: Seq<u8>, pos: int) -> bool {
    &&& tokens.len() > 0
    &&& tokens[0].span.start == pos
    &&& tokens.last().kind == TokenKind::Eof
    &&& tokens.last().span.start == b.len()
    &&& tokens.last().span.end == b.len()
    &&& forall|i: int| 0 <= i < tokens.len() - 1 ==> proper(#[trigger] tokens[i])
    &&& forall|i: int, j: int| #![trigger tokens[i], tokens[j]]
        0 <= i && j == i + 1 && j < tokens.len() ==> tokens[i].span.end == tokens[j].span.start
    &&& forall|i: int| 0 <= i < tokens.len() ==> well_placed(#[trigger] tokens[i], b)
}

/// The spans of `tokens` partition `b`: the first starts at 0, each starts where
/// the one before it ends, only the last is `Eof` and empty, it stands at the
/// end, and no span cuts a character in two.
pub open spec fn cover(tokens: Seq<Token>, b: Seq<u8>) -> bool {
    cover_from(tokens, b, 0)
}

proof fn lemma_token_boundary(b: Seq<u8>, pos: int)
    requires
        valid_utf8(b),
        0 <= pos < b.len(),
        is_char_boundary(b, pos),
    ensures
        is_char_boundary(b, token_at(b, pos).1),
{
    let end = token_at(b, pos).1;
    lemma_token_at(b, pos);
    lemma_boundary(b, end);
    if b[pos] >= 0x80 {
        lemma_boundary_next(b, pos);
    } else if end < b.len() && b[end] != '\n' as u8 {
        lemma_boundary_after_ascii(b, end - 1);
    }
}

proof fn lemma_tokens_from_cover(b: Seq<u8>, pos: int)
    requires
        valid_utf8(b),
        b.len() <= usize::MAX,
        0 <= pos <= b.len(),
        is_char_boundary(b, pos),
    ensures
        cover_from(tokens_from(b, pos), b, pos),
    decreases b.len() - pos,
{
    if pos < b.len() {
        let (kind, end) = token_at(b, pos);
        lemma_token_at(b, pos);
        lemma_token_boundary(b, pos);
        lemma_tokens_from_cover(b, end);
        let first = make_token(kind, pos, end);
        let rest = tokens_from(b, end);
        let all = tokens_from(b, pos);
        assert(all == seq![first] + rest);
        assert(proper(first) && well_placed(first, b));
        lemma_cover_cons(first, rest, b);
    }
}

proof fn lemma_cover_cons(first: Token, rest: Seq<Token>, b: Seq<u8>)
    requires
        proper(first),
        well_placed(first, b),
        cover_from(rest, b, first.span.end as int),
    ensures
        cover_from(seq![first] + rest, b, first.span.start as int),
{
    let all = seq![first] + rest;
    assert(all[0] == first);
    assert forall|i: int| 1 <= i < all.len() implies all[i] == rest[i - 1] by {}
    assert(all.last() == rest.last());
}

/// The tokens of a text cover every byte of it, contiguously and without
/// overlap, and end with `Eof`.
pub proof fn lemma_tokens_cover(b: Seq<u8>)
    requires
        valid_utf8(b),
        b.len() <= usize::MAX,
    ensures
        cover(tokens_of(b), b),
{
    is_char_boundary_start_end_of_seq(b);
    lemma_tokens_from_cover(b, 0);
}

/// The texts of `tokens`, one behind the other.
pub open spec fn joined(tokens: Seq<Token>, b: Seq<u8>) -> Seq<char>
    decreases tokens.len(),
{
    if tokens.len() == 0 {
        seq![]
    } else {
        text_in(b, tokens[0].span.start as int, tokens[0].span.end as int) + joined(
            tokens.drop_first(),
            b,
        )
    }
}

proof fn lemma_joined(tokens: Seq<Token>, b: Seq<u8>, pos: int)
    requires
        valid_utf8(b),
        cover_from(tokens, b, pos),
    ensures
        joined(tokens, b) == text_in(b, pos, b.len() as int),
    decreases tokens.len(),
{
    let rest = tokens.drop_first();
    let len = b.len() as int;
    let first = tokens[0];
    let end = first.span.end as int;
    assert(well_placed(tokens[0], b));
    assert(well_placed(tokens.last(), b));
    if tokens.len() == 1 {
        assert(joined(rest, b) == Seq::<char>::empty());
        assert(first == tokens.last());
        assert(text_in(b, pos, end) + Seq::<char>::empty() =~= text_in(b, pos, end));
    } else {
        assert(cover_from(rest, b, end)) by {
            assert forall|i: int| 0 <= i < rest.len() implies rest[i] == tokens[i + 1] by {}
            assert(rest.last() == tokens.last());
            assert(tokens[0].span.end == tokens[1].span.start);
        }
        lemma_joined(rest, b, end);
        lemma_text_split(b, pos, end, len);
    }
}

/// Round trip: the texts of the tokens, joined, are the input.
pub proof fn lemma_round_trip(input: Seq<char>)
    requires
        encode_utf8(input).len() <= usize::MAX,
    ensures
        joined(tokens_of(encode_utf8(input)), encode_utf8(input)) == input,
{
    let b = encode_utf8(input);
    encode_utf8_valid_utf8(input);
    lemma_tokens_cover(b);
    lemma_joined(tokens_of(b), b, 0);
    assert(b.subrange(0, b.len() as int) == b) by {
        assert(b.subrange(0, b.len() as int) =~= b);
    }
    encode_utf8_decode_utf8(input);
}

} // verus!
