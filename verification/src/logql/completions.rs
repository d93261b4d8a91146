//! Completion engine for LogQL.
//!
//! Uses the tokenizer and the error-recovering parser to find out what the
//! cursor stands in, and offers ranked completions with documentation.

use crate::collections::AssocMap;
use crate::logql::ast::{
    Expr, ExprKind, ExprKindV, ExprV, LabelMatcherV, MatchOp, StreamSelector, StreamSelectorV,
};
use crate::logql::keywords::{AGGREGATION_OPS, PARSERS, RANGE_FUNCTIONS};
use crate::logql::parser::{drop_trivia, parse, parse_of, significant_tokens};
use crate::logql::tables::{lemma_function_docs, lemma_pipeline_docs};
use crate::logql::tokenizer::{
    keyword_kind, proper, tokenize, tokens_of, well_placed, Token, TokenKind,
};
use crate::order::{lemma_text_order, sort_strings, sorted_texts, text_order, texts};
use crate::suggest::{
    at_most, cache_texts, cached, completes, filter_names, lemma_names_complete,
    lemma_sorted_complete, matching_names,
};
use crate::text::{
    cat2, has_prefix, lemma_boundary, lemma_boundary_after_ascii, listed, lowercase, opt_text,
    str_eq, substr, text_in,
};
use crate::util::{char_to_byte, char_to_byte_of, last_word_start, word_start};
use vstd::prelude::*;
use vstd::seq_lib::*;
use vstd::string::*;
use vstd::utf8::*;

verus! {

/// A completion with what is shown beside it and how it ranks.
#[derive(Debug, Clone, PartialEq, Eq)]
pub struct CompletionItem {
    /// The text to insert
    pub label: String,
    /// Short description
    pub detail: Option<String>,
    /// Longer documentation
    pub documentation: Option<String>,
    /// Category
    pub kind: CompletionKind,
    /// Lower values come first
    pub sort_priority: u32,
}

/// Categories of completions.
#[derive(Debug, Clone, Copy, PartialEq, Eq, Structural)]
pub enum CompletionKind {
    LabelName,
    LabelValue,
    PipelineKeyword,
    Function,
    AggregationOp,
    Duration,
    Keyword,
}

/// What the cursor stands in.
#[derive(Debug, Clone)]
pub enum CursorContext {
    /// Inside `{}`, at a label name
    LabelName { prefix: String, selector: String },
    /// Inside a string of a label matcher
    LabelValue { label: String, prefix: String, selector: String },
    /// After `|`
    PipelineStage { prefix: String },
    /// At a function or the start of a selector
    Expression { prefix: String },
    /// Inside `[]`
    Duration { prefix: String },
    /// Nothing to complete
    Nothing,
}

/// Value of a [`CompletionItem`].
pub ghost struct CompletionItemV {
    pub label: Seq<char>,
    pub detail: Option<Seq<char>>,
    pub documentation: Option<Seq<char>>,
    pub kind: CompletionKind,
    pub sort_priority: u32,
}

/// Value of a [`CursorContext`].
pub ghost enum CursorContextV {
    LabelName { prefix: Seq<char>, selector: Seq<char> },
    LabelValue { label: Seq<char>, prefix: Seq<char>, selector: Seq<char> },
    PipelineStage { prefix: Seq<char> },
    Expression { prefix: Seq<char> },
    Duration { prefix: Seq<char> },
    Nothing,
}

impl View for CompletionItem {
    type V = CompletionItemV;

    open spec fn view(&self) -> CompletionItemV {
        CompletionItemV {
            label: self.label@,
            detail: opt_text(self.detail),
            documentation: opt_text(self.documentation),
            kind: self.kind,
            sort_priority: self.sort_priority,
        }
    }
}

impl View for CursorContext {
    type V = CursorContextV;

    open spec fn view(&self) -> CursorContextV {
        match self {
            CursorContext::LabelName { prefix, selector } => CursorContextV::LabelName {
                prefix: prefix@,
                selector: selector@,
            },
            CursorContext::LabelValue { label, prefix, selector } => CursorContextV::LabelValue {
                label: label@,
                prefix: prefix@,
                selector: selector@,
            },
            CursorContext::PipelineStage { prefix } => CursorContextV::PipelineStage {
                prefix: prefix@,
            },
            CursorContext::Expression { prefix } => CursorContextV::Expression {
                prefix: prefix@,
            },
            CursorContext::Duration { prefix } => CursorContextV::Duration { prefix: prefix@ },
            CursorContext::Nothing => CursorContextV::Nothing,
        }
    }
}

/// The values of items.
pub open spec fn item_values(v: Seq<CompletionItem>) -> Seq<CompletionItemV> {
    v.map_values(|i: CompletionItem| i@)
}

// ── Context: brackets ────────────────────────────────────────────────────────

/// What is open at the end of some tokens.
pub ghost struct Nesting {
    /// Where the open braces stand
    pub braces: Seq<usize>,
    /// How many square brackets are open
    pub brackets: nat,
    /// Whether an outermost brace has been closed
    pub closed_selector: bool,
}

/// What is open behind `tokens`. A closing bracket without an opening one
/// counts for nothing, but a brace still marks a closed selector.
pub open spec fn nesting(tokens: Seq<Token>) -> Nesting
    decreases tokens.len(),
{
    if tokens.len() == 0 {
        Nesting { braces: seq![], brackets: 0, closed_selector: false }
    } else {
        let n = nesting(tokens.drop_last());
        let t = tokens.last();
        match t.kind {
            TokenKind::LBrace => Nesting { braces: n.braces.push(t.span.start), ..n },
            TokenKind::RBrace => {
                let braces = if n.braces.len() > 0 {
                    n.braces.drop_last()
                } else {
                    n.braces
                };
                Nesting {
                    braces,
                    closed_selector: n.closed_selector || braces.len() == 0,
                    ..n
                }
            },
            TokenKind::LBracket => Nesting { brackets: n.brackets + 1, ..n },
            TokenKind::RBracket => Nesting {
                brackets: if n.brackets > 0 {
                    (n.brackets - 1) as nat
                } else {
                    0
                },
                ..n
            },
            _ => n,
        }
    }
}

/// The open parentheses behind `tokens`, each with whether it is the list of a
/// `by` or `without`, and the identifier that a parenthesis would belong to.
pub open spec fn open_parens(b: Seq<u8>, tokens: Seq<Token>) -> (Seq<bool>, Option<Seq<char>>)
    decreases tokens.len(),
{
    if tokens.len() == 0 {
        (seq![], None)
    } else {
        let (stack, ident) = open_parens(b, tokens.drop_last());
        let t = tokens.last();
        match t.kind {
            TokenKind::Ident => (
                stack,
                Some(text_in(b, t.span.start as int, t.span.end as int)),
            ),
            TokenKind::LParen => (stack.push(ident == Some("by"@) || ident == Some("without"@)), None),
            TokenKind::RParen => (
                if stack.len() > 0 {
                    stack.drop_last()
                } else {
                    stack
                },
                None,
            ),
            TokenKind::Whitespace | TokenKind::LineComment | TokenKind::Eof => (stack, ident),
            _ => (stack, None),
        }
    }
}

/// Whether the innermost open parenthesis is the list of a `by` or `without`.
pub open spec fn in_label_list(b: Seq<u8>, tokens: Seq<Token>) -> bool {
    let stack = open_parens(b, tokens).0;
    stack.len() > 0 && stack.last()
}

// ── Context: selectors ───────────────────────────────────────────────────────

/// The stream selector that stands last in a tree.
pub open spec fn deepest_selector(e: ExprV) -> Option<StreamSelectorV>
    decreases e,
{
    match e.kind {
        ExprKindV::LogQuery { selector, .. } => Some(selector),
        ExprKindV::RangeAggregation { log_query, .. } => deepest_selector(*log_query),
        ExprKindV::Aggregation { expr, .. } => deepest_selector(*expr),
        ExprKindV::BinOp { lhs, rhs, .. } => match deepest_selector(*rhs) {
            Some(s) => Some(s),
            None => deepest_selector(*lhs),
        },
        ExprKindV::Paren(inner) => deepest_selector(*inner),
        _ => None,
    }
}

/// How a matcher operator is written.
pub open spec fn op_text(op: MatchOp) -> Seq<char> {
    match op {
        MatchOp::Eq => "="@,
        MatchOp::Neq => "!="@,
        MatchOp::Re => "=~"@,
        MatchOp::Nre => "!~"@,
    }
}

/// `name="value"`
pub open spec fn matcher_text(m: LabelMatcherV) -> Seq<char> {
    m.name + op_text(m.op) + "\""@ + m.value + "\""@
}

/// Matchers, separated by commas.
pub open spec fn matchers_text(ms: Seq<LabelMatcherV>) -> Seq<char>
    decreases ms.len(),
{
    if ms.len() == 0 {
        seq![]
    } else if ms.len() == 1 {
        matcher_text(ms[0])
    } else {
        matchers_text(ms.drop_last()) + ","@ + matcher_text(ms.last())
    }
}

/// `{name="value",...}`, or nothing without matchers.
pub open spec fn selector_text(s: StreamSelectorV) -> Seq<char> {
    if s.matchers.len() == 0 {
        seq![]
    } else {
        "{"@ + matchers_text(s.matchers) + "}"@
    }
}

/// The complete matchers of the innermost open brace, as a selector.
pub open spec fn open_selector(b: Seq<u8>, braces: Seq<usize>) -> Seq<char> {
    if braces.len() == 0 {
        seq![]
    } else {
        match parse_of(b.subrange(braces.last() as int, b.len() as int)).0 {
            Some(e) => match deepest_selector(e) {
                Some(s) => selector_text(s),
                None => seq![],
            },
            None => seq![],
        }
    }
}

// ── Context: cursor ──────────────────────────────────────────────────────────

/// The tokens that matter, without the final `Eof`.
pub open spec fn visible_tokens(b: Seq<u8>) -> Seq<Token> {
    significant_tokens(tokens_of(b)).drop_last()
}

/// The last word of the text.
pub open spec fn word_prefix_of(b: Seq<u8>) -> Seq<char> {
    text_in(b, word_start(b, b.len() as int, false), b.len() as int)
}

/// Operators of label matchers.
pub open spec fn matcher_op(kind: TokenKind) -> bool {
    kind == TokenKind::Eq || kind == TokenKind::EqRegex || kind == TokenKind::NotEqual || kind
        == TokenKind::NotMatch
}

/// The label before an unclosed string: `..., label, operator, string`.
pub open spec fn label_before(b: Seq<u8>, sig: Seq<Token>) -> Seq<char> {
    let n = sig.len() as int;
    if n >= 3 && matcher_op(sig[n - 2].kind) && sig[n - 3].kind == TokenKind::Ident {
        text_in(b, sig[n - 3].span.start as int, sig[n - 3].span.end as int)
    } else {
        seq![]
    }
}

/// Whether a token is a string that is not closed.
pub open spec fn unclosed_string(b: Seq<u8>, t: Token) -> bool {
    t.kind == TokenKind::Error && {
        let c = b[t.span.start as int];
        c == '"' as u8 || c == '\'' as u8 || c == '`' as u8
    }
}

/// Whether a token is a lone `!`.
pub open spec fn lone_bang(b: Seq<u8>, t: Token) -> bool {
    t.kind == TokenKind::Error && text_in(b, t.span.start as int, t.span.end as int) == "!"@
}

/// The context at the end of the text `b`.
pub open spec fn context_at_end(b: Seq<u8>) -> CursorContextV {
    let tokens = tokens_of(b);
    let sig = visible_tokens(b);
    let n = sig.len() as int;
    let open = nesting(tokens);
    let prefix = word_prefix_of(b);
    if b.len() == 0 {
        CursorContextV::Expression { prefix: seq![] }
    } else if n > 0 && unclosed_string(b, sig[n - 1]) {
        if open.braces.len() > 0 {
            CursorContextV::LabelValue {
                label: label_before(b, sig),
                prefix: text_in(b, sig[n - 1].span.start + 1, b.len() as int),
                selector: open_selector(b, open.braces),
            }
        } else {
            CursorContextV::Nothing
        }
    } else if open.braces.len() > 0 {
        if prefix.len() == 0 && n > 0 && (matcher_op(sig[n - 1].kind) || lone_bang(
            b,
            sig[n - 1],
        )) {
            CursorContextV::Nothing
        } else {
            CursorContextV::LabelName { prefix, selector: open_selector(b, open.braces) }
        }
    } else if open.brackets > 0 {
        CursorContextV::Duration { prefix }
    } else if in_label_list(b, tokens) {
        CursorContextV::LabelName { prefix, selector: seq![] }
    } else if open.closed_selector && n > 0 && sig[n - 1].kind == TokenKind::Pipe {
        CursorContextV::PipelineStage { prefix: seq![] }
    } else if open.closed_selector && prefix.len() > 0 && n >= 2 && sig[n - 2].kind
        == TokenKind::Pipe {
        CursorContextV::PipelineStage { prefix }
    } else {
        CursorContextV::Expression { prefix }
    }
}

/// The context of a cursor, which is that of the text before it.
pub open spec fn cursor_context(query: Seq<char>, cursor_pos: int) -> CursorContextV {
    let b = encode_utf8(query);
    context_at_end(b.subrange(0, char_to_byte_of(query, cursor_pos)))
}

/// Walk the tree to find the stream selector that stands last.
fn find_deepest_selector(expr: &Expr) -> (r: Option<&StreamSelector>)
    ensures
        match r {
            Some(s) => deepest_selector(expr.value()) == Some(s@),
            None => deepest_selector(expr.value()) is None,
        },
    decreases expr,
{
    match &expr.kind {
        ExprKind::LogQuery { selector, .. } => Some(selector),
        ExprKind::RangeAggregation { log_query, .. } => find_deepest_selector(log_query),
        ExprKind::Aggregation { expr, .. } => find_deepest_selector(expr),
        ExprKind::BinOp { lhs, rhs, .. } => match find_deepest_selector(rhs) {
            Some(s) => Some(s),
            None => find_deepest_selector(lhs),
        },
        ExprKind::Paren(inner) => find_deepest_selector(inner),
        _ => None,
    }
}

/// Format a stream selector like `{job="varlogs"}`.
fn format_selector(selector: &StreamSelector) -> (r: String)
    ensures
        r@ == selector_text(selector@),
{
    let ghost values = selector@.matchers;
    if selector.matchers.is_empty() {
        let r = String::new();
        assert(r@ =~= seq![]);
        return r;
    }
    let mut out = "{".to_string();
    let mut i: usize = 0;
    assert(values.take(0) =~= seq![]);
    assert("{"@ + matchers_text(values.take(0)) =~= "{"@);
    while i < selector.matchers.len()
        invariant
            i <= selector.matchers.len(),
            values == selector@.matchers,
            values.len() == selector.matchers.len(),
            out@ == "{"@ + matchers_text(values.take(i as int)),
        decreases selector.matchers.len() - i,
    {
        let m = &selector.matchers[i];
        let ghost before = out@;
        let op = match m.op {
            MatchOp::Eq => "=",
            MatchOp::Neq => "!=",
            MatchOp::Re => "=~",
            MatchOp::Nre => "!~",
        };
        if i > 0 {
            out.append(",");
        }
        out.append(m.name.as_str());
        out.append(op);
        out.append("\"");
        out.append(m.value.as_str());
        out.append("\"");
        proof {
            let ms = values.take(i + 1);
            assert(ms.last() == m@);
            assert(ms.drop_last() =~= values.take(i as int));
            if i > 0 {
                assert(out@ =~= before + ","@ + matcher_text(m@));
                assert(out@ =~= "{"@ + matchers_text(ms));
            } else {
                assert(ms[0] == m@);
                assert(before =~= "{"@);
                assert(out@ =~= "{"@ + matchers_text(ms));
            }
        }
        i += 1;
    }
    assert(values.take(i as int) =~= values);
    out.append("}");
    out
}

/// Build a selector string by parsing from the innermost open brace, which the
/// error-recovering parser does even though the selector is incomplete.
fn build_selector_from_brace(brace_positions: &Vec<usize>, before: &str) -> (r: String)
    requires
        forall|i: int|
            0 <= i < brace_positions.len() ==> {
                &&& #[trigger] brace_positions@[i] <= before.spec_bytes().len()
                &&& is_char_boundary(before.spec_bytes(), brace_positions@[i] as int)
            },
    ensures
        r@ == open_selector(before.spec_bytes(), brace_positions@),
{
    if !brace_positions.is_empty() {
        let start = brace_positions[brace_positions.len() - 1];
        let len = before.as_bytes().len();
        proof {
            encode_utf8_valid_utf8(before@);
            lemma_boundary(before.spec_bytes(), len as int);
        }
        let result = parse(substr(before, start, len));
        match &result.expr {
            Some(expr) => match find_deepest_selector(expr) {
                Some(selector) => {
                    return format_selector(selector);
                },
                None => {},
            },
            None => {},
        }
    }
    let r = String::new();
    assert(r@ =~= seq![]);
    r
}

/// What is open behind `tokens`: the open braces, the number of open square
/// brackets, and whether an outermost brace has been closed.
fn scan_nesting(tokens: &Vec<Token>, before: &str) -> (r: (Vec<usize>, usize, bool))
    requires
        forall|i: int|
            0 <= i < tokens.len() ==> well_placed(#[trigger] tokens@[i], before.spec_bytes()),
    ensures
        r.0@ == nesting(tokens@).braces,
        r.1 == nesting(tokens@).brackets,
        r.2 == nesting(tokens@).closed_selector,
        forall|i: int|
            0 <= i < r.0.len() ==> {
                &&& #[trigger] r.0@[i] <= before.spec_bytes().len()
                &&& is_char_boundary(before.spec_bytes(), r.0@[i] as int)
            },
{
    let mut braces: Vec<usize> = Vec::new();
    let mut brackets: usize = 0;
    let mut closed = false;
    let mut i: usize = 0;
    while i < tokens.len()
        invariant
            i <= tokens.len(),
            forall|i: int|
                0 <= i < tokens.len() ==> well_placed(#[trigger] tokens@[i], before.spec_bytes()),
            braces@ == nesting(tokens@.subrange(0, i as int)).braces,
            brackets == nesting(tokens@.subrange(0, i as int)).brackets,
            closed == nesting(tokens@.subrange(0, i as int)).closed_selector,
            brackets <= i,
            forall|i: int|
                0 <= i < braces.len() ==> {
                    &&& #[trigger] braces@[i] <= before.spec_bytes().len()
                    &&& is_char_boundary(before.spec_bytes(), braces@[i] as int)
                },
        decreases tokens.len() - i,
    {
        let t = tokens[i];
        proof {
            let upto = tokens@.subrange(0, i + 1);
            assert(upto.drop_last() =~= tokens@.subrange(0, i as int));
            assert(upto.last() == t);
            assert(well_placed(tokens@[i as int], before.spec_bytes()));
        }
        match t.kind {
            TokenKind::LBrace => {
                braces.push(t.span.start);
            },
            TokenKind::RBrace => {
                braces.pop();
                if braces.is_empty() {
                    closed = true;
                }
            },
            TokenKind::LBracket => {
                brackets += 1;
            },
            TokenKind::RBracket => {
                if brackets > 0 {
                    brackets -= 1;
                }
            },
            _ => {},
        }
        i += 1;
    }
    assert(tokens@.subrange(0, i as int) =~= tokens@);
    (braces, brackets, closed)
}

/// Check if the cursor is inside a `by(...)` or `without(...)` group.
fn is_in_label_list_paren(tokens: &Vec<Token>, before: &str) -> (r: bool)
    requires
        forall|i: int|
            0 <= i < tokens.len() ==> well_placed(#[trigger] tokens@[i], before.spec_bytes()),
    ensures
        r == in_label_list(before.spec_bytes(), tokens@),
{
    let ghost b = before.spec_bytes();
    let mut paren_stack: Vec<bool> = Vec::new();
    let mut prev_is_list = false;
    let mut i: usize = 0;
    while i < tokens.len()
        invariant
            i <= tokens.len(),
            b == before.spec_bytes(),
            forall|i: int| 0 <= i < tokens.len() ==> well_placed(#[trigger] tokens@[i], b),
            paren_stack@ == open_parens(b, tokens@.subrange(0, i as int)).0,
            ({
                let ident = open_parens(b, tokens@.subrange(0, i as int)).1;
                prev_is_list == (ident == Some("by"@) || ident == Some("without"@))
            }),
        decreases tokens.len() - i,
    {
        let t = tokens[i];
        proof {
            let upto = tokens@.subrange(0, i + 1);
            assert(upto.drop_last() =~= tokens@.subrange(0, i as int));
            assert(upto.last() == t);
            assert(well_placed(tokens@[i as int], b));
        }
        match t.kind {
            TokenKind::Ident => {
                let text = t.text(before);
                prev_is_list = str_eq(text, "by") || str_eq(text, "without");
            },
            TokenKind::LParen => {
                paren_stack.push(prev_is_list);
                prev_is_list = false;
            },
            TokenKind::RParen => {
                paren_stack.pop();
                prev_is_list = false;
            },
            TokenKind::Whitespace | TokenKind::LineComment | TokenKind::Eof => {},
            _ => {
                prev_is_list = false;
            },
        }
        i += 1;
    }
    assert(tokens@.subrange(0, i as int) =~= tokens@);
    if paren_stack.is_empty() {
        false
    } else {
        paren_stack[paren_stack.len() - 1]
    }
}

/// Return the last word in `before` (ASCII letters and digits, `_`).
fn word_prefix(before: &str) -> (r: String)
    ensures
        r@ == word_prefix_of(before.spec_bytes()),
{
    let start = last_word_start(before, false);
    let len = before.as_bytes().len();
    proof {
        encode_utf8_valid_utf8(before@);
        lemma_boundary(before.spec_bytes(), len as int);
    }
    substr(before, start, len).to_string()
}

fn is_matcher_op(kind: TokenKind) -> (r: bool)
    ensures
        r == matcher_op(kind),
{
    match kind {
        TokenKind::Eq | TokenKind::EqRegex | TokenKind::NotEqual | TokenKind::NotMatch => true,
        _ => false,
    }
}

/// Find the label before the unclosed string value at the end.
fn find_label_from_sig_tokens(sig: &Vec<Token>, n: usize, before: &str) -> (r: String)
    requires
        n <= sig.len(),
        forall|i: int|
            0 <= i < sig.len() ==> well_placed(#[trigger] sig@[i], before.spec_bytes()),
    ensures
        r@ == label_before(before.spec_bytes(), sig@.take(n as int)),
{
    if n >= 3 {
        let op = sig[n - 2];
        let ident = sig[n - 3];
        if is_matcher_op(op.kind) && ident.kind == TokenKind::Ident {
            return ident.text(before).to_string();
        }
    }
    let r = String::new();
    assert(r@ =~= seq![]);
    r
}

/// Detect what the end of the text stands in.
fn detect_context_at_end(before: &str) -> (r: CursorContext)
    ensures
        r@ == context_at_end(before.spec_bytes()),
{
    let bytes = before.as_bytes();
    let len = bytes.len();
    let ghost b = bytes@;
    if len == 0 {
        let prefix = String::new();
        assert(prefix@ =~= seq![]);
        return CursorContext::Expression { prefix };
    }
    let tokens = tokenize(before);
    let (braces, brackets, has_closed_selector) = scan_nesting(&tokens, before);
    let sig = drop_trivia(&tokens, Ghost(b));
    let n = sig.len() - 1;
    assert(visible_tokens(b) =~= sig@.take(n as int));
    let prefix = word_prefix(before);
    let last: Option<Token> = if n > 0 {
        Some(sig[n - 1])
    } else {
        None
    };

    // An unclosed string at the end
    if let Some(tok) = last {
        if tok.kind == TokenKind::Error {
            proof {
                assert(well_placed(sig@[n - 1], b) && proper(sig@[n - 1]));
            }
            let c = bytes[tok.span.start];
            if c == '"' as u8 || c == '\'' as u8 || c == '`' as u8 {
                if braces.is_empty() {
                    return CursorContext::Nothing;
                }
                proof {
                    encode_utf8_valid_utf8(before@);
                    lemma_boundary_after_ascii(b, tok.span.start as int);
                    lemma_boundary(b, len as int);
                }
                let prefix = substr(before, tok.span.start + 1, len).to_string();
                let label = find_label_from_sig_tokens(&sig, n, before);
                let selector = build_selector_from_brace(&braces, before);
                return CursorContext::LabelValue { label, prefix, selector };
            }
        }
    }
    // Inside braces

    if !braces.is_empty() {
        if prefix.as_str().is_empty() {
            if let Some(tok) = last {
                proof {
                    assert(well_placed(sig@[n - 1], b));
                }
                if is_matcher_op(tok.kind) || (tok.kind == TokenKind::Error && str_eq(
                    tok.text(before),
                    "!",
                )) {
                    return CursorContext::Nothing;
                }
            }
        }
        let selector = build_selector_from_brace(&braces, before);
        return CursorContext::LabelName { prefix, selector };
    }
    // Inside brackets

    if brackets > 0 {
        return CursorContext::Duration { prefix };
    }
    // Inside by() or without()

    if is_in_label_list_paren(&tokens, before) {
        let selector = String::new();
        assert(selector@ =~= seq![]);
        return CursorContext::LabelName { prefix, selector };
    }
    // Behind a pipe that follows a closed selector

    if has_closed_selector {
        if let Some(tok) = last {
            if tok.kind == TokenKind::Pipe {
                let prefix = String::new();
                assert(prefix@ =~= seq![]);
                return CursorContext::PipelineStage { prefix };
            }
        }
        if !prefix.as_str().is_empty() && n >= 2 {
            if sig[n - 2].kind == TokenKind::Pipe {
                return CursorContext::PipelineStage { prefix };
            }
        }
    }
    CursorContext::Expression { prefix }
}

/// Detect the cursor context from a LogQL query and a cursor position, counted
/// in characters.
pub fn detect_cursor_context(query: &str, cursor_pos: usize) -> (r: CursorContext)
    ensures
        r@ == cursor_context(query@, cursor_pos as int),
{
    let cursor_byte = char_to_byte(query, cursor_pos);
    proof {
        encode_utf8_valid_utf8(query@);
        is_char_boundary_start_end_of_seq(query.spec_bytes());
    }
    detect_context_at_end(substr(query, 0, cursor_byte))
}

// ── Tables ───────────────────────────────────────────────────────────────────

/// Name, category and documentation of the functions.
pub const FUNCTION_DOCS: [(&'static str, &'static str, &'static str); 25] = [
    ("rate", "Range function", "Calculates per-second rate of log entries over the given range"),
    ("count_over_time", "Range function", "Counts the log entries over the given range"),
    ("sum_over_time", "Range function", "Sums extracted values over time (requires unwrap)"),
    ("avg_over_time", "Range function", "Averages extracted values over time (requires unwrap)"),
    ("max_over_time", "Range function", "Maximum of extracted values over time (requires unwrap)"),
    ("min_over_time", "Range function", "Minimum of extracted values over time (requires unwrap)"),
    ("first_over_time", "Range function", "First value within the range (requires unwrap)"),
    ("last_over_time", "Range function", "Last value within the range (requires unwrap)"),
    ("stddev_over_time", "Range function", "Standard deviation over time (requires unwrap)"),
    ("stdvar_over_time", "Range function", "Standard variance over time (requires unwrap)"),
    ("quantile_over_time", "Range function", "Calculates the \u{03c6}-quantile over time: quantile_over_time(\u{03c6}, expr[d])"),
    ("bytes_over_time", "Range function", "Counts the bytes of log entries over the given range"),
    ("bytes_rate", "Range function", "Per-second byte rate of log entries"),
    ("absent_over_time", "Range function", "Returns 1 if the range vector has no entries, empty otherwise"),
    ("sum", "Aggregation", "Calculate the sum over dimensions"),
    ("avg", "Aggregation", "Calculate the average over dimensions"),
    ("min", "Aggregation", "Select minimum over dimensions"),
    ("max", "Aggregation", "Select maximum over dimensions"),
    ("count", "Aggregation", "Count number of elements in the vector"),
    ("topk", "Aggregation", "Largest k elements by value"),
    ("bottomk", "Aggregation", "Smallest k elements by value"),
    ("stddev", "Aggregation", "Calculate population standard deviation over dimensions"),
    ("stdvar", "Aggregation", "Calculate population standard variance over dimensions"),
    ("sort", "Aggregation", "Sort elements by value, ascending"),
    ("sort_desc", "Aggregation", "Sort elements by value, descending"),
];

/// Name, category and documentation of the pipeline keywords.
pub const PIPELINE_DOCS: [(&'static str, &'static str, &'static str); 12] = [
    ("json", "Parser", "Parse log lines as JSON, extracting fields as labels"),
    ("logfmt", "Parser", "Parse log lines as logfmt key=value pairs"),
    ("pattern", "Parser", "Extract fields using a pattern expression: pattern \"<ip> - <_>\""),
    ("regexp", "Parser", "Extract fields using a regular expression with named capture groups"),
    ("unpack", "Parser", "Unpack packed log entries (used with pack stage)"),
    ("pack", "Parser", "Pack log entry and labels into a JSON object"),
    ("line_format", "Formatter", "Rewrite the log line using a Go template: line_format \"{{.field}}\""),
    ("label_format", "Formatter", "Rename, modify, or add labels: label_format dst=src"),
    ("drop", "Label operation", "Remove specified labels from the stream"),
    ("keep", "Label operation", "Keep only the specified labels, removing all others"),
    ("decolorize", "Label operation", "Strip ANSI color escape codes from log lines"),
    ("unwrap", "Unwrap", "Extract a numeric value from a label for metric aggregation"),
];

/// Pipeline keywords with their rank: parsers first, then formatters, label
/// operations and unwrap.
pub const RANKED_PIPELINE_KEYWORDS: [(&'static str, u32); 12] = [
    ("json", 0),
    ("logfmt", 1),
    ("regexp", 2),
    ("pattern", 3),
    ("unpack", 4),
    ("pack", 5),
    ("line_format", 10),
    ("label_format", 11),
    ("drop", 20),
    ("keep", 21),
    ("decolorize", 22),
    ("unwrap", 30),
];

/// Keywords of expressions, beside the functions: the aggregation modifiers and
/// the binary operators, in alphabetical order.
pub const EXPRESSION_KEYWORDS: [&'static str; 5] = ["and", "by", "or", "unless", "without"];

/// Common durations with descriptions.
pub const DURATION_SUGGESTIONS: [(&'static str, &'static str); 13] = [
    ("1m", "1 minute"),
    ("5m", "5 minutes"),
    ("10m", "10 minutes"),
    ("15m", "15 minutes"),
    ("30m", "30 minutes"),
    ("1h", "1 hour"),
    ("2h", "2 hours"),
    ("6h", "6 hours"),
    ("12h", "12 hours"),
    ("24h", "24 hours"),
    ("1d", "1 day"),
    ("7d", "7 days"),
    ("30d", "30 days"),
];

/// Category and documentation of `name` in a table.
pub open spec fn docs_in(
    table: Seq<(&'static str, &'static str, &'static str)>,
    name: Seq<char>,
) -> Option<(Seq<char>, Seq<char>)>
    decreases table.len(),
{
    if table.len() == 0 {
        None
    } else if table[0].0@ == name {
        Some((table[0].1@, table[0].2@))
    } else {
        docs_in(table.drop_first(), name)
    }
}

fn find_docs(table: &[(&'static str, &'static str, &'static str)], name: &str) -> (r: Option<
    (&'static str, &'static str),
>)
    ensures
        match r {
            Some(d) => docs_in(table@, name@) == Some((d.0@, d.1@)),
            None => docs_in(table@, name@) is None,
        },
{
    let mut i: usize = 0;
    assert(table@.skip(0) =~= table@);
    while i < table.len()
        invariant
            i <= table.len(),
            docs_in(table@, name@) == docs_in(table@.skip(i as int), name@),
        decreases table.len() - i,
    {
        let row = table[i];
        assert(table@.skip(i as int)[0] == row);
        if str_eq(row.0, name) {
            return Some((row.1, row.2));
        }
        assert(table@.skip(i as int).drop_first() =~= table@.skip(i + 1));
        i += 1;
    }
    None
}

/// Documentation for LogQL functions: category and text of every range function
/// and aggregation operator.
pub fn function_docs(name: &str) -> (r: Option<(&'static str, &'static str)>)
    ensures
        match r {
            Some(d) => docs_in(FUNCTION_DOCS@, name@) == Some((d.0@, d.1@)),
            None => docs_in(FUNCTION_DOCS@, name@) is None,
        },
        r is Some <==> (keyword_kind(name@) is RangeFunction
            || keyword_kind(name@) is AggregationOp),
        match r {
            Some(d) => {
                &&& keyword_kind(name@) is RangeFunction ==> d.0@ == "Range function"@
                &&& keyword_kind(name@) is AggregationOp ==> d.0@ == "Aggregation"@
                &&& d.1@.len() > 0
            },
            None => true,
        },
{
    proof {
        lemma_function_docs(name@);
    }
    find_docs(&FUNCTION_DOCS, name)
}

/// Documentation for pipeline keywords: category and text of all that can stand
/// behind `|`.
pub fn pipeline_docs(name: &str) -> (r: Option<(&'static str, &'static str)>)
    ensures
        match r {
            Some(d) => docs_in(PIPELINE_DOCS@, name@) == Some((d.0@, d.1@)),
            None => docs_in(PIPELINE_DOCS@, name@) is None,
        },
        r is Some <==> listed(PARSERS@, name@),
        match r {
            Some(d) => {
                &&& keyword_kind(name@) is PipelineParser ==> d.0@ == "Parser"@
                &&& keyword_kind(name@) is PipelineFormatter ==> d.0@ == "Formatter"@
                &&& keyword_kind(name@) is PipelineLabelOp ==> d.0@ == "Label operation"@
                &&& keyword_kind(name@) is FilterKeyword ==> d.0@ == "Unwrap"@
                &&& d.1@.len() > 0
            },
            None => true,
        },
{
    proof {
        lemma_pipeline_docs(name@);
    }
    find_docs(&PIPELINE_DOCS, name)
}

// ── Candidates ───────────────────────────────────────────────────────────────

/// An item with its documentation, where there is some. Without an entry in
/// the table its category is `fallback`.
pub open spec fn documented(
    name: Seq<char>,
    docs: Option<(Seq<char>, Seq<char>)>,
    fallback: Seq<char>,
    kind: CompletionKind,
    sort_priority: u32,
) -> CompletionItemV {
    CompletionItemV {
        label: name,
        detail: Some(
            match docs {
                Some(d) => d.0,
                None => fallback,
            },
        ),
        documentation: match docs {
            Some(d) => if d.1.len() == 0 {
                None
            } else {
                Some(d.1)
            },
            None => None,
        },
        kind,
        sort_priority,
    }
}

/// An item with a category alone.
pub open spec fn plain(
    name: Seq<char>,
    detail: Seq<char>,
    kind: CompletionKind,
    sort_priority: u32,
) -> CompletionItemV {
    CompletionItemV {
        label: name,
        detail: Some(detail),
        documentation: None,
        kind,
        sort_priority,
    }
}

/// The pipeline keywords, best first.
pub open spec fn pipeline_items() -> Seq<CompletionItemV> {
    RANKED_PIPELINE_KEYWORDS@.map_values(
        |k: (&'static str, u32)|
            documented(
                k.0@,
                docs_in(PIPELINE_DOCS@, k.0@),
                "Pipeline"@,
                CompletionKind::PipelineKeyword,
                k.1,
            ),
    )
}

/// The range functions in the order of their table.
pub open spec fn range_function_items() -> Seq<CompletionItemV> {
    RANGE_FUNCTIONS@.map(
        |i: int, name: &'static str|
            documented(
                name@,
                docs_in(FUNCTION_DOCS@, name@),
                "Function"@,
                CompletionKind::Function,
                i as u32,
            ),
    )
}

/// The aggregation operators in the order of their table.
pub open spec fn aggregation_items() -> Seq<CompletionItemV> {
    AGGREGATION_OPS@.map(
        |i: int, name: &'static str|
            documented(
                name@,
                docs_in(FUNCTION_DOCS@, name@),
                "Aggregation"@,
                CompletionKind::AggregationOp,
                (100 + i) as u32,
            ),
    )
}

/// The other keywords of expressions.
pub open spec fn keyword_items() -> Seq<CompletionItemV> {
    EXPRESSION_KEYWORDS@.map_values(
        |name: &'static str| plain(name@, "Keyword"@, CompletionKind::Keyword, 200),
    )
}

/// What an expression can start with: range functions, then aggregation
/// operators, then other keywords.
pub open spec fn expression_items() -> Seq<CompletionItemV> {
    range_function_items() + aggregation_items() + keyword_items()
}

/// The durations in the order of their table.
pub open spec fn duration_items() -> Seq<CompletionItemV> {
    DURATION_SUGGESTIONS@.map(
        |i: int, d: (&'static str, &'static str)|
            plain(d.0@, d.1@, CompletionKind::Duration, i as u32),
    )
}

/// The items whose labels start with `prefix`, in order.
pub open spec fn with_prefix(items: Seq<CompletionItemV>, prefix: Seq<char>) -> Seq<
    CompletionItemV,
>
    decreases items.len(),
{
    if items.len() == 0 {
        seq![]
    } else {
        let init = with_prefix(items.drop_last(), prefix);
        if prefix.is_prefix_of(items.last().label) {
            init.push(items.last())
        } else {
            init
        }
    }
}

/// Items for sorted names, ranked by their place.
pub open spec fn name_items(
    names: Seq<Seq<char>>,
    detail: Seq<char>,
    kind: CompletionKind,
) -> Seq<CompletionItemV> {
    names.map(|i: int, name: Seq<char>| plain(name, detail, kind, i as u32))
}

/// The completions of a context. Label names and values match whatever the case
/// of the cached name, and come in the order of text.
pub open spec fn completions_of(
    ctx: CursorContextV,
    names: Map<Seq<char>, Seq<Seq<char>>>,
    values: Map<(Seq<char>, Seq<char>), Seq<Seq<char>>>,
    max: int,
) -> Seq<CompletionItemV> {
    match ctx {
        CursorContextV::LabelName { prefix, selector } => at_most(
            name_items(
                sorted_texts(
                    matching_names(cached(names, selector, seq![]), lowercase(prefix)),
                ),
                "Label"@,
                CompletionKind::LabelName,
            ),
            max,
        ),
        CursorContextV::LabelValue { label, prefix, selector } => at_most(
            name_items(
                sorted_texts(
                    matching_names(
                        cached(values, (label, selector), (label, seq![])),
                        lowercase(prefix),
                    ),
                ),
                label + " value"@,
                CompletionKind::LabelValue,
            ),
            max,
        ),
        CursorContextV::PipelineStage { prefix } => at_most(
            with_prefix(pipeline_items(), lowercase(prefix)),
            max,
        ),
        CursorContextV::Expression { prefix } => if prefix.len() == 0 {
            seq![]
        } else {
            at_most(with_prefix(expression_items(), lowercase(prefix)), max)
        },
        CursorContextV::Duration { prefix } => at_most(
            with_prefix(duration_items(), prefix),
            max,
        ),
        CursorContextV::Nothing => seq![],
    }
}

/// Appends an item if its label starts with `prefix`.
fn offer(
    out: &mut Vec<CompletionItem>,
    prefix: &str,
    name: &'static str,
    detail: &'static str,
    doc: &'static str,
    kind: CompletionKind,
    sort_priority: u32,
    items: Ghost<Seq<CompletionItemV>>,
)
    requires
        item_values(old(out)@) == with_prefix(items@, prefix@),
    ensures
        item_values(final(out)@) == with_prefix(
            items@.push(
                CompletionItemV {
                    label: name@,
                    detail: Some(detail@),
                    documentation: if doc@.len() == 0 {
                        None
                    } else {
                        Some(doc@)
                    },
                    kind,
                    sort_priority,
                },
            ),
            prefix@,
        ),
{
    let ghost item = CompletionItemV {
        label: name@,
        detail: Some(detail@),
        documentation: if doc@.len() == 0 {
            None
        } else {
            Some(doc@)
        },
        kind,
        sort_priority,
    };
    assert(items@.push(item).drop_last() =~= items@);
    if has_prefix(name, prefix) {
        let ghost before = item_values(out@);
        let documentation = if doc.is_empty() {
            None
        } else {
            Some(doc.to_string())
        };
        out.push(
            CompletionItem {
                label: name.to_string(),
                detail: Some(detail.to_string()),
                documentation,
                kind,
                sort_priority,
            },
        );
        assert(item_values(out@) =~= before.push(item));
    }
}

/// Keeps the first `max` items.
fn keep_first(items: &mut Vec<CompletionItem>, max: usize)
    ensures
        item_values(final(items)@) == at_most(item_values(old(items)@), max as int),
{
    let ghost before = item_values(items@);
    if max < items.len() {
        items.truncate(max);
    }
    assert(item_values(items@) =~= at_most(before, max as int));
}

/// Pipeline keyword completions.
fn complete_pipeline_keywords(prefix: &str, max: usize) -> (r: Vec<CompletionItem>)
    ensures
        item_values(r@) == at_most(with_prefix(pipeline_items(), lowercase(prefix@)), max as int),
{
    let pl = prefix.to_lowercase();
    let mut out: Vec<CompletionItem> = Vec::new();
    let mut i: usize = 0;
    let ghost items = seq![];
    assert(item_values(out@) =~= seq![]);
    while i < RANKED_PIPELINE_KEYWORDS.len()
        invariant
            i <= RANKED_PIPELINE_KEYWORDS@.len(),
            items == pipeline_items().take(i as int),
            item_values(out@) == with_prefix(items, pl@),
        decreases RANKED_PIPELINE_KEYWORDS@.len() - i,
    {
        let (keyword, priority) = RANKED_PIPELINE_KEYWORDS[i];
        let (detail, doc) = match pipeline_docs(keyword) {
            Some(d) => d,
            None => {
                proof {
                    reveal_strlit("");
                }
                ("Pipeline", "")
            },
        };
        offer(
            &mut out,
            pl.as_str(),
            keyword,
            detail,
            doc,
            CompletionKind::PipelineKeyword,
            priority,
            Ghost(items),
        );
        proof {
            items = items.push(pipeline_items()[i as int]);
            assert(items =~= pipeline_items().take(i + 1));
        }
        i += 1;
    }
    assert(items =~= pipeline_items());
    keep_first(&mut out, max);
    out
}

/// Expression-level completions.
fn complete_expression(prefix: &str, max: usize) -> (r: Vec<CompletionItem>)
    ensures
        item_values(r@) == at_most(
            with_prefix(expression_items(), lowercase(prefix@)),
            max as int,
        ),
{
    let pl = prefix.to_lowercase();
    let mut out: Vec<CompletionItem> = Vec::new();
    let ghost items = seq![];
    assert(item_values(out@) =~= seq![]);
    let mut i: usize = 0;
    while i < RANGE_FUNCTIONS.len()
        invariant
            i <= RANGE_FUNCTIONS@.len(),
            items == range_function_items().take(i as int),
            item_values(out@) == with_prefix(items, pl@),
        decreases RANGE_FUNCTIONS@.len() - i,
    {
        let name = RANGE_FUNCTIONS[i];
        let (detail, doc) = match function_docs(name) {
            Some(d) => d,
            None => {
                proof {
                    reveal_strlit("");
                }
                ("Function", "")
            },
        };
        offer(
            &mut out,
            pl.as_str(),
            name,
            detail,
            doc,
            CompletionKind::Function,
            i as u32,
            Ghost(items),
        );
        proof {
            items = items.push(range_function_items()[i as int]);
            assert(items =~= range_function_items().take(i + 1));
        }
        i += 1;
    }
    let ghost first = range_function_items();
    assert(items =~= first + aggregation_items().take(0));
    let mut i: usize = 0;
    while i < AGGREGATION_OPS.len()
        invariant
            i <= AGGREGATION_OPS@.len(),
            items == first + aggregation_items().take(i as int),
            item_values(out@) == with_prefix(items, pl@),
        decreases AGGREGATION_OPS@.len() - i,
    {
        let name = AGGREGATION_OPS[i];
        let (detail, doc) = match function_docs(name) {
            Some(d) => d,
            None => {
                proof {
                    reveal_strlit("");
                }
                ("Aggregation", "")
            },
        };
        offer(
            &mut out,
            pl.as_str(),
            name,
            detail,
            doc,
            CompletionKind::AggregationOp,
            100 + i as u32,
            Ghost(items),
        );
        proof {
            items = items.push(aggregation_items()[i as int]);
            assert(items =~= first + aggregation_items().take(i + 1));
        }
        i += 1;
    }
    let ghost second = first + aggregation_items();
    assert(items =~= second + keyword_items().take(0));
    let mut i: usize = 0;
    while i < EXPRESSION_KEYWORDS.len()
        invariant
            i <= EXPRESSION_KEYWORDS@.len(),
            items == second + keyword_items().take(i as int),
            item_values(out@) == with_prefix(items, pl@),
        decreases EXPRESSION_KEYWORDS@.len() - i,
    {
        proof {
            reveal_strlit("");
        }
        offer(
            &mut out,
            pl.as_str(),
            EXPRESSION_KEYWORDS[i],
            "Keyword",
            "",
            CompletionKind::Keyword,
            200,
            Ghost(items),
        );
        proof {
            items = items.push(keyword_items()[i as int]);
            assert(items =~= second + keyword_items().take(i + 1));
        }
        i += 1;
    }
    assert(items =~= expression_items());
    keep_first(&mut out, max);
    out
}

/// Duration completions.
fn complete_durations(prefix: &str, max: usize) -> (r: Vec<CompletionItem>)
    ensures
        item_values(r@) == at_most(with_prefix(duration_items(), prefix@), max as int),
{
    let mut out: Vec<CompletionItem> = Vec::new();
    let mut i: usize = 0;
    let ghost items = seq![];
    assert(item_values(out@) =~= seq![]);
    while i < DURATION_SUGGESTIONS.len()
        invariant
            i <= DURATION_SUGGESTIONS@.len(),
            items == duration_items().take(i as int),
            item_values(out@) == with_prefix(items, prefix@),
        decreases DURATION_SUGGESTIONS@.len() - i,
    {
        let (duration, description) = DURATION_SUGGESTIONS[i];
        proof {
            reveal_strlit("");
        }
        offer(
            &mut out,
            prefix,
            duration,
            description,
            "",
            CompletionKind::Duration,
            i as u32,
            Ghost(items),
        );
        proof {
            items = items.push(duration_items()[i as int]);
            assert(items =~= duration_items().take(i + 1));
        }
        i += 1;
    }
    assert(items =~= duration_items());
    keep_first(&mut out, max);
    out
}

/// The matching names as items, sorted and ranked.
fn complete_names(
    names: Option<&Vec<String>>,
    prefix: &str,
    detail: &str,
    kind: CompletionKind,
    max: usize,
) -> (r: Vec<CompletionItem>)
    ensures
        item_values(r@) == at_most(
            name_items(
                sorted_texts(
                    matching_names(
                        match names {
                            Some(n) => texts(n@),
                            None => seq![],
                        },
                        lowercase(prefix@),
                    ),
                ),
                detail@,
                kind,
            ),
            max as int,
        ),
{
    let pl = prefix.to_lowercase();
    let mut labels = match names {
        Some(names) => filter_names(names.as_slice(), pl.as_str()),
        None => Vec::new(),
    };
    proof {
        if names is None {
            assert(texts(labels@) =~= seq![]);
        }
    }
    sort_strings(&mut labels);
    let ghost all = name_items(texts(labels@), detail@, kind);
    let mut out: Vec<CompletionItem> = Vec::new();
    let mut i: usize = 0;
    assert(item_values(out@) =~= all.take(0));
    while i < labels.len()
        invariant
            i <= labels.len(),
            all == name_items(texts(labels@), detail@, kind),
            item_values(out@) == all.take(i as int),
        decreases labels.len() - i,
    {
        let item = CompletionItem {
            label: labels[i].clone(),
            detail: Some(detail.to_string()),
            documentation: None,
            kind,
            sort_priority: i as u32,
        };
        let ghost value = item@;
        let ghost before = item_values(out@);
        out.push(item);
        assert(value == all[i as int]);
        assert(item_values(out@) =~= before.push(value));
        assert(all.take(i + 1) =~= all.take(i as int).push(all[i as int]));
        i += 1;
    }
    assert(all.take(i as int) =~= all);
    keep_first(&mut out, max);
    out
}

/// Compute completion items for the given cursor context.
pub fn compute_completion_items(
    ctx: &CursorContext,
    label_names_cache: &AssocMap<String, Vec<String>>,
    label_values_cache: &AssocMap<(String, String), Vec<String>>,
    max: usize,
) -> (r: Vec<CompletionItem>)
    ensures
        item_values(r@) == completions_of(
            ctx@,
            cache_texts(label_names_cache@),
            cache_texts(label_values_cache@),
            max as int,
        ),
{
    match ctx {
        CursorContext::LabelName { prefix, selector } => {
            let empty = String::new();
            assert(empty@ =~= seq![]);
            let names = match label_names_cache.get(selector) {
                Some(names) => Some(names),
                None => label_names_cache.get(&empty),
            };
            complete_names(names, prefix.as_str(), "Label", CompletionKind::LabelName, max)
        },
        CursorContext::LabelValue { label, prefix, selector } => {
            let key = (label.clone(), selector.clone());
            let fallback = (label.clone(), String::new());
            assert(fallback@.1 =~= seq![]);
            let values = match label_values_cache.get(&key) {
                Some(values) => Some(values),
                None => label_values_cache.get(&fallback),
            };
            let detail = cat2(label.as_str(), " value");
            complete_names(
                values,
                prefix.as_str(),
                detail.as_str(),
                CompletionKind::LabelValue,
                max,
            )
        },
        CursorContext::PipelineStage { prefix } => complete_pipeline_keywords(
            prefix.as_str(),
            max,
        ),
        CursorContext::Expression { prefix } => {
            if prefix.as_str().is_empty() {
                let r: Vec<CompletionItem> = Vec::new();
                assert(item_values(r@) =~= seq![]);
                r
            } else {
                complete_expression(prefix.as_str(), max)
            }
        },
        CursorContext::Duration { prefix } => complete_durations(prefix.as_str(), max),
        CursorContext::Nothing => {
            let r: Vec<CompletionItem> = Vec::new();
            assert(item_values(r@) =~= seq![]);
            r
        },
    }
}

/// Extract just the label strings from completion items.
pub fn completion_labels(items: &[CompletionItem]) -> (r: Vec<String>)
    ensures
        texts(r@) == item_values(items@).map_values(|i: CompletionItemV| i.label),
{
    let mut out: Vec<String> = Vec::new();
    let ghost labels = item_values(items@).map_values(|i: CompletionItemV| i.label);
    let mut i: usize = 0;
    assert(texts(out@) =~= labels.take(0));
    while i < items.len()
        invariant
            i <= items.len(),
            labels == item_values(items@).map_values(|i: CompletionItemV| i.label),
            texts(out@) == labels.take(i as int),
        decreases items.len() - i,
    {
        let ghost before = texts(out@);
        out.push(items[i].label.clone());
        assert(texts(out@) =~= before.push(items@[i as int].label@));
        assert(labels.take(i + 1) =~= labels.take(i as int).push(labels[i as int]));
        i += 1;
    }
    assert(labels.take(i as int) =~= labels);
    out
}

// ── Laws ─────────────────────────────────────────────────────────────────────

/// What has been typed of the word at the cursor.
pub open spec fn typed_in(ctx: CursorContextV) -> Seq<char> {
    match ctx {
        CursorContextV::LabelName { prefix, .. } => prefix,
        CursorContextV::LabelValue { prefix, .. } => prefix,
        CursorContextV::PipelineStage { prefix } => prefix,
        CursorContextV::Expression { prefix } => prefix,
        CursorContextV::Duration { prefix } => prefix,
        CursorContextV::Nothing => seq![],
    }
}

proof fn lemma_with_prefix(items: Seq<CompletionItemV>, prefix: Seq<char>)
    ensures
        forall|i: int|
            0 <= i < with_prefix(items, prefix).len() ==> prefix.is_prefix_of(
                (#[trigger] with_prefix(items, prefix)[i]).label,
            ),
    decreases items.len(),
{
    if items.len() > 0 {
        lemma_with_prefix(items.drop_last(), prefix);
    }
}

proof fn lemma_name_items(
    known: Seq<Seq<char>>,
    typed: Seq<char>,
    detail: Seq<char>,
    kind: CompletionKind,
)
    ensures
        forall|i: int|
            0 <= i < matching_names(known, typed).len() ==> completes(
                (#[trigger] name_items(
                    sorted_texts(matching_names(known, typed)),
                    detail,
                    kind,
                )[i]).label,
                typed,
            ),
        sorted_texts(matching_names(known, typed)).len() == matching_names(known, typed).len(),
{
    let found = matching_names(known, typed);
    let sorted = sorted_texts(found);
    lemma_names_complete(known, typed);
    lemma_text_order();
    found.lemma_sort_by_ensures(text_order());
    assert(sorted.len() == found.len()) by {
        broadcast use group_to_multiset_ensures;

        assert(sorted.to_multiset().len() == found.to_multiset().len());
    }
    lemma_sorted_complete(found, typed, found.len() as int);
    assert(at_most(sorted, found.len() as int) == sorted);
    assert forall|i: int| 0 <= i < found.len() implies completes(
        (#[trigger] name_items(sorted, detail, kind)[i]).label,
        typed,
    ) by {
        assert(completes(sorted[i], typed));
    }
}

/// At most `max` completions are offered, and the label of each completes what
/// has been typed: all in lower case, but durations as they are typed.
pub proof fn lemma_completions_complete(
    ctx: CursorContextV,
    names: Map<Seq<char>, Seq<Seq<char>>>,
    values: Map<(Seq<char>, Seq<char>), Seq<Seq<char>>>,
    max: int,
)
    requires
        0 <= max,
    ensures
        completions_of(ctx, names, values, max).len() <= max,
        forall|i: int|
            0 <= i < completions_of(ctx, names, values, max).len() ==> completes(
                (#[trigger] completions_of(ctx, names, values, max)[i]).label,
                if ctx is Duration {
                    typed_in(ctx)
                } else {
                    lowercase(typed_in(ctx))
                },
            ),
{
    let typed = lowercase(typed_in(ctx));
    match ctx {
        CursorContextV::LabelName { selector, .. } => {
            lemma_name_items(
                cached(names, selector, seq![]),
                typed,
                "Label"@,
                CompletionKind::LabelName,
            );
        },
        CursorContextV::LabelValue { label, selector, .. } => {
            lemma_name_items(
                cached(values, (label, selector), (label, seq![])),
                typed,
                label + " value"@,
                CompletionKind::LabelValue,
            );
        },
        CursorContextV::PipelineStage { .. } => {
            lemma_with_prefix(pipeline_items(), typed);
        },
        CursorContextV::Expression { .. } => {
            lemma_with_prefix(expression_items(), typed);
        },
        CursorContextV::Duration { prefix } => {
            lemma_with_prefix(duration_items(), prefix);
        },
        CursorContextV::Nothing => {},
    }
}

/// A smaller limit only cuts the tail, after ranking. Without a prefix no
/// expression is offered, and where nothing is to complete nothing is.
pub proof fn lemma_limit_cuts_tail(
    ctx: CursorContextV,
    names: Map<Seq<char>, Seq<Seq<char>>>,
    values: Map<(Seq<char>, Seq<char>), Seq<Seq<char>>>,
    m: int,
    n: int,
)
    requires
        0 <= m <= n,
    ensures
        completions_of(ctx, names, values, m) == at_most(
            completions_of(ctx, names, values, n),
            m,
        ),
        ctx is Nothing ==> completions_of(ctx, names, values, n).len() == 0,
        ctx is Expression && typed_in(ctx).len() == 0 ==> completions_of(
            ctx,
            names,
            values,
            n,
        ).len() == 0,
{
    assert(completions_of(ctx, names, values, m) =~= at_most(
        completions_of(ctx, names, values, n),
        m,
    ));
}

/// Whether items come in the order of their ranks.
pub open spec fn ranked(items: Seq<CompletionItemV>) -> bool {
    forall|i: int, j: int|
        #![trigger items[i], items[j]]
        0 <= i < j < items.len() ==> items[i].sort_priority <= items[j].sort_priority
}

proof fn lemma_prefix_ranked(items: Seq<CompletionItemV>, prefix: Seq<char>)
    requires
        ranked(items),
    ensures
        ranked(with_prefix(items, prefix)),
        items.len() > 0 ==> forall|i: int|
            0 <= i < with_prefix(items, prefix).len() ==> (#[trigger] with_prefix(
                items,
                prefix,
            )[i]).sort_priority <= items.last().sort_priority,
    decreases items.len(),
{
    if items.len() > 0 {
        let init = items.drop_last();
        lemma_prefix_ranked(init, prefix);
        if init.len() > 0 {
            assert(items[items.len() - 2] == init.last());
            assert(items[items.len() - 2].sort_priority <= items[items.len() - 1].sort_priority);
        }
    }
}

proof fn lemma_tables_ranked()
    ensures
        ranked(pipeline_items()),
        ranked(expression_items()),
        ranked(duration_items()),
{
    assert(RANKED_PIPELINE_KEYWORDS@.len() == 12);
    assert forall|i: int, j: int| 0 <= i < j < 12 implies RANKED_PIPELINE_KEYWORDS@[i].1
        <= RANKED_PIPELINE_KEYWORDS@[j].1 by {
        lemma_pipeline_ranks(i);
        lemma_pipeline_ranks(j);
    }
    assert(RANGE_FUNCTIONS@.len() == 14);
    assert(AGGREGATION_OPS@.len() == 11);
    assert(EXPRESSION_KEYWORDS@.len() == 5);
    assert(DURATION_SUGGESTIONS@.len() == 13);
}

/// The ranks of pipeline keywords: at least their place, with gaps between the
/// groups.
proof fn lemma_pipeline_ranks(i: int)
    requires
        0 <= i < 12,
    ensures
        i < 6 ==> RANKED_PIPELINE_KEYWORDS@[i].1 == i,
        6 <= i < 8 ==> RANKED_PIPELINE_KEYWORDS@[i].1 == i + 4,
        8 <= i < 11 ==> RANKED_PIPELINE_KEYWORDS@[i].1 == i + 12,
        i == 11 ==> RANKED_PIPELINE_KEYWORDS@[i].1 == 30,
{
    assert(RANKED_PIPELINE_KEYWORDS@[0].1 == 0 && RANKED_PIPELINE_KEYWORDS@[1].1 == 1);
    assert(RANKED_PIPELINE_KEYWORDS@[2].1 == 2 && RANKED_PIPELINE_KEYWORDS@[3].1 == 3);
    assert(RANKED_PIPELINE_KEYWORDS@[4].1 == 4 && RANKED_PIPELINE_KEYWORDS@[5].1 == 5);
    assert(RANKED_PIPELINE_KEYWORDS@[6].1 == 10 && RANKED_PIPELINE_KEYWORDS@[7].1 == 11);
    assert(RANKED_PIPELINE_KEYWORDS@[8].1 == 20 && RANKED_PIPELINE_KEYWORDS@[9].1 == 21);
    assert(RANKED_PIPELINE_KEYWORDS@[10].1 == 22 && RANKED_PIPELINE_KEYWORDS@[11].1 == 30);
}

/// Completions come in the order of their ranks, as long as there are no more
/// names than ranks.
pub proof fn lemma_completions_ranked(
    ctx: CursorContextV,
    names: Map<Seq<char>, Seq<Seq<char>>>,
    values: Map<(Seq<char>, Seq<char>), Seq<Seq<char>>>,
    max: int,
)
    requires
        0 <= max,
        completions_of(ctx, names, values, max).len() <= u32::MAX + 1,
    ensures
        ranked(completions_of(ctx, names, values, max)),
{
    let typed = lowercase(typed_in(ctx));
    lemma_tables_ranked();
    lemma_prefix_ranked(pipeline_items(), typed);
    lemma_prefix_ranked(expression_items(), typed);
    lemma_prefix_ranked(duration_items(), typed_in(ctx));
}

} // verus!
