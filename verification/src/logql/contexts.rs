//! What is completed where.

use crate::logql::completions::{
    context_at_end, nesting, visible_tokens, word_prefix_of, CursorContextV,
};
use crate::logql::parser::significant_tokens;
use crate::logql::reading::lemma_kept;
use crate::logql::selectors::{lemma_nesting, stays_open};
use crate::logql::tokenizer::{
    lemma_tokens_cover, proper, tokens_of, well_placed, Token, TokenKind,
};
use crate::lsp::completion::{document_context, replaced_from};
use crate::lsp::position::{position_index, Position};
use crate::prometheus::typed::{lemma_name_start, name_between};
use crate::text::{
    byte_offset, lemma_boundary_after_ascii, lemma_byte_offset, lemma_range_valid, text_in,
};
use crate::util::{word_byte, word_start};
use vstd::prelude::*;
use vstd::string::*;
use vstd::utf8::*;

verus! {

// ── Square brackets ──────────────────────────────────────────────────────────

/// How many more square brackets are opened than closed by the tokens `from..to`.
pub open spec fn bracket_depth(tokens: Seq<Token>, from: int, to: int) -> int
    decreases to - from,
{
    if to <= from {
        0
    } else {
        bracket_depth(tokens, from, to - 1) + match tokens[to - 1].kind {
            TokenKind::LBracket => 1int,
            TokenKind::RBracket => -1,
            _ => 0,
        }
    }
}

/// Whether the tokens from some place on open more square brackets than they close.
pub open spec fn in_range_brackets(tokens: Seq<Token>) -> bool {
    exists|i: int|
        0 <= i <= tokens.len() && #[trigger] bracket_depth(tokens, i, tokens.len() as int) > 0
}

proof fn lemma_bracket_prefix(tokens: Seq<Token>, from: int, to: int)
    requires
        0 <= from,
        to < tokens.len(),
    ensures
        bracket_depth(tokens, from, to) == bracket_depth(tokens.drop_last(), from, to),
    decreases to - from,
{
    if from < to {
        lemma_bracket_prefix(tokens, from, to - 1);
        assert(tokens.drop_last()[to - 1] == tokens[to - 1]);
    }
}

proof fn lemma_brackets(tokens: Seq<Token>, i: int) -> (at: int)
    requires
        0 <= i <= tokens.len(),
    ensures
        bracket_depth(tokens, i, tokens.len() as int) <= nesting(tokens).brackets,
        0 <= at <= tokens.len(),
        bracket_depth(tokens, at, tokens.len() as int) == nesting(tokens).brackets,
    decreases tokens.len(),
{
    let n = tokens.len() as int;
    if n == 0 {
        0
    } else {
        let init = tokens.drop_last();
        let j = if i < n {
            i
        } else {
            0
        };
        let at = lemma_brackets(init, j);
        lemma_bracket_prefix(tokens, j, n - 1);
        lemma_bracket_prefix(tokens, at, n - 1);
        assert(bracket_depth(tokens, n, n) == 0);
        if bracket_depth(tokens, at, n) == nesting(tokens).brackets {
            at
        } else {
            n
        }
    }
}

// ── Contexts ─────────────────────────────────────────────────────────────────

/// Inside a brace that stays open labels and their values are completed and nothing else; outside
/// of all braces, inside square brackets, durations are and nothing else, and durations nowhere
/// else.
pub proof fn lemma_context_place(b: Seq<u8>)
    requires
        b.len() > 0,
    ensures
        ({
            let tokens = tokens_of(b);
            let n = visible_tokens(b).len() as int;
            let in_brace = exists|i: int| #[trigger] stays_open(tokens, i);
            let ctx = context_at_end(b);
            &&& in_brace ==> ctx is LabelName || ctx is LabelValue || ctx is Nothing
            &&& ctx is LabelValue ==> in_brace
            &&& ctx is Duration ==> !in_brace && in_range_brackets(tokens)
            &&& ctx is PipelineStage || ctx is Expression ==> !in_brace && !in_range_brackets(
                tokens,
            )
            &&& ctx is PipelineStage ==> n > 0 && (visible_tokens(b)[n - 1].kind == TokenKind::Pipe
                || n > 1 && visible_tokens(b)[n - 2].kind == TokenKind::Pipe)
        }),
{
    let tokens = tokens_of(b);
    let idx = lemma_nesting(tokens);
    let braces = nesting(tokens).braces;
    if exists|i: int| #[trigger] stays_open(tokens, i) {
        let i = choose|i: int| #[trigger] stays_open(tokens, i);
        assert(idx.contains(i));
        assert(braces.len() > 0);
    } else if braces.len() > 0 {
        assert(stays_open(tokens, idx[0]));
    }
    let at = lemma_brackets(tokens, 0);
    if in_range_brackets(tokens) {
        let i = choose|i: int|
            0 <= i <= tokens.len() && #[trigger] bracket_depth(tokens, i, tokens.len() as int) > 0;
        let other = lemma_brackets(tokens, i);
        assert(nesting(tokens).brackets > 0);
    } else {
        assert(bracket_depth(tokens, at, tokens.len() as int) <= 0);
    }
}

/// Whether a byte is a letter of ASCII, a digit or `_`.
pub open spec fn letter(c: u8) -> bool {
    'a' as u8 <= c <= 'z' as u8 || 'A' as u8 <= c <= 'Z' as u8 || '0' as u8 <= c <= '9' as u8 || c
        == '_' as u8
}

/// Whether `typed` is the word at the end: letters only, and none before them.
pub open spec fn last_word(b: Seq<u8>, typed: Seq<char>) -> bool {
    exists|start: int|
        {
            &&& 0 <= start <= b.len()
            &&& #[trigger] text_in(b, start, b.len() as int) == typed
            &&& forall|i: int| start <= i < b.len() ==> letter(#[trigger] b[i])
            &&& start > 0 ==> !letter(b[start - 1])
        }
}

proof fn lemma_word_start(b: Seq<u8>, end: int)
    requires
        0 <= end <= b.len(),
    ensures
        0 <= word_start(b, end, false) <= end,
        forall|i: int| word_start(b, end, false) <= i < end ==> letter(#[trigger] b[i]),
        word_start(b, end, false) > 0 ==> !letter(b[word_start(b, end, false) - 1]),
    decreases end,
{
    if 0 < end && word_byte(b[end - 1], false) {
        lemma_word_start(b, end - 1);
    }
}

/// What has been typed is the word at the end of the text, whatever is completed, but for a value,
/// which starts behind its quote, and a stage right behind `|`.
pub proof fn lemma_typed_word(b: Seq<u8>)
    requires
        b.len() > 0,
    ensures
        match context_at_end(b) {
            CursorContextV::LabelName { prefix, .. } => last_word(b, prefix),
            CursorContextV::Duration { prefix } => last_word(b, prefix),
            CursorContextV::Expression { prefix } => last_word(b, prefix),
            CursorContextV::PipelineStage { prefix } => prefix.len() == 0 || last_word(b, prefix),
            _ => true,
        },
{
    let end = b.len() as int;
    lemma_word_start(b, end);
    assert(text_in(b, word_start(b, end, false), end) == word_prefix_of(b));
}

/// What has been typed of a value is all that stands behind the quote that opens it, and its label
/// is the name before the operator.
pub proof fn lemma_typed_value(b: Seq<u8>)
    requires
        b.len() > 0,
    ensures
        match context_at_end(b) {
            CursorContextV::LabelValue { label, prefix, .. } => {
                let sig = visible_tokens(b);
                let n = sig.len() as int;
                let start = sig[n - 1].span.start as int;
                &&& n > 0
                &&& b[start] == '"' as u8 || b[start] == '\'' as u8 || b[start] == '`' as u8
                &&& prefix == text_in(b, start + 1, b.len() as int)
                &&& label.len() > 0 ==> n >= 3 && sig[n - 3].kind == TokenKind::Ident && label
                    == text_in(b, sig[n - 3].span.start as int, sig[n - 3].span.end as int)
                &&& n >= 3 && sig[n - 3].kind == TokenKind::Ident && (sig[n - 2].kind
                    == TokenKind::Eq || sig[n - 2].kind == TokenKind::NotEqual || sig[n - 2].kind
                    == TokenKind::EqRegex || sig[n - 2].kind == TokenKind::NotMatch) ==> label
                    == text_in(b, sig[n - 3].span.start as int, sig[n - 3].span.end as int)
            },
            _ => true,
        },
{
}

/// What a completion replaces in a document: of a value all that has been typed of it, else the
/// name before the cursor.
pub proof fn lemma_replaced(text: Seq<char>, pos: Position)
    requires
        encode_utf8(text).len() <= usize::MAX,
        0 <= position_index(text, pos) <= text.len(),
        byte_offset(text, position_index(text, pos)) > 0,
    ensures
        ({
            let b = encode_utf8(text);
            let cursor = byte_offset(text, position_index(text, pos));
            let ctx = document_context(text, pos);
            let from = replaced_from(b, cursor, ctx);
            match ctx {
                CursorContextV::LabelValue { prefix, .. } => 0 <= from <= cursor && text_in(
                    b,
                    from,
                    cursor,
                ) == prefix,
                _ => name_between(b, from, cursor),
            }
        }),
{
    let b = encode_utf8(text);
    let at = position_index(text, pos);
    let cursor = byte_offset(text, at);
    lemma_byte_offset(text, at);
    lemma_name_start(b, cursor);
    let before = b.subrange(0, cursor);
    if at == text.len() {
        assert(text.take(at) =~= text);
    }
    assert(document_context(text, pos) == context_at_end(before));
    if let CursorContextV::LabelValue { prefix, .. } = document_context(text, pos) {
        encode_utf8_valid_utf8(text.take(at));
        assert(before == encode_utf8(text.take(at)));
        lemma_typed_value(before);
        lemma_tokens_cover(before);
        let sig = visible_tokens(before);
        let n = sig.len() as int;
        let all = tokens_of(before);
        let kept = significant_tokens(all);
        assert(sig[n - 1] == kept[n - 1]);
        lemma_kept(all, n - 1);
        let k = choose|k: int| 0 <= k < all.len() && #[trigger] all[k] == kept[n - 1];
        assert(well_placed(all[k], before));
        let start = sig[n - 1].span.start as int;
        assert(start < before.len()) by {
            if k == all.len() - 1 {
                assert(kept[n - 1].kind == TokenKind::Eof);
            } else {
                assert(proper(all[k]));
            }
        }
        lemma_boundary_after_ascii(before, start);
        is_char_boundary_start_end_of_seq(before);
        lemma_range_valid(before, start + 1, cursor);
        decode_utf8_encode_utf8(before.subrange(start + 1, cursor));
        assert(before.subrange(start + 1, cursor) =~= b.subrange(start + 1, cursor));
        assert(encode_utf8(prefix).len() == cursor - (start + 1));
    }
}

} // verus!
