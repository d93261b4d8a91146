//! Completion at a position of a document.

use crate::collections::AssocMap;
use crate::logql::completions::{
    completions_of, compute_completion_items, context_at_end, cursor_context,
    detect_cursor_context, item_values, visible_tokens, CompletionItem, CompletionItemV,
    CompletionKind, CursorContext, CursorContextV,
};
use crate::logql::parser::{significant_tokens, Source};
use crate::logql::spans::lemma_ordered;
use crate::logql::tokenizer::{proper, tokens_of, well_placed};
use crate::lsp::position::{
    before_offset, byte_to_lsp_position, cursor_byte_to_char, lemma_position_fits, lines_fit,
    lsp_position_to_byte, position_behind, position_index, prefix_start_byte, Position, Range,
};
use crate::numbers::{padded, padded_string};
use crate::suggest::cache_texts;
use crate::text::{
    byte_offset, lemma_boundary_after_ascii, lemma_boundary_prefix, lemma_byte_offset,
    lemma_range_valid, opt_text, text_in,
};
use crate::util::{word_start};
use vstd::prelude::*;
use vstd::string::*;
use vstd::utf8::*;

verus! {

/// The most completions that are offered.
pub const MAX_COMPLETIONS: usize = 20;

/// Categories of completions, as the protocol has them.
#[derive(Debug, Clone, Copy, PartialEq, Eq, Structural)]
pub enum ItemKind {
    Field,
    Value,
    Function,
    Keyword,
    Unit,
}

/// A completion with the text that it replaces.
#[derive(Debug, Clone)]
pub struct LspCompletion {
    pub label: String,
    pub kind: ItemKind,
    pub detail: Option<String>,
    pub documentation: Option<String>,
    /// Orders completions
    pub sort_text: String,
    /// What the label replaces
    pub range: Range,
}

/// The category of a completion in the protocol.
pub open spec fn item_kind(kind: CompletionKind) -> ItemKind {
    match kind {
        CompletionKind::LabelName => ItemKind::Field,
        CompletionKind::LabelValue => ItemKind::Value,
        CompletionKind::Function => ItemKind::Function,
        CompletionKind::AggregationOp => ItemKind::Function,
        CompletionKind::PipelineKeyword => ItemKind::Keyword,
        CompletionKind::Duration => ItemKind::Unit,
        CompletionKind::Keyword => ItemKind::Keyword,
    }
}

/// The category of a completion in the protocol.
pub fn completion_kind_to_lsp(kind: CompletionKind) -> (r: ItemKind)
    ensures
        r == item_kind(kind),
{
    match kind {
        CompletionKind::LabelName => ItemKind::Field,
        CompletionKind::LabelValue => ItemKind::Value,
        CompletionKind::Function => ItemKind::Function,
        CompletionKind::AggregationOp => ItemKind::Function,
        CompletionKind::PipelineKeyword => ItemKind::Keyword,
        CompletionKind::Duration => ItemKind::Unit,
        CompletionKind::Keyword => ItemKind::Keyword,
    }
}

// ── What is replaced ─────────────────────────────────────────────────────────

/// Where the text that a completion replaces starts: behind the quote of a label
/// value, otherwise at the word before the cursor.
pub open spec fn replaced_from(b: Seq<u8>, cursor: int, ctx: CursorContextV) -> int {
    match ctx {
        CursorContextV::LabelValue { prefix, .. } => cursor - encode_utf8(prefix).len(),
        _ => word_start(b, cursor, true),
    }
}

/// A label value that is being typed reaches from its quote to the end of the
/// text.
proof fn lemma_value_prefix(b: Seq<u8>)
    requires
        valid_utf8(b),
        b.len() <= usize::MAX,
    ensures
        match context_at_end(b) {
            CursorContextV::LabelValue { prefix, .. } => {
                let len = encode_utf8(prefix).len();
                &&& len <= b.len()
                &&& is_char_boundary(b, b.len() - len)
                &&& b.subrange(b.len() - len, b.len() as int) == encode_utf8(prefix)
            },
            _ => true,
        },
{
    if let CursorContextV::LabelValue { prefix, .. } = context_at_end(b) {
        lemma_ordered(b);
        let all = significant_tokens(tokens_of(b));
        let src = Source { text: b, tokens: all };
        let sig = visible_tokens(b);
        let n = sig.len() as int;
        let t = sig[n - 1];
        assert(t == src.tokens[n - 1]);
        assert(well_placed(src.tokens[n - 1], b));
        is_char_boundary_start_end_of_seq(b);
        let q = t.span.start as int;
        assert(proper(src.tokens[n - 1]));
        lemma_boundary_after_ascii(b, q);
        lemma_range_valid(b, q + 1, b.len() as int);
        decode_utf8_encode_utf8(b.subrange(q + 1, b.len() as int));
        assert(prefix == text_in(b, q + 1, b.len() as int));
        assert(encode_utf8(prefix) == b.subrange(q + 1, b.len() as int));
    }
}

// ── Completion ───────────────────────────────────────────────────────────────

/// What the position stands in.
pub open spec fn document_context(text: Seq<char>, pos: Position) -> CursorContextV {
    cursor_context(text, position_index(text, pos))
}

/// Whether `c` offers an item in place of the text between two byte offsets.
pub open spec fn item_shows(
    b: Seq<u8>,
    from: int,
    cursor: int,
    item: CompletionItemV,
    c: LspCompletion,
) -> bool {
    &&& c.label@ == item.label
    &&& c.kind == item_kind(item.kind)
    &&& opt_text(c.detail) == item.detail
    &&& opt_text(c.documentation) == item.documentation
    &&& c.sort_text@ == padded(item.sort_priority as int, 4)
    &&& position_behind(before_offset(b, from), c.range.start)
    &&& position_behind(before_offset(b, cursor), c.range.end)
}

/// Whether `r` are the completions at a position, with the names of labels by
/// selector and their values by label and selector.
pub open spec fn completion_shows(
    text: Seq<char>,
    pos: Position,
    names: Map<Seq<char>, Seq<Seq<char>>>,
    values: Map<(Seq<char>, Seq<char>), Seq<Seq<char>>>,
    r: Option<Vec<LspCompletion>>,
) -> bool {
    let b = encode_utf8(text);
    let ctx = document_context(text, pos);
    let cursor = byte_offset(text, position_index(text, pos));
    let items = completions_of(ctx, names, values, MAX_COMPLETIONS as int);
    match r {
        Some(shown) => {
            &&& items.len() > 0
            &&& shown@.len() == items.len()
            &&& forall|i: int|
                0 <= i < shown@.len() ==> item_shows(
                    b,
                    replaced_from(b, cursor, ctx),
                    cursor,
                    items[i],
                    #[trigger] shown@[i],
                )
        },
        None => items.len() == 0,
    }
}

fn make_item(item: CompletionItem, range: Range) -> (r: LspCompletion)
    ensures
        r.label@ == item@.label,
        r.kind == item_kind(item@.kind),
        opt_text(r.detail) == item@.detail,
        opt_text(r.documentation) == item@.documentation,
        r.sort_text@ == padded(item@.sort_priority as int, 4),
        r.range == range,
{
    LspCompletion {
        label: item.label,
        kind: completion_kind_to_lsp(item.kind),
        detail: item.detail,
        documentation: item.documentation,
        sort_text: padded_string(item.sort_priority as i64, 4),
        range,
    }
}

/// Where the text that a completion replaces starts.
fn find_replaced(text: &str, cursor: usize, ctx: &CursorContext) -> (r: usize)
    requires
        cursor <= text.spec_bytes().len(),
        is_char_boundary(text.spec_bytes(), cursor as int),
        ctx@ == context_at_end(text.spec_bytes().subrange(0, cursor as int)),
    ensures
        r == replaced_from(text.spec_bytes(), cursor as int, ctx@),
        r <= cursor,
        is_char_boundary(text.spec_bytes(), r as int),
{
    let ghost b = text.spec_bytes();
    let ghost before = b.subrange(0, cursor as int);
    proof {
        encode_utf8_valid_utf8(text@);
        lemma_boundary_prefix(b, cursor as int, cursor as int);
        lemma_value_prefix(before);
    }
    match ctx {
        CursorContext::LabelValue { prefix, .. } => {
            let len = prefix.as_str().as_bytes().len();
            proof {
                lemma_boundary_prefix(b, cursor - len, cursor as int);
            }
            cursor - len
        },
        _ => prefix_start_byte(text, cursor),
    }
}

/// The completions at a position.
pub fn complete(
    text: &str,
    pos: Position,
    label_names: &AssocMap<String, Vec<String>>,
    label_values: &AssocMap<(String, String), Vec<String>>,
) -> (r: Option<Vec<LspCompletion>>)
    requires
        lines_fit(text@),
    ensures
        completion_shows(text@, pos, cache_texts(label_names@), cache_texts(label_values@), r),
{
    let cursor = lsp_position_to_byte(text, pos);
    let ghost b = text.spec_bytes();
    let ghost index = position_index(text@, pos);
    proof {
        encode_utf8_valid_utf8(text@);
        lemma_byte_offset(text@, index);
        encode_utf8_decode_utf8(text@.take(index));
        assert(b.subrange(0, b.len() as int) =~= b);
        assert(text@.take(text@.len() as int) =~= text@);
        if cursor == b.len() {
            assert(before_offset(b, cursor as int) =~= text@.take(index));
        }
    }
    let char_pos = cursor_byte_to_char(text, cursor);
    assert(char_pos == index);
    let ctx = detect_cursor_context(text, char_pos);
    let items = compute_completion_items(&ctx, label_names, label_values, MAX_COMPLETIONS);
    let ghost values = item_values(items@);
    assert(values.len() == items.len());
    if items.len() == 0 {
        return None;
    }
    let from = find_replaced(text, cursor, &ctx);
    proof {
        lemma_position_fits(text@, from as int);
        lemma_position_fits(text@, cursor as int);
    }
    let range = Range {
        start: byte_to_lsp_position(text, from),
        end: byte_to_lsp_position(text, cursor),
    };
    let mut out: Vec<LspCompletion> = Vec::new();
    for item in it: items
        invariant
            it.seq() == items@,
            values == item_values(it.seq()),
            b == text.spec_bytes(),
            position_behind(before_offset(b, from as int), range.start),
            position_behind(before_offset(b, cursor as int), range.end),
            out.len() == it.index(),
            forall|i: int|
                0 <= i < out.len() ==> item_shows(
                    b,
                    from as int,
                    cursor as int,
                    values[i],
                    #[trigger] out@[i],
                ),
    {
        assert(values[it.index()] == item@);
        out.push(make_item(item, range));
    }
    Some(out)
}

} // verus!
