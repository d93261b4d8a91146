//! What the cursor stands in, in a LogQL query, and what completes it.
//!
//! Works on the text before the cursor alone, which need not be well-formed.

use crate::collections::AssocMap;
use crate::logql::keywords::{
    all_expression_keywords, all_pipeline_keywords, AGGREGATION_MODIFIERS, AGGREGATION_OPS,
    BINARY_KEYWORDS, PARSERS, RANGE_FUNCTIONS,
};
use crate::order::{sort_strings, sorted_texts, text_order, texts};
use crate::prometheus::context::{
    after_operator, brace_depth, count_brace_depth, ends_in_operator, extract_label_selector,
    filter_cached, find_label_value_context, in_bracket_context, in_brackets, label_value_at_end,
    open_selector,
};
use crate::scan::contains_byte;
use crate::suggest::{
    all_complete, at_most, cache_texts, cached, drop_repeats, filter_words, keep_strings,
    lemma_names_complete, lemma_sorted_complete, lemma_words_complete, matching_names,
    matching_words, without_repeats,
};
use crate::text::{lowercase, substr, text_in, trimmed_end};
use crate::util::{char_to_byte, char_to_byte_of, word_boundary_byte, word_start};
use vstd::prelude::*;
use vstd::relations::*;
use vstd::string::*;
use vstd::utf8::*;

verus! {

/// What the cursor stands in.
#[derive(Debug, Clone)]
pub enum CompletionCtx {
    /// Inside `{}` but not in a string: a label name
    LabelName { prefix: String, selector: String },
    /// Inside a string of a label matcher: a label value
    LabelValue { label: String, prefix: String, selector: String },
    /// After `|`: a pipeline stage
    PipelineStage { prefix: String },
    /// A function or the start of a selector
    Expression { prefix: String },
    /// Nothing to complete
    Nothing,
}

/// Value of a [`CompletionCtx`].
pub ghost enum CompletionCtxV {
    LabelName { prefix: Seq<char>, selector: Seq<char> },
    LabelValue { label: Seq<char>, prefix: Seq<char>, selector: Seq<char> },
    PipelineStage { prefix: Seq<char> },
    Expression { prefix: Seq<char> },
    Nothing,
}

impl View for CompletionCtx {
    type V = CompletionCtxV;

    open spec fn view(&self) -> CompletionCtxV {
        match self {
            CompletionCtx::LabelName { prefix, selector } => CompletionCtxV::LabelName {
                prefix: prefix@,
                selector: selector@,
            },
            CompletionCtx::LabelValue { label, prefix, selector } => CompletionCtxV::LabelValue {
                label: label@,
                prefix: prefix@,
                selector: selector@,
            },
            CompletionCtx::PipelineStage { prefix } => CompletionCtxV::PipelineStage {
                prefix: prefix@,
            },
            CompletionCtx::Expression { prefix } => CompletionCtxV::Expression {
                prefix: prefix@,
            },
            CompletionCtx::Nothing => CompletionCtxV::Nothing,
        }
    }
}

/// Whether the text `b` ends in a `|`, white space aside, with a selector closed
/// somewhere before.
pub open spec fn behind_pipe(b: Seq<u8>) -> bool {
    let t = encode_utf8(trimmed_end(decode_utf8(b)));
    t.len() > 0 && t.last() == '|' as u8 && brace_depth(t) == 0 && t.contains('{' as u8)
}

/// The context at the end of the text `b`.
pub open spec fn context_at_end(b: Seq<u8>) -> CompletionCtxV {
    let start = word_start(b, b.len() as int, true);
    let prefix = text_in(b, start, b.len() as int);
    match label_value_at_end(b) {
        Some((label, value)) => CompletionCtxV::LabelValue {
            label,
            prefix: value,
            selector: open_selector(b),
        },
        None => if brace_depth(b) > 0 {
            if start == b.len() && ends_in_operator(b) {
                CompletionCtxV::Nothing
            } else {
                CompletionCtxV::LabelName { prefix, selector: open_selector(b) }
            }
        } else if in_brackets(b) {
            CompletionCtxV::Nothing
        } else if behind_pipe(b.subrange(0, start)) {
            CompletionCtxV::PipelineStage { prefix }
        } else {
            CompletionCtxV::Expression { prefix }
        },
    }
}

/// The context of a cursor, which is that of the text before it.
pub open spec fn context_of(query: Seq<char>, cursor_pos: int) -> CompletionCtxV {
    context_at_end(encode_utf8(query).subrange(0, char_to_byte_of(query, cursor_pos)))
}

/// The keywords of expressions.
pub open spec fn expression_keywords() -> Seq<&'static str> {
    RANGE_FUNCTIONS@ + AGGREGATION_OPS@ + AGGREGATION_MODIFIERS@ + BINARY_KEYWORDS@
}

/// The keywords that start with `prefix`, each once, in the order of text.
pub open spec fn keyword_completions(
    words: Seq<&'static str>,
    prefix: Seq<char>,
    max: int,
) -> Seq<Seq<char>> {
    at_most(without_repeats(sorted_texts(matching_words(words, lowercase(prefix)))), max)
}

/// The names that match, in the order of text.
pub open spec fn name_completions(
    names: Seq<Seq<char>>,
    prefix: Seq<char>,
    max: int,
) -> Seq<Seq<char>> {
    at_most(sorted_texts(matching_names(names, lowercase(prefix))), max)
}

/// The completions of a context. Without a prefix all pipeline keywords are
/// offered, but no expression keywords.
pub open spec fn completions_of(
    ctx: CompletionCtxV,
    names: Map<Seq<char>, Seq<Seq<char>>>,
    values: Map<(Seq<char>, Seq<char>), Seq<Seq<char>>>,
    max: int,
) -> Seq<Seq<char>> {
    match ctx {
        CompletionCtxV::LabelName { prefix, selector } => name_completions(
            cached(names, selector, seq![]),
            prefix,
            max,
        ),
        CompletionCtxV::LabelValue { label, prefix, selector } => name_completions(
            cached(values, (label, selector), (label, seq![])),
            prefix,
            max,
        ),
        CompletionCtxV::PipelineStage { prefix } => if prefix.len() == 0 {
            at_most(sorted_texts(matching_words(PARSERS@, seq![])), max)
        } else {
            keyword_completions(PARSERS@, prefix, max)
        },
        CompletionCtxV::Expression { prefix } => if prefix.len() == 0 {
            seq![]
        } else {
            keyword_completions(expression_keywords(), prefix, max)
        },
        CompletionCtxV::Nothing => seq![],
    }
}

/// Check if the text before the current word ends a pipeline context: after `|`,
/// which no part of a filter operator is, behind a stream selector.
fn is_pipeline_context(before_word: &str) -> (r: bool)
    ensures
        r == behind_pipe(before_word.spec_bytes()),
{
    proof {
        encode_utf8_decode_utf8(before_word@);
    }
    let head = before_word.trim_end();
    let bytes = head.as_bytes();
    if bytes.len() == 0 || bytes[bytes.len() - 1] != '|' as u8 {
        return false;
    }
    count_brace_depth(head) == 0 && contains_byte(bytes, '{' as u8)
}

/// Detect the completion context from the part of the query before the cursor.
pub fn detect_context(query: &str, cursor_pos: usize) -> (r: CompletionCtx)
    ensures
        r@ == context_of(query@, cursor_pos as int),
{
    let cursor_byte = char_to_byte(query, cursor_pos);
    proof {
        encode_utf8_valid_utf8(query@);
        is_char_boundary_start_end_of_seq(query.spec_bytes());
    }
    let before = substr(query, 0, cursor_byte);
    proof {
        encode_utf8_valid_utf8(before@);
        is_char_boundary_start_end_of_seq(before.spec_bytes());
    }
    if let Some((label, prefix)) = find_label_value_context(before) {
        let selector = extract_label_selector(before);
        return CompletionCtx::LabelValue { label, prefix, selector };
    }
    let start = word_boundary_byte(before);
    let len = before.as_bytes().len();
    let prefix = substr(before, start, len).to_string();
    if count_brace_depth(before) > 0 {
        if start == len && after_operator(before) {
            return CompletionCtx::Nothing;
        }
        let selector = extract_label_selector(before);
        return CompletionCtx::LabelName { prefix, selector };
    }
    if in_bracket_context(before) {
        return CompletionCtx::Nothing;
    }
    if is_pipeline_context(substr(before, 0, start)) {
        return CompletionCtx::PipelineStage { prefix };
    }
    CompletionCtx::Expression { prefix }
}

fn complete_keywords(words: &Vec<&'static str>, prefix: &str, max: usize) -> (r: Vec<String>)
    ensures
        texts(r@) == keyword_completions(words@, prefix@, max as int),
{
    let pl = prefix.to_lowercase();
    let mut results = filter_words(words, pl.as_str());
    sort_strings(&mut results);
    let mut results = drop_repeats(&results);
    keep_strings(&mut results, max);
    results
}

fn complete_names(names: Option<&Vec<String>>, prefix: &str, max: usize) -> (r: Vec<String>)
    ensures
        texts(r@) == name_completions(
            match names {
                Some(n) => texts(n@),
                None => seq![],
            },
            prefix@,
            max as int,
        ),
{
    let pl = prefix.to_lowercase();
    let mut results = filter_cached(names, pl.as_str());
    sort_strings(&mut results);
    keep_strings(&mut results, max);
    results
}

/// The completions of a context.
pub fn compute_completions(
    ctx: &CompletionCtx,
    label_names_cache: &AssocMap<String, Vec<String>>,
    label_values_cache: &AssocMap<(String, String), Vec<String>>,
    max: usize,
) -> (r: Vec<String>)
    ensures
        texts(r@) == completions_of(
            ctx@,
            cache_texts(label_names_cache@),
            cache_texts(label_values_cache@),
            max as int,
        ),
{
    let empty = String::new();
    assert(empty@ =~= seq![]);
    match ctx {
        CompletionCtx::LabelName { prefix, selector } => {
            let names = match label_names_cache.get(selector) {
                Some(names) => Some(names),
                None => label_names_cache.get(&empty),
            };
            complete_names(names, prefix.as_str(), max)
        },
        CompletionCtx::LabelValue { label, prefix, selector } => {
            let key = (label.clone(), selector.clone());
            let values = match label_values_cache.get(&key) {
                Some(values) => Some(values),
                None => label_values_cache.get(&(label.clone(), empty)),
            };
            complete_names(values, prefix.as_str(), max)
        },
        CompletionCtx::PipelineStage { prefix } => {
            if prefix.as_str().is_empty() {
                let mut results = filter_words(&all_pipeline_keywords(), empty.as_str());
                sort_strings(&mut results);
                keep_strings(&mut results, max);
                results
            } else {
                complete_keywords(&all_pipeline_keywords(), prefix.as_str(), max)
            }
        },
        CompletionCtx::Expression { prefix } => {
            if prefix.as_str().is_empty() {
                let r: Vec<String> = Vec::new();
                assert(texts(r@) =~= seq![]);
                r
            } else {
                complete_keywords(&all_expression_keywords(), prefix.as_str(), max)
            }
        },
        CompletionCtx::Nothing => {
            let r: Vec<String> = Vec::new();
            assert(texts(r@) =~= seq![]);
            r
        },
    }
}

// ── Laws ─────────────────────────────────────────────────────────────────────

/// What has been typed of the word at the cursor.
pub open spec fn typed_in(ctx: CompletionCtxV) -> Seq<char> {
    match ctx {
        CompletionCtxV::LabelName { prefix, .. } => prefix,
        CompletionCtxV::LabelValue { prefix, .. } => prefix,
        CompletionCtxV::PipelineStage { prefix } => prefix,
        CompletionCtxV::Expression { prefix } => prefix,
        CompletionCtxV::Nothing => seq![],
    }
}

/// At most `max` completions are offered. All complete what has been typed, and
/// they come in the order of text.
pub proof fn lemma_completions_complete(
    ctx: CompletionCtxV,
    names: Map<Seq<char>, Seq<Seq<char>>>,
    values: Map<(Seq<char>, Seq<char>), Seq<Seq<char>>>,
    max: int,
)
    requires
        0 <= max,
    ensures
        completions_of(ctx, names, values, max).len() <= max,
        typed_in(ctx).len() > 0 ==> all_complete(
            completions_of(ctx, names, values, max),
            lowercase(typed_in(ctx)),
        ),
        sorted_by(completions_of(ctx, names, values, max), text_order()),
{
    let typed = lowercase(typed_in(ctx));
    match ctx {
        CompletionCtxV::LabelName { selector, .. } => {
            let known = cached(names, selector, seq![]);
            lemma_names_complete(known, typed);
            lemma_sorted_complete(matching_names(known, typed), typed, max);
        },
        CompletionCtxV::LabelValue { label, selector, .. } => {
            let known = cached(values, (label, selector), (label, seq![]));
            lemma_names_complete(known, typed);
            lemma_sorted_complete(matching_names(known, typed), typed, max);
        },
        CompletionCtxV::PipelineStage { prefix } => {
            lemma_words_complete(PARSERS@, typed);
            lemma_sorted_complete(matching_words(PARSERS@, typed), typed, max);
            lemma_words_complete(PARSERS@, seq![]);
            lemma_sorted_complete(matching_words(PARSERS@, seq![]), seq![], max);
        },
        CompletionCtxV::Expression { prefix } => {
            lemma_words_complete(expression_keywords(), typed);
            lemma_sorted_complete(matching_words(expression_keywords(), typed), typed, max);
        },
        CompletionCtxV::Nothing => {},
    }
}

} // verus!
