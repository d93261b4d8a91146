//! Which completions are offered, and what they are.

use crate::logql::completions::{
    completions_of, duration_items, expression_items, name_items, pipeline_items, with_prefix,
    CompletionItemV, CompletionKind, CursorContextV, DURATION_SUGGESTIONS, EXPRESSION_KEYWORDS,
    RANKED_PIPELINE_KEYWORDS,
};
use crate::logql::keywords::{AGGREGATION_OPS, RANGE_FUNCTIONS};
use crate::logql::reading::{aggregation_name, range_function};
use crate::logql::rules::lemma_listed_names;
use crate::lsp::completion::{item_kind, ItemKind};
use crate::order::{lemma_text_order, sorted_texts, text_order};
use crate::suggest::{at_most, cached, lemma_names_complete, matching_names};
use crate::text::{listed, lowercase};
use vstd::multiset::*;
use vstd::prelude::*;
use vstd::seq_lib::*;
use vstd::string::*;

verus! {

/// Whether `name` can stand behind `|`.
pub open spec fn pipeline_word(name: Seq<char>) -> bool {
    name == "json"@ || name == "logfmt"@ || name == "regexp"@ || name == "pattern"@ || name
        == "unpack"@ || name == "pack"@ || name == "line_format"@ || name == "label_format"@ || name
        == "drop"@ || name == "keep"@ || name == "decolorize"@ || name == "unwrap"@
}

/// Whether `name` joins or groups expressions.
pub open spec fn joining_word(name: Seq<char>) -> bool {
    name == "and"@ || name == "or"@ || name == "unless"@ || name == "by"@ || name == "without"@
}

/// Whether an item is what its kind says.
pub open spec fn well_named(ctx: CursorContextV, item: CompletionItemV) -> bool {
    match ctx {
        CursorContextV::LabelName { .. } => item.kind == CompletionKind::LabelName,
        CursorContextV::LabelValue { .. } => item.kind == CompletionKind::LabelValue,
        CursorContextV::PipelineStage { .. } => item.kind == CompletionKind::PipelineKeyword
            && pipeline_word(item.label),
        CursorContextV::Expression { .. } => match item.kind {
            CompletionKind::Function => range_function(item.label),
            CompletionKind::AggregationOp => aggregation_name(item.label),
            CompletionKind::Keyword => joining_word(item.label),
            _ => false,
        },
        CursorContextV::Duration { .. } => item.kind == CompletionKind::Duration,
        CursorContextV::Nothing => false,
    }
}

/// Whether a label is among the items.
pub open spec fn offered(items: Seq<CompletionItemV>, label: Seq<char>) -> bool {
    exists|i: int| 0 <= i < items.len() && (#[trigger] items[i]).label == label
}

proof fn lemma_prefixed(items: Seq<CompletionItemV>, prefix: Seq<char>, k: int)
    ensures
        forall|i: int|
            0 <= i < with_prefix(items, prefix).len() ==> items.contains(
                #[trigger] with_prefix(items, prefix)[i],
            ),
        0 <= k < items.len() && prefix.is_prefix_of(items[k].label) ==> with_prefix(
            items,
            prefix,
        ).contains(items[k]),
    decreases items.len(),
{
    if items.len() > 0 {
        let init = items.drop_last();
        lemma_prefixed(init, prefix, k);
        let before = with_prefix(init, prefix);
        let all = with_prefix(items, prefix);
        assert forall|i: int| 0 <= i < all.len() implies items.contains(#[trigger] all[i]) by {
            if i < before.len() {
                assert(all[i] == before[i]);
                let m = init.index_of(before[i]);
                assert(items[m] == before[i]);
            } else {
                assert(items[items.len() - 1] == all[i]);
            }
        }
        if 0 <= k < items.len() && prefix.is_prefix_of(items[k].label) {
            if k < init.len() {
                assert(init[k] == items[k]);
                let m = before.index_of(items[k]);
                assert(all[m] == items[k]);
            } else {
                assert(all.last() == items[k]);
            }
        }
    }
}

proof fn lemma_expression_items(k: int)
    requires
        0 <= k < expression_items().len(),
    ensures
        well_named(CursorContextV::Expression { prefix: seq![] }, expression_items()[k]),
{
    let item = expression_items()[k];
    let r = RANGE_FUNCTIONS@.len();
    let a = AGGREGATION_OPS@.len();
    if k < r {
        assert(item.label == RANGE_FUNCTIONS@[k]@);
        assert(listed(RANGE_FUNCTIONS@, item.label));
        lemma_listed_names(item.label);
    } else if k < r + a {
        assert(item.label == AGGREGATION_OPS@[k - r]@);
        assert(listed(AGGREGATION_OPS@, item.label));
        lemma_listed_names(item.label);
    } else {
        assert(item.label == EXPRESSION_KEYWORDS@[k - r - a]@);
    }
}

proof fn lemma_pipeline_items(k: int)
    requires
        0 <= k < pipeline_items().len(),
    ensures
        well_named(CursorContextV::PipelineStage { prefix: seq![] }, pipeline_items()[k]),
{
    assert(pipeline_items()[k].label == RANKED_PIPELINE_KEYWORDS@[k].0@);
}

/// Every completion is what its kind says: in an expression a range function, an aggregation or a
/// word that joins; behind `|` a word that can stand there; in a selector a name or a value.
pub proof fn lemma_offers_named(
    ctx: CursorContextV,
    names: Map<Seq<char>, Seq<Seq<char>>>,
    values: Map<(Seq<char>, Seq<char>), Seq<Seq<char>>>,
    max: int,
    i: int,
)
    requires
        0 <= i < completions_of(ctx, names, values, max).len(),
        0 <= max,
    ensures
        well_named(ctx, completions_of(ctx, names, values, max)[i]),
{
    let item = completions_of(ctx, names, values, max)[i];
    match ctx {
        CursorContextV::PipelineStage { prefix } => {
            lemma_prefixed(pipeline_items(), lowercase(prefix), 0);
            let k = pipeline_items().index_of(item);
            assert(pipeline_items()[k] == item);
            lemma_pipeline_items(k);
        },
        CursorContextV::Expression { prefix } => {
            lemma_prefixed(expression_items(), lowercase(prefix), 0);
            let k = expression_items().index_of(item);
            assert(expression_items()[k] == item);
            lemma_expression_items(k);
        },
        CursorContextV::Duration { prefix } => {
            lemma_prefixed(duration_items(), prefix, 0);
            let k = duration_items().index_of(item);
            assert(duration_items()[k] == item);
            assert(DURATION_SUGGESTIONS@.len() == 13);
        },
        _ => {},
    }
}

/// Where fewer completions are offered than could be, none is missing: behind `|` all words that
/// can stand there and start with what has been typed, in an expression all range functions,
/// aggregations and words that join.
pub proof fn lemma_offers_all_words(
    prefix: Seq<char>,
    names: Map<Seq<char>, Seq<Seq<char>>>,
    values: Map<(Seq<char>, Seq<char>), Seq<Seq<char>>>,
    max: int,
    word: Seq<char>,
)
    requires
        0 <= max,
        lowercase(prefix).is_prefix_of(word),
    ensures
        ({
            let stage = CursorContextV::PipelineStage { prefix };
            let items = completions_of(stage, names, values, max);
            pipeline_word(word) && items.len() < max ==> offered(items, word)
        }),
        ({
            let expression = CursorContextV::Expression { prefix };
            let items = completions_of(expression, names, values, max);
            prefix.len() > 0 && (range_function(word) || aggregation_name(word) || joining_word(
                word,
            )) && items.len() < max ==> offered(items, word)
        }),
{
    if pipeline_word(word) {
        let r = RANKED_PIPELINE_KEYWORDS@;
        assert(r[0].0@ == "json"@ && r[1].0@ == "logfmt"@ && r[2].0@ == "regexp"@ && r[3].0@
            == "pattern"@ && r[4].0@ == "unpack"@ && r[5].0@ == "pack"@ && r[6].0@ == "line_format"@
            && r[7].0@ == "label_format"@ && r[8].0@ == "drop"@ && r[9].0@ == "keep"@ && r[10].0@
            == "decolorize"@ && r[11].0@ == "unwrap"@);
        let k = choose|k: int| 0 <= k < r.len() && (#[trigger] r[k]).0@ == word;
        assert(pipeline_items()[k].label == r[k].0@);
        lemma_prefixed(pipeline_items(), lowercase(prefix), k);
        let found = with_prefix(pipeline_items(), lowercase(prefix));
        let m = found.index_of(pipeline_items()[k]);
        assert(found[m].label == word);
        let items = completions_of(
            CursorContextV::PipelineStage { prefix },
            names,
            values,
            max,
        );
        if items.len() < max {
            assert(items == found);
            assert(items[m].label == word);
        }
    }
    if range_function(word) || aggregation_name(word) || joining_word(word) {
        lemma_listed_names(word);
        let k = if range_function(word) {
            choose|k: int| 0 <= k < RANGE_FUNCTIONS@.len() && (#[trigger] RANGE_FUNCTIONS@[k])@ == word
        } else if aggregation_name(word) {
            RANGE_FUNCTIONS@.len() + choose|k: int|
                0 <= k < AGGREGATION_OPS@.len() && (#[trigger] AGGREGATION_OPS@[k])@ == word
        } else {
            let w = EXPRESSION_KEYWORDS@;
            assert(w[0]@ == "and"@ && w[1]@ == "by"@ && w[2]@ == "or"@ && w[3]@ == "unless"@ && w[4]@
                == "without"@);
            RANGE_FUNCTIONS@.len() + AGGREGATION_OPS@.len() + choose|k: int|
                0 <= k < w.len() && (#[trigger] w[k])@ == word
        };
        assert(expression_items()[k].label == word);
        lemma_prefixed(expression_items(), lowercase(prefix), k);
        let found = with_prefix(expression_items(), lowercase(prefix));
        let m = found.index_of(expression_items()[k]);
        assert(found[m].label == word);
        let items = completions_of(CursorContextV::Expression { prefix }, names, values, max);
        if prefix.len() > 0 && items.len() < max {
            assert(items == found);
            assert(items[m].label == word);
        }
    }
}

/// Where fewer labels or values are offered than could be, none is missing that is known for the
/// selector, or else for all streams, and starts with what has been typed.
pub proof fn lemma_offers_all_names(
    prefix: Seq<char>,
    label: Seq<char>,
    selector: Seq<char>,
    names: Map<Seq<char>, Seq<Seq<char>>>,
    values: Map<(Seq<char>, Seq<char>), Seq<Seq<char>>>,
    max: int,
    k: int,
)
    requires
        0 <= max,
    ensures
        ({
            let items = completions_of(
                CursorContextV::LabelName { prefix, selector },
                names,
                values,
                max,
            );
            let known = if names.contains_key(selector) {
                names[selector]
            } else if names.contains_key(seq![]) {
                names[seq![]]
            } else {
                seq![]
            };
            0 <= k < known.len() && lowercase(prefix).is_prefix_of(lowercase(known[k]))
                && items.len() < max ==> offered(items, known[k])
        }),
        ({
            let items = completions_of(
                CursorContextV::LabelValue { label, prefix, selector },
                names,
                values,
                max,
            );
            let known = if values.contains_key((label, selector)) {
                values[(label, selector)]
            } else if values.contains_key((label, seq![])) {
                values[(label, seq![])]
            } else {
                seq![]
            };
            0 <= k < known.len() && lowercase(prefix).is_prefix_of(lowercase(known[k]))
                && items.len() < max ==> offered(items, known[k])
        }),
{
    let typed = lowercase(prefix);
    lemma_names_offered(
        cached(names, selector, seq![]),
        typed,
        "Label"@,
        CompletionKind::LabelName,
        max,
        k,
    );
    lemma_names_offered(
        cached(values, (label, selector), (label, seq![])),
        typed,
        label + " value"@,
        CompletionKind::LabelValue,
        max,
        k,
    );
}

proof fn lemma_names_offered(
    known: Seq<Seq<char>>,
    typed: Seq<char>,
    detail: Seq<char>,
    kind: CompletionKind,
    max: int,
    k: int,
)
    requires
        0 <= max,
    ensures
        ({
            let items = at_most(
                name_items(sorted_texts(matching_names(known, typed)), detail, kind),
                max,
            );
            0 <= k < known.len() && typed.is_prefix_of(lowercase(known[k])) && items.len() < max
                ==> offered(items, known[k])
        }),
{
    if 0 <= k < known.len() && typed.is_prefix_of(lowercase(known[k])) {
        lemma_names_complete(known, typed);
        let found = matching_names(known, typed);
        assert(known.contains(known[k]));
        assert(found.contains(known[k]));
        let sorted = sorted_texts(found);
        lemma_text_order();
        found.lemma_sort_by_ensures(text_order());
        broadcast use group_to_multiset_ensures;

        assert(found.to_multiset().count(known[k]) > 0);
        assert(sorted.contains(known[k]));
        let m = sorted.index_of(known[k]);
        assert(name_items(sorted, detail, kind)[m].label == known[k]);
    }
}

/// How completions are marked: labels as fields, values as values, all functions as functions, all
/// words as keywords, durations as units.
pub proof fn lemma_item_kinds(kind: CompletionKind)
    ensures
        item_kind(kind) == ItemKind::Field <==> kind == CompletionKind::LabelName,
        item_kind(kind) == ItemKind::Value <==> kind == CompletionKind::LabelValue,
        item_kind(kind) == ItemKind::Unit <==> kind == CompletionKind::Duration,
        item_kind(kind) == ItemKind::Function <==> kind == CompletionKind::Function || kind
            == CompletionKind::AggregationOp,
        item_kind(kind) == ItemKind::Keyword <==> kind == CompletionKind::Keyword || kind
            == CompletionKind::PipelineKeyword,
{
}

} // verus!
