//! The tables of LogQL agree with one another.

use crate::logql::completions::{docs_in, FUNCTION_DOCS, PIPELINE_DOCS};
use crate::logql::keywords::{AGGREGATION_OPS, PARSERS, RANGE_FUNCTIONS};
use crate::logql::tokenizer::keyword_kind;
use crate::text::listed;
use vstd::prelude::*;
use vstd::string::*;

verus! {

/// Where the first row of `name` stands in a table, if there is one.
proof fn lemma_docs_in(
    table: Seq<(&'static str, &'static str, &'static str)>,
    name: Seq<char>,
) -> (row: int)
    ensures
        match docs_in(table, name) {
            Some(d) => {
                &&& 0 <= row < table.len()
                &&& table[row].0@ == name
                &&& d == (table[row].1@, table[row].2@)
                &&& forall|i: int| 0 <= i < row ==> (#[trigger] table[i]).0@ != name
            },
            None => forall|i: int| 0 <= i < table.len() ==> (#[trigger] table[i]).0@ != name,
        },
    decreases table.len(),
{
    if table.len() == 0 || table[0].0@ == name {
        0
    } else {
        let rest = table.drop_first();
        let row = lemma_docs_in(rest, name);
        assert forall|i: int| 1 <= i < table.len() implies (#[trigger] table[i]) == rest[i - 1] by {}
        row + 1
    }
}

/// The rows of functions: range functions, then aggregation operators.
proof fn lemma_function_rows()
    ensures
        forall|i: int|
            0 <= i < 14 ==> listed(RANGE_FUNCTIONS@, (#[trigger] FUNCTION_DOCS@[i]).0@)
                && FUNCTION_DOCS@[i].1@ == "Range function"@,
        forall|i: int|
            14 <= i < 25 ==> listed(AGGREGATION_OPS@, (#[trigger] FUNCTION_DOCS@[i]).0@)
                && FUNCTION_DOCS@[i].1@ == "Aggregation"@,
{
    assert(FUNCTION_DOCS@[0].0@ == RANGE_FUNCTIONS@[10]@);
    assert(FUNCTION_DOCS@[1].0@ == RANGE_FUNCTIONS@[4]@);
    assert(FUNCTION_DOCS@[2].0@ == RANGE_FUNCTIONS@[13]@);
    assert(FUNCTION_DOCS@[3].0@ == RANGE_FUNCTIONS@[1]@);
    assert(FUNCTION_DOCS@[4].0@ == RANGE_FUNCTIONS@[7]@);
    assert(FUNCTION_DOCS@[5].0@ == RANGE_FUNCTIONS@[8]@);
    assert(FUNCTION_DOCS@[6].0@ == RANGE_FUNCTIONS@[5]@);
    assert(FUNCTION_DOCS@[7].0@ == RANGE_FUNCTIONS@[6]@);
    assert(FUNCTION_DOCS@[8].0@ == RANGE_FUNCTIONS@[11]@);
    assert(FUNCTION_DOCS@[9].0@ == RANGE_FUNCTIONS@[12]@);
    assert(FUNCTION_DOCS@[10].0@ == RANGE_FUNCTIONS@[9]@);
    assert(FUNCTION_DOCS@[11].0@ == RANGE_FUNCTIONS@[2]@);
    assert(FUNCTION_DOCS@[12].0@ == RANGE_FUNCTIONS@[3]@);
    assert(FUNCTION_DOCS@[13].0@ == RANGE_FUNCTIONS@[0]@);
    assert(FUNCTION_DOCS@[14].0@ == AGGREGATION_OPS@[9]@);
    assert(FUNCTION_DOCS@[15].0@ == AGGREGATION_OPS@[0]@);
    assert(FUNCTION_DOCS@[16].0@ == AGGREGATION_OPS@[4]@);
    assert(FUNCTION_DOCS@[17].0@ == AGGREGATION_OPS@[3]@);
    assert(FUNCTION_DOCS@[18].0@ == AGGREGATION_OPS@[2]@);
    assert(FUNCTION_DOCS@[19].0@ == AGGREGATION_OPS@[10]@);
    assert(FUNCTION_DOCS@[20].0@ == AGGREGATION_OPS@[1]@);
    assert(FUNCTION_DOCS@[21].0@ == AGGREGATION_OPS@[7]@);
    assert(FUNCTION_DOCS@[22].0@ == AGGREGATION_OPS@[8]@);
    assert(FUNCTION_DOCS@[23].0@ == AGGREGATION_OPS@[5]@);
    assert(FUNCTION_DOCS@[24].0@ == AGGREGATION_OPS@[6]@);
    assert(FUNCTION_DOCS@[0].1@ == "Range function"@);
    assert(FUNCTION_DOCS@[1].1@ == "Range function"@);
    assert(FUNCTION_DOCS@[2].1@ == "Range function"@);
    assert(FUNCTION_DOCS@[3].1@ == "Range function"@);
    assert(FUNCTION_DOCS@[4].1@ == "Range function"@);
    assert(FUNCTION_DOCS@[5].1@ == "Range function"@);
    assert(FUNCTION_DOCS@[6].1@ == "Range function"@);
    assert(FUNCTION_DOCS@[7].1@ == "Range function"@);
    assert(FUNCTION_DOCS@[8].1@ == "Range function"@);
    assert(FUNCTION_DOCS@[9].1@ == "Range function"@);
    assert(FUNCTION_DOCS@[10].1@ == "Range function"@);
    assert(FUNCTION_DOCS@[11].1@ == "Range function"@);
    assert(FUNCTION_DOCS@[12].1@ == "Range function"@);
    assert(FUNCTION_DOCS@[13].1@ == "Range function"@);
    assert(FUNCTION_DOCS@[14].1@ == "Aggregation"@);
    assert(FUNCTION_DOCS@[15].1@ == "Aggregation"@);
    assert(FUNCTION_DOCS@[16].1@ == "Aggregation"@);
    assert(FUNCTION_DOCS@[17].1@ == "Aggregation"@);
    assert(FUNCTION_DOCS@[18].1@ == "Aggregation"@);
    assert(FUNCTION_DOCS@[19].1@ == "Aggregation"@);
    assert(FUNCTION_DOCS@[20].1@ == "Aggregation"@);
    assert(FUNCTION_DOCS@[21].1@ == "Aggregation"@);
    assert(FUNCTION_DOCS@[22].1@ == "Aggregation"@);
    assert(FUNCTION_DOCS@[23].1@ == "Aggregation"@);
    assert(FUNCTION_DOCS@[24].1@ == "Aggregation"@);
}

/// Every function has a row.
proof fn lemma_function_names(name: Seq<char>)
    ensures
        listed(RANGE_FUNCTIONS@, name) ==> exists|i: int|
            0 <= i < 14 && (#[trigger] FUNCTION_DOCS@[i]).0@ == name,
        listed(AGGREGATION_OPS@, name) ==> exists|i: int|
            14 <= i < 25 && (#[trigger] FUNCTION_DOCS@[i]).0@ == name,
{
    assert(RANGE_FUNCTIONS@[0]@ == FUNCTION_DOCS@[13].0@);
    assert(RANGE_FUNCTIONS@[1]@ == FUNCTION_DOCS@[3].0@);
    assert(RANGE_FUNCTIONS@[2]@ == FUNCTION_DOCS@[11].0@);
    assert(RANGE_FUNCTIONS@[3]@ == FUNCTION_DOCS@[12].0@);
    assert(RANGE_FUNCTIONS@[4]@ == FUNCTION_DOCS@[1].0@);
    assert(RANGE_FUNCTIONS@[5]@ == FUNCTION_DOCS@[6].0@);
    assert(RANGE_FUNCTIONS@[6]@ == FUNCTION_DOCS@[7].0@);
    assert(RANGE_FUNCTIONS@[7]@ == FUNCTION_DOCS@[4].0@);
    assert(RANGE_FUNCTIONS@[8]@ == FUNCTION_DOCS@[5].0@);
    assert(RANGE_FUNCTIONS@[9]@ == FUNCTION_DOCS@[10].0@);
    assert(RANGE_FUNCTIONS@[10]@ == FUNCTION_DOCS@[0].0@);
    assert(RANGE_FUNCTIONS@[11]@ == FUNCTION_DOCS@[8].0@);
    assert(RANGE_FUNCTIONS@[12]@ == FUNCTION_DOCS@[9].0@);
    assert(RANGE_FUNCTIONS@[13]@ == FUNCTION_DOCS@[2].0@);
    assert(AGGREGATION_OPS@[0]@ == FUNCTION_DOCS@[15].0@);
    assert(AGGREGATION_OPS@[1]@ == FUNCTION_DOCS@[20].0@);
    assert(AGGREGATION_OPS@[2]@ == FUNCTION_DOCS@[18].0@);
    assert(AGGREGATION_OPS@[3]@ == FUNCTION_DOCS@[17].0@);
    assert(AGGREGATION_OPS@[4]@ == FUNCTION_DOCS@[16].0@);
    assert(AGGREGATION_OPS@[5]@ == FUNCTION_DOCS@[23].0@);
    assert(AGGREGATION_OPS@[6]@ == FUNCTION_DOCS@[24].0@);
    assert(AGGREGATION_OPS@[7]@ == FUNCTION_DOCS@[21].0@);
    assert(AGGREGATION_OPS@[8]@ == FUNCTION_DOCS@[22].0@);
    assert(AGGREGATION_OPS@[9]@ == FUNCTION_DOCS@[14].0@);
    assert(AGGREGATION_OPS@[10]@ == FUNCTION_DOCS@[19].0@);
}

/// No text of a function is empty.
proof fn lemma_function_texts()
    ensures
        forall|i: int| 0 <= i < 25 ==> (#[trigger] FUNCTION_DOCS@[i]).2@.len() > 0,
{
    reveal_strlit("Calculates per-second rate of log entries over the given range");
    reveal_strlit("Counts the log entries over the given range");
    reveal_strlit("Sums extracted values over time (requires unwrap)");
    reveal_strlit("Averages extracted values over time (requires unwrap)");
    reveal_strlit("Maximum of extracted values over time (requires unwrap)");
    reveal_strlit("Minimum of extracted values over time (requires unwrap)");
    reveal_strlit("First value within the range (requires unwrap)");
    reveal_strlit("Last value within the range (requires unwrap)");
    reveal_strlit("Standard deviation over time (requires unwrap)");
    reveal_strlit("Standard variance over time (requires unwrap)");
    reveal_strlit("Calculates the \u{03c6}-quantile over time: quantile_over_time(\u{03c6}, expr[d])");
    reveal_strlit("Counts the bytes of log entries over the given range");
    reveal_strlit("Per-second byte rate of log entries");
    reveal_strlit("Returns 1 if the range vector has no entries, empty otherwise");
    reveal_strlit("Calculate the sum over dimensions");
    reveal_strlit("Calculate the average over dimensions");
    reveal_strlit("Select minimum over dimensions");
    reveal_strlit("Select maximum over dimensions");
    reveal_strlit("Count number of elements in the vector");
    reveal_strlit("Largest k elements by value");
    reveal_strlit("Smallest k elements by value");
    reveal_strlit("Calculate population standard deviation over dimensions");
    reveal_strlit("Calculate population standard variance over dimensions");
    reveal_strlit("Sort elements by value, ascending");
    reveal_strlit("Sort elements by value, descending");
    assert(FUNCTION_DOCS@[0].2@.len() > 0);
    assert(FUNCTION_DOCS@[1].2@.len() > 0);
    assert(FUNCTION_DOCS@[2].2@.len() > 0);
    assert(FUNCTION_DOCS@[3].2@.len() > 0);
    assert(FUNCTION_DOCS@[4].2@.len() > 0);
    assert(FUNCTION_DOCS@[5].2@.len() > 0);
    assert(FUNCTION_DOCS@[6].2@.len() > 0);
    assert(FUNCTION_DOCS@[7].2@.len() > 0);
    assert(FUNCTION_DOCS@[8].2@.len() > 0);
    assert(FUNCTION_DOCS@[9].2@.len() > 0);
    assert(FUNCTION_DOCS@[10].2@.len() > 0);
    assert(FUNCTION_DOCS@[11].2@.len() > 0);
    assert(FUNCTION_DOCS@[12].2@.len() > 0);
    assert(FUNCTION_DOCS@[13].2@.len() > 0);
    assert(FUNCTION_DOCS@[14].2@.len() > 0);
    assert(FUNCTION_DOCS@[15].2@.len() > 0);
    assert(FUNCTION_DOCS@[16].2@.len() > 0);
    assert(FUNCTION_DOCS@[17].2@.len() > 0);
    assert(FUNCTION_DOCS@[18].2@.len() > 0);
    assert(FUNCTION_DOCS@[19].2@.len() > 0);
    assert(FUNCTION_DOCS@[20].2@.len() > 0);
    assert(FUNCTION_DOCS@[21].2@.len() > 0);
    assert(FUNCTION_DOCS@[22].2@.len() > 0);
    assert(FUNCTION_DOCS@[23].2@.len() > 0);
    assert(FUNCTION_DOCS@[24].2@.len() > 0);
}

/// The documented functions are the range functions and the aggregation
/// operators, each under its category, and none lacks a text.
pub proof fn lemma_function_docs(name: Seq<char>)
    ensures
        docs_in(FUNCTION_DOCS@, name) is Some <==> (keyword_kind(name) is RangeFunction
            || keyword_kind(name) is AggregationOp),
        match docs_in(FUNCTION_DOCS@, name) {
            Some((category, text)) => {
                &&& keyword_kind(name) is RangeFunction ==> category == "Range function"@
                &&& keyword_kind(name) is AggregationOp ==> category == "Aggregation"@
                &&& text.len() > 0
            },
            None => true,
        },
{
    let row = lemma_docs_in(FUNCTION_DOCS@, name);
    lemma_function_rows();
    lemma_function_names(name);
    lemma_function_texts();
    assert(FUNCTION_DOCS@.len() == 25);
    if docs_in(FUNCTION_DOCS@, name) is Some {
        assert(FUNCTION_DOCS@[row].0@ == name);
    }
}

/// The rows of pipeline keywords.
proof fn lemma_pipeline_rows()
    ensures
        forall|i: int| 0 <= i < 12 ==> listed(PARSERS@, (#[trigger] PIPELINE_DOCS@[i]).0@),
        forall|i: int| 0 <= i < 6 ==> (#[trigger] PIPELINE_DOCS@[i]).1@ == "Parser"@,
        forall|i: int| 6 <= i < 8 ==> (#[trigger] PIPELINE_DOCS@[i]).1@ == "Formatter"@,
        forall|i: int| 8 <= i < 11 ==> (#[trigger] PIPELINE_DOCS@[i]).1@ == "Label operation"@,
        PIPELINE_DOCS@[11].1@ == "Unwrap"@,
{
    assert(PIPELINE_DOCS@[0].0@ == PARSERS@[2]@);
    assert(PIPELINE_DOCS@[1].0@ == PARSERS@[6]@);
    assert(PIPELINE_DOCS@[2].0@ == PARSERS@[8]@);
    assert(PIPELINE_DOCS@[3].0@ == PARSERS@[9]@);
    assert(PIPELINE_DOCS@[4].0@ == PARSERS@[10]@);
    assert(PIPELINE_DOCS@[5].0@ == PARSERS@[7]@);
    assert(PIPELINE_DOCS@[6].0@ == PARSERS@[5]@);
    assert(PIPELINE_DOCS@[7].0@ == PARSERS@[4]@);
    assert(PIPELINE_DOCS@[8].0@ == PARSERS@[1]@);
    assert(PIPELINE_DOCS@[9].0@ == PARSERS@[3]@);
    assert(PIPELINE_DOCS@[10].0@ == PARSERS@[0]@);
    assert(PIPELINE_DOCS@[11].0@ == PARSERS@[11]@);
    assert(PIPELINE_DOCS@[0].1@ == "Parser"@);
    assert(PIPELINE_DOCS@[1].1@ == "Parser"@);
    assert(PIPELINE_DOCS@[2].1@ == "Parser"@);
    assert(PIPELINE_DOCS@[3].1@ == "Parser"@);
    assert(PIPELINE_DOCS@[4].1@ == "Parser"@);
    assert(PIPELINE_DOCS@[5].1@ == "Parser"@);
    assert(PIPELINE_DOCS@[6].1@ == "Formatter"@);
    assert(PIPELINE_DOCS@[7].1@ == "Formatter"@);
    assert(PIPELINE_DOCS@[8].1@ == "Label operation"@);
    assert(PIPELINE_DOCS@[9].1@ == "Label operation"@);
    assert(PIPELINE_DOCS@[10].1@ == "Label operation"@);
    assert(PIPELINE_DOCS@[11].1@ == "Unwrap"@);
}

/// Every pipeline keyword has a row.
proof fn lemma_pipeline_names(name: Seq<char>)
    ensures
        listed(PARSERS@, name) ==> exists|i: int|
            0 <= i < 12 && (#[trigger] PIPELINE_DOCS@[i]).0@ == name,
{
    assert(PARSERS@[0]@ == PIPELINE_DOCS@[10].0@);
    assert(PARSERS@[1]@ == PIPELINE_DOCS@[8].0@);
    assert(PARSERS@[2]@ == PIPELINE_DOCS@[0].0@);
    assert(PARSERS@[3]@ == PIPELINE_DOCS@[9].0@);
    assert(PARSERS@[4]@ == PIPELINE_DOCS@[7].0@);
    assert(PARSERS@[5]@ == PIPELINE_DOCS@[6].0@);
    assert(PARSERS@[6]@ == PIPELINE_DOCS@[1].0@);
    assert(PARSERS@[7]@ == PIPELINE_DOCS@[5].0@);
    assert(PARSERS@[8]@ == PIPELINE_DOCS@[2].0@);
    assert(PARSERS@[9]@ == PIPELINE_DOCS@[3].0@);
    assert(PARSERS@[10]@ == PIPELINE_DOCS@[4].0@);
    assert(PARSERS@[11]@ == PIPELINE_DOCS@[11].0@);
}

/// No text of a pipeline keyword is empty.
proof fn lemma_pipeline_texts()
    ensures
        forall|i: int| 0 <= i < 12 ==> (#[trigger] PIPELINE_DOCS@[i]).2@.len() > 0,
{
    reveal_strlit("Parse log lines as JSON, extracting fields as labels");
    reveal_strlit("Parse log lines as logfmt key=value pairs");
    reveal_strlit("Extract fields using a pattern expression: pattern \"<ip> - <_>\"");
    reveal_strlit("Extract fields using a regular expression with named capture groups");
    reveal_strlit("Unpack packed log entries (used with pack stage)");
    reveal_strlit("Pack log entry and labels into a JSON object");
    reveal_strlit("Rewrite the log line using a Go template: line_format \"{{.field}}\"");
    reveal_strlit("Rename, modify, or add labels: label_format dst=src");
    reveal_strlit("Remove specified labels from the stream");
    reveal_strlit("Keep only the specified labels, removing all others");
    reveal_strlit("Strip ANSI color escape codes from log lines");
    reveal_strlit("Extract a numeric value from a label for metric aggregation");
    assert(PIPELINE_DOCS@[0].2@.len() > 0);
    assert(PIPELINE_DOCS@[1].2@.len() > 0);
    assert(PIPELINE_DOCS@[2].2@.len() > 0);
    assert(PIPELINE_DOCS@[3].2@.len() > 0);
    assert(PIPELINE_DOCS@[4].2@.len() > 0);
    assert(PIPELINE_DOCS@[5].2@.len() > 0);
    assert(PIPELINE_DOCS@[6].2@.len() > 0);
    assert(PIPELINE_DOCS@[7].2@.len() > 0);
    assert(PIPELINE_DOCS@[8].2@.len() > 0);
    assert(PIPELINE_DOCS@[9].2@.len() > 0);
    assert(PIPELINE_DOCS@[10].2@.len() > 0);
    assert(PIPELINE_DOCS@[11].2@.len() > 0);
}

/// The kinds of the rows of pipeline keywords.
proof fn lemma_pipeline_kinds(name: Seq<char>, row: int)
    requires
        0 <= row < 12,
        PIPELINE_DOCS@[row].0@ == name,
        forall|i: int| 0 <= i < row ==> (#[trigger] PIPELINE_DOCS@[i]).0@ != name,
    ensures
        keyword_kind(name) is PipelineParser ==> row < 6,
        keyword_kind(name) is PipelineFormatter ==> 6 <= row < 8,
        keyword_kind(name) is PipelineLabelOp ==> 8 <= row < 11,
        keyword_kind(name) is FilterKeyword ==> row == 11,
{
    assert(PIPELINE_DOCS@[0].0@ == "json"@);
    assert(PIPELINE_DOCS@[1].0@ == "logfmt"@);
    assert(PIPELINE_DOCS@[2].0@ == "pattern"@);
    assert(PIPELINE_DOCS@[3].0@ == "regexp"@);
    assert(PIPELINE_DOCS@[4].0@ == "unpack"@);
    assert(PIPELINE_DOCS@[5].0@ == "pack"@);
    assert(PIPELINE_DOCS@[6].0@ == "line_format"@);
    assert(PIPELINE_DOCS@[7].0@ == "label_format"@);
    assert(PIPELINE_DOCS@[8].0@ == "drop"@);
    assert(PIPELINE_DOCS@[9].0@ == "keep"@);
    assert(PIPELINE_DOCS@[10].0@ == "decolorize"@);
    assert(PIPELINE_DOCS@[11].0@ == "unwrap"@);
}

/// The documented pipeline keywords are all that can stand behind `|`, each
/// under the category of its kind, and none lacks a text.
pub proof fn lemma_pipeline_docs(name: Seq<char>)
    ensures
        docs_in(PIPELINE_DOCS@, name) is Some <==> listed(PARSERS@, name),
        match docs_in(PIPELINE_DOCS@, name) {
            Some((category, text)) => {
                &&& keyword_kind(name) is PipelineParser ==> category == "Parser"@
                &&& keyword_kind(name) is PipelineFormatter ==> category == "Formatter"@
                &&& keyword_kind(name) is PipelineLabelOp ==> category == "Label operation"@
                &&& keyword_kind(name) is FilterKeyword ==> category == "Unwrap"@
                &&& text.len() > 0
            },
            None => true,
        },
{
    let row = lemma_docs_in(PIPELINE_DOCS@, name);
    lemma_pipeline_rows();
    lemma_pipeline_names(name);
    lemma_pipeline_texts();
    assert(PIPELINE_DOCS@.len() == 12);
    if docs_in(PIPELINE_DOCS@, name) is Some {
        assert(PIPELINE_DOCS@[row].0@ == name);
        lemma_pipeline_kinds(name, row);
    }
}

} // verus!
