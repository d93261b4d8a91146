//! Diagnostics of a document.

use crate::logql::analyzer::{analysis, analyze, diagnostics, DiagnosticV, Severity};
use crate::logql::ast::{error_values, ParseErrorV};
use crate::logql::parser::{opt_expr, parse, parse_of};
use crate::logql::spans::{
    diagnostics_map_back, errors_map_back, lemma_analysis_maps_back, lemma_parse_maps_back,
    maps_back,
};
use crate::logql::tokenizer::Span;
use crate::lsp::position::{
    before_offset, byte_range_to_lsp, lemma_position_fits, lines_fit, position_behind, Range,
};
use vstd::prelude::*;
use vstd::string::*;
use vstd::utf8::*;

verus! {

/// What diagnostics name as their source.
pub const DIAGNOSTIC_SOURCE: &'static str = "logql-lsp";

/// A diagnostic with its place in the document.
#[derive(Debug, Clone)]
pub struct LspDiagnostic {
    pub range: Range,
    pub severity: Severity,
    pub message: String,
}

/// Parse errors as diagnostics.
pub open spec fn error_diagnostics(errors: Seq<ParseErrorV>) -> Seq<DiagnosticV> {
    errors.map_values(
        |e: ParseErrorV|
            DiagnosticV { severity: Severity::Error, message: e.message, span: e.span },
    )
}

/// The diagnostics of a document: its parse errors, then those of its tree.
pub open spec fn document_diagnostics(b: Seq<u8>) -> Seq<DiagnosticV> {
    error_diagnostics(parse_of(b).1) + match parse_of(b).0 {
        Some(e) => analysis(e).1,
        None => seq![],
    }
}

/// Whether `d` is a diagnostic of the document.
pub open spec fn diagnostic_shows(b: Seq<u8>, v: DiagnosticV, d: LspDiagnostic) -> bool {
    &&& d.severity == v.severity
    &&& d.message@ == v.message
    &&& position_behind(before_offset(b, v.span.start as int), d.range.start)
    &&& position_behind(before_offset(b, v.span.end as int), d.range.end)
}

/// Whether `shown` are the diagnostics, in their order.
pub open spec fn diagnostics_show(
    b: Seq<u8>,
    values: Seq<DiagnosticV>,
    shown: Seq<LspDiagnostic>,
) -> bool {
    &&& shown.len() == values.len()
    &&& forall|i: int|
        0 <= i < shown.len() ==> diagnostic_shows(b, values[i], #[trigger] shown[i])
}

fn place_diagnostic(text: &str, severity: Severity, message: &String, span: Span) -> (r:
    LspDiagnostic)
    requires
        lines_fit(text@),
        maps_back(text.spec_bytes(), span),
    ensures
        diagnostic_shows(
            text.spec_bytes(),
            (DiagnosticV { severity, message: message@, span }),
            r,
        ),
{
    proof {
        lemma_position_fits(text@, span.start as int);
        lemma_position_fits(text@, span.end as int);
    }
    LspDiagnostic {
        range: byte_range_to_lsp(text, span.start, span.end),
        severity,
        message: message.clone(),
    }
}

/// The diagnostics to publish for a document.
pub fn run_diagnostics(text: &str) -> (r: Vec<LspDiagnostic>)
    requires
        lines_fit(text@),
    ensures
        diagnostics_show(text.spec_bytes(), document_diagnostics(text.spec_bytes()), r@),
{
    let len = text.as_bytes().len();
    let result = parse(text);
    let ghost b = text.spec_bytes();
    let ghost errors = error_values(result.errors@);
    let ghost all = document_diagnostics(b);
    proof {
        encode_utf8_valid_utf8(text@);
        assert(b.len() == len);
        lemma_parse_maps_back(b);
    }
    let mut out: Vec<LspDiagnostic> = Vec::new();
    let mut i: usize = 0;
    while i < result.errors.len()
        invariant
            i <= result.errors.len(),
            lines_fit(text@),
            b == text.spec_bytes(),
            errors == error_values(result.errors@),
            errors == parse_of(b).1,
            errors_map_back(b, errors),
            out.len() == i,
            forall|k: int|
                0 <= k < i ==> diagnostic_shows(b, error_diagnostics(errors)[k], #[trigger] out@[k]),
        decreases result.errors.len() - i,
    {
        let error = &result.errors[i];
        assert(errors[i as int] == error@);
        out.push(place_diagnostic(text, Severity::Error, &error.message, error.span));
        i += 1;
    }
    assert(errors.len() == result.errors.len());
    if let Some(expr) = &result.expr {
        let diags = analyze(expr);
        let ghost values = diagnostics(diags@);
        proof {
            assert(opt_expr(result.expr) == Some(expr.value()));
            lemma_analysis_maps_back(b, expr.value());
            assert(all =~= error_diagnostics(errors) + values);
        }
        let mut k: usize = 0;
        while k < diags.len()
            invariant
                k <= diags.len(),
                lines_fit(text@),
                b == text.spec_bytes(),
                values == diagnostics(diags@),
                diagnostics_map_back(b, values),
                all == error_diagnostics(errors) + values,
                out.len() == errors.len() + k,
                forall|j: int| 0 <= j < out.len() ==> diagnostic_shows(b, all[j], #[trigger] out@[j]),
            decreases diags.len() - k,
        {
            let diag = &diags[k];
            proof {
                assert(values[k as int] == diag@);
                assert(all[errors.len() + k] == values[k as int]);
            }
            out.push(place_diagnostic(text, diag.severity, &diag.message, diag.span));
            k += 1;
        }
        assert(values.len() == diags.len());
    } else {
        assert(all =~= error_diagnostics(errors));
    }
    out
}

} // verus!
