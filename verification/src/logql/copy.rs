//! Copies of syntax trees.

use crate::logql::ast::{
    string_pairs, strings, Expr, ExprKind, Grouping, LabelMatcher, PipelineStage, StreamSelector,
};
use crate::logql::tokenizer::Span;
use crate::text::opt_text;
use vstd::prelude::*;
use vstd::string::*;

verus! {

fn copy_strings(v: &Vec<String>) -> (r: Vec<String>)
    ensures
        strings(r@) == strings(v@),
{
    let mut out: Vec<String> = Vec::new();
    let mut i: usize = 0;
    while i < v.len()
        invariant
            i <= v.len(),
            out.len() == i,
            forall|k: int| 0 <= k < i ==> (#[trigger] out@[k])@ == v@[k]@,
        decreases v.len() - i,
    {
        out.push(v[i].clone());
        i += 1;
    }
    assert(strings(out@) =~= strings(v@));
    out
}

fn copy_pairs(v: &Vec<(String, String)>) -> (r: Vec<(String, String)>)
    ensures
        string_pairs(r@) == string_pairs(v@),
{
    let mut out: Vec<(String, String)> = Vec::new();
    let mut i: usize = 0;
    while i < v.len()
        invariant
            i <= v.len(),
            out.len() == i,
            forall|k: int|
                0 <= k < i ==> (#[trigger] out@[k]).0@ == v@[k].0@ && out@[k].1@ == v@[k].1@,
        decreases v.len() - i,
    {
        out.push((v[i].0.clone(), v[i].1.clone()));
        i += 1;
    }
    assert(string_pairs(out@) =~= string_pairs(v@));
    out
}

impl Clone for LabelMatcher {
    fn clone(&self) -> (r: Self)
        ensures
            r@ == self@,
    {
        LabelMatcher {
            name: self.name.clone(),
            op: self.op,
            value: self.value.clone(),
            span: self.span,
        }
    }
}

impl Clone for StreamSelector {
    fn clone(&self) -> (r: Self)
        ensures
            r@ == self@,
    {
        let mut matchers: Vec<LabelMatcher> = Vec::new();
        let mut i: usize = 0;
        while i < self.matchers.len()
            invariant
                i <= self.matchers.len(),
                matchers.len() == i,
                forall|k: int| 0 <= k < i ==> (#[trigger] matchers@[k])@ == self.matchers@[k]@,
            decreases self.matchers.len() - i,
        {
            matchers.push(self.matchers[i].clone());
            i += 1;
        }
        let r = StreamSelector { matchers, span: self.span };
        assert(r@.matchers =~= self@.matchers);
        r
    }
}

impl Clone for Grouping {
    fn clone(&self) -> (r: Self)
        ensures
            r@ == self@,
    {
        Grouping { without: self.without, labels: copy_strings(&self.labels), span: self.span }
    }
}

fn copy_option(s: &Option<String>) -> (r: Option<String>)
    ensures
        opt_text(r) == opt_text(*s),
{
    match s {
        Some(s) => Some(s.clone()),
        None => None,
    }
}

impl Clone for PipelineStage {
    fn clone(&self) -> (r: Self)
        ensures
            r@ == self@,
    {
        match self {
            PipelineStage::Filter { op, pattern, span } => PipelineStage::Filter {
                op: *op,
                pattern: pattern.clone(),
                span: *span,
            },
            PipelineStage::Parser { kind, params, span } => PipelineStage::Parser {
                kind: *kind,
                params: copy_strings(params),
                span: *span,
            },
            PipelineStage::LabelFormat { mappings, span } => PipelineStage::LabelFormat {
                mappings: copy_pairs(mappings),
                span: *span,
            },
            PipelineStage::LineFormat { template, span } => PipelineStage::LineFormat {
                template: template.clone(),
                span: *span,
            },
            PipelineStage::LabelOp { kind, labels, span } => PipelineStage::LabelOp {
                kind: *kind,
                labels: copy_strings(labels),
                span: *span,
            },
            PipelineStage::Unwrap { label, conversion, span } => PipelineStage::Unwrap {
                label: label.clone(),
                conversion: copy_option(conversion),
                span: *span,
            },
            PipelineStage::Decolorize { span } => PipelineStage::Decolorize { span: *span },
            PipelineStage::LabelFilter { name, op, value, span } => PipelineStage::LabelFilter {
                name: name.clone(),
                op: *op,
                value: value.clone(),
                span: *span,
            },
        }
    }
}

fn copy_stages(v: &Vec<PipelineStage>) -> (r: Vec<PipelineStage>)
    ensures
        r@.map_values(|p: PipelineStage| p@) == v@.map_values(|p: PipelineStage| p@),
{
    let mut out: Vec<PipelineStage> = Vec::new();
    let mut i: usize = 0;
    while i < v.len()
        invariant
            i <= v.len(),
            out.len() == i,
            forall|k: int| 0 <= k < i ==> (#[trigger] out@[k])@ == v@[k]@,
        decreases v.len() - i,
    {
        out.push(v[i].clone());
        i += 1;
    }
    assert(out@.map_values(|p: PipelineStage| p@) =~= v@.map_values(|p: PipelineStage| p@));
    out
}

/// An expression of a kind, at the start of a query.
pub open spec fn at_start(kind: ExprKind) -> Expr {
    Expr { kind, span: Span { start: 0, end: 0 } }
}

fn copy_param(p: &Option<Box<Expr>>) -> (r: Option<Box<Expr>>)
    ensures
        match (p, r) {
            (Some(a), Some(b)) => (*b).value() == (**a).value(),
            (None, None) => true,
            _ => false,
        },
    decreases p,
{
    match p {
        Some(e) => Some(Box::new(copy_expr(&**e))),
        None => None,
    }
}

fn copy_kind(kind: &ExprKind) -> (r: ExprKind)
    ensures
        at_start(r).value() == at_start(*kind).value(),
    decreases kind,
{
    match kind {
        ExprKind::LogQuery { selector, pipeline } => ExprKind::LogQuery {
            selector: selector.clone(),
            pipeline: copy_stages(pipeline),
        },
        ExprKind::RangeAggregation { func, log_query, duration, param } => {
            ExprKind::RangeAggregation {
                func: func.clone(),
                log_query: Box::new(copy_expr(&**log_query)),
                duration: duration.clone(),
                param: copy_param(param),
            }
        },
        ExprKind::Aggregation { op, expr, grouping, param } => ExprKind::Aggregation {
            op: op.clone(),
            expr: Box::new(copy_expr(&**expr)),
            grouping: match grouping {
                Some(g) => Some(g.clone()),
                None => None,
            },
            param: copy_param(param),
        },
        ExprKind::BinOp { op, lhs, rhs } => ExprKind::BinOp {
            op: *op,
            lhs: Box::new(copy_expr(&**lhs)),
            rhs: Box::new(copy_expr(&**rhs)),
        },
        ExprKind::NumberLit(text) => ExprKind::NumberLit(text.clone()),
        ExprKind::StringLit(text) => ExprKind::StringLit(text.clone()),
        ExprKind::Paren(inner) => ExprKind::Paren(Box::new(copy_expr(&**inner))),
    }
}

fn copy_expr(e: &Expr) -> (r: Expr)
    ensures
        r.value() == e.value(),
    decreases e,
{
    let r = Expr { kind: copy_kind(&e.kind), span: e.span };
    assert(at_start(r.kind).value().kind == at_start(e.kind).value().kind);
    r
}

impl Clone for ExprKind {
    fn clone(&self) -> (r: Self)
        ensures
            at_start(r).value() == at_start(*self).value(),
    {
        copy_kind(self)
    }
}

impl Clone for Expr {
    fn clone(&self) -> (r: Self)
        ensures
            r.value() == self.value(),
    {
        copy_expr(self)
    }
}

} // verus!
