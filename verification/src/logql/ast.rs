//! LogQL syntax trees.
//!
//! Every node carries a [`Span`] that maps back to the query string. Each node
//! type has a mathematical value (the types whose names end in `V`), in which
//! strings are character sequences and vectors are sequences.

use crate::logql::tokenizer::Span;
use vstd::prelude::*;

verus! {

/// The result of parsing a LogQL query.
#[derive(Debug)]
pub struct ParseResult {
    pub expr: Option<Expr>,
    pub errors: Vec<ParseError>,
}

/// A parse error and where it stands.
#[derive(Debug, Clone)]
pub struct ParseError {
    pub message: String,
    pub span: Span,
}

/// An expression.
#[derive(Debug)]
pub struct Expr {
    pub kind: ExprKind,
    pub span: Span,
}

/// The kind of an expression node.
#[derive(Debug)]
pub enum ExprKind {
    /// Stream selector with pipeline stages
    LogQuery { selector: StreamSelector, pipeline: Vec<PipelineStage> },
    /// `rate({...}[5m])`, `quantile_over_time(0.99, {...}[5m])`
    RangeAggregation {
        func: String,
        log_query: Box<Expr>,
        duration: String,
        param: Option<Box<Expr>>,
    },
    /// `sum by (label) (expr)`, `topk(10, expr)`
    Aggregation {
        op: String,
        expr: Box<Expr>,
        grouping: Option<Grouping>,
        param: Option<Box<Expr>>,
    },
    /// Binary operation
    BinOp { op: BinOpKind, lhs: Box<Expr>, rhs: Box<Expr> },
    /// Number literal, as it is written in the query
    NumberLit(String),
    /// String literal, without its delimiters
    StringLit(String),
    /// Parenthesized expression
    Paren(Box<Expr>),
}

/// `{label="value", ...}`
#[derive(Debug)]
pub struct StreamSelector {
    pub matchers: Vec<LabelMatcher>,
    pub span: Span,
}

/// A label matcher of a stream selector.
#[derive(Debug)]
pub struct LabelMatcher {
    pub name: String,
    pub op: MatchOp,
    pub value: String,
    pub span: Span,
}

/// Label matcher operators.
#[derive(Debug, Clone, Copy, PartialEq, Eq, Structural)]
pub enum MatchOp {
    /// `=`
    Eq,
    /// `!=`
    Neq,
    /// `=~`
    Re,
    /// `!~`
    Nre,
}

/// A pipeline stage of a log query.
#[derive(Debug)]
pub enum PipelineStage {
    /// Line filter: `|= "error"`, `!= "debug"`, `|~ "pattern"`, `!~ "exclude"`
    Filter { op: FilterOp, pattern: String, span: Span },
    /// `| json`, `| logfmt`, `| regexp "pattern"`
    Parser { kind: ParserKind, params: Vec<String>, span: Span },
    /// `| label_format dst="src", ...`
    LabelFormat { mappings: Vec<(String, String)>, span: Span },
    /// `| line_format "{{.msg}}"`
    LineFormat { template: String, span: Span },
    /// `| drop label1, label2` or `| keep label1`
    LabelOp { kind: LabelOpKind, labels: Vec<String>, span: Span },
    /// `| unwrap label` or `| unwrap duration_seconds(label)`
    Unwrap { label: String, conversion: Option<String>, span: Span },
    /// `| decolorize`
    Decolorize { span: Span },
    /// `| level="error"`, `| status>=400`
    LabelFilter { name: String, op: LabelFilterOp, value: String, span: Span },
}

/// Line filter operators.
#[derive(Debug, Clone, Copy, PartialEq, Eq, Structural)]
pub enum FilterOp {
    /// `|=`
    PipeExact,
    /// `|~`
    PipeMatch,
    /// `!=`
    NotEqual,
    /// `!~`
    NotMatch,
}

/// Parsers of a pipeline.
#[derive(Debug, Clone, Copy, PartialEq, Eq, Structural)]
pub enum ParserKind {
    Json,
    Logfmt,
    Pattern,
    Regexp,
    Unpack,
    Pack,
}

/// Label operations.
#[derive(Debug, Clone, Copy, PartialEq, Eq, Structural)]
pub enum LabelOpKind {
    Drop,
    Keep,
}

/// Label filter operators.
#[derive(Debug, Clone, Copy, PartialEq, Eq, Structural)]
pub enum LabelFilterOp {
    /// `=`
    Eq,
    /// `!=`
    Neq,
    /// `=~`
    Re,
    /// `!~`
    Nre,
    /// `>`
    Gt,
    /// `>=`
    GtEq,
    /// `<`
    Lt,
    /// `<=`
    LtEq,
    /// `==`
    CmpEq,
}

/// Binary operations.
#[derive(Debug, Clone, Copy, PartialEq, Eq, Structural)]
pub enum BinOpKind {
    Add,
    Sub,
    Mul,
    Div,
    Mod,
    Pow,
    CmpEq,
    Neq,
    Lt,
    Gt,
    LtEq,
    GtEq,
    And,
    Or,
    Unless,
}

/// `by (label1, label2)` or `without (label1)`.
#[derive(Debug)]
pub struct Grouping {
    pub without: bool,
    pub labels: Vec<String>,
    pub span: Span,
}

// ── Mathematical values ──────────────────────────────────────────────────────

/// Value of a [`ParseError`].
pub ghost struct ParseErrorV {
    pub message: Seq<char>,
    pub span: Span,
}

/// Value of an [`Expr`].
pub ghost struct ExprV {
    pub kind: ExprKindV,
    pub span: Span,
}

/// Value of an [`ExprKind`].
pub ghost enum ExprKindV {
    LogQuery { selector: StreamSelectorV, pipeline: Seq<PipelineStageV> },
    RangeAggregation {
        func: Seq<char>,
        log_query: Box<ExprV>,
        duration: Seq<char>,
        param: Option<Box<ExprV>>,
    },
    Aggregation {
        op: Seq<char>,
        expr: Box<ExprV>,
        grouping: Option<GroupingV>,
        param: Option<Box<ExprV>>,
    },
    BinOp { op: BinOpKind, lhs: Box<ExprV>, rhs: Box<ExprV> },
    NumberLit(Seq<char>),
    StringLit(Seq<char>),
    Paren(Box<ExprV>),
}

/// Value of a [`StreamSelector`].
pub ghost struct StreamSelectorV {
    pub matchers: Seq<LabelMatcherV>,
    pub span: Span,
}

/// Value of a [`LabelMatcher`].
pub ghost struct LabelMatcherV {
    pub name: Seq<char>,
    pub op: MatchOp,
    pub value: Seq<char>,
    pub span: Span,
}

/// Value of a [`PipelineStage`].
pub ghost enum PipelineStageV {
    Filter { op: FilterOp, pattern: Seq<char>, span: Span },
    Parser { kind: ParserKind, params: Seq<Seq<char>>, span: Span },
    LabelFormat { mappings: Seq<(Seq<char>, Seq<char>)>, span: Span },
    LineFormat { template: Seq<char>, span: Span },
    LabelOp { kind: LabelOpKind, labels: Seq<Seq<char>>, span: Span },
    Unwrap { label: Seq<char>, conversion: Option<Seq<char>>, span: Span },
    Decolorize { span: Span },
    LabelFilter { name: Seq<char>, op: LabelFilterOp, value: Seq<char>, span: Span },
}

/// Value of a [`Grouping`].
pub ghost struct GroupingV {
    pub without: bool,
    pub labels: Seq<Seq<char>>,
    pub span: Span,
}

/// The character sequences of strings.
pub open spec fn strings(v: Seq<String>) -> Seq<Seq<char>> {
    v.map_values(|s: String| s@)
}

/// The character sequences of pairs of strings.
pub open spec fn string_pairs(v: Seq<(String, String)>) -> Seq<(Seq<char>, Seq<char>)> {
    v.map_values(|p: (String, String)| (p.0@, p.1@))
}

/// The values of parse errors.
pub open spec fn error_values(v: Seq<ParseError>) -> Seq<ParseErrorV> {
    v.map_values(|e: ParseError| e@)
}

impl View for ParseError {
    type V = ParseErrorV;

    open spec fn view(&self) -> ParseErrorV {
        ParseErrorV { message: self.message@, span: self.span }
    }
}

impl View for LabelMatcher {
    type V = LabelMatcherV;

    open spec fn view(&self) -> LabelMatcherV {
        LabelMatcherV {
            name: self.name@,
            op: self.op,
            value: self.value@,
            span: self.span,
        }
    }
}

impl View for StreamSelector {
    type V = StreamSelectorV;

    open spec fn view(&self) -> StreamSelectorV {
        StreamSelectorV {
            matchers: self.matchers@.map_values(|m: LabelMatcher| m@),
            span: self.span,
        }
    }
}

impl View for Grouping {
    type V = GroupingV;

    open spec fn view(&self) -> GroupingV {
        GroupingV { without: self.without, labels: strings(self.labels@), span: self.span }
    }
}

impl View for PipelineStage {
    type V = PipelineStageV;

    open spec fn view(&self) -> PipelineStageV {
        match self {
            PipelineStage::Filter { op, pattern, span } => PipelineStageV::Filter {
                op: *op,
                pattern: pattern@,
                span: *span,
            },
            PipelineStage::Parser { kind, params, span } => PipelineStageV::Parser {
                kind: *kind,
                params: strings(params@),
                span: *span,
            },
            PipelineStage::LabelFormat { mappings, span } => PipelineStageV::LabelFormat {
                mappings: string_pairs(mappings@),
                span: *span,
            },
            PipelineStage::LineFormat { template, span } => PipelineStageV::LineFormat {
                template: template@,
                span: *span,
            },
            PipelineStage::LabelOp { kind, labels, span } => PipelineStageV::LabelOp {
                kind: *kind,
                labels: strings(labels@),
                span: *span,
            },
            PipelineStage::Unwrap { label, conversion, span } => PipelineStageV::Unwrap {
                label: label@,
                conversion: match conversion {
                    Some(c) => Some(c@),
                    None => None,
                },
                span: *span,
            },
            PipelineStage::Decolorize { span } => PipelineStageV::Decolorize { span: *span },
            PipelineStage::LabelFilter { name, op, value, span } => PipelineStageV::LabelFilter {
                name: name@,
                op: *op,
                value: value@,
                span: *span,
            },
        }
    }
}

impl PipelineStageV {
    /// The span of a stage.
    pub open spec fn span(self) -> Span {
        match self {
            PipelineStageV::Filter { span, .. } => span,
            PipelineStageV::Parser { span, .. } => span,
            PipelineStageV::LabelFormat { span, .. } => span,
            PipelineStageV::LineFormat { span, .. } => span,
            PipelineStageV::LabelOp { span, .. } => span,
            PipelineStageV::Unwrap { span, .. } => span,
            PipelineStageV::Decolorize { span } => span,
            PipelineStageV::LabelFilter { span, .. } => span,
        }
    }
}

impl PipelineStage {
    /// Returns the span of this pipeline stage.
    pub fn span(&self) -> (r: Span)
        ensures
            r == self@.span(),
    {
        match self {
            PipelineStage::Filter { span, .. } => *span,
            PipelineStage::Parser { span, .. } => *span,
            PipelineStage::LabelFormat { span, .. } => *span,
            PipelineStage::LineFormat { span, .. } => *span,
            PipelineStage::LabelOp { span, .. } => *span,
            PipelineStage::Unwrap { span, .. } => *span,
            PipelineStage::Decolorize { span } => *span,
            PipelineStage::LabelFilter { span, .. } => *span,
        }
    }
}

impl Expr {
    /// The mathematical value of an expression.
    pub open spec fn value(self) -> ExprV
        decreases self,
    {
        let kind = match self.kind {
            ExprKind::LogQuery { selector, pipeline } => ExprKindV::LogQuery {
                selector: selector@,
                pipeline: pipeline@.map_values(|p: PipelineStage| p@),
            },
            ExprKind::RangeAggregation { func, log_query, duration, param } => {
                ExprKindV::RangeAggregation {
                    func: func@,
                    log_query: Box::new((*log_query).value()),
                    duration: duration@,
                    param: match param {
                        Some(p) => Some(Box::new((*p).value())),
                        None => None,
                    },
                }
            },
            ExprKind::Aggregation { op, expr, grouping, param } => ExprKindV::Aggregation {
                op: op@,
                expr: Box::new((*expr).value()),
                grouping: match grouping {
                    Some(g) => Some(g@),
                    None => None,
                },
                param: match param {
                    Some(p) => Some(Box::new((*p).value())),
                    None => None,
                },
            },
            ExprKind::BinOp { op, lhs, rhs } => ExprKindV::BinOp {
                op,
                lhs: Box::new((*lhs).value()),
                rhs: Box::new((*rhs).value()),
            },
            ExprKind::NumberLit(text) => ExprKindV::NumberLit(text@),
            ExprKind::StringLit(text) => ExprKindV::StringLit(text@),
            ExprKind::Paren(inner) => ExprKindV::Paren(Box::new((*inner).value())),
        };
        ExprV { kind, span: self.span }
    }
}

} // verus!
