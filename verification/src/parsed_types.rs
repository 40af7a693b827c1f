//! The AST model: programs, functions, blocks, statements and expressions,
//! each tagged with a source span.  Nodes are built bottom-up during
//! parsing, exclusively owned by their parent, and immutable thereafter.

use vstd::prelude::*;
use crate::compiler::NumericConstant;
use crate::lexer::Span;

verus! {

/// An expression at the mathematical level.
pub ghost enum ExpressionModel {
    Identifier(Seq<char>, Span),
    NumericLiteral(NumericConstant, Span),
    BooleanLiteral(bool, Span),
    StringLiteral(Seq<char>, Span),
}

impl ExpressionModel {
    /// The span an expression occupies.
    pub open spec fn span(&self) -> Span {
        match self {
            ExpressionModel::Identifier(_, span) => *span,
            ExpressionModel::NumericLiteral(_, span) => *span,
            ExpressionModel::BooleanLiteral(_, span) => *span,
            ExpressionModel::StringLiteral(_, span) => *span,
        }
    }
}

/// A statement at the mathematical level.
pub ghost enum StatementModel {
    Return(ExpressionModel, Span),
}

/// A block at the mathematical level.
pub ghost struct BlockModel {
    pub statements: Seq<StatementModel>,
    pub span: Span,
}

/// A function at the mathematical level.
pub ghost struct FunctionModel {
    pub name: Seq<char>,
    pub name_span: Span,
    pub block: BlockModel,
    pub span: Span,
}

/// A program at the mathematical level.
pub ghost struct ProgramModel {
    pub functions: Seq<FunctionModel>,
    pub span: Span,
}

/// The models of a statement sequence.
pub open spec fn statement_views(sts: Seq<ParsedStatement>) -> Seq<StatementModel> {
    sts.map_values(|st: ParsedStatement| st@)
}

/// The models of a function sequence.
pub open spec fn function_views(fs: Seq<ParsedFunction>) -> Seq<FunctionModel> {
    fs.map_values(|f: ParsedFunction| f@)
}

/// Mapping statement models over a pushed statement appends its model.
pub proof fn lemma_statement_views_push(sts: Seq<ParsedStatement>, st: ParsedStatement)
    ensures
        statement_views(sts.push(st)) == statement_views(sts).push(st@),
{
    assert(statement_views(sts.push(st)) =~= statement_views(sts).push(st@));
}

/// Mapping function models over a pushed function appends its model.
pub proof fn lemma_function_views_push(fs: Seq<ParsedFunction>, f: ParsedFunction)
    ensures
        function_views(fs.push(f)) == function_views(fs).push(f@),
{
    assert(function_views(fs.push(f)) =~= function_views(fs).push(f@));
}

/// A `{ ... }` block: an insertion-ordered sequence of statements plus a
/// span.
#[derive(Debug)]
pub struct ParsedBlock {
    pub statements: Vec<ParsedStatement>,
    pub span: Span,
}

impl View for ParsedBlock {
    type V = BlockModel;

    open spec fn view(&self) -> BlockModel {
        BlockModel { statements: statement_views(self.statements@), span: self.span }
    }
}

impl ParsedBlock {
    pub fn new() -> (r: Self)
        ensures
            r.statements@ == Seq::<ParsedStatement>::empty(),
            r.span == (Span { file_id: 0, start: 0, end: 0 }),
    {
        Self { statements: Vec::new(), span: Span::new(0, 0, 0) }
    }

    pub fn new_with_span(span: Span) -> (r: Self)
        ensures
            r.statements@ == Seq::<ParsedStatement>::empty(),
            r.span == span,
    {
        Self { statements: Vec::new(), span }
    }
}

/// A function: a name (with its own span), a body block, and an overall
/// span.
#[derive(Debug)]
pub struct ParsedFunction {
    pub name: String,
    pub name_span: Span,
    pub block: ParsedBlock,
    pub span: Span,
}

impl View for ParsedFunction {
    type V = FunctionModel;

    open spec fn view(&self) -> FunctionModel {
        FunctionModel {
            name: self.name@,
            name_span: self.name_span,
            block: self.block@,
            span: self.span,
        }
    }
}

impl ParsedFunction {
    pub fn new() -> (r: Self)
        ensures
            r.name@ == Seq::<char>::empty(),
            r.name_span == (Span { file_id: 0, start: 0, end: 0 }),
            r.block.statements@ == Seq::<ParsedStatement>::empty(),
            r.block.span == (Span { file_id: 0, start: 0, end: 0 }),
            r.span == (Span { file_id: 0, start: 0, end: 0 }),
    {
        Self {
            name: String::new(),
            name_span: Span::new(0, 0, 0),
            block: ParsedBlock::new(),
            span: Span::new(0, 0, 0),
        }
    }
}

/// One file's syntax tree: an insertion-ordered sequence of functions.
pub struct ParsedProgram {
    pub functions: Vec<ParsedFunction>,
    pub span: Span,
}

impl View for ParsedProgram {
    type V = ProgramModel;

    open spec fn view(&self) -> ProgramModel {
        ProgramModel { functions: function_views(self.functions@), span: self.span }
    }
}

impl ParsedProgram {
    pub fn new() -> (r: Self)
        ensures
            r.functions@ == Seq::<ParsedFunction>::empty(),
            r.span == (Span { file_id: 0, start: 0, end: 0 }),
    {
        Self { functions: Vec::new(), span: Span::new(0, 0, 0) }
    }
}

/// A statement.  Only `return` is recognized by the parser today.
#[derive(Debug)]
pub enum ParsedStatement {
    Return(ParsedExpression, Span),
}

impl View for ParsedStatement {
    type V = StatementModel;

    open spec fn view(&self) -> StatementModel {
        match self {
            ParsedStatement::Return(e, span) => StatementModel::Return(e@, *span),
        }
    }
}

impl ParsedStatement {
    /// The span a statement occupies.
    pub open spec fn spec_span(&self) -> Span {
        match self {
            ParsedStatement::Return(_, span) => *span,
        }
    }

    pub fn span(&self) -> (r: Span)
        ensures
            r == self.spec_span(),
    {
        match self {
            ParsedStatement::Return(_, span) => *span,
        }
    }
}

/// An expression.  Only numeric literals are reachable from the parser
/// today; the other variants are kept for forward compatibility.
#[derive(Debug)]
pub enum ParsedExpression {
    Identifier(String, Span),
    NumericLiteral(NumericConstant, Span),
    BooleanLiteral(bool, Span),
    StringLiteral(String, Span),
}

impl View for ParsedExpression {
    type V = ExpressionModel;

    open spec fn view(&self) -> ExpressionModel {
        match self {
            ParsedExpression::Identifier(s, span) => ExpressionModel::Identifier(s@, *span),
            ParsedExpression::NumericLiteral(n, span) => ExpressionModel::NumericLiteral(
                *n,
                *span,
            ),
            ParsedExpression::BooleanLiteral(b, span) => ExpressionModel::BooleanLiteral(
                *b,
                *span,
            ),
            ParsedExpression::StringLiteral(s, span) => ExpressionModel::StringLiteral(s@, *span),
        }
    }
}

impl ParsedExpression {
    /// The span an expression occupies.
    pub open spec fn spec_span(&self) -> Span {
        match self {
            ParsedExpression::Identifier(_, span) => *span,
            ParsedExpression::NumericLiteral(_, span) => *span,
            ParsedExpression::BooleanLiteral(_, span) => *span,
            ParsedExpression::StringLiteral(_, span) => *span,
        }
    }

    pub fn span(&self) -> (r: Span)
        ensures
            r == self.spec_span(),
    {
        match self {
            ParsedExpression::Identifier(_, span) => *span,
            ParsedExpression::NumericLiteral(_, span) => *span,
            ParsedExpression::BooleanLiteral(_, span) => *span,
            ParsedExpression::StringLiteral(_, span) => *span,
        }
    }
}

} // verus!
