//! The syntax trees that the validator reads.
use vstd::prelude::*;

verus! {

/// A region of source text, as byte offsets.
#[derive(Clone, Copy, Debug, PartialEq, Eq, Structural)]
pub struct Span {
    pub begin: u32,
    pub end: u32,
}

/// A syntax node together with where it came from.
pub struct Spanned<T> {
    pub node: T,
    pub span: Span,
}

pub type AstString = Spanned<String>;

pub type AstExpr = Spanned<Expr>;

pub type AstArgument = Spanned<Argument>;

pub type AstParameter = Spanned<Parameter>;

pub type AstStmt = Spanned<Stmt>;

/// Expressions, reduced to the forms the validator distinguishes.
pub enum Expr {
    Identifier(AstString),
    Literal(i64),
    Call(Box<AstExpr>, Vec<AstArgument>),
}

/// One argument at a call site.
pub enum Argument {
    Positional(AstExpr),
    Named(AstString, AstExpr),
    ArgsArray(AstExpr),
    KWArgsDict(AstExpr),
}

/// One parameter of a function definition.
pub enum Parameter {
    Normal(AstString),
    WithDefaultValue(AstString, Box<AstExpr>),
    NoArgs,
    Args(AstString),
    KWArgs(AstString),
}

/// Statements.
pub enum Stmt {
    Break,
    Continue,
    Pass,
    Return(Option<AstExpr>),
    Expression(AstExpr),
    Statements(Vec<AstStmt>),
    If(AstExpr, Box<AstStmt>),
    IfElse(AstExpr, Box<AstStmt>, Box<AstStmt>),
    For(AstExpr, AstExpr, Box<AstStmt>),
    Def(AstString, Vec<AstParameter>, Option<Box<AstExpr>>, Box<AstStmt>),
}

impl<T> Spanned<T> {
    pub fn new(node: T, span: Span) -> (r: Spanned<T>)
        ensures
            r.node == node,
            r.span == span,
    {
        Spanned { node, span }
    }
}

} // verus!
