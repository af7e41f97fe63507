use std::ops::Range;
use vstd::prelude::*;

verus! {

/// The three value types of the language.
#[derive(Debug, Clone, Copy, PartialEq, Eq, Structural)]
pub enum Type {
    Integer,
    String,
    Boolean,
}

/// An expression together with the byte range of the source it was parsed from.
#[derive(Debug, PartialEq)]
pub struct Expr {
    pub kind: ExprKind,
    pub span: Range<usize>,
}

#[derive(Debug, PartialEq)]
pub enum ExprKind {
    Number(i32),
    /// The literal as written in the source, quotes and escapes included.
    StringLit(String),
    Identifier(String),
    True,
    False,
    Add(Box<Expr>, Box<Expr>),
    Sub(Box<Expr>, Box<Expr>),
    Mul(Box<Expr>, Box<Expr>),
    Div(Box<Expr>, Box<Expr>),
    Mod(Box<Expr>, Box<Expr>),
    Concatenate(Box<Expr>, Box<Expr>),
    Substring(Box<Expr>, Box<Expr>, Box<Expr>),
    Length(Box<Expr>),
    Position(Box<Expr>, Box<Expr>),
    Not(Box<Expr>),
    And(Box<Expr>, Box<Expr>),
    Or(Box<Expr>, Box<Expr>),
    Eq(Box<Expr>, Box<Expr>),
    Neq(Box<Expr>, Box<Expr>),
    Less(Box<Expr>, Box<Expr>),
    LessEq(Box<Expr>, Box<Expr>),
    Greater(Box<Expr>, Box<Expr>),
    GreaterEq(Box<Expr>, Box<Expr>),
    ReadInt,
    ReadStr,
    ReadBool,
}

/// A statement together with the byte range of the source it was parsed from.
#[derive(Debug, PartialEq)]
pub struct Statement {
    pub kind: StmtKind,
    pub span: Range<usize>,
}

#[derive(Debug, PartialEq)]
pub enum StmtKind {
    Assign(String, Box<Expr>),
    If {
        condition: Box<Expr>,
        then_branch: Box<Statement>,
        elif_branches: Vec<(Expr, Statement)>,
        else_branch: Option<Box<Statement>>,
    },
    For { iterator: String, from: Box<Expr>, to: Box<Expr>, body: Box<Statement> },
    Block(Vec<Statement>),
    Print(Box<Expr>),
    Break,
    Continue,
    Exit,
}

#[derive(Debug, PartialEq)]
pub struct Declaration {
    pub var_type: Type,
    pub identifier: String,
    pub span: Range<usize>,
}

#[derive(Debug, PartialEq)]
pub struct Program {
    pub declarations: Vec<Declaration>,
    pub instructions: Vec<Statement>,
}

} // verus!
