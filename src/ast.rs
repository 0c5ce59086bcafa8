use vstd::prelude::*;
use crate::graph::{Builtin, Loc};

verus! {

#[derive(Debug, Clone)]
pub struct Identifier {
    pub name: String,
    pub loc: Loc,
}

#[derive(Debug, Clone)]
pub struct StringLiteral {
    pub loc: Loc,
    pub string: String,
}

/// Expressions of a function body, as the parser hands them over.
#[derive(Debug)]
pub enum Expression {
    Variable(Identifier),
    NumberLiteral(Loc, i128),
    AddressLiteral(Loc, String),
    StringLiteral(Vec<StringLiteral>),
    BoolLiteral(Loc, bool),
    Add(Loc, Box<Expression>, Box<Expression>),
    AssignAdd(Loc, Box<Expression>, Box<Expression>),
    Subtract(Loc, Box<Expression>, Box<Expression>),
    AssignSubtract(Loc, Box<Expression>, Box<Expression>),
    Multiply(Loc, Box<Expression>, Box<Expression>),
    AssignMultiply(Loc, Box<Expression>, Box<Expression>),
    Divide(Loc, Box<Expression>, Box<Expression>),
    AssignDivide(Loc, Box<Expression>, Box<Expression>),
    Modulo(Loc, Box<Expression>, Box<Expression>),
    AssignModulo(Loc, Box<Expression>, Box<Expression>),
    Assign(Loc, Box<Expression>, Box<Expression>),
    ArraySubscript(Loc, Box<Expression>, Option<Box<Expression>>),
    /// A type name; `None` for one that is not elementary.
    Type(Loc, Option<Builtin>),
    MemberAccess(Loc, Box<Expression>, Identifier),
    Equal(Loc, Box<Expression>, Box<Expression>),
    Less(Loc, Box<Expression>, Box<Expression>),
    More(Loc, Box<Expression>, Box<Expression>),
    LessEqual(Loc, Box<Expression>, Box<Expression>),
    MoreEqual(Loc, Box<Expression>, Box<Expression>),
    FunctionCall(Loc, Box<Expression>, Vec<Expression>),
    /// Any other kind of expression, at its span.
    Other(Loc),
}

/// Statements of a function body. Only blocks, expression statements and
/// returns carry what the builder reads.
#[derive(Debug)]
pub enum Statement {
    Block { loc: Loc, unchecked: bool, statements: Vec<Statement> },
    VariableDefinition(Loc),
    Assembly(Loc),
    Args(Loc),
    If(Loc),
    While(Loc),
    Expression(Loc, Expression),
    For(Loc),
    DoWhile(Loc),
    Continue(Loc),
    Break(Loc),
    Return(Loc, Option<Expression>),
    Revert(Loc),
    RevertNamedArgs(Loc),
    Emit(Loc),
    Try(Loc),
    Error(Loc),
}

} // verus!
