use crate::operators::Level;
use vstd::prelude::*;

verus! {

/// An expression of the program, as the parser built it.
///
/// Precedence is fixed by the shape of the tree: a chain of operators of one level is a
/// left-nested series of `Binary` nodes, evaluated from the left.
pub enum Expression {
    /// A numeric literal, by its lexeme.
    Number(String),
    /// A variable reference, by its name.
    Variable(String),
    /// The negation of a factor.
    Negate(Box<Expression>),
    /// A parenthesized expression.
    Group(Box<Expression>),
    /// A logical negation, with the lexeme of its operator.
    Not(String, Box<Expression>),
    /// Two operands joined by the lexeme of an operator of the given level.
    Binary(Level, Box<Expression>, String, Box<Expression>),
}

/// What an `IF` does when its predicate holds.
pub enum IfBody {
    /// Run another statement.
    Statement(Box<Statement>),
    /// Jump to the line whose number the lexeme spells.
    Goto(String),
}

pub enum Statement {
    /// A comment.
    Remark,
    /// A jump to the line whose number the lexeme spells.
    Goto(String),
    /// A conditional.
    If(Expression, IfBody),
    /// A variable and the expression whose value it receives.
    Assign(String, Expression),
    /// Expressions whose values are emitted in order.
    Print(Vec<Expression>),
    /// The end of the run.
    End,
}

/// A numbered line of the program.
pub struct Line {
    /// The lexeme of the line number.
    pub number: String,
    /// The statements of the line, in order.
    pub statements: Vec<Statement>,
}

} // verus!
