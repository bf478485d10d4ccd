use crate::ast::Expression;
use crate::environment::{value_of, Environment};
use crate::error::BasicError;
use crate::lexeme::{number_of, parse_number};
use crate::operators::{
    binary_operator_of, binary_result, unary_operator_of, unary_result, BinaryOperator,
    UnaryOperator,
};
use vstd::prelude::*;

verus! {

/// The value of `e` with the variables of `env`; the first failure met, from the left, if any.
pub open spec fn eval(env: Map<Seq<char>, i64>, e: Expression) -> Result<i64, BasicError>
    decreases e,
{
    match e {
        Expression::Number(s) => number_of(s@),
        Expression::Variable(name) => Ok(value_of(env, name@)),
        Expression::Negate(f) => match eval(env, *f) {
            Ok(v) => unary_result(UnaryOperator::Minus, v),
            Err(err) => Err(err),
        },
        Expression::Group(x) => eval(env, *x),
        Expression::Not(lexeme, x) => match eval(env, *x) {
            Ok(v) => match unary_operator_of(lexeme@) {
                Ok(UnaryOperator::Not) => unary_result(UnaryOperator::Not, v),
                _ => Err(BasicError::UnknownOperator),
            },
            Err(err) => Err(err),
        },
        Expression::Binary(level, l, lexeme, r) => match eval(env, *l) {
            Ok(a) => match binary_operator_of(level, lexeme@) {
                Ok(op) => match eval(env, *r) {
                    Ok(b) => binary_result(a, op, b),
                    Err(err) => Err(err),
                },
                Err(err) => Err(err),
            },
            Err(err) => Err(err),
        },
    }
}

impl Environment {
    /// Evaluates an expression over the variables of this environment.
    pub fn evaluate(&self, e: &Expression) -> (r: Result<i64, BasicError>)
        ensures
            r == eval(self@, *e),
        decreases e,
    {
        match e {
            Expression::Number(s) => parse_number(s.as_str()),
            Expression::Variable(name) => Ok(self.value(name)),
            Expression::Negate(f) => {
                let v = self.evaluate(f)?;
                UnaryOperator::apply_unary_operation(&UnaryOperator::Minus, v)
            },
            Expression::Group(x) => self.evaluate(x),
            Expression::Not(lexeme, x) => {
                let v = self.evaluate(x)?;
                match UnaryOperator::from_lexeme(lexeme.as_str()) {
                    Ok(UnaryOperator::Not) => UnaryOperator::apply_unary_operation(
                        &UnaryOperator::Not,
                        v,
                    ),
                    _ => Err(BasicError::UnknownOperator),
                }
            },
            Expression::Binary(level, l, lexeme, r) => {
                let a = self.evaluate(l)?;
                let op = BinaryOperator::from_lexeme(*level, lexeme.as_str())?;
                let b = self.evaluate(r)?;
                BinaryOperator::apply_binary_operation(a, &op, b)
            },
        }
    }
}

} // verus!
