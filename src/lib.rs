//! A tree-walking interpreter for a line-numbered BASIC dialect.
//!
//! A program is a list of numbered lines, each holding statements (`REM`, `GOTO`, `IF`,
//! assignment, `PRINT`, `END`) over expressions. The program is first indexed by line number,
//! each line chained to the numerically next one, and then run line by line from the lowest.
//!
//! Numbers are exact 64-bit integers: a literal is a run of decimal digits, division truncates
//! toward zero, and arithmetic that leaves the range of `i64` or divides by zero fails. A
//! condition is true when its value is not zero; comparisons and logical operators give 1 or 0.
//! A variable is identified by its full name, and an assignment always overwrites it.
//! A run executes at most a given number of lines, so that a program that loops forever ends
//! with an error.
pub mod assoc;
pub mod ast;
pub mod environment;
pub mod error;
pub mod expression;
pub mod interpreter;
pub mod lexeme;
pub mod operators;
pub mod program;
