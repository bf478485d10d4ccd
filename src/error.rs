use vstd::prelude::*;

verus! {

/// Why a program could not be prepared or run.
#[derive(PartialEq, Eq, Structural, Debug, Clone, Copy)]
pub enum BasicError {
    /// A numeric literal is not a valid number.
    ParseFloat,
    /// A line number is not a valid unsigned integer.
    ParseLineNumber,
    /// A line number exceeds the largest one allowed.
    LineNumberTooLarge,
    /// Two lines of the program share this number.
    LineNumberDefinedTwice(u16),
    /// Control reached this line number, which the program does not define.
    LineNotAccessible(u16),
    /// An operator lexeme is not one of those known at its precedence level.
    UnknownOperator,
    /// An operator could not be applied to its operands (division by zero, overflow).
    OperatorApplicationFailure,
    /// The run executed as many lines as it was allowed and had not ended.
    ExecutionBudgetExceeded,
}

} // verus!
