use crate::error::BasicError;
use crate::lexeme::char_at;
use vstd::prelude::*;

verus! {

/// The precedence levels that hold binary operators, lowest first.
#[derive(PartialEq, Eq, Structural, Debug, Clone, Copy)]
pub enum Level {
    LogicalOr,
    LogicalAnd,
    Relational,
    Summation,
    Multiplication,
}

#[derive(PartialEq, Eq, Structural, Debug, Clone, Copy)]
pub enum BinaryOperator {
    Or,
    And,
    Equal,
    NotEqual,
    Less,
    LessOrEqual,
    Greater,
    GreaterOrEqual,
    Add,
    Sub,
    Mul,
    Div,
}

#[derive(PartialEq, Eq, Structural, Debug, Clone, Copy)]
pub enum UnaryOperator {
    Not,
    Minus,
}

/// The value that stands for a true condition.
pub const TRUE_VALUE: i64 = 1;

/// The value that stands for a false condition.
pub const FALSE_VALUE: i64 = 0;

pub open spec fn truth(b: bool) -> i64 {
    if b {
        TRUE_VALUE
    } else {
        FALSE_VALUE
    }
}

/// The level at which an operator may stand.
pub open spec fn level_of(op: BinaryOperator) -> Level {
    match op {
        BinaryOperator::Or => Level::LogicalOr,
        BinaryOperator::And => Level::LogicalAnd,
        BinaryOperator::Equal | BinaryOperator::NotEqual | BinaryOperator::Less
        | BinaryOperator::LessOrEqual | BinaryOperator::Greater
        | BinaryOperator::GreaterOrEqual => Level::Relational,
        BinaryOperator::Add | BinaryOperator::Sub => Level::Summation,
        BinaryOperator::Mul | BinaryOperator::Div => Level::Multiplication,
    }
}

/// The binary operator that the text `s` spells, if any.
pub open spec fn binary_operator_text(s: Seq<char>) -> Option<BinaryOperator> {
    if s == seq!['O', 'R'] {
        Some(BinaryOperator::Or)
    } else if s == seq!['A', 'N', 'D'] {
        Some(BinaryOperator::And)
    } else if s == seq!['='] {
        Some(BinaryOperator::Equal)
    } else if s == seq!['<', '>'] {
        Some(BinaryOperator::NotEqual)
    } else if s == seq!['<'] {
        Some(BinaryOperator::Less)
    } else if s == seq!['<', '='] {
        Some(BinaryOperator::LessOrEqual)
    } else if s == seq!['>'] {
        Some(BinaryOperator::Greater)
    } else if s == seq!['>', '='] {
        Some(BinaryOperator::GreaterOrEqual)
    } else if s == seq!['+'] {
        Some(BinaryOperator::Add)
    } else if s == seq!['-'] {
        Some(BinaryOperator::Sub)
    } else if s == seq!['*'] {
        Some(BinaryOperator::Mul)
    } else if s == seq!['/'] {
        Some(BinaryOperator::Div)
    } else {
        None
    }
}

/// The operator that the lexeme `s` names at `level`.
pub open spec fn binary_operator_of(level: Level, s: Seq<char>) -> Result<BinaryOperator, BasicError> {
    match binary_operator_text(s) {
        Some(op) => if level_of(op) == level {
            Ok(op)
        } else {
            Err(BasicError::UnknownOperator)
        },
        None => Err(BasicError::UnknownOperator),
    }
}

/// The unary operator that the lexeme `s` names.
pub open spec fn unary_operator_of(s: Seq<char>) -> Result<UnaryOperator, BasicError> {
    if s == seq!['N', 'O', 'T'] {
        Ok(UnaryOperator::Not)
    } else if s == seq!['-'] {
        Ok(UnaryOperator::Minus)
    } else {
        Err(BasicError::UnknownOperator)
    }
}

pub open spec fn checked(r: Option<i64>) -> Result<i64, BasicError> {
    match r {
        Some(v) => Ok(v),
        None => Err(BasicError::OperatorApplicationFailure),
    }
}

/// The result of `a op b`; arithmetic that leaves the range of `i64`, or divides by zero, fails.
pub open spec fn binary_result(a: i64, op: BinaryOperator, b: i64) -> Result<i64, BasicError> {
    match op {
        BinaryOperator::Or => Ok(truth(a != 0 || b != 0)),
        BinaryOperator::And => Ok(truth(a != 0 && b != 0)),
        BinaryOperator::Equal => Ok(truth(a == b)),
        BinaryOperator::NotEqual => Ok(truth(a != b)),
        BinaryOperator::Less => Ok(truth(a < b)),
        BinaryOperator::LessOrEqual => Ok(truth(a <= b)),
        BinaryOperator::Greater => Ok(truth(a > b)),
        BinaryOperator::GreaterOrEqual => Ok(truth(a >= b)),
        BinaryOperator::Add => checked(a.checked_add(b)),
        BinaryOperator::Sub => checked(a.checked_sub(b)),
        BinaryOperator::Mul => checked(a.checked_mul(b)),
        BinaryOperator::Div => checked(a.checked_div(b)),
    }
}

/// The result of `op a`.
pub open spec fn unary_result(op: UnaryOperator, a: i64) -> Result<i64, BasicError> {
    match op {
        UnaryOperator::Not => Ok(truth(a == 0)),
        UnaryOperator::Minus => checked(0i64.checked_sub(a)),
    }
}

/// The characters of an ASCII string.
fn ascii_chars(s: &str) -> (r: Vec<char>)
    requires
        s.is_ascii(),
    ensures
        r@ == s@,
{
    proof {
        vstd::string::is_ascii_spec_bytes(s);
    }
    let n = s.as_bytes().len();
    let mut r: Vec<char> = Vec::new();
    let mut i: usize = 0;
    while i < n
        invariant
            n == s@.len(),
            s.is_ascii(),
            i <= n,
            r@ == s@.take(i as int),
        decreases n - i,
    {
        r.push(char_at(s, i));
        i = i + 1;
        assert(r@ =~= s@.take(i as int));
    }
    assert(s@.take(n as int) =~= s@);
    r
}

impl BinaryOperator {
    /// Resolves the lexeme of an operator standing at `level`.
    pub fn from_lexeme(level: Level, lexeme: &str) -> (r: Result<BinaryOperator, BasicError>)
        ensures
            r == binary_operator_of(level, lexeme@),
    {
        if !lexeme.is_ascii() {
            return Err(BasicError::UnknownOperator);
        }
        let t = ascii_chars(lexeme);
        let n = t.len();
        let op = if n == 1 && t[0] == '=' {
            assert(t@ =~= seq!['=']);
            BinaryOperator::Equal
        } else if n == 1 && t[0] == '<' {
            assert(t@ =~= seq!['<']);
            BinaryOperator::Less
        } else if n == 1 && t[0] == '>' {
            assert(t@ =~= seq!['>']);
            BinaryOperator::Greater
        } else if n == 1 && t[0] == '+' {
            assert(t@ =~= seq!['+']);
            BinaryOperator::Add
        } else if n == 1 && t[0] == '-' {
            assert(t@ =~= seq!['-']);
            BinaryOperator::Sub
        } else if n == 1 && t[0] == '*' {
            assert(t@ =~= seq!['*']);
            BinaryOperator::Mul
        } else if n == 1 && t[0] == '/' {
            assert(t@ =~= seq!['/']);
            BinaryOperator::Div
        } else if n == 2 && t[0] == 'O' && t[1] == 'R' {
            assert(t@ =~= seq!['O', 'R']);
            BinaryOperator::Or
        } else if n == 2 && t[0] == '<' && t[1] == '>' {
            assert(t@ =~= seq!['<', '>']);
            BinaryOperator::NotEqual
        } else if n == 2 && t[0] == '<' && t[1] == '=' {
            assert(t@ =~= seq!['<', '=']);
            BinaryOperator::LessOrEqual
        } else if n == 2 && t[0] == '>' && t[1] == '=' {
            assert(t@ =~= seq!['>', '=']);
            BinaryOperator::GreaterOrEqual
        } else if n == 3 && t[0] == 'A' && t[1] == 'N' && t[2] == 'D' {
            assert(t@ =~= seq!['A', 'N', 'D']);
            BinaryOperator::And
        } else {
            return Err(BasicError::UnknownOperator);
        };
        if op.level() == level {
            Ok(op)
        } else {
            Err(BasicError::UnknownOperator)
        }
    }

    /// The level at which this operator may stand.
    pub fn level(&self) -> (r: Level)
        ensures
            r == level_of(*self),
    {
        match self {
            BinaryOperator::Or => Level::LogicalOr,
            BinaryOperator::And => Level::LogicalAnd,
            BinaryOperator::Equal | BinaryOperator::NotEqual | BinaryOperator::Less
            | BinaryOperator::LessOrEqual | BinaryOperator::Greater
            | BinaryOperator::GreaterOrEqual => Level::Relational,
            BinaryOperator::Add | BinaryOperator::Sub => Level::Summation,
            BinaryOperator::Mul | BinaryOperator::Div => Level::Multiplication,
        }
    }

    /// Applies the operator to two operands.
    pub fn apply_binary_operation(a: i64, op: &BinaryOperator, b: i64) -> (r: Result<i64, BasicError>)
        ensures
            r == binary_result(a, *op, b),
    {
        match op {
            BinaryOperator::Or => Ok(if a != 0 || b != 0 { TRUE_VALUE } else { FALSE_VALUE }),
            BinaryOperator::And => Ok(if a != 0 && b != 0 { TRUE_VALUE } else { FALSE_VALUE }),
            BinaryOperator::Equal => Ok(if a == b { TRUE_VALUE } else { FALSE_VALUE }),
            BinaryOperator::NotEqual => Ok(if a != b { TRUE_VALUE } else { FALSE_VALUE }),
            BinaryOperator::Less => Ok(if a < b { TRUE_VALUE } else { FALSE_VALUE }),
            BinaryOperator::LessOrEqual => Ok(if a <= b { TRUE_VALUE } else { FALSE_VALUE }),
            BinaryOperator::Greater => Ok(if a > b { TRUE_VALUE } else { FALSE_VALUE }),
            BinaryOperator::GreaterOrEqual => Ok(if a >= b { TRUE_VALUE } else { FALSE_VALUE }),
            BinaryOperator::Add => failed_if_none(a.checked_add(b)),
            BinaryOperator::Sub => failed_if_none(a.checked_sub(b)),
            BinaryOperator::Mul => failed_if_none(a.checked_mul(b)),
            BinaryOperator::Div => failed_if_none(a.checked_div(b)),
        }
    }
}

impl UnaryOperator {
    /// Resolves the lexeme of a unary operator.
    pub fn from_lexeme(lexeme: &str) -> (r: Result<UnaryOperator, BasicError>)
        ensures
            r == unary_operator_of(lexeme@),
    {
        if !lexeme.is_ascii() {
            return Err(BasicError::UnknownOperator);
        }
        let t = ascii_chars(lexeme);
        if t.len() == 3 && t[0] == 'N' && t[1] == 'O' && t[2] == 'T' {
            assert(t@ =~= seq!['N', 'O', 'T']);
            Ok(UnaryOperator::Not)
        } else if t.len() == 1 && t[0] == '-' {
            assert(t@ =~= seq!['-']);
            Ok(UnaryOperator::Minus)
        } else {
            Err(BasicError::UnknownOperator)
        }
    }

    /// Applies the operator to its operand.
    pub fn apply_unary_operation(op: &UnaryOperator, a: i64) -> (r: Result<i64, BasicError>)
        ensures
            r == unary_result(*op, a),
    {
        match op {
            UnaryOperator::Not => Ok(if a == 0 { TRUE_VALUE } else { FALSE_VALUE }),
            UnaryOperator::Minus => failed_if_none(0i64.checked_sub(a)),
        }
    }
}

fn failed_if_none(r: Option<i64>) -> (res: Result<i64, BasicError>)
    ensures
        res == checked(r),
{
    match r {
        Some(v) => Ok(v),
        None => Err(BasicError::OperatorApplicationFailure),
    }
}

} // verus!
