use basic_interpreter::ast::{Expression, IfBody, Line, Statement};
use basic_interpreter::environment::Environment;
use basic_interpreter::error::BasicError;
use basic_interpreter::interpreter::BasicGrammar;
use basic_interpreter::lexeme::{parse_decimal, parse_line_number, parse_number, Decimal};
use basic_interpreter::operators::{BinaryOperator, Level, UnaryOperator};
use basic_interpreter::program::BasicLines;

const BUDGET: u64 = 10_000;

fn num(s: &str) -> Expression {
    Expression::Number(s.to_string())
}

fn var(s: &str) -> Expression {
    Expression::Variable(s.to_string())
}

fn bin(level: Level, l: Expression, op: &str, r: Expression) -> Expression {
    Expression::Binary(level, Box::new(l), op.to_string(), Box::new(r))
}

fn group(e: Expression) -> Expression {
    Expression::Group(Box::new(e))
}

fn line(n: &str, statements: Vec<Statement>) -> Line {
    Line { number: n.to_string(), statements }
}

fn goto(n: &str) -> Statement {
    Statement::Goto(n.to_string())
}

fn print(es: Vec<Expression>) -> Statement {
    Statement::Print(es)
}

fn eval(e: &Expression) -> Result<i64, BasicError> {
    Environment::new().evaluate(e)
}

fn run(lines: &Vec<Line>) -> (Result<(), BasicError>, Vec<i64>) {
    let mut g = BasicGrammar::new();
    let r = g.process_lines(lines, BUDGET);
    (r, g.output().clone())
}

#[test]
fn product_binds_tighter_than_sum() {
    let e = bin(
        Level::Summation,
        num("2"),
        "+",
        bin(Level::Multiplication, num("3"), "*", num("4")),
    );
    assert_eq!(eval(&e), Ok(14));
}

#[test]
fn parentheses_group_first() {
    let e = bin(
        Level::Multiplication,
        group(bin(Level::Summation, num("2"), "+", num("3"))),
        "*",
        num("4"),
    );
    assert_eq!(eval(&e), Ok(20));
}

#[test]
fn subtraction_folds_from_the_left() {
    let e = bin(
        Level::Summation,
        bin(Level::Summation, num("10"), "-", num("3")),
        "-",
        num("2"),
    );
    assert_eq!(eval(&e), Ok(5));
}

#[test]
fn if_zero_never_jumps() {
    let mut g = BasicGrammar::new();
    let s = Statement::If(num("0"), IfBody::Goto("100".to_string()));
    assert_eq!(g.interpret_statement(&s), Ok(true));
    assert_eq!(g.next_line(), None);
}

#[test]
fn if_one_jumps_to_target() {
    let mut g = BasicGrammar::new();
    let s = Statement::If(num("1"), IfBody::Goto("100".to_string()));
    assert_eq!(g.interpret_statement(&s), Ok(false));
    assert_eq!(g.next_line(), Some(100));
}

#[test]
fn if_with_nested_goto_statement_jumps() {
    let mut g = BasicGrammar::new();
    let s = Statement::If(num("1"), IfBody::Statement(Box::new(goto("100"))));
    assert_eq!(g.interpret_statement(&s), Ok(false));
    assert_eq!(g.next_line(), Some(100));
}

#[test]
fn if_then_print_continues_the_line() {
    let lines = vec![line(
        "10",
        vec![
            Statement::If(num("1"), IfBody::Statement(Box::new(print(vec![num("5")])))),
            print(vec![num("6")]),
        ],
    )];
    assert_eq!(run(&lines), (Ok(()), vec![5, 6]));
}

#[test]
fn if_then_goto_stops_the_line() {
    let lines = vec![
        line(
            "10",
            vec![
                Statement::If(num("7"), IfBody::Goto("30".to_string())),
                print(vec![num("1")]),
            ],
        ),
        line("20", vec![print(vec![num("2")])]),
        line("30", vec![print(vec![num("3")])]),
    ];
    assert_eq!(run(&lines), (Ok(()), vec![3]));
}

#[test]
fn goto_undefined_line_fails_at_the_jump() {
    let lines = vec![
        line("10", vec![print(vec![num("1")])]),
        line("20", vec![goto("999")]),
        line("30", vec![print(vec![num("3")])]),
    ];
    assert_eq!(run(&lines), (Err(BasicError::LineNotAccessible(999)), vec![1]));
}

#[test]
fn goto_undefined_line_is_not_checked_when_indexing() {
    let lines = vec![line("10", vec![goto("999")])];
    let index = BasicLines::pre_process_lines(&lines);
    assert!(index.is_ok());
}

#[test]
fn print_then_end_terminates() {
    let lines = vec![
        line(
            "10",
            vec![print(vec![bin(Level::Summation, num("1"), "+", num("1"))])],
        ),
        line("20", vec![Statement::End]),
    ];
    let mut g = BasicGrammar::new();
    assert_eq!(g.process_lines(&lines, BUDGET), Ok(()));
    assert_eq!(g.output(), &vec![2]);
    assert_eq!(g.next_line(), None);
}

#[test]
fn end_stops_before_later_lines() {
    let lines = vec![
        line("10", vec![Statement::End, print(vec![num("1")])]),
        line("20", vec![print(vec![num("2")])]),
    ];
    assert_eq!(run(&lines), (Ok(()), vec![]));
}

#[test]
fn rerun_from_fresh_state_is_identical() {
    let lines = vec![
        line("10", vec![Statement::Assign("A".to_string(), bin(Level::Summation, var("A"), "+", num("1")))]),
        line("20", vec![print(vec![var("A"), num("7")])]),
    ];
    let first = run(&lines);
    let second = run(&lines);
    assert_eq!(first, (Ok(()), vec![1, 7]));
    assert_eq!(first, second);
}

#[test]
fn duplicate_line_numbers_are_refused() {
    let lines = vec![
        line("10", vec![print(vec![num("1")])]),
        line("20", vec![Statement::End]),
        line("10", vec![print(vec![num("2")])]),
    ];
    assert_eq!(run(&lines), (Err(BasicError::LineNumberDefinedTwice(10)), vec![]));
    let reversed = vec![
        line("10", vec![print(vec![num("2")])]),
        line("10", vec![print(vec![num("1")])]),
    ];
    assert_eq!(run(&reversed), (Err(BasicError::LineNumberDefinedTwice(10)), vec![]));
}

#[test]
fn line_number_bound() {
    assert_eq!(parse_line_number("64000"), Err(BasicError::LineNumberTooLarge));
    assert_eq!(parse_line_number("70000"), Err(BasicError::LineNumberTooLarge));
    assert_eq!(parse_line_number("99999999999999999999999"), Err(BasicError::LineNumberTooLarge));
    assert_eq!(parse_line_number("63999"), Ok(63999));
    assert_eq!(parse_line_number("0"), Ok(0));
    let lines = vec![line("64000", vec![Statement::End])];
    assert_eq!(run(&lines), (Err(BasicError::LineNumberTooLarge), vec![]));
    let lines = vec![line("63999", vec![print(vec![num("9")])])];
    assert_eq!(run(&lines), (Ok(()), vec![9]));
}

#[test]
fn malformed_line_numbers() {
    assert_eq!(parse_line_number("1a"), Err(BasicError::ParseLineNumber));
    assert_eq!(parse_line_number(""), Err(BasicError::ParseLineNumber));
    assert_eq!(parse_line_number("   "), Err(BasicError::ParseLineNumber));
    assert_eq!(parse_line_number("-5"), Err(BasicError::ParseLineNumber));
    assert_eq!(parse_line_number("1 0"), Ok(10));
    assert_eq!(parse_line_number("１"), Err(BasicError::ParseLineNumber));
}

#[test]
fn lines_are_chained_in_ascending_order() {
    let lines = vec![
        line("30", vec![print(vec![num("3")])]),
        line("10", vec![print(vec![num("1")])]),
        line("20", vec![print(vec![num("2")])]),
    ];
    let index = BasicLines::pre_process_lines(&lines).ok().unwrap();
    assert_eq!(index.first_line(), Some(10));
    assert_eq!(index.get(10).unwrap().next_line, Some(20));
    assert_eq!(index.get(20).unwrap().next_line, Some(30));
    assert_eq!(index.get(30).unwrap().next_line, None);
    assert!(index.get(40).is_none());
    assert_eq!(run(&lines), (Ok(()), vec![1, 2, 3]));
}

#[test]
fn empty_program_does_nothing() {
    assert_eq!(run(&vec![]), (Ok(()), vec![]));
}

#[test]
fn numeric_literals() {
    assert_eq!(parse_number("42"), Ok(42));
    assert_eq!(parse_number(" 4 2 "), Ok(42));
    assert_eq!(parse_number("9223372036854775807"), Ok(i64::MAX));
    assert_eq!(parse_number("9223372036854775808"), Err(BasicError::ParseFloat));
    assert_eq!(parse_number("1.5"), Err(BasicError::ParseFloat));
    assert_eq!(eval(&num("x")), Err(BasicError::ParseFloat));
}

#[test]
fn decimal_reading() {
    assert_eq!(parse_decimal("123", 200), Decimal::Value(123));
    assert_eq!(parse_decimal("201", 200), Decimal::TooLarge);
    assert_eq!(parse_decimal("20a1", 200), Decimal::Malformed);
    assert_eq!(parse_decimal("9999999999 x", 200), Decimal::Malformed);
}

#[test]
fn unknown_operators() {
    let e = bin(Level::Multiplication, num("2"), "+", num("3"));
    assert_eq!(eval(&e), Err(BasicError::UnknownOperator));
    let e = bin(Level::Summation, num("2"), "%", num("3"));
    assert_eq!(eval(&e), Err(BasicError::UnknownOperator));
    let e = Expression::Not("-".to_string(), Box::new(num("0")));
    assert_eq!(eval(&e), Err(BasicError::UnknownOperator));
    assert_eq!(BinaryOperator::from_lexeme(Level::Relational, "<="), Ok(BinaryOperator::LessOrEqual));
    assert_eq!(BinaryOperator::from_lexeme(Level::Relational, "=<"), Err(BasicError::UnknownOperator));
    assert_eq!(UnaryOperator::from_lexeme("NOT"), Ok(UnaryOperator::Not));
}

#[test]
fn operator_application_failures() {
    let e = bin(Level::Multiplication, num("1"), "/", num("0"));
    assert_eq!(eval(&e), Err(BasicError::OperatorApplicationFailure));
    let e = bin(Level::Summation, num("9223372036854775807"), "+", num("1"));
    assert_eq!(eval(&e), Err(BasicError::OperatorApplicationFailure));
    assert_eq!(
        BinaryOperator::apply_binary_operation(i64::MIN, &BinaryOperator::Div, -1),
        Err(BasicError::OperatorApplicationFailure)
    );
    assert_eq!(
        UnaryOperator::apply_unary_operation(&UnaryOperator::Minus, i64::MIN),
        Err(BasicError::OperatorApplicationFailure)
    );
}

#[test]
fn division_truncates_toward_zero() {
    let e = bin(Level::Multiplication, num("7"), "/", num("2"));
    assert_eq!(eval(&e), Ok(3));
    let e = bin(Level::Multiplication, Expression::Negate(Box::new(num("7"))), "/", num("2"));
    assert_eq!(eval(&e), Ok(-3));
}

#[test]
fn relational_and_logical_operators() {
    assert_eq!(eval(&bin(Level::Relational, num("3"), "<", num("5"))), Ok(1));
    assert_eq!(eval(&bin(Level::Relational, num("3"), ">=", num("5"))), Ok(0));
    assert_eq!(eval(&bin(Level::Relational, num("5"), "<>", num("5"))), Ok(0));
    assert_eq!(eval(&bin(Level::Relational, num("5"), "=", num("5"))), Ok(1));
    assert_eq!(eval(&bin(Level::LogicalAnd, num("2"), "AND", num("0"))), Ok(0));
    assert_eq!(eval(&bin(Level::LogicalOr, num("2"), "OR", num("0"))), Ok(1));
    assert_eq!(eval(&Expression::Not("NOT".to_string(), Box::new(num("0")))), Ok(1));
    assert_eq!(eval(&Expression::Not("NOT".to_string(), Box::new(num("3")))), Ok(0));
    assert_eq!(eval(&Expression::Negate(Box::new(num("3")))), Ok(-3));
}

#[test]
fn both_operands_are_evaluated() {
    let e = bin(
        Level::LogicalOr,
        num("1"),
        "OR",
        bin(Level::Multiplication, num("1"), "/", num("0")),
    );
    assert_eq!(eval(&e), Err(BasicError::OperatorApplicationFailure));
}

#[test]
fn variables_read_zero_until_written() {
    let mut env = Environment::new();
    let a = "AB".to_string();
    let b = "ABC".to_string();
    assert_eq!(env.value(&a), 0);
    env.set_value(&a, 5);
    env.set_value(&b, 6);
    assert_eq!(env.value(&a), 5);
    assert_eq!(env.value(&b), 6);
    env.set_value(&a, 7);
    assert_eq!(env.value(&a), 7);
    assert_eq!(env.value(&b), 6);
}

#[test]
fn assignment_then_loop_counts() {
    // 10 A = 0 : 20 A = A + 1 : 30 IF A < 3 THEN 20 : 40 PRINT A
    let lines = vec![
        line("10", vec![Statement::Assign("A".to_string(), num("0"))]),
        line("20", vec![Statement::Assign("A".to_string(), bin(Level::Summation, var("A"), "+", num("1")))]),
        line(
            "30",
            vec![Statement::If(bin(Level::Relational, var("A"), "<", num("3")), IfBody::Goto("20".to_string()))],
        ),
        line("40", vec![print(vec![var("A")])]),
    ];
    let mut g = BasicGrammar::new();
    assert_eq!(g.process_lines(&lines, BUDGET), Ok(()));
    assert_eq!(g.output(), &vec![3]);
    assert_eq!(g.env.value(&"A".to_string()), 3);
}

#[test]
fn endless_loop_exceeds_budget() {
    let lines = vec![line("10", vec![goto("10")])];
    let mut g = BasicGrammar::new();
    assert_eq!(g.process_lines(&lines, 50), Err(BasicError::ExecutionBudgetExceeded));
}

#[test]
fn failing_print_stops_the_run() {
    let lines = vec![
        line(
            "10",
            vec![print(vec![num("1"), bin(Level::Multiplication, num("1"), "/", num("0"))])],
        ),
        line("20", vec![print(vec![num("2")])]),
    ];
    let (r, _) = run(&lines);
    assert_eq!(r, Err(BasicError::OperatorApplicationFailure));
}

#[test]
fn remark_does_nothing() {
    let lines = vec![line("10", vec![Statement::Remark, print(vec![num("4")])])];
    assert_eq!(run(&lines), (Ok(()), vec![4]));
}
