use crate::ast::{Expression, IfBody, Line, Statement};
use crate::environment::Environment;
use crate::error::BasicError;
use crate::expression::eval;
use crate::lexeme::{line_number_of, parse_line_number};
use crate::program::{
    declarations, indexes, lemma_index_unique, position_of, BasicLines, IndexEntry,
};
use vstd::prelude::*;

verus! {

/// The state of a run as the contracts see it.
pub struct Machine {
    /// The values of the variables.
    pub env: Map<Seq<char>, i64>,
    /// The number of the next line to execute; none once the run is over.
    pub cursor: Option<u16>,
    /// The values printed so far, in order.
    pub output: Seq<i64>,
}

/// The state of an interpreter: its variables, its cursor and what it has printed.
pub struct BasicGrammar {
    pub env: Environment,
    next_line: Option<u16>,
    output: Vec<i64>,
}

impl View for BasicGrammar {
    type V = Machine;

    closed spec fn view(&self) -> Machine {
        Machine { env: self.env@, cursor: self.next_line, output: self.output@ }
    }
}

/// The values of `es`, evaluated from the left; the first failure, if any.
pub open spec fn print_values(env: Map<Seq<char>, i64>, es: Seq<Expression>) -> Result<
    Seq<i64>,
    BasicError,
>
    decreases es.len(),
{
    if es.len() == 0 {
        Ok(Seq::empty())
    } else {
        match print_values(env, es.drop_last()) {
            Ok(vs) => match eval(env, es.last()) {
                Ok(v) => Ok(vs.push(v)),
                Err(e) => Err(e),
            },
            Err(e) => Err(e),
        }
    }
}

/// A jump to the line whose number `target` spells; it ends the current line.
pub open spec fn goto_result(m: Machine, target: Seq<char>) -> Result<(Machine, bool), BasicError> {
    match line_number_of(target) {
        Ok(n) => Ok((Machine { env: m.env, cursor: Some(n), output: m.output }, false)),
        Err(e) => Err(e),
    }
}

/// The state after statement `s`, and whether the rest of its line still runs.
pub open spec fn statement_result(m: Machine, s: Statement) -> Result<(Machine, bool), BasicError>
    decreases s,
{
    match s {
        Statement::Remark => Ok((m, true)),
        Statement::Goto(target) => goto_result(m, target@),
        Statement::If(predicate, body) => match eval(m.env, predicate) {
            Ok(v) => if v != 0 {
                match body {
                    IfBody::Statement(inner) => statement_result(m, *inner),
                    IfBody::Goto(target) => goto_result(m, target@),
                }
            } else {
                Ok((m, true))
            },
            Err(e) => Err(e),
        },
        Statement::Assign(name, e) => match eval(m.env, e) {
            Ok(v) => Ok(
                (Machine { env: m.env.insert(name@, v), cursor: m.cursor, output: m.output }, true),
            ),
            Err(err) => Err(err),
        },
        Statement::Print(es) => match print_values(m.env, es@) {
            Ok(vs) => Ok((Machine { env: m.env, cursor: m.cursor, output: m.output + vs }, true)),
            Err(e) => Err(e),
        },
        Statement::End => Ok((Machine { env: m.env, cursor: None, output: m.output }, false)),
    }
}

/// The state after the statements of `stmts` from position `i` on, up to the first that ends
/// the line.
pub open spec fn statements_result(m: Machine, stmts: Seq<Statement>, i: int) -> Result<
    Machine,
    BasicError,
>
    decreases stmts.len() - i,
{
    if 0 <= i < stmts.len() {
        match statement_result(m, stmts[i]) {
            Ok((m2, go_on)) => if go_on {
                statements_result(m2, stmts, i + 1)
            } else {
                Ok(m2)
            },
            Err(e) => Err(e),
        }
    } else {
        Ok(m)
    }
}

/// The state after executing the line under the cursor, which first moves to the next line.
pub open spec fn line_result(index: Seq<IndexEntry>, m: Machine) -> Result<Machine, BasicError> {
    match m.cursor {
        None => Ok(m),
        Some(n) => match position_of(index, n) {
            None => Err(BasicError::LineNotAccessible(n)),
            Some(i) => statements_result(
                Machine { env: m.env, cursor: index[i].2, output: m.output },
                index[i].1,
                0,
            ),
        },
    }
}

/// The state once the cursor is none, executing at most `budget` lines.
pub open spec fn run_result(index: Seq<IndexEntry>, m: Machine, budget: nat) -> Result<
    Machine,
    BasicError,
>
    decreases budget,
{
    match m.cursor {
        None => Ok(m),
        Some(_) => if budget == 0 {
            Err(BasicError::ExecutionBudgetExceeded)
        } else {
            match line_result(index, m) {
                Ok(m2) => run_result(index, m2, (budget - 1) as nat),
                Err(e) => Err(e),
            }
        },
    }
}

/// The state in which a run of `index` starts: the cursor on the first line.
pub open spec fn start(index: Seq<IndexEntry>, m: Machine) -> Machine {
    Machine {
        env: m.env,
        cursor: if index.len() > 0 {
            Some(index[0].0)
        } else {
            None
        },
        output: m.output,
    }
}

/// What running `lines` from state `m` gives, executing at most `budget` lines.
pub open spec fn program_result(lines: Seq<Line>, m: Machine, budget: nat) -> Result<
    Machine,
    BasicError,
> {
    match declarations(lines) {
        Ok(d) => {
            let index = choose|index: Seq<IndexEntry>| indexes(index, lines, d);
            run_result(index, start(index, m), budget)
        },
        Err(e) => Err(e),
    }
}

impl BasicGrammar {
    /// An interpreter with no variable written, no line to run and nothing printed.
    pub fn new() -> (r: BasicGrammar)
        ensures
            r@ == fresh(),
    {
        BasicGrammar { env: Environment::new(), next_line: None, output: Vec::new() }
    }

    /// The values printed so far.
    pub fn output(&self) -> (r: &Vec<i64>)
        ensures
            r@ == self@.output,
    {
        &self.output
    }

    /// The number of the next line to execute.
    pub fn next_line(&self) -> (r: Option<u16>)
        ensures
            r == self@.cursor,
    {
        self.next_line
    }

    fn process_goto(&mut self, target: &String) -> (r: Result<bool, BasicError>)
        ensures
            match goto_result(old(self)@, target@) {
                Ok((m, go_on)) => r == Ok::<bool, BasicError>(go_on) && final(self)@ == m,
                Err(e) => r == Err::<bool, BasicError>(e),
            },
    {
        let n = parse_line_number(target.as_str())?;
        self.next_line = Some(n);
        Ok(false)
    }

    fn process_print_statement(&mut self, es: &Vec<Expression>) -> (r: Result<(), BasicError>)
        ensures
            match print_values(old(self)@.env, es@) {
                Ok(vs) => r is Ok && final(self)@ == (Machine {
                    env: old(self)@.env,
                    cursor: old(self)@.cursor,
                    output: old(self)@.output + vs,
                }),
                Err(e) => r == Err::<(), BasicError>(e),
            },
    {
        let ghost start = self@;
        let mut k: usize = 0;
        assert(es@.take(0) =~= Seq::<Expression>::empty());
        assert(self@.output =~= start.output + Seq::empty());
        while k < es.len()
            invariant
                k <= es@.len(),
                start == old(self)@,
                self.env@ == start.env,
                self.next_line == start.cursor,
                match print_values(start.env, es@.take(k as int)) {
                    Ok(vs) => self.output@ == start.output + vs,
                    Err(_) => false,
                },
            decreases es@.len() - k,
        {
            assert(es@.take(k + 1).drop_last() =~= es@.take(k as int));
            assert(es@.take(k + 1).last() == es@[k as int]);
            let v = match self.env.evaluate(&es[k]) {
                Ok(v) => v,
                Err(e) => {
                    proof {
                        lemma_print_fail(start.env, es@, k as int, e);
                    }
                    return Err(e);
                },
            };
            self.output.push(v);
            k = k + 1;
            proof {
                let vs = print_values(start.env, es@.take(k as int))->Ok_0;
                assert(self.output@ =~= start.output + vs);
            }
        }
        assert(es@.take(es@.len() as int) =~= es@);
        Ok(())
    }

    /// Executes one statement; the result says whether the rest of its line still runs.
    pub fn interpret_statement(&mut self, statement: &Statement) -> (r: Result<bool, BasicError>)
        ensures
            match statement_result(old(self)@, *statement) {
                Ok((m, go_on)) => r == Ok::<bool, BasicError>(go_on) && final(self)@ == m,
                Err(e) => r == Err::<bool, BasicError>(e),
            },
        decreases statement,
    {
        match statement {
            Statement::Remark => Ok(true),
            Statement::Goto(target) => self.process_goto(target),
            Statement::If(predicate, body) => {
                let v = self.env.evaluate(predicate)?;
                if v != 0 {
                    match body {
                        IfBody::Statement(inner) => self.interpret_statement(inner),
                        IfBody::Goto(target) => self.process_goto(target),
                    }
                } else {
                    Ok(true)
                }
            },
            Statement::Assign(name, e) => {
                let v = self.env.evaluate(e)?;
                self.env.set_value(name, v);
                Ok(true)
            },
            Statement::Print(es) => {
                self.process_print_statement(es)?;
                Ok(true)
            },
            Statement::End => {
                self.next_line = None;
                Ok(false)
            },
        }
    }

    /// Executes the line under the cursor, after moving the cursor to the line that follows it.
    pub fn interpret_line(&mut self, lines: &BasicLines) -> (r: Result<(), BasicError>)
        ensures
            match line_result(lines@, old(self)@) {
                Ok(m) => r is Ok && final(self)@ == m,
                Err(e) => r == Err::<(), BasicError>(e),
            },
    {
        let n = match self.next_line {
            Some(n) => n,
            None => return Ok(()),
        };
        let current = match lines.get(n) {
            Some(c) => c,
            None => return Err(BasicError::LineNotAccessible(n)),
        };
        self.next_line = current.next_line;
        let stmts = current.statements;
        let ghost i0 = position_of(lines@, n)->Some_0;
        let ghost begin = self@;
        let ghost goal = line_result(lines@, old(self)@);
        assert(goal == statements_result(begin, stmts@, 0));
        let mut k: usize = 0;
        while k < stmts.len()
            invariant
                k <= stmts@.len(),
                goal == line_result(lines@, old(self)@),
                goal == statements_result(self@, stmts@, k as int),
            decreases stmts@.len() - k,
        {
            let ghost before = self@;
            let res = self.interpret_statement(&stmts[k]);
            match res {
                Err(e) => {
                    assert(goal == Err::<Machine, BasicError>(e));
                    return Err(e);
                },
                Ok(go_on) => {
                    k = k + 1;
                    if !go_on {
                        assert(goal == Ok::<Machine, BasicError>(self@));
                        return Ok(());
                    }
                },
            }
        }
        Ok(())
    }

    /// Runs the program from the cursor until it ends, executing at most `budget` lines.
    pub fn interpret(&mut self, lines: &BasicLines, budget: u64) -> (r: Result<(), BasicError>)
        ensures
            match run_result(lines@, old(self)@, budget as nat) {
                Ok(m) => r is Ok && final(self)@ == m,
                Err(e) => r == Err::<(), BasicError>(e),
            },
    {
        let mut left: u64 = budget;
        while self.next_line.is_some()
            invariant
                run_result(lines@, self@, left as nat) == run_result(
                    lines@,
                    old(self)@,
                    budget as nat,
                ),
            decreases left,
        {
            if left == 0 {
                return Err(BasicError::ExecutionBudgetExceeded);
            }
            self.interpret_line(lines)?;
            left = left - 1;
        }
        Ok(())
    }

    /// Builds the index of a program and runs it from its first line, executing at most
    /// `budget` lines. Output is appended to what was printed before; variables keep the
    /// values they had.
    pub fn process_lines(&mut self, lines: &Vec<Line>, budget: u64) -> (r: Result<(), BasicError>)
        ensures
            match program_result(lines@, old(self)@, budget as nat) {
                Ok(m) => r is Ok && final(self)@ == m,
                Err(e) => r == Err::<(), BasicError>(e),
            },
    {
        let index = BasicLines::pre_process_lines(lines)?;
        proof {
            let d = declarations(lines@)->Ok_0;
            let chosen = choose|ix: Seq<IndexEntry>| indexes(ix, lines@, d);
            lemma_index_unique(index@, chosen, lines@, d);
        }
        self.next_line = index.first_line();
        self.interpret(&index, budget)
    }
}

/// The state of an interpreter that has not run anything.
pub open spec fn fresh() -> Machine {
    Machine { env: Map::empty(), cursor: None, output: Seq::empty() }
}

/// An `IF` whose predicate is zero does nothing, and the rest of its line runs.
pub proof fn lemma_if_false_skips(m: Machine, predicate: Expression, body: IfBody)
    requires
        eval(m.env, predicate) == Ok::<i64, BasicError>(0),
    ensures
        statement_result(m, Statement::If(predicate, body)) == Ok::<(Machine, bool), BasicError>(
            (m, true),
        ),
{
}

/// An `IF` whose predicate is not zero and whose branch is a jump moves the cursor to the
/// target and ends its line.
pub proof fn lemma_if_true_jumps(m: Machine, predicate: Expression, target: String)
    requires
        eval(m.env, predicate) is Ok,
        eval(m.env, predicate)->Ok_0 != 0,
        line_number_of(target@) is Ok,
    ensures
        statement_result(m, Statement::If(predicate, IfBody::Goto(target)))
            == Ok::<(Machine, bool), BasicError>(
            (
                Machine {
                    env: m.env,
                    cursor: Some(line_number_of(target@)->Ok_0),
                    output: m.output,
                },
                false,
            ),
        ),
{
}

/// A jump to a line that the program does not define succeeds as a statement; the run fails
/// when it next reaches for that line.
pub proof fn lemma_jump_to_missing_line(index: Seq<IndexEntry>, m: Machine, target: String, budget: nat)
    requires
        line_number_of(target@) is Ok,
        position_of(index, line_number_of(target@)->Ok_0) is None,
        budget > 0,
    ensures
        ({
            let n = line_number_of(target@)->Ok_0;
            let after = Machine { env: m.env, cursor: Some(n), output: m.output };
            &&& statement_result(m, Statement::Goto(target)) == Ok::<(Machine, bool), BasicError>(
                (after, false),
            )
            &&& line_result(index, after) == Err::<Machine, BasicError>(BasicError::LineNotAccessible(n))
            &&& run_result(index, after, budget) == Err::<Machine, BasicError>(
                BasicError::LineNotAccessible(n),
            )
        }),
{
}

/// Two runs of one program, each from a fresh interpreter, end alike: the same output, the
/// same variables, or the same failure.
pub proof fn lemma_rerun_identical(lines: Seq<Line>, budget: nat, first: Machine, second: Machine)
    requires
        first == fresh(),
        second == fresh(),
    ensures
        program_result(lines, first, budget) == program_result(lines, second, budget),
{
}

/// A failure of the expression at position `k`, after those before it gave values, is the
/// failure of the whole list.
proof fn lemma_print_fail(env: Map<Seq<char>, i64>, es: Seq<Expression>, k: int, e: BasicError)
    requires
        0 <= k < es.len(),
        print_values(env, es.take(k)) is Ok,
        eval(env, es[k]) == Err::<i64, BasicError>(e),
    ensures
        print_values(env, es) == Err::<Seq<i64>, BasicError>(e),
    decreases es.len(),
{
    if k + 1 < es.len() {
        assert(es.drop_last().take(k) =~= es.take(k));
        assert(es.drop_last()[k] == es[k]);
        lemma_print_fail(env, es.drop_last(), k, e);
    } else {
        assert(es.drop_last() =~= es.take(k));
    }
}

} // verus!
