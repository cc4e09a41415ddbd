//! The evaluator: it runs statements against an environment and collects the
//! lines they print.

use crate::ast::{statement_views, BinOp, Expr, Statement, StatementView};
use crate::bindings::Bindings;
use crate::semantics::{
    apply, as_number, display, evaluate, execute, lines, run, Environment, Fault, Value,
};
use crate::text::decimal_string;
use vstd::prelude::*;

verus! {

/// What an expression reduced to.
#[derive(Debug, PartialEq, Eq)]
pub enum EvalResult {
    Number(i32),
    StringLiteral(String),
}

/// Why an evaluation stopped.
#[derive(Debug, PartialEq, Eq)]
pub enum EvalError {
    /// A name was read, or assigned to, that has no binding.
    UndefinedVariable(String),
    /// An assignment named an immutable binding.
    ConstantReassignment(String),
    /// An immutable binding was declared a second time.
    DuplicateConstant(String),
    /// A string stood where a number is required.
    TypeMismatch,
    /// The right operand of a division was zero.
    DivisionByZero,
    /// The result of an operation does not fit in 32 bits.
    Overflow,
}

/// The state of a run: the bindings in force and the lines printed so far.
#[derive(Debug)]
pub struct Interpreter {
    env: Bindings,
    const_env: Bindings,
    output: Vec<String>,
}

/// What an [`Interpreter`] holds.
pub struct State {
    pub env: Environment,
    pub output: Seq<Seq<char>>,
}

impl View for EvalResult {
    type V = Value;

    open spec fn view(&self) -> Value {
        match self {
            EvalResult::Number(n) => Value::Number(*n),
            EvalResult::StringLiteral(text) => Value::StringLiteral(text@),
        }
    }
}

impl View for EvalError {
    type V = Fault;

    open spec fn view(&self) -> Fault {
        match self {
            EvalError::UndefinedVariable(name) => Fault::UndefinedVariable(name@),
            EvalError::ConstantReassignment(name) => Fault::ConstantReassignment(name@),
            EvalError::DuplicateConstant(name) => Fault::DuplicateConstant(name@),
            EvalError::TypeMismatch => Fault::TypeMismatch,
            EvalError::DivisionByZero => Fault::DivisionByZero,
            EvalError::Overflow => Fault::Overflow,
        }
    }
}

impl View for Interpreter {
    type V = State;

    closed spec fn view(&self) -> State {
        State {
            env: Environment { vars: self.env@, consts: self.const_env@ },
            output: line_views(self.output@),
        }
    }
}

/// The texts of a list of lines.
pub open spec fn line_views(lines: Seq<String>) -> Seq<Seq<char>> {
    lines.map_values(|line: String| line@)
}

/// A number as a result, and a fault as itself.
pub open spec fn number_view(result: Result<i32, EvalError>) -> Result<i32, Fault> {
    match result {
        Ok(n) => Ok(n),
        Err(error) => Err(error@),
    }
}

/// A value as its view, and a fault as itself.
pub open spec fn value_view(result: Result<EvalResult, EvalError>) -> Result<Value, Fault> {
    match result {
        Ok(value) => Ok(value@),
        Err(error) => Err(error@),
    }
}

/// The fault that a result carries, if it carries one.
pub open spec fn fault_view(result: Result<(), EvalError>) -> Option<Fault> {
    match result {
        Ok(_) => None,
        Err(error) => Some(error@),
    }
}

impl EvalError {
    /// The error in words.
    pub fn message(&self) -> (text: String)
        ensures
            text@ == self@.message(),
    {
        match self {
            EvalError::UndefinedVariable(name) => {
                String::from_str("Undefined variable: ").concat(name.as_str())
            },
            EvalError::ConstantReassignment(name) => {
                String::from_str("Cannot reassign to constant '").concat(name.as_str()).concat("'")
            },
            EvalError::DuplicateConstant(name) => {
                String::from_str("Constant '").concat(name.as_str()).concat("' already declared")
            },
            EvalError::TypeMismatch => String::from_str("Expected a number"),
            EvalError::DivisionByZero => String::from_str("Division by zero"),
            EvalError::Overflow => String::from_str("Arithmetic overflow"),
        }
    }
}

impl EvalResult {
    /// The number that this result is. A string is a type mismatch.
    pub fn unwrap_number(self) -> (number: Result<i32, EvalError>)
        ensures
            number_view(number) == as_number(Ok(self@)),
    {
        match self {
            EvalResult::Number(n) => Ok(n),
            EvalResult::StringLiteral(_) => Err(EvalError::TypeMismatch),
        }
    }

    /// The line that printing this result gives.
    pub fn into_line(self) -> (line: String)
        ensures
            line@ == display(self@),
    {
        match self {
            EvalResult::Number(n) => decimal_string(n),
            EvalResult::StringLiteral(text) => text,
        }
    }
}

/// `op` on `a` and `b`.
pub fn apply_op(op: BinOp, a: i32, b: i32) -> (result: Result<i32, EvalError>)
    ensures
        number_view(result) == apply(op, a, b),
{
    let computed = match op {
        BinOp::Add => a.checked_add(b),
        BinOp::Sub => a.checked_sub(b),
        BinOp::Mul => a.checked_mul(b),
        BinOp::Div => {
            if b == 0 {
                return Err(EvalError::DivisionByZero);
            }
            a.checked_div(b)
        },
    };
    match computed {
        Some(n) => Ok(n),
        None => Err(EvalError::Overflow),
    }
}

impl Interpreter {
    /// An interpreter with no bindings and no output.
    pub fn new() -> (interpreter: Self)
        ensures
            interpreter@ == (State { env: Environment::empty(), output: Seq::empty() }),
    {
        let interpreter = Interpreter {
            env: Bindings::new(),
            const_env: Bindings::new(),
            output: Vec::new(),
        };
        assert(interpreter@.output =~= Seq::empty());
        interpreter
    }

    /// The lines printed so far, oldest first, each without its line terminator.
    pub fn output(&self) -> (printed: &Vec<String>)
        ensures
            line_views(printed@) == self@.output,
    {
        &self.output
    }

    /// The value that `name` stands for: its mutable binding where it has one,
    /// else its immutable one.
    pub fn lookup(&self, name: &String) -> (value: Option<i32>)
        ensures
            value == self@.env.lookup(name@),
    {
        match self.env.get(name) {
            Some(value) => Some(value),
            None => self.const_env.get(name),
        }
    }

    /// Runs `statements` in order. The first error ends the run: the statements
    /// before it have taken effect, the failing one and those after it have not.
    pub fn eval_statements(&mut self, statements: Vec<Statement>) -> (result: Result<(), EvalError>)
        ensures
            final(self)@.env == run(old(self)@.env, statement_views(statements@)).env,
            final(self)@.output == old(self)@.output + run(
                old(self)@.env,
                statement_views(statements@),
            ).output,
            fault_view(result) == run(old(self)@.env, statement_views(statements@)).fault,
    {
        let ghost program = statement_views(statements@);
        let ghost start = self@;
        assert(program.skip(0) =~= program);
        for statement in iter: statements
            invariant
                program == statement_views(statements@),
                start == old(self)@,
                iter.seq() == statements@,
                run(start.env, program).env == run(self@.env, program.skip(iter.index())).env,
                self@.output + run(self@.env, program.skip(iter.index())).output == start.output
                    + run(start.env, program).output,
                run(start.env, program).fault == run(self@.env, program.skip(iter.index())).fault,
        {
            let ghost i: int = iter.index();
            let ghost remaining = program.skip(i);
            let ghost before = self@;
            assert(remaining.skip(1) =~= program.skip(i + 1));
            match self.eval_statement(statement) {
                Ok(()) => {
                    assert(self@.output + run(self@.env, program.skip(i + 1)).output =~= before.output
                        + run(before.env, remaining).output);
                },
                Err(error) => {
                    return Err(error);
                },
            }
        }
        Ok(())
    }

    /// Runs one statement. On an error the interpreter is left as it was.
    pub fn eval_statement(&mut self, statement: Statement) -> (result: Result<(), EvalError>)
        ensures
            match execute(old(self)@.env, statement@) {
                Ok(effect) => result is Ok && final(self)@.env == effect.env && final(self)@.output
                    == old(self)@.output + lines(effect.printed),
                Err(fault) => fault_view(result) == Some(fault) && final(self)@ == old(self)@,
            },
    {
        match statement {
            Statement::VarDecl(var_name, expr) => {
                let n: i32 = self.eval_expr(expr)?.unwrap_number()?;
                self.env.insert(var_name, n);
                Ok(())
            },
            Statement::ValDecl(var_name, expr) => {
                let n: i32 = self.eval_expr(expr)?.unwrap_number()?;
                if self.const_env.contains_key(&var_name) {
                    return Err(EvalError::DuplicateConstant(var_name));
                }
                self.const_env.insert(var_name, n);
                Ok(())
            },
            Statement::Assign(var_name, expr) => {
                if self.const_env.contains_key(&var_name) {
                    return Err(EvalError::ConstantReassignment(var_name));
                }
                if !self.env.contains_key(&var_name) {
                    return Err(EvalError::UndefinedVariable(var_name));
                }
                let n: i32 = self.eval_expr(expr)?.unwrap_number()?;
                self.env.insert(var_name, n);
                Ok(())
            },
            Statement::Print(expr) => {
                let line = self.eval_expr(expr)?.into_line();
                self.output.push(line);
                Ok(())
            },
        }
    }

    /// The value of `expr` under the bindings in force.
    pub fn eval_expr(&self, expr: Expr) -> (result: Result<EvalResult, EvalError>)
        ensures
            value_view(result) == evaluate(self@.env, expr@),
        decreases expr,
    {
        match expr {
            Expr::Number(n) => Ok(EvalResult::Number(n)),
            Expr::StringLiteral(s) => Ok(EvalResult::StringLiteral(s)),
            Expr::Variable(var_name) => match self.lookup(&var_name) {
                Some(value) => Ok(EvalResult::Number(value)),
                None => Err(EvalError::UndefinedVariable(var_name)),
            },
            Expr::BinaryOp(left, op, right) => {
                let left_val: i32 = self.eval_expr(*left)?.unwrap_number()?;
                let right_val: i32 = self.eval_expr(*right)?.unwrap_number()?;
                Ok(EvalResult::Number(apply_op(op, left_val, right_val)?))
            },
        }
    }
}

} // verus!
