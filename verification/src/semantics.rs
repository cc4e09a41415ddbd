//! What a program means: the value of an expression, the effect of a statement
//! and the outcome of a run, as functions of the environment.
//!
//! Numbers are 32-bit signed integers. Arithmetic is exact: an operation whose
//! result does not fit in 32 bits is a fault, it neither wraps nor saturates.
//! Division rounds toward zero, and division by zero is a fault.

use crate::ast::{BinOp, ExprView, StatementView};
use crate::text::decimal_text;
use vstd::prelude::*;

verus! {

/// The bindings in force: the mutable ones and the immutable ones.
pub struct Environment {
    pub vars: Map<Seq<char>, i32>,
    pub consts: Map<Seq<char>, i32>,
}

/// What an expression reduces to.
pub enum Value {
    Number(i32),
    StringLiteral(Seq<char>),
}

/// Why an evaluation stopped.
pub enum Fault {
    UndefinedVariable(Seq<char>),
    ConstantReassignment(Seq<char>),
    DuplicateConstant(Seq<char>),
    TypeMismatch,
    DivisionByZero,
    Overflow,
}

/// What one statement does: the environment it leaves and the line it prints.
pub struct Effect {
    pub env: Environment,
    pub printed: Option<Seq<char>>,
}

/// How a run ends: the environment it leaves, the lines it printed, and the
/// fault that stopped it, if one did.
pub struct Outcome {
    pub env: Environment,
    pub output: Seq<Seq<char>>,
    pub fault: Option<Fault>,
}

impl Fault {
    /// The fault in words.
    pub open spec fn message(self) -> Seq<char> {
        match self {
            Fault::UndefinedVariable(name) => "Undefined variable: "@ + name,
            Fault::ConstantReassignment(name) => "Cannot reassign to constant '"@ + name + "'"@,
            Fault::DuplicateConstant(name) => "Constant '"@ + name + "' already declared"@,
            Fault::TypeMismatch => "Expected a number"@,
            Fault::DivisionByZero => "Division by zero"@,
            Fault::Overflow => "Arithmetic overflow"@,
        }
    }
}

impl Environment {
    /// The environment without bindings.
    pub open spec fn empty() -> Environment {
        Environment { vars: Map::empty(), consts: Map::empty() }
    }

    /// The value that `name` stands for: its mutable binding where it has one,
    /// else its immutable one.
    pub open spec fn lookup(self, name: Seq<char>) -> Option<i32> {
        if self.vars.contains_key(name) {
            Some(self.vars[name])
        } else if self.consts.contains_key(name) {
            Some(self.consts[name])
        } else {
            None
        }
    }

    /// This environment with `name` mutably bound to `value`.
    pub open spec fn with_var(self, name: Seq<char>, value: i32) -> Environment {
        Environment { vars: self.vars.insert(name, value), consts: self.consts }
    }

    /// This environment with `name` immutably bound to `value`.
    pub open spec fn with_const(self, name: Seq<char>, value: i32) -> Environment {
        Environment { vars: self.vars, consts: self.consts.insert(name, value) }
    }
}

/// The quotient of `a` by `b`, rounded toward zero.
pub open spec fn truncated_quotient(a: int, b: int) -> int
    recommends
        b != 0,
{
    if a >= 0 && b > 0 {
        a / b
    } else if a >= 0 {
        -(a / (-b))
    } else if b > 0 {
        -((-a) / b)
    } else {
        (-a) / (-b)
    }
}

/// The exact result of `op` on `a` and `b`, where the divisor is not zero.
pub open spec fn exact(op: BinOp, a: int, b: int) -> int {
    match op {
        BinOp::Add => a + b,
        BinOp::Sub => a - b,
        BinOp::Mul => a * b,
        BinOp::Div => truncated_quotient(a, b),
    }
}

/// `op` on two 32-bit numbers. Division by zero is a fault, and so is a result
/// that does not fit in 32 bits.
pub open spec fn apply(op: BinOp, a: i32, b: i32) -> Result<i32, Fault> {
    if op == BinOp::Div && b == 0 {
        Err(Fault::DivisionByZero)
    } else if i32::MIN <= exact(op, a as int, b as int) <= i32::MAX {
        Ok(exact(op, a as int, b as int) as i32)
    } else {
        Err(Fault::Overflow)
    }
}

/// The number that an evaluation gave. A string where a number is required is
/// a fault.
pub open spec fn as_number(evaluated: Result<Value, Fault>) -> Result<i32, Fault> {
    match evaluated {
        Err(fault) => Err(fault),
        Ok(Value::Number(n)) => Ok(n),
        Ok(Value::StringLiteral(_)) => Err(Fault::TypeMismatch),
    }
}

/// The value of `expr` in `env`. The left operand is evaluated, and must be a
/// number, before the right one is looked at.
pub open spec fn evaluate(env: Environment, expr: ExprView) -> Result<Value, Fault>
    decreases expr,
{
    match expr {
        ExprView::Number(n) => Ok(Value::Number(n)),
        ExprView::StringLiteral(text) => Ok(Value::StringLiteral(text)),
        ExprView::Variable(name) => match env.lookup(name) {
            Some(n) => Ok(Value::Number(n)),
            None => Err(Fault::UndefinedVariable(name)),
        },
        ExprView::BinaryOp(left, op, right) => match as_number(evaluate(env, *left)) {
            Err(fault) => Err(fault),
            Ok(a) => match as_number(evaluate(env, *right)) {
                Err(fault) => Err(fault),
                Ok(b) => match apply(op, a, b) {
                    Err(fault) => Err(fault),
                    Ok(n) => Ok(Value::Number(n)),
                },
            },
        },
    }
}

/// The value of `expr` in `env`, which must be a number.
pub open spec fn evaluate_number(env: Environment, expr: ExprView) -> Result<i32, Fault> {
    as_number(evaluate(env, expr))
}

/// The line that printing `value` gives: a number in decimal notation, a
/// string as it is.
pub open spec fn display(value: Value) -> Seq<char> {
    match value {
        Value::Number(n) => decimal_text(n as int),
        Value::StringLiteral(text) => text,
    }
}

/// What `statement` does in `env`.
pub open spec fn execute(env: Environment, statement: StatementView) -> Result<Effect, Fault> {
    match statement {
        StatementView::VarDecl(name, expr) => match evaluate_number(env, expr) {
            Err(fault) => Err(fault),
            Ok(n) => Ok(Effect { env: env.with_var(name, n), printed: None }),
        },
        StatementView::ValDecl(name, expr) => match evaluate_number(env, expr) {
            Err(fault) => Err(fault),
            Ok(n) => if env.consts.contains_key(name) {
                Err(Fault::DuplicateConstant(name))
            } else {
                Ok(Effect { env: env.with_const(name, n), printed: None })
            },
        },
        StatementView::Assign(name, expr) => if env.consts.contains_key(name) {
            Err(Fault::ConstantReassignment(name))
        } else if !env.vars.contains_key(name) {
            Err(Fault::UndefinedVariable(name))
        } else {
            match evaluate_number(env, expr) {
                Err(fault) => Err(fault),
                Ok(n) => Ok(Effect { env: env.with_var(name, n), printed: None }),
            }
        },
        StatementView::Print(expr) => match evaluate(env, expr) {
            Err(fault) => Err(fault),
            Ok(value) => Ok(Effect { env, printed: Some(display(value)) }),
        },
    }
}

/// The lines that an effect adds to the output.
pub open spec fn lines(printed: Option<Seq<char>>) -> Seq<Seq<char>> {
    match printed {
        Some(line) => seq![line],
        None => Seq::empty(),
    }
}

/// The outcome of running `program` from `env`: the statements take effect in
/// order, and the first fault ends the run with the environment as it then is.
pub open spec fn run(env: Environment, program: Seq<StatementView>) -> Outcome
    decreases program.len(),
{
    if program.len() == 0 {
        Outcome { env, output: Seq::empty(), fault: None }
    } else {
        match execute(env, program[0]) {
            Err(fault) => Outcome { env, output: Seq::empty(), fault: Some(fault) },
            Ok(effect) => {
                let rest = run(effect.env, program.skip(1));
                Outcome {
                    env: rest.env,
                    output: lines(effect.printed) + rest.output,
                    fault: rest.fault,
                }
            },
        }
    }
}

/// Running a program anew changes nothing: two runs of one program, each from
/// an environment without bindings, print the same lines, leave the same
/// bindings and end alike.
pub proof fn lemma_rerun_agrees(listing: Seq<StatementView>, first: Environment, second: Environment)
    requires
        first == Environment::empty(),
        second == Environment::empty(),
    ensures
        run(first, listing) == run(second, listing),
{
}

/// Declaring a variable a second time, right after the first time and with
/// the same expression, changes nothing, where the expression holds no
/// operation.
pub proof fn lemma_var_redeclaration_idempotent(env: Environment, name: Seq<char>, expr: ExprView)
    requires
        !(expr is BinaryOp),
        execute(env, StatementView::VarDecl(name, expr)) is Ok,
    ensures
        execute(
            execute(env, StatementView::VarDecl(name, expr))->Ok_0.env,
            StatementView::VarDecl(name, expr),
        ) == execute(env, StatementView::VarDecl(name, expr)),
{
    let declaration = StatementView::VarDecl(name, expr);
    let once = execute(env, declaration)->Ok_0;
    let n: i32 = evaluate_number(env, expr)->Ok_0;
    assert(once.env.vars.insert(name, n) =~= once.env.vars);
}

/// A statement drops no binding and changes no immutable one.
pub proof fn lemma_execute_keeps_bindings(
    env: Environment,
    statement: StatementView,
    name: Seq<char>,
)
    requires
        execute(env, statement) is Ok,
    ensures
        env.vars.contains_key(name) ==> execute(env, statement)->Ok_0.env.vars.contains_key(name),
        env.consts.contains_key(name) ==> execute(env, statement)->Ok_0.env.consts.contains_key(name)
            && execute(env, statement)->Ok_0.env.consts[name] == env.consts[name],
{
}

/// A run drops no binding and changes no immutable one, however it ends.
pub proof fn lemma_run_keeps_bindings(
    env: Environment,
    listing: Seq<StatementView>,
    name: Seq<char>,
)
    ensures
        env.vars.contains_key(name) ==> run(env, listing).env.vars.contains_key(name),
        env.consts.contains_key(name) ==> run(env, listing).env.consts.contains_key(name) && run(
            env,
            listing,
        ).env.consts[name] == env.consts[name],
    decreases listing.len(),
{
    if listing.len() > 0 {
        if let Ok(effect) = execute(env, listing[0]) {
            lemma_execute_keeps_bindings(env, listing[0], name);
            lemma_run_keeps_bindings(effect.env, listing.skip(1), name);
        }
    }
}

/// A run without a fault goes on with what follows: running two programs one
/// behind the other is running the second from where the first ended.
pub proof fn lemma_run_continues(env: Environment, first: Seq<StatementView>, second: Seq<StatementView>)
    requires
        run(env, first).fault is None,
    ensures
        run(env, first + second).env == run(run(env, first).env, second).env,
        run(env, first + second).output == run(env, first).output + run(
            run(env, first).env,
            second,
        ).output,
        run(env, first + second).fault == run(run(env, first).env, second).fault,
    decreases first.len(),
{
    if first.len() == 0 {
        assert(first + second =~= second);
    } else {
        assert((first + second).skip(1) =~= first.skip(1) + second);
        let effect = execute(env, first[0])->Ok_0;
        lemma_run_continues(effect.env, first.skip(1), second);
        let middle = run(effect.env, first.skip(1));
        assert(lines(effect.printed) + (middle.output + run(middle.env, second).output) =~= (lines(
            effect.printed,
        ) + middle.output) + run(middle.env, second).output);
    }
}

/// Rounding toward zero: what the quotient times the divisor leaves of the
/// dividend is smaller in magnitude than the divisor, and is not of the
/// opposite sign to the dividend.
pub proof fn lemma_truncated_quotient(a: int, b: int)
    requires
        b != 0,
    ensures
        ({
            let q = truncated_quotient(a, b);
            let r = a - q * b;
            &&& a >= 0 ==> 0 <= r
            &&& a <= 0 ==> r <= 0
            &&& b > 0 ==> -b < r < b
            &&& b < 0 ==> b < r < -b
        }),
{
    let q = truncated_quotient(a, b);
    if a >= 0 && b > 0 {
        vstd::arithmetic::div_mod::lemma_fundamental_div_mod(a, b);
        vstd::arithmetic::div_mod::lemma_mod_bound(a, b);
    } else if a >= 0 {
        vstd::arithmetic::div_mod::lemma_fundamental_div_mod(a, -b);
        vstd::arithmetic::div_mod::lemma_mod_bound(a, -b);
        assert(q * b == (-b) * (a / (-b))) by (nonlinear_arith)
            requires
                q == -(a / (-b)),
        ;
    } else if b > 0 {
        vstd::arithmetic::div_mod::lemma_fundamental_div_mod(-a, b);
        vstd::arithmetic::div_mod::lemma_mod_bound(-a, b);
        assert(q * b == -(b * ((-a) / b))) by (nonlinear_arith)
            requires
                q == -((-a) / b),
        ;
    } else {
        vstd::arithmetic::div_mod::lemma_fundamental_div_mod(-a, -b);
        vstd::arithmetic::div_mod::lemma_mod_bound(-a, -b);
        assert(q * b == -((-b) * ((-a) / (-b)))) by (nonlinear_arith)
            requires
                q == (-a) / (-b),
        ;
    }
}

/// A run that ends with a fault is the run of the statements in front of the
/// failing one: the statements behind it add nothing.
pub proof fn lemma_fault_ends_run(env: Environment, listing: Seq<StatementView>, extra: Seq<StatementView>)
    requires
        run(env, listing).fault is Some,
    ensures
        run(env, listing + extra) == run(env, listing),
    decreases listing.len(),
{
    if listing.len() > 0 {
        assert((listing + extra).skip(1) =~= listing.skip(1) + extra);
        if let Ok(effect) = execute(env, listing[0]) {
            lemma_fault_ends_run(effect.env, listing.skip(1), extra);
        }
    }
}

} // verus!
