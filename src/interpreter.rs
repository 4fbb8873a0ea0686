//! The tree-walking evaluator. The arithmetic that rounds comes from the
//! caller as `arith`; every result is proved equal to `semantics` for each
//! backend `ar` that agrees with it.
use vstd::prelude::*;
use crate::token::{Token, TokenType};
use crate::expr::{Expr, Literal};
use crate::stmt::Stmt;
use crate::value::{LiteralValue, Number, Val};
use crate::environment::{Environment, Failure, RuntimeError, lemma_assign_in_len};
use crate::semantics::{NumberTask, agrees, unary_result, binary_result, eval, exec_stmt, exec_list};

verus! {

/// The evaluator's result for an expression, against the semantics'.
pub open spec fn value_outcome(
    r: Result<LiteralValue, RuntimeError>,
    env: Seq<Seq<(Seq<char>, Val)>>,
    s: (Result<Val, Failure>, Seq<Seq<(Seq<char>, Val)>>),
) -> bool {
    &&& env == s.1
    &&& match (r, s.0) {
        (Ok(v), Ok(w)) => v@ == w,
        (Err(e), Err(f)) => e@ == f,
        _ => false,
    }
}

/// The evaluator's result for statements, against the semantics'.
pub open spec fn run_outcome(
    r: Result<(), RuntimeError>,
    env: Seq<Seq<(Seq<char>, Val)>>,
    out: Seq<Val>,
    s: (Result<(), Failure>, Seq<Seq<(Seq<char>, Val)>>, Seq<Val>),
) -> bool {
    &&& env == s.1
    &&& out == s.2
    &&& match (r, s.0) {
        (Ok(_), Ok(_)) => true,
        (Err(e), Err(f)) => e@ == f,
        _ => false,
    }
}

/// The result of one operator on two values, against the semantics'.
pub open spec fn step_outcome(r: Result<LiteralValue, RuntimeError>, s: Result<Val, Failure>) -> bool {
    match (r, s) {
        (Ok(v), Ok(w)) => v@ == w,
        (Err(e), Err(f)) => e@ == f,
        _ => false,
    }
}

pub open spec fn values_view(v: Seq<LiteralValue>) -> Seq<Val> {
    v.map_values(|x: LiteralValue| x@)
}

/// The runtime rendering of a value that is not a number.
pub open spec fn runtime_text(v: Val) -> Seq<char> {
    match v {
        Val::Str(s) => s,
        Val::Bool(b) => if b { "true"@ } else { "false"@ },
        Val::Nil => "nil"@,
        Val::Num(_) => Seq::empty(),
    }
}

fn fail(message: &str, line: usize) -> (r: RuntimeError)
    ensures
        r@ == (Failure { message: message@, line: line as int }),
{
    RuntimeError { message: String::from_str(message), line }
}

fn fail_with(message: &str, lexeme: &String, line: usize) -> (r: RuntimeError)
    ensures
        r@ == (Failure { message: message@ + lexeme@, line: line as int }),
{
    let mut m = String::from_str(message);
    m.append(lexeme.as_str());
    RuntimeError { message: m, line }
}

/// Evaluates expressions and runs statements against one environment,
/// keeping what `print` wrote.
pub struct Interpreter {
    environment: Environment,
    output: Vec<LiteralValue>,
}

impl Interpreter {
    pub closed spec fn env_view(&self) -> Seq<Seq<(Seq<char>, Val)>> {
        self.environment@
    }

    pub closed spec fn output_view(&self) -> Seq<Val> {
        values_view(self.output@)
    }

    pub closed spec fn wf(&self) -> bool {
        self.environment.wf()
    }

    pub fn new() -> (r: Interpreter)
        ensures
            r.wf(),
            r.env_view() == seq![Seq::<(Seq<char>, Val)>::empty()],
            r.output_view() == Seq::<Val>::empty(),
    {
        let r = Interpreter { environment: Environment::new(), output: Vec::new() };
        assert(r.output_view() =~= Seq::<Val>::empty());
        r
    }

    /// Hands over what `print` wrote since the last call, in order.
    pub fn take_output(&mut self) -> (r: Vec<LiteralValue>)
        requires
            old(self).wf(),
        ensures
            final(self).wf(),
            values_view(r@) == old(self).output_view(),
            final(self).output_view() == Seq::<Val>::empty(),
            final(self).env_view() == old(self).env_view(),
    {
        let mut r: Vec<LiteralValue> = Vec::new();
        core::mem::swap(&mut r, &mut self.output);
        assert(self.output_view() =~= Seq::<Val>::empty());
        r
    }

    /// The runtime rendering of a value: a string as its text, `true`,
    /// `false` and `nil` as such, a number as `render` formats its bits.
    pub fn literal_to_string<R: Fn(u64) -> String>(&self, value: LiteralValue, render: &R) -> (r: String)
        requires
            forall|b: u64| render.requires((b,)),
        ensures
            value@ matches Val::Num(b) ==> render.ensures((b,), r),
            !(value@ is Num) ==> r@ == runtime_text(value@),
    {
        match value {
            LiteralValue::StringLiteral(s) => s,
            LiteralValue::NumberLiteral(n) => render(n.bits),
            LiteralValue::BooleanLiteral(b) => if b {
                String::from_str("true")
            } else {
                String::from_str("false")
            },
            LiteralValue::Nil => String::from_str("nil"),
        }
    }

    /// Runs the statements in order; the first runtime error stops the run.
    pub fn interpret<F: Fn(NumberTask) -> u64>(&mut self, statements: Vec<Stmt>, arith: &F) -> (r: Result<
        (),
        RuntimeError,
    >)
        requires
            old(self).wf(),
            forall|t: NumberTask| arith.requires((t,)),
        ensures
            final(self).wf(),
            forall|ar: spec_fn(NumberTask) -> u64|
                agrees(*arith, ar) ==> run_outcome(
                    r,
                    final(self).env_view(),
                    final(self).output_view(),
                    exec_list(statements@, 0, old(self).env_view(), old(self).output_view(), ar),
                ),
    {
        self.execute_all(&statements, arith)
    }

    /// The value of `expr`; assignments in it change the environment.
    pub fn evaluate<F: Fn(NumberTask) -> u64>(&mut self, expr: &Expr, arith: &F) -> (r: Result<
        LiteralValue,
        RuntimeError,
    >)
        requires
            old(self).wf(),
            forall|t: NumberTask| arith.requires((t,)),
        ensures
            final(self).wf(),
            final(self).output_view() == old(self).output_view(),
            final(self).env_view().len() == old(self).env_view().len(),
            forall|ar: spec_fn(NumberTask) -> u64|
                agrees(*arith, ar) ==> value_outcome(r, final(self).env_view(), eval(*expr, old(self).env_view(), ar)),
        decreases expr,
    {
        match expr {
            Expr::Literal(l) => {
                let v = match l {
                    Literal::Str(s) => LiteralValue::StringLiteral(s.clone()),
                    Literal::Number(t) => {
                        let bits = arith(NumberTask::Decode(t.clone()));
                        LiteralValue::NumberLiteral(Number { bits })
                    },
                    Literal::Bool(b) => LiteralValue::BooleanLiteral(*b),
                    Literal::Nil => LiteralValue::Nil,
                };
                Ok(v)
            },
            Expr::Grouping(inner) => self.evaluate(inner, arith),
            Expr::Variable(name) => self.environment.get(name.lexeme.as_str(), name.line),
            Expr::Assign { name, value } => {
                let v = match self.evaluate(value, arith) {
                    Ok(v) => v,
                    Err(e) => return Err(e),
                };
                let ghost env1 = self.environment@;
                proof {
                    lemma_assign_in_len(env1, name.lexeme@, v@);
                }
                match self.environment.assign(name.lexeme.as_str(), v.duplicate(), name.line) {
                    Ok(()) => Ok(v),
                    Err(e) => Err(e),
                }
            },
            Expr::Unary { operator, right } => {
                let v = match self.evaluate(right, arith) {
                    Ok(v) => v,
                    Err(e) => return Err(e),
                };
                visit_unary(operator, v)
            },
            Expr::Binary { left, operator, right } => {
                let a = match self.evaluate(left, arith) {
                    Ok(v) => v,
                    Err(e) => return Err(e),
                };
                let b = match self.evaluate(right, arith) {
                    Ok(v) => v,
                    Err(e) => return Err(e),
                };
                visit_binary(operator, a, b, arith)
            },
        }
    }

    fn execute<F: Fn(NumberTask) -> u64>(&mut self, stmt: &Stmt, arith: &F) -> (r: Result<(), RuntimeError>)
        requires
            old(self).wf(),
            forall|t: NumberTask| arith.requires((t,)),
        ensures
            final(self).wf(),
            final(self).env_view().len() == old(self).env_view().len(),
            forall|ar: spec_fn(NumberTask) -> u64|
                agrees(*arith, ar) ==> run_outcome(
                    r,
                    final(self).env_view(),
                    final(self).output_view(),
                    exec_stmt(*stmt, old(self).env_view(), old(self).output_view(), ar),
                ),
        decreases stmt, 2int,
    {
        match stmt {
            Stmt::Expression(e) => {
                match self.evaluate(e, arith) {
                    Ok(_) => Ok(()),
                    Err(err) => Err(err),
                }
            },
            Stmt::Print(e) => {
                let v = match self.evaluate(e, arith) {
                    Ok(v) => v,
                    Err(err) => return Err(err),
                };
                let ghost before = self.output@;
                self.output.push(v);
                assert(values_view(self.output@) =~= values_view(before).push(v@));
                Ok(())
            },
            Stmt::Var { name, initializer } => {
                let v = match initializer {
                    Some(e) => match self.evaluate(e, arith) {
                        Ok(v) => v,
                        Err(err) => return Err(err),
                    },
                    None => LiteralValue::Nil,
                };
                self.environment.define(name.lexeme.clone(), v);
                Ok(())
            },
            Stmt::Block(statements) => self.execute_block(statements, arith),
        }
    }

    /// Runs a block in a new innermost scope, dropped afterwards whatever happened.
    fn execute_block<F: Fn(NumberTask) -> u64>(&mut self, statements: &Vec<Stmt>, arith: &F) -> (r: Result<
        (),
        RuntimeError,
    >)
        requires
            old(self).wf(),
            forall|t: NumberTask| arith.requires((t,)),
        ensures
            final(self).wf(),
            final(self).env_view().len() == old(self).env_view().len(),
            forall|ar: spec_fn(NumberTask) -> u64|
                agrees(*arith, ar) ==> run_outcome(
                    r,
                    final(self).env_view(),
                    final(self).output_view(),
                    exec_stmt(Stmt::Block(*statements), old(self).env_view(), old(self).output_view(), ar),
                ),
        decreases statements, 1int,
    {
        self.environment.enter_scope();
        let r = self.execute_all(statements, arith);
        self.environment.exit_scope();
        r
    }

    fn execute_all<F: Fn(NumberTask) -> u64>(&mut self, statements: &Vec<Stmt>, arith: &F) -> (r: Result<
        (),
        RuntimeError,
    >)
        requires
            old(self).wf(),
            forall|t: NumberTask| arith.requires((t,)),
        ensures
            final(self).wf(),
            final(self).env_view().len() == old(self).env_view().len(),
            forall|ar: spec_fn(NumberTask) -> u64|
                agrees(*arith, ar) ==> run_outcome(
                    r,
                    final(self).env_view(),
                    final(self).output_view(),
                    exec_list(statements@, 0, old(self).env_view(), old(self).output_view(), ar),
                ),
        decreases statements, 0int,
    {
        let ghost env0 = self.env_view();
        let ghost out0 = self.output_view();
        let mut i: usize = 0;
        while i < statements.len()
            invariant
                self.wf(),
                i <= statements@.len(),
                self.env_view().len() == env0.len(),
                env0 == old(self).env_view(),
                out0 == old(self).output_view(),
                forall|t: NumberTask| arith.requires((t,)),
                forall|ar: spec_fn(NumberTask) -> u64|
                    agrees(*arith, ar) ==> exec_list(statements@, 0, env0, out0, ar) == exec_list(
                        statements@,
                        i as int,
                        self.env_view(),
                        self.output_view(),
                        ar,
                    ),
            decreases statements@.len() - i,
        {
            let r = self.execute(&statements[i], arith);
            match r {
                Ok(()) => {},
                Err(e) => {
                    return Err(e);
                },
            }
            i = i + 1;
        }
        Ok(())
    }
}

fn visit_unary(operator: &Token, v: LiteralValue) -> (r: Result<LiteralValue, RuntimeError>)
    ensures
        step_outcome(r, unary_result(*operator, v@)),
{
    if operator.token_type == TokenType::MINUS {
        match v {
            LiteralValue::NumberLiteral(n) => Ok(LiteralValue::NumberLiteral(n.negate())),
            _ => Err(fail("Operand must be a number.", operator.line)),
        }
    } else if operator.token_type == TokenType::BANG {
        Ok(LiteralValue::BooleanLiteral(!v.is_truthy()))
    } else {
        Err(fail_with("Unknown unary operator: ", &operator.lexeme, operator.line))
    }
}

fn visit_binary<F: Fn(NumberTask) -> u64>(operator: &Token, a: LiteralValue, b: LiteralValue, arith: &F) -> (r: Result<
    LiteralValue,
    RuntimeError,
>)
    requires
        forall|t: NumberTask| arith.requires((t,)),
    ensures
        forall|ar: spec_fn(NumberTask) -> u64|
            agrees(*arith, ar) ==> step_outcome(r, binary_result(*operator, a@, b@, ar)),
{
    let k = operator.token_type;
    let line = operator.line;
    if k == TokenType::PLUS {
        match (a, b) {
            (LiteralValue::StringLiteral(x), LiteralValue::StringLiteral(y)) => {
                let mut s = x;
                s.append(y.as_str());
                Ok(LiteralValue::StringLiteral(s))
            },
            (LiteralValue::NumberLiteral(x), LiteralValue::NumberLiteral(y)) => {
                let bits = arith(NumberTask::Add(x.bits, y.bits));
                Ok(LiteralValue::NumberLiteral(Number { bits }))
            },
            _ => Err(fail("Operands must be two numbers or two strings.", line)),
        }
    } else if k == TokenType::EQUAL_EQUAL {
        Ok(LiteralValue::BooleanLiteral(a.equals(&b)))
    } else if k == TokenType::BANG_EQUAL {
        Ok(LiteralValue::BooleanLiteral(!a.equals(&b)))
    } else if k == TokenType::MINUS || k == TokenType::STAR || k == TokenType::SLASH || k == TokenType::GREATER
        || k == TokenType::GREATER_EQUAL || k == TokenType::LESS || k == TokenType::LESS_EQUAL {
        match (a, b) {
            (LiteralValue::NumberLiteral(x), LiteralValue::NumberLiteral(y)) => {
                if k == TokenType::MINUS {
                    let bits = arith(NumberTask::Subtract(x.bits, y.bits));
                    Ok(LiteralValue::NumberLiteral(Number { bits }))
                } else if k == TokenType::STAR {
                    let bits = arith(NumberTask::Multiply(x.bits, y.bits));
                    Ok(LiteralValue::NumberLiteral(Number { bits }))
                } else if k == TokenType::SLASH {
                    if y.is_zero() {
                        Err(fail("Division by zero.", line))
                    } else {
                        let bits = arith(NumberTask::Divide(x.bits, y.bits));
                        Ok(LiteralValue::NumberLiteral(Number { bits }))
                    }
                } else if k == TokenType::GREATER {
                    Ok(LiteralValue::BooleanLiteral(y.less(&x)))
                } else if k == TokenType::GREATER_EQUAL {
                    Ok(LiteralValue::BooleanLiteral(y.less_equal(&x)))
                } else if k == TokenType::LESS {
                    Ok(LiteralValue::BooleanLiteral(x.less(&y)))
                } else {
                    Ok(LiteralValue::BooleanLiteral(x.less_equal(&y)))
                }
            },
            _ => Err(fail("Operand must be a number.", line)),
        }
    } else {
        Err(fail_with("Unknown operator: ", &operator.lexeme, line))
    }
}

} // verus!
