//! What evaluation means, as spec functions. Numbers are IEEE binary64 bit
//! patterns; the operations that round (decoding a literal, `+ - * /`) are the
//! parameter `ar`, so the meaning is stated for every such backend.
use vstd::prelude::*;
use crate::token::{Token, TokenType};
use crate::expr::{Expr, Literal};
use crate::stmt::Stmt;
use crate::value::{Val, truthy, values_equal, float_neg, float_lt, float_le, is_zero};
use crate::environment::{
    Failure, lookup, assign_in, define_in, undefined_message, scope_names, same_names, lemma_same_names_trans,
    lemma_assign_names, find,
};

verus! {

/// A numeric operation that rounds: the caller's arithmetic performs it.
pub enum NumberTask {
    /// The binary64 value nearest to a decimal literal's text.
    Decode(String),
    Add(u64, u64),
    Subtract(u64, u64),
    Multiply(u64, u64),
    Divide(u64, u64),
}

/// `ar` gives the results that `f` returns.
pub open spec fn agrees<F: Fn(NumberTask) -> u64>(f: F, ar: spec_fn(NumberTask) -> u64) -> bool {
    forall|t: NumberTask, r: u64| #[trigger] f.ensures((t,), r) ==> r == ar(t)
}

pub open spec fn operand_message() -> Seq<char> {
    "Operand must be a number."@
}

pub open spec fn plus_message() -> Seq<char> {
    "Operands must be two numbers or two strings."@
}

pub open spec fn division_message() -> Seq<char> {
    "Division by zero."@
}

pub open spec fn unknown_operator_message(lexeme: Seq<char>) -> Seq<char> {
    "Unknown operator: "@ + lexeme
}

pub open spec fn unknown_unary_message(lexeme: Seq<char>) -> Seq<char> {
    "Unknown unary operator: "@ + lexeme
}

pub open spec fn literal_val(l: Literal, ar: spec_fn(NumberTask) -> u64) -> Val {
    match l {
        Literal::Str(s) => Val::Str(s@),
        Literal::Number(t) => Val::Num(ar(NumberTask::Decode(t))),
        Literal::Bool(b) => Val::Bool(b),
        Literal::Nil => Val::Nil,
    }
}

pub open spec fn unary_result(op: Token, v: Val) -> Result<Val, Failure> {
    if op.token_type == TokenType::MINUS {
        match v {
            Val::Num(b) => Ok(Val::Num(float_neg(b))),
            _ => Err(Failure { message: operand_message(), line: op.line as int }),
        }
    } else if op.token_type == TokenType::BANG {
        Ok(Val::Bool(!truthy(v)))
    } else {
        Err(Failure { message: unknown_unary_message(op.lexeme@), line: op.line as int })
    }
}

/// The operators that take two numbers.
pub open spec fn numeric_operator(k: TokenType) -> bool {
    k == TokenType::MINUS || k == TokenType::STAR || k == TokenType::SLASH || k == TokenType::GREATER || k
        == TokenType::GREATER_EQUAL || k == TokenType::LESS || k == TokenType::LESS_EQUAL
}

pub open spec fn numeric_result(k: TokenType, x: u64, y: u64, line: int, ar: spec_fn(NumberTask) -> u64) -> Result<
    Val,
    Failure,
> {
    if k == TokenType::MINUS {
        Ok(Val::Num(ar(NumberTask::Subtract(x, y))))
    } else if k == TokenType::STAR {
        Ok(Val::Num(ar(NumberTask::Multiply(x, y))))
    } else if k == TokenType::SLASH {
        if is_zero(y) {
            Err(Failure { message: division_message(), line })
        } else {
            Ok(Val::Num(ar(NumberTask::Divide(x, y))))
        }
    } else if k == TokenType::GREATER {
        Ok(Val::Bool(float_lt(y, x)))
    } else if k == TokenType::GREATER_EQUAL {
        Ok(Val::Bool(float_le(y, x)))
    } else if k == TokenType::LESS {
        Ok(Val::Bool(float_lt(x, y)))
    } else {
        Ok(Val::Bool(float_le(x, y)))
    }
}

pub open spec fn binary_result(op: Token, a: Val, b: Val, ar: spec_fn(NumberTask) -> u64) -> Result<Val, Failure> {
    let k = op.token_type;
    let line = op.line as int;
    if k == TokenType::PLUS {
        match (a, b) {
            (Val::Str(x), Val::Str(y)) => Ok(Val::Str(x + y)),
            (Val::Num(x), Val::Num(y)) => Ok(Val::Num(ar(NumberTask::Add(x, y)))),
            _ => Err(Failure { message: plus_message(), line }),
        }
    } else if k == TokenType::EQUAL_EQUAL {
        Ok(Val::Bool(values_equal(a, b)))
    } else if k == TokenType::BANG_EQUAL {
        Ok(Val::Bool(!values_equal(a, b)))
    } else if numeric_operator(k) {
        match (a, b) {
            (Val::Num(x), Val::Num(y)) => numeric_result(k, x, y, line, ar),
            _ => Err(Failure { message: operand_message(), line }),
        }
    } else {
        Err(Failure { message: unknown_operator_message(op.lexeme@), line })
    }
}

/// The value of `e` in the scopes `env`, and the scopes after it.
pub open spec fn eval(e: Expr, env: Seq<Seq<(Seq<char>, Val)>>, ar: spec_fn(NumberTask) -> u64) -> (
    Result<Val, Failure>,
    Seq<Seq<(Seq<char>, Val)>>,
)
    decreases e,
{
    match e {
        Expr::Literal(l) => (Ok(literal_val(l, ar)), env),
        Expr::Grouping(inner) => eval(*inner, env, ar),
        Expr::Variable(name) => match lookup(env, name.lexeme@) {
            Some(v) => (Ok(v), env),
            None => (Err(Failure { message: undefined_message(name.lexeme@), line: name.line as int }), env),
        },
        Expr::Assign { name, value } => {
            let (r, env1) = eval(*value, env, ar);
            match r {
                Err(f) => (Err(f), env1),
                Ok(v) => match assign_in(env1, name.lexeme@, v) {
                    Some(env2) => (Ok(v), env2),
                    None => (
                        Err(Failure { message: undefined_message(name.lexeme@), line: name.line as int }),
                        env1,
                    ),
                },
            }
        },
        Expr::Unary { operator, right } => {
            let (r, env1) = eval(*right, env, ar);
            match r {
                Err(f) => (Err(f), env1),
                Ok(v) => (unary_result(operator, v), env1),
            }
        },
        Expr::Binary { left, operator, right } => {
            let (r1, env1) = eval(*left, env, ar);
            match r1 {
                Err(f) => (Err(f), env1),
                Ok(a) => {
                    let (r2, env2) = eval(*right, env1, ar);
                    match r2 {
                        Err(f) => (Err(f), env2),
                        Ok(b) => (binary_result(operator, a, b, ar), env2),
                    }
                },
            }
        },
    }
}

/// `define` on the innermost scope.
pub open spec fn define_scopes(env: Seq<Seq<(Seq<char>, Val)>>, name: Seq<char>, v: Val) -> Seq<
    Seq<(Seq<char>, Val)>,
> {
    if env.len() == 0 {
        env
    } else {
        env.update(env.len() - 1, define_in(env.last(), name, v))
    }
}

/// Running `s`: its outcome, the scopes after it, and the printed values
/// after it (those before it are `out`).
pub open spec fn exec_stmt(
    s: Stmt,
    env: Seq<Seq<(Seq<char>, Val)>>,
    out: Seq<Val>,
    ar: spec_fn(NumberTask) -> u64,
) -> (Result<(), Failure>, Seq<Seq<(Seq<char>, Val)>>, Seq<Val>)
    decreases s, 0int,
{
    match s {
        Stmt::Expression(e) => {
            let (r, env1) = eval(e, env, ar);
            match r {
                Ok(_) => (Ok(()), env1, out),
                Err(f) => (Err(f), env1, out),
            }
        },
        Stmt::Print(e) => {
            let (r, env1) = eval(e, env, ar);
            match r {
                Ok(v) => (Ok(()), env1, out.push(v)),
                Err(f) => (Err(f), env1, out),
            }
        },
        Stmt::Var { name, initializer } => match initializer {
            None => (Ok(()), define_scopes(env, name.lexeme@, Val::Nil), out),
            Some(e) => {
                let (r, env1) = eval(e, env, ar);
                match r {
                    Ok(v) => (Ok(()), define_scopes(env1, name.lexeme@, v), out),
                    Err(f) => (Err(f), env1, out),
                }
            },
        },
        Stmt::Block(v) => {
            let (r, env1, out1) = exec_list(v@, 0, env.push(Seq::empty()), out, ar);
            (r, env1.drop_last(), out1)
        },
    }
}

/// Running `ss[i..]` in order, stopping at the first failure.
pub open spec fn exec_list(
    ss: Seq<Stmt>,
    i: int,
    env: Seq<Seq<(Seq<char>, Val)>>,
    out: Seq<Val>,
    ar: spec_fn(NumberTask) -> u64,
) -> (Result<(), Failure>, Seq<Seq<(Seq<char>, Val)>>, Seq<Val>)
    decreases ss, ss.len() - i,
{
    if 0 <= i < ss.len() {
        let (r, env1, out1) = exec_stmt(ss[i], env, out, ar);
        match r {
            Err(f) => (Err(f), env1, out1),
            Ok(_) => exec_list(ss, i + 1, env1, out1, ar),
        }
    } else {
        (Ok(()), env, out)
    }
}

proof fn lemma_eval_names(e: Expr, env: Seq<Seq<(Seq<char>, Val)>>, ar: spec_fn(NumberTask) -> u64)
    ensures
        same_names(env, eval(e, env, ar).1, env.len() as int),
    decreases e,
{
    match e {
        Expr::Literal(_) => {},
        Expr::Variable(_) => {},
        Expr::Grouping(inner) => {
            lemma_eval_names(*inner, env, ar);
        },
        Expr::Assign { name, value } => {
            lemma_eval_names(*value, env, ar);
            let (r, env1) = eval(*value, env, ar);
            if let Ok(v) = r {
                lemma_assign_names(env1, name.lexeme@, v);
                if let Some(env2) = assign_in(env1, name.lexeme@, v) {
                    lemma_same_names_trans(env, env1, env2, env.len() as int);
                }
            }
        },
        Expr::Unary { operator, right } => {
            lemma_eval_names(*right, env, ar);
        },
        Expr::Binary { left, operator, right } => {
            lemma_eval_names(*left, env, ar);
            let (r1, env1) = eval(*left, env, ar);
            lemma_eval_names(*right, env1, ar);
            let env2 = eval(*right, env1, ar).1;
            lemma_same_names_trans(env, env1, env2, env.len() as int);
        },
    }
}

proof fn lemma_stmt_names(s: Stmt, env: Seq<Seq<(Seq<char>, Val)>>, out: Seq<Val>, ar: spec_fn(NumberTask) -> u64)
    requires
        env.len() >= 1,
    ensures
        same_names(env, exec_stmt(s, env, out, ar).1, env.len() - 1),
    decreases s, 0int,
{
    match s {
        Stmt::Expression(e) => {
            lemma_eval_names(e, env, ar);
        },
        Stmt::Print(e) => {
            lemma_eval_names(e, env, ar);
        },
        Stmt::Var { name, initializer } => {
            let env1 = match initializer {
                None => env,
                Some(e) => {
                    lemma_eval_names(e, env, ar);
                    eval(e, env, ar).1
                },
            };
            let v = match initializer {
                None => Val::Nil,
                Some(e) => match eval(e, env, ar).0 {
                    Ok(v) => v,
                    Err(_) => Val::Nil,
                },
            };
            let env2 = define_scopes(env1, name.lexeme@, v);
            assert forall|d: int| 0 <= d < env.len() - 1 implies #[trigger] scope_names(env2[d]) == scope_names(
                env[d],
            ) by {
                assert(scope_names(env1[d]) == scope_names(env[d]));
            }
        },
        Stmt::Block(v) => {
            let inner = env.push(Seq::empty());
            lemma_list_names(v@, 0, inner, out, ar);
            let env1 = exec_list(v@, 0, inner, out, ar).1;
            let env2 = env1.drop_last();
            assert forall|d: int| 0 <= d < env.len() - 1 implies #[trigger] scope_names(env2[d]) == scope_names(
                env[d],
            ) by {
                assert(scope_names(env1[d]) == scope_names(inner[d]));
            }
        },
    }
}

proof fn lemma_list_names(
    ss: Seq<Stmt>,
    i: int,
    env: Seq<Seq<(Seq<char>, Val)>>,
    out: Seq<Val>,
    ar: spec_fn(NumberTask) -> u64,
)
    requires
        env.len() >= 1,
    ensures
        same_names(env, exec_list(ss, i, env, out, ar).1, env.len() - 1),
    decreases ss, ss.len() - i,
{
    if 0 <= i < ss.len() {
        lemma_stmt_names(ss[i], env, out, ar);
        let (r, env1, out1) = exec_stmt(ss[i], env, out, ar);
        if r is Ok {
            lemma_list_names(ss, i + 1, env1, out1, ar);
            lemma_same_names_trans(env, env1, exec_list(ss, i + 1, env1, out1, ar).1, env.len() - 1);
        }
    }
}

/// A block's own declarations end with it: after running a block, whatever
/// its outcome, the environment has as many scopes as before and every
/// scope binds exactly the names it bound before, in the same order. Only
/// values can change, through assignment to names declared outside.
pub proof fn lemma_block_confines_declarations(
    v: Vec<Stmt>,
    env: Seq<Seq<(Seq<char>, Val)>>,
    out: Seq<Val>,
    ar: spec_fn(NumberTask) -> u64,
)
    requires
        env.len() >= 1,
    ensures
        same_names(env, exec_stmt(Stmt::Block(v), env, out, ar).1, env.len() as int),
{
    let inner = env.push(Seq::empty());
    lemma_list_names(v@, 0, inner, out, ar);
    let env1 = exec_list(v@, 0, inner, out, ar).1;
    let env2 = env1.drop_last();
    assert forall|d: int| 0 <= d < env.len() implies #[trigger] scope_names(env2[d]) == scope_names(env[d]) by {
        assert(scope_names(env1[d]) == scope_names(inner[d]));
    }
}

/// Assignment inside a block reaches the scopes around it and stays after
/// the block: when the block's own scope `inner` does not bind `name`,
/// assigning with `inner` innermost and then dropping `inner` gives exactly
/// what assigning in the enclosing scopes gives, and fails exactly when that fails.
pub proof fn lemma_assignment_persists(
    env: Seq<Seq<(Seq<char>, Val)>>,
    inner: Seq<(Seq<char>, Val)>,
    name: Seq<char>,
    v: Val,
)
    requires
        find(inner, name) == -1,
    ensures
        match assign_in(env.push(inner), name, v) {
            Some(s) => assign_in(env, name, v) == Some(s.drop_last()),
            None => assign_in(env, name, v) is None,
        },
{
    assert(env.push(inner).drop_last() =~= env);
    match assign_in(env, name, v) {
        Some(outer) => {
            assert(outer.push(inner).drop_last() =~= outer);
        },
        None => {},
    }
}

} // verus!
