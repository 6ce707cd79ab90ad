//! The meaning of programs: a specification-level interpreter.
//!
//! Expressions always terminate, so their meaning is a structurally
//! recursive function.  Statements may loop, so their meaning takes
//! fuel: `None` means the fuel ran out, and a larger fuel never changes
//! a settled outcome (`lemma_stmt_fuel_monotone`).
use vstd::prelude::*;
use crate::ast::{Expr, Stmt, expr_start, expr_len, stmt_start, stmt_len};
use crate::num::{num_add, num_sub, num_mul, num_div, num_mod, num_neg};
use crate::scope::{EnvM, env_define, env_get, env_has, env_set};
use crate::value::{ValM, truthy, val_text};

verus! {

/// A runtime error: its message and the source span it points at.
pub struct RunErr {
    pub msg: Seq<char>,
    pub start: nat,
    pub len: nat,
}

pub open spec fn span_of(e: &Expr) -> (nat, nat) {
    (expr_start(e) as nat, expr_len(e) as nat)
}

pub open spec fn err_at(msg: Seq<char>, span: (nat, nat)) -> RunErr {
    RunErr { msg: msg, start: span.0, len: span.1 }
}

/// Lexicographic order on text by character code.
pub open spec fn seq_lt(a: Seq<char>, b: Seq<char>) -> bool
    decreases a.len(),
{
    if b.len() == 0 {
        false
    } else if a.len() == 0 {
        true
    } else if a[0] != b[0] {
        a[0] < b[0]
    } else {
        seq_lt(a.skip(1), b.skip(1))
    }
}

/// What an ordering operator yields on two values: numbers compare as
/// numbers, text compares lexicographically, anything else is an error
/// at the left operand.
pub open spec fn eval_compare(op: crate::value::TokenType, l: ValM, r: ValM, lspan: (nat, nat)) -> Result<
    ValM,
    RunErr,
> {
    match (l, r) {
        (ValM::Str(a), ValM::Str(b)) => Ok(
            ValM::Bool(
                match op {
                    crate::value::TokenType::Less => seq_lt(a, b),
                    crate::value::TokenType::LessEqual => !seq_lt(b, a),
                    crate::value::TokenType::Greater => seq_lt(b, a),
                    _ => !seq_lt(a, b),
                },
            ),
        ),
        (ValM::Num(a), ValM::Num(b)) => Ok(
            ValM::Bool(
                match op {
                    crate::value::TokenType::Less => a < b,
                    crate::value::TokenType::LessEqual => a <= b,
                    crate::value::TokenType::Greater => a > b,
                    _ => a >= b,
                },
            ),
        ),
        _ => Err(err_at("expected number or string"@, lspan)),
    }
}

/// What a binary operator yields on two evaluated operands.
pub open spec fn eval_binary(
    op: crate::value::TokenType,
    l: ValM,
    r: ValM,
    lspan: (nat, nat),
    rspan: (nat, nat),
) -> Result<ValM, RunErr> {
    match op {
        crate::value::TokenType::EqualEqual => Ok(ValM::Bool(l == r)),
        crate::value::TokenType::BangEqual => Ok(ValM::Bool(l != r)),
        crate::value::TokenType::Less => eval_compare(op, l, r, lspan),
        crate::value::TokenType::LessEqual => eval_compare(op, l, r, lspan),
        crate::value::TokenType::Greater => eval_compare(op, l, r, lspan),
        crate::value::TokenType::GreaterEqual => eval_compare(op, l, r, lspan),
        crate::value::TokenType::Plus => match (l, r) {
            (ValM::Num(a), ValM::Num(b)) => Ok(ValM::Num(num_add(a, b))),
            (ValM::Str(a), ValM::Str(b)) => Ok(ValM::Str(a + b)),
            (ValM::Num(_), _) => Err(err_at("expected two numbers or two strings"@, rspan)),
            (ValM::Str(_), _) => Err(err_at("expected two numbers or two strings"@, rspan)),
            _ => Err(err_at("expected two numbers or two strings"@, lspan)),
        },
        _ => match (l, r) {
            (ValM::Num(a), ValM::Num(b)) => Ok(
                ValM::Num(
                    match op {
                        crate::value::TokenType::Minus => num_sub(a, b),
                        crate::value::TokenType::Star => num_mul(a, b),
                        crate::value::TokenType::Slash => num_div(a, b),
                        _ => num_mod(a, b),
                    },
                ),
            ),
            (ValM::Num(_), _) => Err(err_at("expected two numbers"@, rspan)),
            _ => Err(err_at("expected two numbers"@, lspan)),
        },
    }
}

/// What a unary operator yields on its evaluated operand.
pub open spec fn eval_unary(op: crate::value::TokenType, v: ValM, span: (nat, nat)) -> Result<
    ValM,
    RunErr,
> {
    if op == crate::value::TokenType::Bang {
        Ok(ValM::Bool(!truthy(v)))
    } else {
        match v {
            ValM::Num(n) => Ok(ValM::Num(num_neg(n))),
            _ => Err(err_at("expected number"@, span)),
        }
    }
}

/// The meaning of an expression: the environment it leaves behind and
/// the value or runtime error it produces.  Operands evaluate left to
/// right; logical operators short-circuit.
pub open spec fn eval_expr_s(env: EnvM, e: &Expr) -> (EnvM, Result<ValM, RunErr>)
    decreases e,
{
    match e {
        Expr::Literal { value, .. } => (env, Ok(value@)),
        Expr::Grouping { expr, .. } => eval_expr_s(env, expr),
        Expr::Unary { oper, expr, .. } => {
            let (env1, r) = eval_expr_s(env, expr);
            match r {
                Ok(v) => (env1, eval_unary(*oper, v, span_of(expr))),
                Err(er) => (env1, Err(er)),
            }
        },
        Expr::Binary { left, oper, right, .. } => {
            let (env1, rl) = eval_expr_s(env, left);
            match rl {
                Ok(lv) => {
                    let (env2, rr) = eval_expr_s(env1, right);
                    match rr {
                        Ok(rv) => (env2, eval_binary(*oper, lv, rv, span_of(left), span_of(right))),
                        Err(er) => (env2, Err(er)),
                    }
                },
                Err(er) => (env1, Err(er)),
            }
        },
        Expr::Logical { oper, left, right, .. } => {
            let (env1, rl) = eval_expr_s(env, left);
            match rl {
                Ok(lv) => {
                    if (*oper == crate::value::TokenType::And && !truthy(lv)) || (*oper
                        != crate::value::TokenType::And && truthy(lv)) {
                        (env1, Ok(lv))
                    } else {
                        eval_expr_s(env1, right)
                    }
                },
                Err(er) => (env1, Err(er)),
            }
        },
        Expr::VarGet { name, start, len } => (
            env,
            match env_get(env, name@) {
                Some(v) => Ok(v),
                None => Err(
                    err_at("undefined variable"@, (*start as nat, *len as nat)),
                ),
            },
        ),
        Expr::VarSet { name, expr, start, len } => {
            let (env1, r) = eval_expr_s(env, expr);
            match r {
                Ok(v) => {
                    if env_has(env1, name@) {
                        (env_set(env1, name@, v), Ok(v))
                    } else {
                        (env1, Err(err_at("undefined variable"@, (*start as nat, *len as nat))))
                    }
                },
                Err(er) => (env1, Err(er)),
            }
        },
        Expr::Call { callee, args, .. } => {
            let (env1, rc) = eval_expr_s(env, callee);
            match rc {
                Ok(cv) => {
                    if cv is Fn {
                        let (env2, ra) = eval_args_s(env1, args@, 0);
                        match ra {
                            Ok(_) => (env2, Ok(ValM::Nil)),
                            Err(er) => (env2, Err(er)),
                        }
                    } else {
                        (env1, Err(err_at("expected callable"@, span_of(callee))))
                    }
                },
                Err(er) => (env1, Err(er)),
            }
        },
    }
}

/// Evaluate `args[i..]` left to right, stopping at the first error.
/// Calling a function is a stub: the arguments' effects happen, and the
/// call itself yields nil.
pub open spec fn eval_args_s(env: EnvM, args: Seq<Expr>, i: int) -> (EnvM, Result<(), RunErr>)
    decreases args, args.len() - i,
{
    if i < 0 || i >= args.len() {
        (env, Ok(()))
    } else {
        let (env1, r) = eval_expr_s(env, &args[i]);
        match r {
            Ok(_) => eval_args_s(env1, args, i + 1),
            Err(er) => (env1, Err(er)),
        }
    }
}

/// The outcome of a statement: the environment left behind, the lines
/// printed, and success or a runtime error.
pub type StmtOut = (EnvM, Seq<Seq<char>>, Result<(), RunErr>);

/// The span a statement's own diagnostics point at.
pub open spec fn stmt_span(s: &Stmt) -> (nat, nat) {
    (stmt_start(s) as nat, stmt_len(s) as nat)
}

/// The meaning of a statement.  `fuel` bounds how often any loop may
/// iterate: each pass through a `while` costs one unit, and a loop that
/// is about to iterate with none left stops with a "loop budget
/// exceeded" error at the loop's span.  Everything else is exact: the
/// resulting environment, the printed lines in order, and the outcome.
pub open spec fn eval_stmt_s(fuel: nat, env: EnvM, s: &Stmt) -> StmtOut
    decreases fuel, s, 0int,
{
    match s {
        Stmt::ExprStmt { expr, .. } => {
            let (env1, r) = eval_expr_s(env, expr);
            (
                env1,
                Seq::<Seq<char>>::empty(),
                match r {
                    Ok(_) => Ok(()),
                    Err(er) => Err(er),
                },
            )
        },
        Stmt::PrintStmt { expr, .. } => {
            let (env1, r) = eval_expr_s(env, expr);
            match r {
                Ok(v) => (env1, seq![val_text(v)], Ok(())),
                Err(er) => (env1, Seq::<Seq<char>>::empty(), Err(er)),
            }
        },
        Stmt::VarStmt { name, expr, .. } => {
            match expr {
                Some(e) => {
                    let (env1, r) = eval_expr_s(env, e);
                    match r {
                        Ok(v) => (env_define(env1, name@, v), Seq::<Seq<char>>::empty(), Ok(())),
                        Err(er) => (env1, Seq::<Seq<char>>::empty(), Err(er)),
                    }
                },
                None => (env_define(env, name@, ValM::Nil), Seq::<Seq<char>>::empty(), Ok(())),
            }
        },
        Stmt::BlockStmt { stmts, .. } => {
            let pushed = seq![Map::<Seq<char>, ValM>::empty()] + env;
            let (env1, out, r) = eval_block_s(fuel, pushed, stmts@, 0);
            (env1.skip(1), out, r)
        },
        Stmt::IfStmt { expr, stmt_true, stmt_false, .. } => {
            let (env1, r) = eval_expr_s(env, expr);
            match r {
                Ok(v) => {
                    if truthy(v) {
                        eval_stmt_s(fuel, env1, stmt_true)
                    } else {
                        match stmt_false {
                            Some(sf) => eval_stmt_s(fuel, env1, sf),
                            None => (env1, Seq::<Seq<char>>::empty(), Ok(())),
                        }
                    }
                },
                Err(er) => (env1, Seq::<Seq<char>>::empty(), Err(er)),
            }
        },
        Stmt::WhileStmt { expr, stmt, .. } => {
            let (env1, r) = eval_expr_s(env, expr);
            match r {
                Ok(v) => {
                    if !truthy(v) {
                        (env1, Seq::<Seq<char>>::empty(), Ok(()))
                    } else if fuel == 0 {
                        (env1, Seq::<Seq<char>>::empty(), Err(err_at("loop budget exceeded"@, stmt_span(s))))
                    } else {
                        let (env2, out1, r1) = eval_stmt_s(fuel, env1, stmt);
                        match r1 {
                            Ok(_) => {
                                let (env3, out2, r2) = eval_stmt_s((fuel - 1) as nat, env2, s);
                                (env3, out1 + out2, r2)
                            },
                            Err(er) => (env2, out1, Err(er)),
                        }
                    }
                },
                Err(er) => (env1, Seq::<Seq<char>>::empty(), Err(er)),
            }
        },
    }
}

/// Run `stmts[i..]` in order, stopping at the first error.
pub open spec fn eval_block_s(fuel: nat, env: EnvM, stmts: Seq<Stmt>, i: int) -> StmtOut
    decreases fuel, stmts, stmts.len() - i + 1,
{
    if i < 0 || i >= stmts.len() {
        (env, Seq::<Seq<char>>::empty(), Ok(()))
    } else {
        let (env1, out1, r1) = eval_stmt_s(fuel, env, &stmts[i]);
        match r1 {
            Ok(_) => {
                let (env2, out2, r) = eval_block_s(fuel, env1, stmts, i + 1);
                (env2, out1 + out2, r)
            },
            Err(er) => (env1, out1, Err(er)),
        }
    }
}

/// Short-circuit law: in `X or Y` the right operand plays no part when
/// `X` is truthy, and in `X and Y` none when `X` is falsy — whatever
/// stands there, even something that would fail, the outcome is `X`'s
/// value.  Otherwise the outcome is exactly `Y`'s.
pub proof fn lemma_short_circuit(
    env: EnvM,
    oper: crate::value::TokenType,
    left: Expr,
    right1: Expr,
    right2: Expr,
    start: usize,
    len: usize,
)
    requires
        oper == crate::value::TokenType::And || oper == crate::value::TokenType::Or,
    ensures
        ({
            let (env1, rl) = eval_expr_s(env, &left);
            let e1 = Expr::Logical {
                start,
                len,
                left: Box::new(left),
                oper,
                right: Box::new(right1),
            };
            let e2 = Expr::Logical {
                start,
                len,
                left: Box::new(left),
                oper,
                right: Box::new(right2),
            };
            match rl {
                Ok(lv) => {
                    if (oper == crate::value::TokenType::Or && truthy(lv)) || (oper
                        == crate::value::TokenType::And && !truthy(lv)) {
                        // the right operand is skipped: both forms agree on X's value
                        eval_expr_s(env, &e1) == eval_expr_s(env, &e2) && eval_expr_s(env, &e1)
                            == (env1, Result::<ValM, RunErr>::Ok(lv))
                    } else {
                        // the right operand decides
                        eval_expr_s(env, &e1) == eval_expr_s(env1, &right1)
                    }
                },
                Err(er) => eval_expr_s(env, &e1) == (env1, Result::<ValM, RunErr>::Err(er)),
            }
        }),
{
}

/// Determinism law: the meaning of a statement is a function of the
/// program state, the statement and the loop budget alone, so two
/// executions from identical state produce identical printed lines,
/// identical environments and identical outcomes.
pub proof fn lemma_stmt_deterministic(
    fuel: nat,
    env: EnvM,
    s: &Stmt,
    o1: StmtOut,
    o2: StmtOut,
)
    requires
        o1 == eval_stmt_s(fuel, env, s),
        o2 == eval_stmt_s(fuel, env, s),
    ensures
        o1 == o2,
{
}

/// Evaluating an expression never changes how deep the scope chain is.
pub proof fn lemma_expr_env_len(env: EnvM, e: &Expr)
    ensures
        eval_expr_s(env, e).0.len() == env.len(),
    decreases e,
{
    match e {
        Expr::Grouping { expr, .. } => lemma_expr_env_len(env, expr),
        Expr::Unary { expr, .. } => lemma_expr_env_len(env, expr),
        Expr::Binary { left, right, .. } => {
            lemma_expr_env_len(env, left);
            let (env1, rl) = eval_expr_s(env, left);
            if rl is Ok {
                lemma_expr_env_len(env1, right);
            }
        },
        Expr::Logical { left, right, .. } => {
            lemma_expr_env_len(env, left);
            let (env1, rl) = eval_expr_s(env, left);
            if rl is Ok {
                lemma_expr_env_len(env1, right);
            }
        },
        Expr::VarSet { name, expr, .. } => {
            lemma_expr_env_len(env, expr);
            let (env1, r) = eval_expr_s(env, expr);
            match r {
                Ok(v) => {
                    crate::scope::lemma_env_set_len(env1, name@, v);
                },
                Err(_) => {},
            }
        },
        Expr::Call { callee, args, .. } => {
            lemma_expr_env_len(env, callee);
            let (env1, rc) = eval_expr_s(env, callee);
            if rc is Ok {
                lemma_args_env_len(env1, args@, 0);
            }
        },
        _ => {},
    }
}

pub proof fn lemma_args_env_len(env: EnvM, args: Seq<Expr>, i: int)
    ensures
        eval_args_s(env, args, i).0.len() == env.len(),
    decreases args, args.len() - i,
{
    if 0 <= i < args.len() {
        lemma_expr_env_len(env, &args[i]);
        let (env1, r) = eval_expr_s(env, &args[i]);
        if r is Ok {
            lemma_args_env_len(env1, args, i + 1);
        }
    }
}

/// A statement leaves the scope chain as deep as it found it: in
/// particular a block, ended normally or by error, restores the scope
/// that was current before it.
pub proof fn lemma_stmt_env_len(fuel: nat, env: EnvM, s: &Stmt)
    requires
        env.len() >= 1,
    ensures
        eval_stmt_s(fuel, env, s).0.len() == env.len(),
    decreases fuel, s, 0int,
{
    match s {
        Stmt::ExprStmt { expr, .. } => lemma_expr_env_len(env, expr),
        Stmt::PrintStmt { expr, .. } => lemma_expr_env_len(env, expr),
        Stmt::VarStmt { expr, .. } => {
            match expr {
                Some(e) => lemma_expr_env_len(env, e),
                None => {},
            }
        },
        Stmt::BlockStmt { stmts, .. } => {
            let pushed = seq![Map::<Seq<char>, ValM>::empty()] + env;
            lemma_block_env_len(fuel, pushed, stmts@, 0);
        },
        Stmt::IfStmt { expr, stmt_true, stmt_false, .. } => {
            lemma_expr_env_len(env, expr);
            let (env1, r) = eval_expr_s(env, expr);
            match r {
                Ok(v) => {
                    if truthy(v) {
                        lemma_stmt_env_len(fuel, env1, stmt_true);
                    } else {
                        match stmt_false {
                            Some(sf) => lemma_stmt_env_len(fuel, env1, sf),
                            None => {},
                        }
                    }
                },
                Err(_) => {},
            }
        },
        Stmt::WhileStmt { expr, stmt, .. } => {
            lemma_expr_env_len(env, expr);
            let (env1, r) = eval_expr_s(env, expr);
            match r {
                Ok(v) => {
                    if truthy(v) && fuel > 0 {
                        lemma_stmt_env_len(fuel, env1, stmt);
                        let (env2, out1, r1) = eval_stmt_s(fuel, env1, stmt);
                        if r1 is Ok {
                            lemma_stmt_env_len((fuel - 1) as nat, env2, s);
                        }
                    }
                },
                Err(_) => {},
            }
        },
    }
}

pub proof fn lemma_block_env_len(fuel: nat, env: EnvM, stmts: Seq<Stmt>, i: int)
    requires
        env.len() >= 1,
    ensures
        eval_block_s(fuel, env, stmts, i).0.len() == env.len(),
    decreases fuel, stmts, stmts.len() - i + 1,
{
    if 0 <= i < stmts.len() {
        lemma_stmt_env_len(fuel, env, &stmts[i]);
        let (env1, out1, r1) = eval_stmt_s(fuel, env, &stmts[i]);
        if r1 is Ok {
            lemma_block_env_len(fuel, env1, stmts, i + 1);
        }
    }
}

} // verus!
