//! The abstract syntax tree: expressions and statements.
use vstd::prelude::*;
use crate::value::{LoxValue, TokenType, val_inv};

verus! {

/// An expression node.  Every node carries its source span as a start
/// offset and a length.
pub enum Expr {
    Binary { start: usize, len: usize, left: Box<Expr>, oper: TokenType, right: Box<Expr> },
    Grouping { start: usize, len: usize, expr: Box<Expr> },
    Literal { start: usize, len: usize, value: LoxValue },
    Logical { start: usize, len: usize, left: Box<Expr>, oper: TokenType, right: Box<Expr> },
    Unary { start: usize, len: usize, oper: TokenType, expr: Box<Expr> },
    VarGet { start: usize, len: usize, name: String },
    VarSet { start: usize, len: usize, name: String, expr: Box<Expr> },
    Call { start: usize, len: usize, callee: Box<Expr>, args: Vec<Expr> },
}

/// A statement node.
pub enum Stmt {
    BlockStmt { start: usize, len: usize, stmts: Vec<Stmt> },
    ExprStmt { start: usize, len: usize, expr: Expr },
    IfStmt {
        start: usize,
        len: usize,
        expr: Expr,
        stmt_true: Box<Stmt>,
        stmt_false: Option<Box<Stmt>>,
    },
    PrintStmt { start: usize, len: usize, expr: Expr },
    VarStmt { start: usize, len: usize, name: String, expr: Option<Expr> },
    WhileStmt { start: usize, len: usize, expr: Expr, stmt: Box<Stmt> },
}

pub open spec fn expr_start(e: &Expr) -> int {
    match e {
        Expr::Binary { start, .. } => *start as int,
        Expr::Grouping { start, .. } => *start as int,
        Expr::Literal { start, .. } => *start as int,
        Expr::Logical { start, .. } => *start as int,
        Expr::Unary { start, .. } => *start as int,
        Expr::VarGet { start, .. } => *start as int,
        Expr::VarSet { start, .. } => *start as int,
        Expr::Call { start, .. } => *start as int,
    }
}

pub open spec fn expr_len(e: &Expr) -> int {
    match e {
        Expr::Binary { len, .. } => *len as int,
        Expr::Grouping { len, .. } => *len as int,
        Expr::Literal { len, .. } => *len as int,
        Expr::Logical { len, .. } => *len as int,
        Expr::Unary { len, .. } => *len as int,
        Expr::VarGet { len, .. } => *len as int,
        Expr::VarSet { len, .. } => *len as int,
        Expr::Call { len, .. } => *len as int,
    }
}

pub open spec fn stmt_start(s: &Stmt) -> int {
    match s {
        Stmt::BlockStmt { start, .. } => *start as int,
        Stmt::ExprStmt { start, .. } => *start as int,
        Stmt::IfStmt { start, .. } => *start as int,
        Stmt::PrintStmt { start, .. } => *start as int,
        Stmt::VarStmt { start, .. } => *start as int,
        Stmt::WhileStmt { start, .. } => *start as int,
    }
}

pub open spec fn stmt_len(s: &Stmt) -> int {
    match s {
        Stmt::BlockStmt { len, .. } => *len as int,
        Stmt::ExprStmt { len, .. } => *len as int,
        Stmt::IfStmt { len, .. } => *len as int,
        Stmt::PrintStmt { len, .. } => *len as int,
        Stmt::VarStmt { len, .. } => *len as int,
        Stmt::WhileStmt { len, .. } => *len as int,
    }
}

/// Which binary operators a `Binary` node may carry.
pub open spec fn is_binary_oper(op: TokenType) -> bool {
    op == TokenType::EqualEqual || op == TokenType::BangEqual || op == TokenType::Less || op
        == TokenType::LessEqual || op == TokenType::Greater || op == TokenType::GreaterEqual || op
        == TokenType::Plus || op == TokenType::Minus || op == TokenType::Star || op
        == TokenType::Slash || op == TokenType::Percent
}

/// Well-formedness of an expression against a source of length `n`:
/// every span lies within the source, and every node carries an
/// operator of the right family.
pub open spec fn expr_wf(e: &Expr, n: int) -> bool
    decreases e,
{
    expr_start(e) + expr_len(e) <= n && match e {
        Expr::Binary { left, oper, right, .. } => is_binary_oper(*oper) && expr_wf(left, n)
            && expr_wf(right, n),
        Expr::Grouping { expr, .. } => expr_wf(expr, n),
        Expr::Literal { value, .. } => val_inv(value@),
        Expr::Logical { left, oper, right, .. } => (*oper == TokenType::And || *oper
            == TokenType::Or) && expr_wf(left, n) && expr_wf(right, n),
        Expr::Unary { oper, expr, .. } => (*oper == TokenType::Bang || *oper == TokenType::Minus)
            && expr_wf(expr, n),
        Expr::VarGet { .. } => true,
        Expr::VarSet { expr, .. } => expr_wf(expr, n),
        Expr::Call { callee, args, .. } => expr_wf(callee, n) && (forall|i: int|
            0 <= i < args@.len() ==> expr_wf(#[trigger] &args@[i], n)),
    }
}

/// Well-formedness of a statement against a source of length `n`.
pub open spec fn stmt_wf(s: &Stmt, n: int) -> bool
    decreases s,
{
    stmt_start(s) + stmt_len(s) <= n && match s {
        Stmt::BlockStmt { stmts, .. } => forall|i: int|
            0 <= i < stmts@.len() ==> stmt_wf(#[trigger] &stmts@[i], n),
        Stmt::ExprStmt { expr, .. } => expr_wf(expr, n),
        Stmt::IfStmt { expr, stmt_true, stmt_false, .. } => expr_wf(expr, n) && stmt_wf(
            stmt_true,
            n,
        ) && match stmt_false {
            Some(sf) => stmt_wf(sf, n),
            None => true,
        },
        Stmt::PrintStmt { expr, .. } => expr_wf(expr, n),
        Stmt::VarStmt { expr, .. } => match expr {
            Some(e) => expr_wf(e, n),
            None => true,
        },
        Stmt::WhileStmt { expr, stmt, .. } => expr_wf(expr, n) && stmt_wf(stmt, n),
    }
}

/// What evaluation relies on, independent of spans: operator families
/// are right and literals carry valid values.
pub open spec fn expr_ok(e: &Expr) -> bool
    decreases e,
{
    match e {
        Expr::Binary { left, oper, right, .. } => is_binary_oper(*oper) && expr_ok(left) && expr_ok(
            right,
        ),
        Expr::Grouping { expr, .. } => expr_ok(expr),
        Expr::Literal { value, .. } => val_inv(value@),
        Expr::Logical { left, oper, right, .. } => (*oper == TokenType::And || *oper
            == TokenType::Or) && expr_ok(left) && expr_ok(right),
        Expr::Unary { oper, expr, .. } => (*oper == TokenType::Bang || *oper == TokenType::Minus)
            && expr_ok(expr),
        Expr::VarGet { .. } => true,
        Expr::VarSet { expr, .. } => expr_ok(expr),
        Expr::Call { callee, args, .. } => expr_ok(callee) && (forall|i: int|
            0 <= i < args@.len() ==> expr_ok(#[trigger] &args@[i])),
    }
}

pub open spec fn stmt_ok(s: &Stmt) -> bool
    decreases s,
{
    match s {
        Stmt::BlockStmt { stmts, .. } => forall|i: int|
            0 <= i < stmts@.len() ==> stmt_ok(#[trigger] &stmts@[i]),
        Stmt::ExprStmt { expr, .. } => expr_ok(expr),
        Stmt::IfStmt { expr, stmt_true, stmt_false, .. } => expr_ok(expr) && stmt_ok(stmt_true)
            && match stmt_false {
            Some(sf) => stmt_ok(sf),
            None => true,
        },
        Stmt::PrintStmt { expr, .. } => expr_ok(expr),
        Stmt::VarStmt { expr, .. } => match expr {
            Some(e) => expr_ok(e),
            None => true,
        },
        Stmt::WhileStmt { expr, stmt, .. } => expr_ok(expr) && stmt_ok(stmt),
    }
}

/// Spans aside, a well-formed node is fit to evaluate.
pub proof fn lemma_expr_wf_ok(e: &Expr, n: int)
    requires
        expr_wf(e, n),
    ensures
        expr_ok(e),
    decreases e,
{
    match e {
        Expr::Binary { left, right, .. } => {
            lemma_expr_wf_ok(left, n);
            lemma_expr_wf_ok(right, n);
        },
        Expr::Grouping { expr, .. } => lemma_expr_wf_ok(expr, n),
        Expr::Logical { left, right, .. } => {
            lemma_expr_wf_ok(left, n);
            lemma_expr_wf_ok(right, n);
        },
        Expr::Unary { expr, .. } => lemma_expr_wf_ok(expr, n),
        Expr::VarSet { expr, .. } => lemma_expr_wf_ok(expr, n),
        Expr::Call { callee, args, .. } => {
            lemma_expr_wf_ok(callee, n);
            assert forall|i: int| 0 <= i < args@.len() implies expr_ok(#[trigger] &args@[i]) by {
                lemma_expr_wf_ok(&args@[i], n);
            }
        },
        _ => {},
    }
}

pub proof fn lemma_stmt_wf_ok(s: &Stmt, n: int)
    requires
        stmt_wf(s, n),
    ensures
        stmt_ok(s),
    decreases s,
{
    match s {
        Stmt::BlockStmt { stmts, .. } => {
            assert forall|i: int| 0 <= i < stmts@.len() implies stmt_ok(#[trigger] &stmts@[i]) by {
                lemma_stmt_wf_ok(&stmts@[i], n);
            }
        },
        Stmt::ExprStmt { expr, .. } => lemma_expr_wf_ok(expr, n),
        Stmt::IfStmt { expr, stmt_true, stmt_false, .. } => {
            lemma_expr_wf_ok(expr, n);
            lemma_stmt_wf_ok(stmt_true, n);
            match stmt_false {
                Some(sf) => lemma_stmt_wf_ok(sf, n),
                None => {},
            }
        },
        Stmt::PrintStmt { expr, .. } => lemma_expr_wf_ok(expr, n),
        Stmt::VarStmt { expr, .. } => match expr {
            Some(e) => lemma_expr_wf_ok(e, n),
            None => {},
        },
        Stmt::WhileStmt { expr, stmt, .. } => {
            lemma_expr_wf_ok(expr, n);
            lemma_stmt_wf_ok(stmt, n);
        },
    }
}

/// The precedence family an ungrouped node exposes at its top, if any:
/// zero for atoms, higher numbers bind tighter.
pub open spec fn oper_level(op: TokenType) -> int {
    match op {
        TokenType::Or => 1,
        TokenType::And => 2,
        TokenType::EqualEqual => 3,
        TokenType::BangEqual => 3,
        TokenType::Less => 4,
        TokenType::LessEqual => 4,
        TokenType::Greater => 4,
        TokenType::GreaterEqual => 4,
        TokenType::Plus => 5,
        TokenType::Minus => 5,
        TokenType::Star => 6,
        TokenType::Slash => 6,
        TokenType::Percent => 6,
        _ => 0,
    }
}

pub open spec fn top_level_of(e: &Expr) -> int {
    match e {
        Expr::Binary { oper, .. } => oper_level(*oper),
        Expr::Logical { oper, .. } => oper_level(*oper),
        _ => 0,
    }
}

/// Left-associativity, structurally: the right operand of a binary or
/// logical node never is an ungrouped node of the same precedence
/// family, so `a OP b OP c` can only stand as `(a OP b) OP c`.
pub open spec fn left_assoc(e: &Expr) -> bool
    decreases e,
{
    match e {
        Expr::Binary { left, oper, right, .. } => left_assoc(left) && left_assoc(right)
            && top_level_of(right) != oper_level(*oper),
        Expr::Grouping { expr, .. } => left_assoc(expr),
        Expr::Literal { .. } => true,
        Expr::Logical { left, oper, right, .. } => left_assoc(left) && left_assoc(right)
            && top_level_of(right) != oper_level(*oper),
        Expr::Unary { expr, .. } => left_assoc(expr),
        Expr::VarGet { .. } => true,
        Expr::VarSet { expr, .. } => left_assoc(expr),
        Expr::Call { callee, args, .. } => left_assoc(callee) && (forall|i: int|
            0 <= i < args@.len() ==> left_assoc(#[trigger] &args@[i])),
    }
}

/// Every expression within the statement is left-associative.
pub open spec fn stmt_la(s: &Stmt) -> bool
    decreases s,
{
    match s {
        Stmt::BlockStmt { stmts, .. } => forall|i: int|
            0 <= i < stmts@.len() ==> stmt_la(#[trigger] &stmts@[i]),
        Stmt::ExprStmt { expr, .. } => left_assoc(expr),
        Stmt::IfStmt { expr, stmt_true, stmt_false, .. } => left_assoc(expr) && stmt_la(stmt_true)
            && match stmt_false {
            Some(sf) => stmt_la(sf),
            None => true,
        },
        Stmt::PrintStmt { expr, .. } => left_assoc(expr),
        Stmt::VarStmt { expr, .. } => match expr {
            Some(e) => left_assoc(e),
            None => true,
        },
        Stmt::WhileStmt { expr, stmt, .. } => left_assoc(expr) && stmt_la(stmt),
    }
}

impl Expr {
    pub fn start(&self) -> (r: usize)
        ensures
            r as int == expr_start(self),
    {
        match self {
            Expr::Binary { start, .. } => *start,
            Expr::Grouping { start, .. } => *start,
            Expr::Literal { start, .. } => *start,
            Expr::Logical { start, .. } => *start,
            Expr::Unary { start, .. } => *start,
            Expr::VarGet { start, .. } => *start,
            Expr::VarSet { start, .. } => *start,
            Expr::Call { start, .. } => *start,
        }
    }

    pub fn len(&self) -> (r: usize)
        ensures
            r as int == expr_len(self),
    {
        match self {
            Expr::Binary { len, .. } => *len,
            Expr::Grouping { len, .. } => *len,
            Expr::Literal { len, .. } => *len,
            Expr::Logical { len, .. } => *len,
            Expr::Unary { len, .. } => *len,
            Expr::VarGet { len, .. } => *len,
            Expr::VarSet { len, .. } => *len,
            Expr::Call { len, .. } => *len,
        }
    }

    /// The downcast query the parser uses to validate assignment
    /// targets: is this node a bare variable read?
    pub fn is_varget(&self) -> (r: bool)
        ensures
            r == (self is VarGet),
    {
        match self {
            Expr::VarGet { .. } => true,
            _ => false,
        }
    }
}

impl Stmt {
    pub fn start(&self) -> (r: usize)
        ensures
            r as int == stmt_start(self),
    {
        match self {
            Stmt::BlockStmt { start, .. } => *start,
            Stmt::ExprStmt { start, .. } => *start,
            Stmt::IfStmt { start, .. } => *start,
            Stmt::PrintStmt { start, .. } => *start,
            Stmt::VarStmt { start, .. } => *start,
            Stmt::WhileStmt { start, .. } => *start,
        }
    }

    pub fn len(&self) -> (r: usize)
        ensures
            r as int == stmt_len(self),
    {
        match self {
            Stmt::BlockStmt { len, .. } => *len,
            Stmt::ExprStmt { len, .. } => *len,
            Stmt::IfStmt { len, .. } => *len,
            Stmt::PrintStmt { len, .. } => *len,
            Stmt::VarStmt { len, .. } => *len,
            Stmt::WhileStmt { len, .. } => *len,
        }
    }

    /// The consuming downcast the `for` desugaring uses: the expression
    /// of an expression statement, or nothing for any other statement.
    pub fn to_exprstmt(self) -> (r: Option<Expr>)
        ensures
            match r {
                Some(e) => self matches Stmt::ExprStmt { expr, .. } && e == expr,
                None => !(self is ExprStmt),
            },
    {
        match self {
            Stmt::ExprStmt { expr, .. } => Some(expr),
            _ => None,
        }
    }
}

} // verus!
