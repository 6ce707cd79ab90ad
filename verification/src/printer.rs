//! A prefix-notation pretty printer for expressions.
use vstd::prelude::*;
use crate::ast::{Expr, expr_ok};
use crate::num::num_text;
use crate::text::{chars_to_string, str_to_chars};
use crate::value::{TokenType, val_text};

verus! {

/// The symbol an operator prints as.
pub open spec fn oper_text(op: TokenType) -> Seq<char> {
    match op {
        TokenType::EqualEqual => "=="@,
        TokenType::BangEqual => "!="@,
        TokenType::Less => "<"@,
        TokenType::LessEqual => "<="@,
        TokenType::Greater => ">"@,
        TokenType::GreaterEqual => ">="@,
        TokenType::Plus => "+"@,
        TokenType::Minus => "-"@,
        TokenType::Star => "*"@,
        TokenType::Slash => "/"@,
        TokenType::Percent => "%"@,
        TokenType::Or => "or"@,
        TokenType::And => "and"@,
        TokenType::Bang => "!"@,
        _ => "?"@,
    }
}

/// The prefix-notation text of an expression.
pub open spec fn print_expr_s(e: &Expr) -> Seq<char>
    decreases e,
{
    match e {
        Expr::Binary { left, oper, right, .. } => "("@ + oper_text(*oper) + " "@ + print_expr_s(
            left,
        ) + " "@ + print_expr_s(right) + ")"@,
        Expr::Grouping { expr, .. } => "(group "@ + print_expr_s(expr) + ")"@,
        Expr::Literal { value, .. } => val_text(value@),
        Expr::Logical { left, oper, right, .. } => "("@ + oper_text(*oper) + " "@ + print_expr_s(
            left,
        ) + " "@ + print_expr_s(right) + ")"@,
        Expr::Unary { oper, expr, .. } => "("@ + oper_text(*oper) + " "@ + print_expr_s(expr)
            + ")"@,
        Expr::VarGet { name, .. } => "(get "@ + name@ + ")"@,
        Expr::VarSet { name, expr, .. } => "(set "@ + name@ + " "@ + print_expr_s(expr) + ")"@,
        Expr::Call { callee, args, .. } => "(call "@ + print_expr_s(callee) + print_args_s(
            args@,
            0,
        ) + ")"@,
    }
}

/// The texts of `args[i..]`, each preceded by one space.
pub open spec fn print_args_s(args: Seq<Expr>, i: int) -> Seq<char>
    decreases args, args.len() - i,
{
    if i < 0 || i >= args.len() {
        Seq::<char>::empty()
    } else {
        " "@ + print_expr_s(&args[i]) + print_args_s(args, i + 1)
    }
}

fn oper_text_exec(op: TokenType) -> (r: &'static str)
    ensures
        r@ == oper_text(op),
{
    match op {
        TokenType::EqualEqual => "==",
        TokenType::BangEqual => "!=",
        TokenType::Less => "<",
        TokenType::LessEqual => "<=",
        TokenType::Greater => ">",
        TokenType::GreaterEqual => ">=",
        TokenType::Plus => "+",
        TokenType::Minus => "-",
        TokenType::Star => "*",
        TokenType::Slash => "/",
        TokenType::Percent => "%",
        TokenType::Or => "or",
        TokenType::And => "and",
        TokenType::Bang => "!",
        _ => "?",
    }
}

/// Renders expressions as prefix-notation text, for inspecting what
/// the parser built.
pub struct AstPrinter {}

impl AstPrinter {
    /// Render one expression.
    pub fn print(&mut self, expr: &Expr) -> (r: String)
        requires
            expr_ok(expr),
        ensures
            r@ == print_expr_s(expr),
    {
        let mut out: Vec<char> = Vec::new();
        self.print_into(expr, &mut out);
        proof {
            assert(out@ =~= Seq::<char>::empty() + print_expr_s(expr));
        }
        chars_to_string(out)
    }

    fn print_into(&mut self, expr: &Expr, out: &mut Vec<char>)
        requires
            expr_ok(expr),
        ensures
            final(out)@ == old(out)@ + print_expr_s(expr),
        decreases expr,
    {
        match expr {
            Expr::Binary { left, oper, right, .. } => {
                push_str(out, "(");
                push_str(out, oper_text_exec(*oper));
                push_str(out, " ");
                self.print_into(left, out);
                push_str(out, " ");
                self.print_into(right, out);
                push_str(out, ")");
                proof {
                    assert(out@ =~= old(out)@ + print_expr_s(expr));
                }
            },
            Expr::Grouping { expr: inner, .. } => {
                push_str(out, "(group ");
                self.print_into(inner, out);
                push_str(out, ")");
                proof {
                    assert(out@ =~= old(out)@ + print_expr_s(expr));
                }
            },
            Expr::Literal { value, .. } => {
                let t = value.to_text();
                let mut tv = str_to_chars(t.as_str());
                out.append(&mut tv);
            },
            Expr::Logical { left, oper, right, .. } => {
                push_str(out, "(");
                push_str(out, oper_text_exec(*oper));
                push_str(out, " ");
                self.print_into(left, out);
                push_str(out, " ");
                self.print_into(right, out);
                push_str(out, ")");
                proof {
                    assert(out@ =~= old(out)@ + print_expr_s(expr));
                }
            },
            Expr::Unary { oper, expr: inner, .. } => {
                push_str(out, "(");
                push_str(out, oper_text_exec(*oper));
                push_str(out, " ");
                self.print_into(inner, out);
                push_str(out, ")");
                proof {
                    assert(out@ =~= old(out)@ + print_expr_s(expr));
                }
            },
            Expr::VarGet { name, .. } => {
                push_str(out, "(get ");
                let mut nv = str_to_chars(name.as_str());
                out.append(&mut nv);
                push_str(out, ")");
                proof {
                    assert(out@ =~= old(out)@ + print_expr_s(expr));
                }
            },
            Expr::VarSet { name, expr: inner, .. } => {
                push_str(out, "(set ");
                let mut nv = str_to_chars(name.as_str());
                out.append(&mut nv);
                push_str(out, " ");
                self.print_into(inner, out);
                push_str(out, ")");
                proof {
                    assert(out@ =~= old(out)@ + print_expr_s(expr));
                }
            },
            Expr::Call { callee, args, .. } => {
                push_str(out, "(call ");
                self.print_into(callee, out);
                let mut i: usize = 0;
                proof {
                    assert(decreases_to!(expr => args@));
                }
                loop
                    invariant
                        i <= args.len(),
                        decreases_to!(expr => args@),
                        forall|j: int| 0 <= j < args@.len() ==> expr_ok(#[trigger] &args@[j]),
                        out@ + print_args_s(args@, i as int) == old(out)@ + ("(call "@
                            + print_expr_s(callee) + print_args_s(args@, 0)),
                    ensures
                        i == args.len(),
                        out@ + print_args_s(args@, i as int) == old(out)@ + ("(call "@
                            + print_expr_s(callee) + print_args_s(args@, 0)),
                    decreases args.len() - i,
                {
                    if i >= args.len() {
                        break ;
                    }
                    proof {
                        assert(decreases_to!(expr => args@[i as int]));
                    }
                    let ghost pre = out@;
                    push_str(out, " ");
                    self.print_into(&args[i], out);
                    proof {
                        assert(out@ =~= pre + (" "@ + print_expr_s(&args@[i as int])));
                    }
                    i += 1;
                }
                push_str(out, ")");
                proof {
                    assert(print_args_s(args@, args@.len() as int) =~= Seq::<char>::empty());
                    assert(out@ =~= old(out)@ + print_expr_s(expr));
                }
            },
        }
    }
}

fn push_str(out: &mut Vec<char>, s: &str)
    ensures
        final(out)@ == old(out)@ + s@,
{
    let mut v = str_to_chars(s);
    out.append(&mut v);
}

} // verus!
