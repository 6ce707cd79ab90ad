//! The tree-walking evaluator.
use vstd::prelude::*;
use crate::ast::{Expr, Stmt, expr_ok, stmt_ok, is_binary_oper};
use crate::backtrace::Backtrace;
use crate::num::LoxNum;
use crate::scope::{
    EnvM,
    Scope,
    env_inv,
    lemma_env_get_inv,
    lemma_env_inv_define,
    lemma_env_inv_push,
    lemma_env_inv_set,
    lemma_env_inv_skip,
    lemma_env_set_len,
};
use crate::semantics::{
    RunErr,
    eval_args_s,
    eval_binary,
    eval_block_s,
    eval_expr_s,
    eval_stmt_s,
    eval_unary,
    seq_lt,
    lemma_expr_env_len,
    lemma_stmt_env_len,
};
use crate::text::str_to_chars;
use crate::value::{LoxValue, TokenType, ValM, truthy, val_inv, val_text};

verus! {

broadcast use vstd::seq::axiom_seq_index_decreases;

/// How a produced value relates to its model: the same value, itself
/// valid, or the same error message pointing at the same span.
pub open spec fn eres_matches(rs: Result<ValM, RunErr>, r: &Result<LoxValue, Backtrace>) -> bool {
    match (r, rs) {
        (Ok(v), Ok(vs)) => v@ == vs && val_inv(vs),
        (Err(bt), Err(es)) => bt@.msg == es.msg && bt@.sites == seq![(es.start, es.len)],
        _ => false,
    }
}

/// The statement-level counterpart of `eres_matches`.
pub open spec fn sres_matches(rs: Result<(), RunErr>, r: &Result<(), Backtrace>) -> bool {
    match (r, rs) {
        (Ok(_), Ok(_)) => true,
        (Err(bt), Err(es)) => bt@.msg == es.msg && bt@.sites == seq![(es.start, es.len)],
        _ => false,
    }
}

/// Lexicographic comparison of two strings by character code.
fn str_lt(a: &String, b: &String) -> (r: bool)
    ensures
        r == seq_lt(a@, b@),
{
    let av = str_to_chars(a.as_str());
    let bv = str_to_chars(b.as_str());
    let mut i: usize = 0;
    proof {
        assert(a@.skip(0) =~= a@);
        assert(b@.skip(0) =~= b@);
    }
    loop
        invariant
            i <= av.len(),
            i <= bv.len(),
            av@ == a@,
            bv@ == b@,
            seq_lt(a@, b@) == seq_lt(a@.skip(i as int), b@.skip(i as int)),
        decreases av.len() - i,
    {
        if i >= bv.len() {
            return false;
        }
        if i >= av.len() {
            return true;
        }
        let ca = av[i];
        let cb = bv[i];
        if ca != cb {
            return ca < cb;
        }
        proof {
            assert(a@.skip(i as int).skip(1) =~= a@.skip(i as int + 1));
            assert(b@.skip(i as int).skip(1) =~= b@.skip(i as int + 1));
        }
        i += 1;
    }
}

/// Apply a binary operator to two evaluated operands.
fn eval_binary_exec(
    op: TokenType,
    lv: LoxValue,
    rv: LoxValue,
    lspan: (usize, usize),
    rspan: (usize, usize),
) -> (r: Result<LoxValue, Backtrace>)
    requires
        is_binary_oper(op),
        val_inv(lv@),
        val_inv(rv@),
    ensures
        eres_matches(
            eval_binary(
                op,
                lv@,
                rv@,
                (lspan.0 as nat, lspan.1 as nat),
                (rspan.0 as nat, rspan.1 as nat),
            ),
            &r,
        ),
{
    if op == TokenType::EqualEqual {
        Ok(LoxValue::Bool(lv == rv))
    } else if op == TokenType::BangEqual {
        Ok(LoxValue::Bool(!(lv == rv)))
    } else if op == TokenType::Less || op == TokenType::LessEqual || op == TokenType::Greater || op
        == TokenType::GreaterEqual {
        match (lv, rv) {
            (LoxValue::Str(a), LoxValue::Str(b)) => {
                let res = if op == TokenType::Less {
                    str_lt(&a, &b)
                } else if op == TokenType::LessEqual {
                    !str_lt(&b, &a)
                } else if op == TokenType::Greater {
                    str_lt(&b, &a)
                } else {
                    !str_lt(&a, &b)
                };
                Ok(LoxValue::Bool(res))
            },
            (LoxValue::Num(a), LoxValue::Num(b)) => {
                let res = if op == TokenType::Less {
                    a.lt(&b)
                } else if op == TokenType::LessEqual {
                    a.le(&b)
                } else if op == TokenType::Greater {
                    b.lt(&a)
                } else {
                    b.le(&a)
                };
                Ok(LoxValue::Bool(res))
            },
            _ => Err(Backtrace::starting_at("expected number or string".to_owned(), lspan)),
        }
    } else if op == TokenType::Plus {
        match (lv, rv) {
            (LoxValue::Num(a), LoxValue::Num(b)) => Ok(LoxValue::Num(a.add(&b))),
            (LoxValue::Str(a), LoxValue::Str(b)) => Ok(LoxValue::Str(a.concat(b.as_str()))),
            (LoxValue::Num(_), _) => Err(
                Backtrace::starting_at("expected two numbers or two strings".to_owned(), rspan),
            ),
            (LoxValue::Str(_), _) => Err(
                Backtrace::starting_at("expected two numbers or two strings".to_owned(), rspan),
            ),
            _ => Err(
                Backtrace::starting_at("expected two numbers or two strings".to_owned(), lspan),
            ),
        }
    } else {
        match (lv, rv) {
            (LoxValue::Num(a), LoxValue::Num(b)) => {
                let n = if op == TokenType::Minus {
                    a.sub(&b)
                } else if op == TokenType::Star {
                    a.mul(&b)
                } else if op == TokenType::Slash {
                    a.div(&b)
                } else {
                    a.floor_mod(&b)
                };
                Ok(LoxValue::Num(n))
            },
            (LoxValue::Num(_), _) => Err(
                Backtrace::starting_at("expected two numbers".to_owned(), rspan),
            ),
            _ => Err(Backtrace::starting_at("expected two numbers".to_owned(), lspan)),
        }
    }
}

/// Apply a unary operator to its evaluated operand.
fn eval_unary_exec(op: TokenType, v: LoxValue, span: (usize, usize)) -> (r: Result<
    LoxValue,
    Backtrace,
>)
    requires
        op == TokenType::Bang || op == TokenType::Minus,
        val_inv(v@),
    ensures
        eres_matches(eval_unary(op, v@, (span.0 as nat, span.1 as nat)), &r),
{
    if op == TokenType::Bang {
        Ok(LoxValue::Bool(!LoxValue::is_truthy(&v)))
    } else {
        match v {
            LoxValue::Num(n) => Ok(LoxValue::Num(n.neg())),
            _ => Err(Backtrace::starting_at("expected number".to_owned(), span)),
        }
    }
}

/// The evaluator: the current (innermost) scope and the lines printed
/// so far.
pub struct VM {
    pub curr_scope: Scope,
    pub output: Vec<String>,
}

impl VM {
    /// The scope chain's model.
    pub open spec fn env(&self) -> EnvM {
        self.curr_scope.frames()
    }

    /// The lines printed so far.
    pub open spec fn out(&self) -> Seq<Seq<char>> {
        self.output@.map_values(|s: String| s@)
    }

    pub open spec fn inv(&self) -> bool {
        env_inv(self.env()) && self.env().len() >= 1
    }

    pub fn new() -> (r: VM)
        ensures
            r.inv(),
            r.env() == seq![Map::<Seq<char>, ValM>::empty()],
            r.out() == Seq::<Seq<char>>::empty(),
    {
        let r = VM { curr_scope: Scope::new(), output: Vec::new() };
        proof {
            assert(r.out() =~= Seq::<Seq<char>>::empty());
        }
        r
    }

    /// Enter a fresh innermost scope.
    pub fn new_scope(&mut self)
        requires
            old(self).inv(),
        ensures
            final(self).inv(),
            final(self).env() == seq![Map::<Seq<char>, ValM>::empty()] + old(self).env(),
            final(self).out() == old(self).out(),
    {
        let mut scope = Scope::new();
        core::mem::swap(&mut scope, &mut self.curr_scope);
        self.curr_scope = Scope::new_inner(scope);
        proof {
            lemma_env_inv_push(old(self).env());
        }
    }

    /// Leave the innermost scope, restoring the enclosing one.
    pub fn unscope(&mut self)
        requires
            old(self).inv(),
            old(self).env().len() >= 2,
        ensures
            final(self).inv(),
            final(self).env() == old(self).env().skip(1),
            final(self).out() == old(self).out(),
    {
        let mut scope = Scope::new();
        core::mem::swap(&mut scope, &mut self.curr_scope);
        match scope.unscope() {
            Some(o) => {
                self.curr_scope = *o;
            },
            None => {
                proof {
                    assert(false);
                }
            },
        }
        proof {
            lemma_env_inv_skip(old(self).env());
        }
    }

    /// The source scans cleanly to `<literal> = <token> ;` and nothing
    /// else: one statement whose assignment target is invalid.
    pub open spec fn bad_target_source(code: Seq<char>) -> bool {
        &&& crate::lexer::lex_clean(code, 0) is Some
        &&& ({
            let ts = crate::lexer::lex_clean(code, 0).unwrap();
            ts.len() == 4 && ts[0].0 == TokenType::Literal && ts[1].0 == TokenType::Equal
                && ts[3].0 == TokenType::Semicolon
        })
    }

    /// The one diagnostic such a source produces, at the literal's span.
    pub open spec fn bad_target_diag(code: Seq<char>) -> crate::errors::ErrM {
        let ts = crate::lexer::lex_clean(code, 0).unwrap();
        crate::errors::ErrM {
            msg: "invalid assignment target"@,
            severity: crate::errors::Severity::Error,
            start: ts[0].2 as nat,
            length: (ts[0].3 - ts[0].2) as nat,
        }
    }

    /// The source scans cleanly to `print <literal> ;` and nothing
    /// else.
    pub open spec fn print_literal_source(code: Seq<char>) -> bool {
        &&& crate::lexer::lex_clean(code, 0) is Some
        &&& ({
            let ts = crate::lexer::lex_clean(code, 0).unwrap();
            ts.len() == 3 && ts[0].0 == TokenType::Print && ts[1].0 == TokenType::Literal
                && ts[2].0 == TokenType::Semicolon
        })
    }

    /// The source scans cleanly to `print <name> ;` with the name not
    /// bound anywhere in the scope chain the run starts from.
    pub open spec fn print_undefined_source(code: Seq<char>, env: EnvM) -> bool {
        &&& crate::lexer::lex_clean(code, 0) is Some
        &&& ({
            let ts = crate::lexer::lex_clean(code, 0).unwrap();
            ts.len() == 3 && ts[0].0 == TokenType::Print && ts[1].0 == TokenType::Identifier
                && ts[2].0 == TokenType::Semicolon && crate::scope::env_get(
                env,
                code.subrange(ts[1].2, ts[1].3),
            ) is None
        })
    }

    /// The runtime report such a source produces: the three rendered
    /// lines of an "undefined variable" error at the name's span.
    pub open spec fn print_undefined_lines(code: Seq<char>) -> Seq<Seq<char>> {
        let ts = crate::lexer::lex_clean(code, 0).unwrap();
        crate::errors::diag_lines(
            code,
            "Runtime"@,
            "undefined variable"@,
            ts[1].2,
            ts[1].3 - ts[1].2,
        )
    }

    /// The source scans cleanly to `var <name> = <literal> ;` and
    /// nothing else.
    pub open spec fn var_literal_source(code: Seq<char>) -> bool {
        &&& crate::lexer::lex_clean(code, 0) is Some
        &&& ({
            let ts = crate::lexer::lex_clean(code, 0).unwrap();
            ts.len() == 5 && ts[0].0 == TokenType::Var && ts[1].0 == TokenType::Identifier
                && ts[2].0 == TokenType::Equal && ts[3].0 == TokenType::Literal && ts[4].0
                == TokenType::Semicolon
        })
    }

    /// The binding such a source adds to the innermost scope: the
    /// name's lexeme bound to the literal's value.
    pub open spec fn var_literal_env(code: Seq<char>, env: EnvM) -> EnvM {
        let ts = crate::lexer::lex_clean(code, 0).unwrap();
        crate::scope::env_define(env, code.subrange(ts[1].2, ts[1].3), ts[3].1)
    }

    /// Parse and execute a whole source text: each top-level statement
    /// runs in turn, a runtime error aborts only its own statement, and
    /// the collected diagnostics are rendered at the end.  Returns the
    /// lines this run produced: program output, runtime error reports in
    /// the order they arose, then parse and scan diagnostics.
    pub fn run(&mut self, code: &str) -> (r: Vec<String>)
        requires
            old(self).inv(),
        ensures
            final(self).inv(),
            final(self).env().len() == old(self).env().len(),
            crate::lexer::ws_run_end(code@, 0) >= code@.len() ==> r@.len() == 0 && final(self).env() == old(self).env(),
            Self::bad_target_source(code@) ==> r@.map_values(|s: String| s@)
                == crate::errors::all_diag_lines(code@, seq![Self::bad_target_diag(code@)])
                && final(self).env() == old(self).env(),
            Self::print_literal_source(code@) ==> r@.map_values(|s: String| s@) == seq![
                val_text(crate::lexer::lex_clean(code@, 0).unwrap()[1].1),
            ] && final(self).env() == old(self).env(),
            Self::print_undefined_source(code@, old(self).env()) ==> r@.map_values(|s: String| s@)
                == Self::print_undefined_lines(code@) && final(self).env() == old(self).env(),
            Self::var_literal_source(code@) ==> r@.len() == 0 && final(self).env()
                == Self::var_literal_env(code@, old(self).env()),
    {
        let src = crate::text::str_to_chars(code);
        let mut errors = crate::errors::Errors::new(code);
        let mut parser = crate::parser::Parser::new(code);
        self.output = Vec::new();
        proof {
            if Self::bad_target_source(code@) {
                assert(crate::parser::bad_target_stmt_first(parser.toks()));
            }
            if Self::print_literal_source(code@) {
                assert(crate::parser::printstmt_first(parser.toks()));
            }
            if Self::print_undefined_source(code@, old(self).env()) {
                assert(crate::parser::printstmt_first(parser.toks()));
            }
            if Self::var_literal_source(code@) {
                assert(crate::parser::vardecl_init_first(parser.toks()));
            }
        }
        loop
            invariant
                self.inv(),
                self.env().len() == old(self).env().len(),
                parser.inv(),
                parser.errs().flag == false,
                errors.inv(),
                errors@.list == Seq::<crate::errors::ErrM>::empty(),
                errors@.source == code@,
                src@.len() + 64 <= usize::MAX,
                src@ == code@,
                crate::lexer::ws_run_end(code@, 0) >= code@.len() ==> parser.toks().len() == 0
                    && parser.errs().list == Seq::<crate::errors::ErrM>::empty()
                    && parser.scanner_errs().list == Seq::<crate::errors::ErrM>::empty()
                    && self.env() == old(self).env() && self.output@.len() == 0,
                Self::bad_target_source(code@) ==> ({
                    let ts = crate::lexer::lex_clean(code@, 0).unwrap();
                    (crate::parser::bad_target_stmt_first(parser.toks()) && parser.toks()[0].start
                        as int == ts[0].2 && parser.toks()[0].start
                        + parser.toks()[0].text@.len() == ts[0].3 && parser.errs().list
                        == Seq::<crate::errors::ErrM>::empty() && parser.scanner_errs().list
                        == Seq::<crate::errors::ErrM>::empty() && self.env() == old(self).env()
                        && self.output@.len() == 0) || (parser.toks().len() == 0
                        && parser.errs().list == seq![Self::bad_target_diag(code@)]
                        && parser.scanner_errs().list == Seq::<crate::errors::ErrM>::empty()
                        && self.env() == old(self).env() && self.output@.len() == 0)
                }),
                Self::print_literal_source(code@) ==> ({
                    let ts = crate::lexer::lex_clean(code@, 0).unwrap();
                    (crate::parser::printstmt_first(parser.toks()) && parser.toks().len() == 3
                        && parser.toks()[1].kind == TokenType::Literal && parser.toks()[1].value@
                        == ts[1].1 && parser.errs().list == Seq::<crate::errors::ErrM>::empty()
                        && parser.scanner_errs().list == Seq::<crate::errors::ErrM>::empty()
                        && self.env() == old(self).env() && self.output@.len() == 0) || (
                    parser.toks().len() == 0 && parser.errs().list
                        == Seq::<crate::errors::ErrM>::empty() && parser.scanner_errs().list
                        == Seq::<crate::errors::ErrM>::empty() && self.env() == old(self).env()
                        && self.output@.map_values(|s: String| s@) == seq![val_text(ts[1].1)])
                }),
                Self::print_undefined_source(code@, old(self).env()) ==> ({
                    let ts = crate::lexer::lex_clean(code@, 0).unwrap();
                    (crate::parser::printstmt_first(parser.toks()) && parser.toks().len() == 3
                        && parser.toks()[1].kind == TokenType::Identifier
                        && parser.toks()[1].text@.len() <= usize::MAX
                        && parser.toks()[1].start as int == ts[1].2 && parser.toks()[1].start
                        + parser.toks()[1].text@.len() == ts[1].3 && parser.toks()[1].text@
                        == code@.subrange(ts[1].2, ts[1].3) && parser.errs().list
                        == Seq::<crate::errors::ErrM>::empty() && parser.scanner_errs().list
                        == Seq::<crate::errors::ErrM>::empty() && self.env() == old(self).env()
                        && self.output@.len() == 0) || (parser.toks().len() == 0
                        && parser.errs().list == Seq::<crate::errors::ErrM>::empty()
                        && parser.scanner_errs().list == Seq::<crate::errors::ErrM>::empty()
                        && self.env() == old(self).env() && self.output@.map_values(
                        |s: String| s@,
                    ) == Self::print_undefined_lines(code@))
                }),
                Self::var_literal_source(code@) ==> ({
                    let ts = crate::lexer::lex_clean(code@, 0).unwrap();
                    (crate::parser::vardecl_init_first(parser.toks()) && parser.toks().len() == 5
                        && parser.toks()[1].text@ == code@.subrange(ts[1].2, ts[1].3)
                        && parser.toks()[3].kind == TokenType::Literal && parser.toks()[3].value@
                        == ts[3].1 && parser.errs().list == Seq::<crate::errors::ErrM>::empty()
                        && parser.scanner_errs().list == Seq::<crate::errors::ErrM>::empty()
                        && self.env() == old(self).env() && self.output@.len() == 0) || (
                    parser.toks().len() == 0 && parser.errs().list
                        == Seq::<crate::errors::ErrM>::empty() && parser.scanner_errs().list
                        == Seq::<crate::errors::ErrM>::empty() && self.env()
                        == Self::var_literal_env(code@, old(self).env()) && self.output@.len()
                        == 0)
                }),
            ensures
                self.inv(),
                self.env().len() == old(self).env().len(),
                parser.inv(),
                parser.errs().flag == false,
                errors.inv(),
                errors@.list == Seq::<crate::errors::ErrM>::empty(),
                errors@.source == code@,
                src@.len() + 64 <= usize::MAX,
                crate::lexer::ws_run_end(code@, 0) >= code@.len() ==> parser.toks().len() == 0
                    && parser.errs().list == Seq::<crate::errors::ErrM>::empty()
                    && parser.scanner_errs().list == Seq::<crate::errors::ErrM>::empty()
                    && self.env() == old(self).env() && self.output@.len() == 0,
                Self::bad_target_source(code@) ==> parser.toks().len() == 0 && parser.errs().list
                    == seq![Self::bad_target_diag(code@)] && parser.scanner_errs().list
                    == Seq::<crate::errors::ErrM>::empty() && self.env() == old(self).env()
                    && self.output@.len() == 0,
                Self::print_literal_source(code@) ==> parser.errs().list
                    == Seq::<crate::errors::ErrM>::empty() && parser.scanner_errs().list
                    == Seq::<crate::errors::ErrM>::empty() && self.env() == old(self).env()
                    && self.output@.map_values(|s: String| s@) == seq![
                    val_text(crate::lexer::lex_clean(code@, 0).unwrap()[1].1),
                ],
                Self::print_undefined_source(code@, old(self).env()) ==> parser.errs().list
                    == Seq::<crate::errors::ErrM>::empty() && parser.scanner_errs().list
                    == Seq::<crate::errors::ErrM>::empty() && self.env() == old(self).env()
                    && self.output@.map_values(|s: String| s@) == Self::print_undefined_lines(
                    code@,
                ),
                Self::var_literal_source(code@) ==> parser.errs().list
                    == Seq::<crate::errors::ErrM>::empty() && parser.scanner_errs().list
                    == Seq::<crate::errors::ErrM>::empty() && self.env()
                    == Self::var_literal_env(code@, old(self).env()) && self.output@.len() == 0,
            decreases parser.toks().len(),
        {
            match parser.next() {
                Some(stmt) => {
                    proof {
                        crate::ast::lemma_stmt_wf_ok(&stmt, parser.srcn());
                        crate::semantics::lemma_stmt_env_len(
                            u64::MAX as nat,
                            self.env(),
                            &stmt,
                        );
                    }
                    let ghost env_pre = self.env();
                    proof {
                        if Self::print_literal_source(code@) {
                            let ts = crate::lexer::lex_clean(code@, 0).unwrap();
                            let so = crate::semantics::eval_stmt_s(
                                u64::MAX as nat,
                                env_pre,
                                &stmt,
                            );
                            assert(so.2 is Ok);
                            assert(so.0 == env_pre);
                            assert(so.1 =~= seq![val_text(ts[1].1)]);
                        }
                        if Self::print_undefined_source(code@, old(self).env()) {
                            let ts = crate::lexer::lex_clean(code@, 0).unwrap();
                            let so = crate::semantics::eval_stmt_s(
                                u64::MAX as nat,
                                env_pre,
                                &stmt,
                            );
                            assert(so.0 == env_pre);
                            assert(so.1 =~= Seq::<Seq<char>>::empty());
                            assert(so.2 matches Err(es) && es.msg == "undefined variable"@
                                && es.start == ts[1].2 as nat && es.len == (ts[1].3 - ts[1].2)
                                as nat);
                        }
                        if Self::var_literal_source(code@) {
                            let so = crate::semantics::eval_stmt_s(
                                u64::MAX as nat,
                                env_pre,
                                &stmt,
                            );
                            assert(so.2 is Ok);
                            assert(so.1 =~= Seq::<Seq<char>>::empty());
                            assert(so.0 == Self::var_literal_env(code@, env_pre));
                        }
                    }
                    match self.eval_stmt(&stmt, u64::MAX) {
                        Ok(_) => {
                            proof {
                                if Self::print_literal_source(code@) {
                                    let ts = crate::lexer::lex_clean(code@, 0).unwrap();
                                    assert(self.out() =~= seq![val_text(ts[1].1)]);
                                }
                            }
                        },
                        Err(bt) => {
                            let msg = bt.get_error();
                            let sites = bt.iter();
                            let site: (usize, usize) = if sites.len() > 0 {
                                sites[0]
                            } else {
                                (0, 0)
                            };
                            let mut lines = crate::errors::format_error(
                                &src,
                                "Runtime",
                                msg.as_str(),
                                site.0,
                                site.1,
                            );
                            let ghost lv = lines@;
                            self.output.append(&mut lines);
                            proof {
                                if Self::print_undefined_source(code@, old(self).env()) {
                                    let ts = crate::lexer::lex_clean(code@, 0).unwrap();
                                    let so = crate::semantics::eval_stmt_s(
                                        u64::MAX as nat,
                                        env_pre,
                                        &stmt,
                                    );
                                    let es = so.2->Err_0;
                                    assert(bt@.msg == es.msg && bt@.sites == seq![
                                        (es.start, es.len),
                                    ]);
                                    assert(sites@.map_values(
                                        |s: (usize, usize)| (s.0 as nat, s.1 as nat),
                                    ).len() == sites@.len());
                                    assert(sites@.len() == 1);
                                    assert(sites@.map_values(
                                        |s: (usize, usize)| (s.0 as nat, s.1 as nat),
                                    )[0] == (sites@[0].0 as nat, sites@[0].1 as nat));
                                    assert((sites@[0].0 as nat, sites@[0].1 as nat) == (
                                        es.start,
                                        es.len,
                                    ));
                                    assert(site.0 as int == ts[1].2 && site.1 as int == ts[1].3
                                        - ts[1].2);
                                    assert(msg@ == "undefined variable"@);
                                    assert(lv.map_values(|s: String| s@)
                                        == crate::errors::diag_lines(
                                        code@,
                                        "Runtime"@,
                                        "undefined variable"@,
                                        ts[1].2,
                                        ts[1].3 - ts[1].2,
                                    ));
                                    assert(self.output@ =~= lv);
                                    assert(self.output@.map_values(|s: String| s@)
                                        =~= Self::print_undefined_lines(code@));
                                }
                            }
                        },
                    }
                },
                None => {
                    proof {
                        if Self::bad_target_source(code@) {
                            assert(parser.errs().list =~= seq![Self::bad_target_diag(code@)]);
                        }
                    }
                    break ;
                },
            }
        }
        parser.coalesce_errors(&mut errors);
        proof {
            if crate::lexer::ws_run_end(code@, 0) >= code@.len() {
                assert(errors@.list =~= Seq::<crate::errors::ErrM>::empty());
                assert(crate::errors::all_diag_lines(errors@.source, errors@.list)
                    =~= Seq::<Seq<char>>::empty());
            }
            if Self::bad_target_source(code@) {
                assert(errors@.list =~= seq![Self::bad_target_diag(code@)]);
            }
            if Self::print_literal_source(code@) || Self::print_undefined_source(
                code@,
                old(self).env(),
            ) || Self::var_literal_source(code@) {
                assert(errors@.list =~= Seq::<crate::errors::ErrM>::empty());
                assert(crate::errors::all_diag_lines(errors@.source, errors@.list)
                    =~= Seq::<Seq<char>>::empty());
            }
        }
        let mut lines = errors.print_errors();
        let ghost out_pre = self.output@;
        let ghost lines_v = lines@;
        let ghost lines_m = lines@.map_values(|s: String| s@);
        self.output.append(&mut lines);
        proof {
            if Self::bad_target_source(code@) {
                assert(self.output@ =~= lines_v);
                assert(self.output@.map_values(|s: String| s@) =~= lines_m);
            }
            if Self::print_literal_source(code@) || Self::print_undefined_source(
                code@,
                old(self).env(),
            ) || Self::var_literal_source(code@) {
                assert(lines_v.len() == 0);
                assert(self.output@ =~= out_pre);
            }
        }
        let mut out: Vec<String> = Vec::new();
        core::mem::swap(&mut out, &mut self.output);
        out
    }

    /// Evaluate an expression against the current scope chain.
    pub fn eval_expr(&mut self, e: &Expr) -> (r: Result<LoxValue, Backtrace>)
        requires
            old(self).inv(),
            expr_ok(e),
        ensures
            final(self).inv(),
            final(self).out() == old(self).out(),
            final(self).env() == eval_expr_s(old(self).env(), e).0,
            eres_matches(eval_expr_s(old(self).env(), e).1, &r),
        decreases e,
    {
        proof {
            lemma_expr_env_len(old(self).env(), e);
        }
        match e {
            Expr::Literal { value, .. } => Ok(value.duplicate()),
            Expr::Grouping { expr, .. } => self.eval_expr(expr),
            Expr::Unary { oper, expr, .. } => {
                let spn = (expr.start(), expr.len());
                match self.eval_expr(expr) {
                    Ok(v) => eval_unary_exec(*oper, v, spn),
                    Err(bt) => Err(bt),
                }
            },
            Expr::Binary { left, oper, right, .. } => {
                let lspan = (left.start(), left.len());
                let rspan = (right.start(), right.len());
                match self.eval_expr(left) {
                    Ok(lv) => {
                        match self.eval_expr(right) {
                            Ok(rv) => eval_binary_exec(*oper, lv, rv, lspan, rspan),
                            Err(bt) => Err(bt),
                        }
                    },
                    Err(bt) => Err(bt),
                }
            },
            Expr::Logical { oper, left, right, .. } => {
                match self.eval_expr(left) {
                    Ok(lv) => {
                        let t = LoxValue::is_truthy(&lv);
                        if (*oper == TokenType::And && !t) || (*oper != TokenType::And && t) {
                            Ok(lv)
                        } else {
                            self.eval_expr(right)
                        }
                    },
                    Err(bt) => Err(bt),
                }
            },
            Expr::VarGet { name, start, len } => {
                proof {
                    lemma_env_get_inv(self.env(), name@);
                }
                match self.curr_scope.get(name) {
                    Some(v) => Ok(v.duplicate()),
                    None => Err(
                        Backtrace::starting_at("undefined variable".to_owned(), (*start, *len)),
                    ),
                }
            },
            Expr::VarSet { name, expr, start, len } => {
                match self.eval_expr(expr) {
                    Ok(v) => {
                        let ghost env1 = self.env();
                        proof {
                            lemma_env_inv_set(env1, name@, v@);
                            lemma_env_set_len(env1, name@, v@);
                        }
                        if self.curr_scope.set(name.clone(), v.duplicate()) {
                            Ok(v)
                        } else {
                            Err(
                                Backtrace::starting_at(
                                    "undefined variable".to_owned(),
                                    (*start, *len),
                                ),
                            )
                        }
                    },
                    Err(bt) => Err(bt),
                }
            },
            Expr::Call { callee, args, .. } => {
                let cspan = (callee.start(), callee.len());
                match self.eval_expr(callee) {
                    Ok(cv) => {
                        match cv {
                            LoxValue::Fn(mut f) => {
                                let ghost env1 = self.env();
                                let mut vals: Vec<LoxValue> = Vec::new();
                                let mut i: usize = 0;
                                loop
                                    invariant
                                        i <= args.len(),
                                        self.inv(),
                                        self.out() == old(self).out(),
                                        decreases_to!(e => args@),
                                        forall|j: int|
                                            0 <= j < args@.len() ==> expr_ok(
                                                #[trigger] &args@[j],
                                            ),
                                        eval_args_s(env1, args@, 0) == eval_args_s(
                                            self.env(),
                                            args@,
                                            i as int,
                                        ),
                                        ({
                                            let whole = eval_expr_s(old(self).env(), e);
                                            let argsr = eval_args_s(env1, args@, 0);
                                            whole.0 == argsr.0 && whole.1 == (match argsr.1 {
                                                Ok(_) => Result::<ValM, RunErr>::Ok(ValM::Nil),
                                                Err(er) => Result::<ValM, RunErr>::Err(er),
                                            })
                                        }),
                                    ensures
                                        i == args.len(),
                                        self.inv(),
                                        self.out() == old(self).out(),
                                        eval_args_s(env1, args@, 0) == eval_args_s(
                                            self.env(),
                                            args@,
                                            i as int,
                                        ),
                                        ({
                                            let whole = eval_expr_s(old(self).env(), e);
                                            let argsr = eval_args_s(env1, args@, 0);
                                            whole.0 == argsr.0 && whole.1 == (match argsr.1 {
                                                Ok(_) => Result::<ValM, RunErr>::Ok(ValM::Nil),
                                                Err(er) => Result::<ValM, RunErr>::Err(er),
                                            })
                                        }),
                                    decreases args.len() - i,
                                {
                                    if i >= args.len() {
                                        break ;
                                    }
                                    let ghost env_i = self.env();
                                    proof {
                                        assert(decreases_to!(e => args@[i as int]));
                                    }
                                    match self.eval_expr(&args[i]) {
                                        Ok(v) => {
                                            vals.push(v);
                                            i += 1;
                                        },
                                        Err(bt) => {
                                            proof {
                                                let (enva, ra) = eval_args_s(env1, args@, 0);
                                                assert(eval_args_s(env_i, args@, i as int).0
                                                    == self.env());
                                                assert(enva == self.env());
                                            }
                                            return Err(bt);
                                        },
                                    }
                                }
                                f.call(vals)
                            },
                            _ => Err(
                                Backtrace::starting_at("expected callable".to_owned(), cspan),
                            ),
                        }
                    },
                    Err(bt) => Err(bt),
                }
            },
        }
    }

    /// Execute a statement against the current scope chain, appending
    /// whatever it prints.  `fuel` bounds loop iterations, as the
    /// specification says.
    pub fn eval_stmt(&mut self, s: &Stmt, fuel: u64) -> (r: Result<(), Backtrace>)
        requires
            old(self).inv(),
            stmt_ok(s),
        ensures
            final(self).inv(),
            ({
                let (env2, out2, rs) = eval_stmt_s(fuel as nat, old(self).env(), s);
                final(self).env() == env2 && final(self).out() == old(self).out() + out2
                    && sres_matches(rs, &r)
            }),
        decreases fuel, s,
    {
        proof {
            lemma_stmt_env_len(fuel as nat, old(self).env(), s);
        }
        match s {
            Stmt::ExprStmt { expr, .. } => {
                let res = match self.eval_expr(expr) {
                    Ok(_) => Ok(()),
                    Err(bt) => Err(bt),
                };
                proof {
                    assert(self.out() =~= old(self).out() + Seq::<Seq<char>>::empty());
                }
                res
            },
            Stmt::PrintStmt { expr, .. } => {
                match self.eval_expr(expr) {
                    Ok(v) => {
                        let line = v.to_text();
                        self.output.push(line);
                        proof {
                            assert(self.out() =~= old(self).out() + seq![val_text(v@)]);
                        }
                        Ok(())
                    },
                    Err(bt) => {
                        proof {
                            assert(self.out() =~= old(self).out() + Seq::<Seq<char>>::empty());
                        }
                        Err(bt)
                    },
                }
            },
            Stmt::VarStmt { name, expr, .. } => {
                let init = match expr {
                    Some(e) => self.eval_expr(e),
                    None => Ok(LoxValue::Nil),
                };
                let res = match init {
                    Ok(v) => {
                        proof {
                            lemma_env_inv_define(self.env(), name@, v@);
                        }
                        self.curr_scope.define(name.clone(), v);
                        Ok(())
                    },
                    Err(bt) => Err(bt),
                };
                proof {
                    assert(self.out() =~= old(self).out() + Seq::<Seq<char>>::empty());
                }
                res
            },
            Stmt::IfStmt { expr, stmt_true, stmt_false, .. } => {
                match self.eval_expr(expr) {
                    Ok(v) => {
                        if LoxValue::is_truthy(&v) {
                            self.eval_stmt(stmt_true, fuel)
                        } else {
                            match stmt_false {
                                Some(sf) => self.eval_stmt(sf, fuel),
                                None => {
                                    proof {
                                        assert(self.out() =~= old(self).out()
                                            + Seq::<Seq<char>>::empty());
                                    }
                                    Ok(())
                                },
                            }
                        }
                    },
                    Err(bt) => {
                        proof {
                            assert(self.out() =~= old(self).out() + Seq::<Seq<char>>::empty());
                        }
                        Err(bt)
                    },
                }
            },
            Stmt::WhileStmt { expr, stmt, .. } => {
                let wspan = (s.start(), s.len());
                match self.eval_expr(expr) {
                    Ok(v) => {
                        if !LoxValue::is_truthy(&v) {
                            proof {
                                assert(self.out() =~= old(self).out() + Seq::<Seq<char>>::empty());
                            }
                            Ok(())
                        } else if fuel == 0 {
                            proof {
                                assert(self.out() =~= old(self).out() + Seq::<Seq<char>>::empty());
                            }
                            Err(Backtrace::starting_at("loop budget exceeded".to_owned(), wspan))
                        } else {
                            let ghost env1 = self.env();
                            let ghost out_a = self.out();
                            match self.eval_stmt(stmt, fuel) {
                                Ok(_) => {
                                    let r2 = self.eval_stmt(s, fuel - 1);
                                    proof {
                                        let (env2, out1, r1s) = eval_stmt_s(
                                            fuel as nat,
                                            env1,
                                            stmt,
                                        );
                                        let (env3, out2, r2s) = eval_stmt_s(
                                            (fuel - 1) as nat,
                                            env2,
                                            s,
                                        );
                                        assert(old(self).out() + (out1 + out2) =~= (old(self).out()
                                            + out1) + out2);
                                    }
                                    r2
                                },
                                Err(bt) => Err(bt),
                            }
                        }
                    },
                    Err(bt) => {
                        proof {
                            assert(self.out() =~= old(self).out() + Seq::<Seq<char>>::empty());
                        }
                        Err(bt)
                    },
                }
            },
            Stmt::BlockStmt { stmts, .. } => {
                self.new_scope();
                let ghost pushed = self.env();
                let ghost out0 = self.out();
                let ghost fl = fuel as nat;
                let mut i: usize = 0;
                let ghost mut acc: Seq<Seq<char>> = Seq::<Seq<char>>::empty();
                proof {
                    assert(out0 =~= out0 + acc);
                    assert(eval_block_s(fl, pushed, stmts@, 0).1 =~= acc + eval_block_s(
                        fl,
                        pushed,
                        stmts@,
                        0,
                    ).1);
                }
                loop
                    invariant
                        i <= stmts.len(),
                        fl == fuel as nat,
                        self.inv(),
                        stmt_ok(s),
                        decreases_to!(s => stmts@),
                        pushed == seq![Map::<Seq<char>, ValM>::empty()] + old(self).env(),
                        s matches Stmt::BlockStmt { stmts: sv, .. } && sv@ == stmts@,
                        forall|j: int| 0 <= j < stmts@.len() ==> stmt_ok(#[trigger] &stmts@[j]),
                        self.env().len() == pushed.len(),
                        pushed.len() == old(self).env().len() + 1,
                        pushed.len() >= 2,
                        self.out() == out0 + acc,
                        out0 == old(self).out(),
                        ({
                            let full = eval_block_s(fl, pushed, stmts@, 0);
                            let rest = eval_block_s(fl, self.env(), stmts@, i as int);
                            full.0 == rest.0 && full.2 == rest.2 && full.1 == acc + rest.1
                        }),
                    ensures
                        i == stmts.len(),
                        self.inv(),
                        self.env().len() == pushed.len(),
                        pushed.len() >= 2,
                        self.out() == out0 + acc,
                        out0 == old(self).out(),
                        ({
                            let full = eval_block_s(fl, pushed, stmts@, 0);
                            let rest = eval_block_s(fl, self.env(), stmts@, i as int);
                            full.0 == rest.0 && full.2 == rest.2 && full.1 == acc + rest.1
                        }),
                    decreases stmts.len() - i,
                {
                    if i >= stmts.len() {
                        break ;
                    }
                    let ghost env_i = self.env();
                    proof {
                        assert(decreases_to!(s => stmts@[i as int]));
                    }
                    let res = self.eval_stmt(&stmts[i], fuel);
                    proof {
                        lemma_stmt_env_len(fl, env_i, &stmts@[i as int]);
                    }
                    match res {
                        Ok(_) => {
                            proof {
                                let step = eval_stmt_s(fl, env_i, &stmts@[i as int]);
                                let full = eval_block_s(fl, pushed, stmts@, 0);
                                let rest2 = eval_block_s(fl, self.env(), stmts@, i + 1);
                                assert(acc + (step.1 + rest2.1) =~= (acc + step.1) + rest2.1);
                                acc = acc + step.1;
                            }
                            i += 1;
                        },
                        Err(bt) => {
                            proof {
                                let step = eval_stmt_s(fl, env_i, &stmts@[i as int]);
                                assert((out0 + acc) + step.1 =~= out0 + (acc + step.1));
                                acc = acc + step.1;
                                assert(self.out() == out0 + acc);
                                assert(self.env().len() == pushed.len());
                            }
                            self.unscope();
                            proof {
                                let whole = eval_stmt_s(fl, old(self).env(), s);
                                assert(self.out() =~= old(self).out() + whole.1);
                            }
                            return Err(bt);
                        },
                    }
                }
                self.unscope();
                proof {
                    let whole = eval_stmt_s(fl, old(self).env(), s);
                    assert(acc + Seq::<Seq<char>>::empty() =~= acc);
                    assert(self.out() =~= old(self).out() + whole.1);
                }
                Ok(())
            },
        }
    }
}

} // verus!
