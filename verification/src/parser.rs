//! Recursive-descent parser with precedence climbing and panic-mode
//! recovery.
use vstd::prelude::*;
use crate::ast::{
    Expr,
    Stmt,
    expr_len,
    expr_start,
    expr_wf,
    left_assoc,
    stmt_la,
    stmt_len,
    stmt_start,
    stmt_wf,
    top_level_of,
};
use crate::errors::{ErrM, Errors, ErrsM, Severity};
use crate::lexer::{Lexer, token_sp, lemma_token_ok_sp};
use crate::npeekable::{NPeekable, NPeekableExt};
use crate::value::{LoxValue, Token, TokenType};
use vstd::string::StrSliceExecFns;

verus! {

/// How one parsing step may change the diagnostics: nothing while the
/// panic flag stands; otherwise either nothing, or exactly one new
/// diagnostic that raises the flag.
pub open spec fn errs_step(a: ErrsM, b: ErrsM) -> bool {
    &&& b.source == a.source
    &&& if a.flag {
        b == a
    } else {
        (b.flag == false && b.list == a.list) || (b.flag == true && (exists|er: ErrM|
            b.list == a.list.push(er)))
    }
}

pub proof fn lemma_errs_step_trans(a: ErrsM, b: ErrsM, c: ErrsM)
    requires
        errs_step(a, b),
        errs_step(b, c),
    ensures
        errs_step(a, c),
{
}

/// Diagnostic idempotence law: a failing production records exactly one
/// diagnostic and raises the panic flag, and while the flag stands,
/// whatever else runs before resynchronization records nothing more.
pub proof fn lemma_diagnostic_idempotence(a: ErrsM, b: ErrsM, c: ErrsM)
    requires
        a.flag == false,
        errs_step(a, b),
        b.flag == true,
        errs_step(b, c),
    ensures
        c == b,
        exists|er: ErrM| b.list == a.list.push(er),
{
}

/// A token kind at which panic-mode recovery stops without consuming:
/// one that can begin a fresh statement.
pub open spec fn sync_stop(k: TokenType) -> bool {
    k == TokenType::Class || k == TokenType::For || k == TokenType::Fn || k == TokenType::If
        || k == TokenType::Print || k == TokenType::Return || k == TokenType::Var || k
        == TokenType::While
}

/// How many tokens panic-mode recovery consumes: through the first
/// semicolon, or up to (not including) the first statement keyword,
/// whichever comes first; everything when neither appears.
pub open spec fn sync_len(toks: Seq<Token>) -> int
    decreases toks.len(),
{
    if toks.len() == 0 {
        0
    } else if toks[0].kind == TokenType::Semicolon {
        1
    } else if sync_stop(toks[0].kind) {
        0
    } else {
        1 + sync_len(toks.skip(1))
    }
}

pub proof fn lemma_sync_len_bounds(toks: Seq<Token>)
    ensures
        0 <= sync_len(toks) <= toks.len(),
    decreases toks.len(),
{
    if toks.len() > 0 && toks[0].kind != TokenType::Semicolon && !sync_stop(toks[0].kind) {
        lemma_sync_len_bounds(toks.skip(1));
    }
}

/// A token kind that continues an expression at some precedence level:
/// every precedence loop keeps going in front of it.
pub open spec fn expr_cont(k: TokenType) -> bool {
    k == TokenType::Or || k == TokenType::And || k == TokenType::EqualEqual || k
        == TokenType::BangEqual || k == TokenType::Less || k == TokenType::LessEqual || k
        == TokenType::Greater || k == TokenType::GreaterEqual || k == TokenType::Plus || k
        == TokenType::Minus || k == TokenType::Star || k == TokenType::Slash || k
        == TokenType::Percent
}

/// The upcoming tokens begin with a bare atom: a literal or variable
/// read that no operator continues.
pub open spec fn atom_first(toks: Seq<Token>) -> bool {
    &&& toks.len() > 0
    &&& (toks[0].kind == TokenType::Literal || toks[0].kind == TokenType::Identifier)
    &&& (toks.len() == 1 || !expr_cont(toks[1].kind))
}

/// The expression a bare literal or identifier token parses to.
pub open spec fn atom_expr(t: Token) -> Expr {
    if t.kind == TokenType::Literal {
        Expr::Literal { start: t.start, len: t.text@.len() as usize, value: t.value }
    } else {
        Expr::VarGet { start: t.start, len: t.text@.len() as usize, name: t.text }
    }
}

/// The length of the span from `start` to the end of a part at
/// `e_start` with length `e_len` (zero when the part lies before
/// `start`): the parser's span-joining rule.
pub open spec fn span_to(start: int, e_start: int, e_len: int) -> int {
    if e_start >= start {
        e_start + e_len - start
    } else {
        0
    }
}

/// The assignment a token writes to a named variable: spans run from
/// the name to the end of the value.
pub open spec fn varset_of(t: Token, value: Expr) -> Expr {
    Expr::VarSet {
        start: t.start,
        len: span_to(t.start as int, expr_start(&value), expr_len(&value)) as usize,
        name: t.text,
        expr: Box::new(value),
    }
}

/// The upcoming tokens read `name = <atom>` with nothing chaining on.
pub open spec fn assign1_first(toks: Seq<Token>) -> bool {
    &&& toks.len() >= 3
    &&& toks[0].kind == TokenType::Identifier
    &&& toks[1].kind == TokenType::Equal
    &&& atom_first(toks.skip(2))
    &&& (toks.len() == 3 || toks[3].kind != TokenType::Equal)
}

/// The upcoming tokens read `name = name = <atom>`.
pub open spec fn assign2_first(toks: Seq<Token>) -> bool {
    &&& toks.len() >= 5
    &&& toks[0].kind == TokenType::Identifier
    &&& toks[1].kind == TokenType::Equal
    &&& assign1_first(toks.skip(2))
}

/// The upcoming tokens put `=` after a literal: an invalid assignment
/// target.
pub open spec fn bad_target_first(toks: Seq<Token>) -> bool {
    &&& toks.len() >= 2
    &&& toks[0].kind == TokenType::Literal
    &&& toks[1].kind == TokenType::Equal
}

/// The diagnostic an invalid assignment target records: at the span of
/// the left side.
pub open spec fn bad_target_err(t: Token) -> ErrM {
    ErrM {
        msg: "invalid assignment target"@,
        severity: Severity::Error,
        start: t.start as nat,
        length: t.text@.len(),
    }
}

/// What every expression level owes a bare leading atom: exactly that
/// atom, one token consumed.
pub open spec fn atom_out(pre: Seq<Token>, post: Seq<Token>, r: Option<Expr>) -> bool {
    atom_first(pre) ==> r == Some(atom_expr(pre[0])) && post == pre.skip(1)
}

/// A lone invalid-assignment statement: a literal, `=`, one more
/// token, and the closing semicolon, with nothing after it.
pub open spec fn bad_target_stmt_first(toks: Seq<Token>) -> bool {
    toks.len() == 4 && bad_target_first(toks) && toks[3].kind == TokenType::Semicolon
}

/// A zero-length diagnostic anchored just past a token's lexeme.
pub open spec fn err_after(msg: Seq<char>, t: Token) -> ErrM {
    ErrM { msg: msg, severity: Severity::Error, start: t.start as nat + t.text@.len(), length: 0 }
}

/// The upcoming tokens read `<atom> ;`.
pub open spec fn exprstmt_first(toks: Seq<Token>) -> bool {
    &&& toks.len() >= 2
    &&& (toks[0].kind == TokenType::Literal || toks[0].kind == TokenType::Identifier)
    &&& toks[1].kind == TokenType::Semicolon
}

/// The statement `<atom> ;` parses to.
pub open spec fn exprstmt_of(toks: Seq<Token>) -> Stmt {
    Stmt::ExprStmt {
        start: toks[0].start,
        len: span_to(toks[0].start as int, toks[1].start as int, toks[1].text@.len() as int)
            as usize,
        expr: atom_expr(toks[0]),
    }
}

/// The upcoming tokens read `print <atom> ;`.
pub open spec fn printstmt_first(toks: Seq<Token>) -> bool {
    &&& toks.len() >= 3
    &&& toks[0].kind == TokenType::Print
    &&& (toks[1].kind == TokenType::Literal || toks[1].kind == TokenType::Identifier)
    &&& toks[2].kind == TokenType::Semicolon
}

/// The statement `print <atom> ;` parses to.
pub open spec fn printstmt_of(toks: Seq<Token>) -> Stmt {
    Stmt::PrintStmt {
        start: toks[0].start,
        len: span_to(toks[0].start as int, toks[2].start as int, toks[2].text@.len() as int)
            as usize,
        expr: atom_expr(toks[1]),
    }
}

/// The upcoming tokens read `var name ;`.
pub open spec fn vardecl_first(toks: Seq<Token>) -> bool {
    &&& toks.len() >= 3
    &&& toks[0].kind == TokenType::Var
    &&& toks[1].kind == TokenType::Identifier
    &&& toks[2].kind == TokenType::Semicolon
}

/// The statement `var name ;` parses to.
pub open spec fn vardecl_of(toks: Seq<Token>) -> Stmt {
    Stmt::VarStmt {
        start: toks[0].start,
        len: span_to(toks[0].start as int, toks[2].start as int, toks[2].text@.len() as int)
            as usize,
        name: toks[1].text,
        expr: None,
    }
}

/// The upcoming tokens read `var name = <atom> ;`.
pub open spec fn vardecl_init_first(toks: Seq<Token>) -> bool {
    &&& toks.len() >= 5
    &&& toks[0].kind == TokenType::Var
    &&& toks[1].kind == TokenType::Identifier
    &&& toks[2].kind == TokenType::Equal
    &&& (toks[3].kind == TokenType::Literal || toks[3].kind == TokenType::Identifier)
    &&& toks[4].kind == TokenType::Semicolon
}

/// The statement `var name = <atom> ;` parses to.
pub open spec fn vardecl_init_of(toks: Seq<Token>) -> Stmt {
    Stmt::VarStmt {
        start: toks[0].start,
        len: span_to(toks[0].start as int, toks[4].start as int, toks[4].text@.len() as int)
            as usize,
        name: toks[1].text,
        expr: Some(atom_expr(toks[3])),
    }
}

/// The upcoming tokens read `while <atom> { }`.
pub open spec fn whilestmt_first(toks: Seq<Token>) -> bool {
    &&& toks.len() >= 4
    &&& toks[0].kind == TokenType::While
    &&& (toks[1].kind == TokenType::Literal || toks[1].kind == TokenType::Identifier)
    &&& toks[2].kind == TokenType::LeftBrace
    &&& toks[3].kind == TokenType::RightBrace
}

/// The upcoming tokens read `if <atom> { }` with no `else` attached.
pub open spec fn ifstmt_first(toks: Seq<Token>) -> bool {
    &&& toks.len() >= 4
    &&& toks[0].kind == TokenType::If
    &&& (toks[1].kind == TokenType::Literal || toks[1].kind == TokenType::Identifier)
    &&& toks[2].kind == TokenType::LeftBrace
    &&& toks[3].kind == TokenType::RightBrace
    &&& (toks.len() == 4 || toks[4].kind != TokenType::Else)
}

/// The upcoming tokens read `for ( ; ; ) { }`: every clause omitted.
pub open spec fn forstmt_first(toks: Seq<Token>) -> bool {
    &&& toks.len() >= 7
    &&& toks[0].kind == TokenType::For
    &&& toks[1].kind == TokenType::LeftParen
    &&& toks[2].kind == TokenType::Semicolon
    &&& toks[3].kind == TokenType::Semicolon
    &&& toks[4].kind == TokenType::RightParen
    &&& toks[5].kind == TokenType::LeftBrace
    &&& toks[6].kind == TokenType::RightBrace
}

/// The always-true expression an omitted `for` clause stands for.
pub open spec fn true_expr_s() -> Expr {
    Expr::Literal { start: 0, len: 0, value: LoxValue::Bool(true) }
}

/// The no-op statement an omitted `for` initializer stands for.
pub open spec fn true_stmt_s() -> Stmt {
    Stmt::ExprStmt { start: 0, len: 0, expr: true_expr_s() }
}

/// The span of an empty block whose braces are the tokens `lb`, `rb`.
pub open spec fn brace_span(lb: Token, rb: Token) -> int {
    span_to(lb.start as int, rb.start as int, 1)
}

/// The node `while <atom> { }` parses to: the condition is the atom,
/// the body an empty block spanning its braces.
pub open spec fn whilestmt_shape(toks: Seq<Token>, st: Stmt) -> bool {
    st matches Stmt::WhileStmt { start, len, expr, stmt } && start == toks[0].start && expr
        == atom_expr(toks[1]) && len as int == span_to(
        toks[0].start as int,
        toks[2].start as int,
        brace_span(toks[2], toks[3]),
    ) && ((*stmt) matches Stmt::BlockStmt { start: bs, len: bl, stmts } && stmts@
        == Seq::<Stmt>::empty() && bs == toks[2].start && bl as int == brace_span(toks[2], toks[3]))
}

/// The node `if <atom> { }` parses to: the condition is the atom, the
/// branch an empty block, and no else branch.
pub open spec fn ifstmt_shape(toks: Seq<Token>, st: Stmt) -> bool {
    st matches Stmt::IfStmt { start, len, expr, stmt_true, stmt_false } && start == toks[0].start
        && expr == atom_expr(toks[1]) && len as int == span_to(
        toks[0].start as int,
        toks[2].start as int,
        brace_span(toks[2], toks[3]),
    ) && ((*stmt_true) matches Stmt::BlockStmt { start: bs, len: bl, stmts } && stmts@
        == Seq::<Stmt>::empty() && bs == toks[2].start && bl as int == brace_span(toks[2], toks[3]))
        && stmt_false is None
}

/// The node `for ( ; ; ) { }` desugars to: a block holding the no-op
/// initializer and an always-true while loop whose body runs the empty
/// block and then the no-op update.
pub open spec fn forstmt_shape(toks: Seq<Token>, st: Stmt) -> bool {
    st matches Stmt::BlockStmt { start, len, stmts } && start == toks[0].start && len as int
        == span_to(
        toks[0].start as int,
        toks[5].start as int,
        brace_span(toks[5], toks[6]),
    ) && stmts@.len() == 2 && stmts@[0] == true_stmt_s() && (stmts@[1] matches Stmt::WhileStmt {
        start: ws,
        len: wl,
        expr,
        stmt,
    } && ws == start && wl == len && expr == true_expr_s() && ((*stmt) matches Stmt::BlockStmt {
        start: ibs,
        len: ibl,
        stmts: inner,
    } && ibs == start && ibl == len && inner@.len() == 2 && (inner@[0] matches Stmt::BlockStmt {
        start: bs,
        len: bl,
        stmts: body,
    } && body@ == Seq::<Stmt>::empty() && bs == toks[5].start && bl as int == brace_span(
        toks[5],
        toks[6],
    )) && inner@[1] == (Stmt::ExprStmt { start: start, len: len, expr: true_expr_s() })))
}

pub proof fn lemma_skip_skip(toks: Seq<Token>, a: int, b: int)
    requires
        0 <= a,
        0 <= b,
        a + b <= toks.len(),
    ensures
        toks.skip(a).skip(b) == toks.skip(a + b),
{
    assert(toks.skip(a).skip(b) =~= toks.skip(a + b));
}

/// How many characters a token's lexeme holds.
fn text_len(t: &Token) -> (r: usize)
    ensures
        r == t.text@.len(),
{
    t.text.as_str().unicode_len()
}

/// The character offset just past a token's lexeme.
fn eat_end(t: &Token) -> (r: usize)
    requires
        t.start + t.text@.len() <= usize::MAX,
    ensures
        r == t.start + t.text@.len(),
{
    t.start + text_len(t)
}

/// The length of a span that starts at `start` and runs to the end of
/// a part that starts at `e_start` with length `e_len`; zero when the
/// part lies before `start`.
fn join_span(start: usize, e_start: usize, e_len: usize) -> (r: usize)
    requires
        e_start + e_len <= usize::MAX,
    ensures
        e_start >= start ==> start + r == e_start + e_len,
        e_start < start ==> r == 0,
{
    if e_start >= start {
        e_start - start + e_len
    } else {
        0
    }
}

/// The statement shape a `for` always desugars to: a block holding the
/// initializer and a while loop whose body runs the loop body and
/// then the update expression.
pub open spec fn is_for_desugar(st: &Stmt) -> bool {
    match st {
        Stmt::BlockStmt { stmts, .. } => stmts@.len() == 2 && (match &stmts@[1] {
            Stmt::WhileStmt { stmt, .. } => match &**stmt {
                Stmt::BlockStmt { stmts: bs, .. } => bs@.len() == 2 && (bs@[1] is ExprStmt),
                _ => false,
            },
            _ => false,
        }),
        _ => false,
    }
}

/// The parser: the token stream with lookahead, the scanner it came
/// from (still holding the scan's diagnostics), its own diagnostics,
/// and the source length for end-of-input positions.
pub struct Parser {
    lexer: NPeekable<Token>,
    scanner: Lexer,
    errors: Errors,
    srclen: usize,
}

impl Parser {
    /// The tokens not yet consumed.
    pub closed spec fn toks(&self) -> Seq<Token> {
        self.lexer.remaining()
    }

    pub closed spec fn srcn(&self) -> int {
        self.srclen as int
    }

    pub closed spec fn errs(&self) -> ErrsM {
        self.errors@
    }

    pub closed spec fn inv(&self) -> bool {
        &&& self.lexer.cursor_at() == 0
        &&& self.errors.inv()
        &&& self.scanner.inv()
        &&& self.srclen + 64 <= usize::MAX
        &&& forall|i: int| 0 <= i < self.toks().len() ==> token_sp(#[trigger] self.toks()[i], self.srclen as int)
    }

    pub fn new(source: &str) -> (r: Parser)
        ensures
            r.inv(),
            r.errs().list == Seq::<ErrM>::empty(),
            r.errs().flag == false,
            r.srcn() == source@.len(),
            crate::lexer::ws_run_end(source@, 0) >= source@.len() ==> r.toks().len() == 0
                && r.scanner_errs().list == Seq::<ErrM>::empty(),
            (crate::lexer::lex_clean(source@, 0) matches Some(ts0)) ==> ({
                let ts = crate::lexer::lex_clean(source@, 0).unwrap();
                r.toks().len() == ts.len() && (forall|k: int|
                    0 <= k < ts.len() ==> (#[trigger] r.toks()[k]).kind == ts[k].0
                        && r.toks()[k].value@ == ts[k].1 && r.toks()[k].start as int == ts[k].2
                        && r.toks()[k].text@ == source@.subrange(ts[k].2, ts[k].3)
                        && r.toks()[k].start + r.toks()[k].text@.len() == ts[k].3 && ts[k].3
                        <= source@.len()) && r.scanner_errs().list == Seq::<ErrM>::empty()
            }),
    {
        let mut scanner = Lexer::new(source);
        let srclen = scanner.source_len();
        let toks = scanner.tokens();
        proof {
            assert forall|i: int| 0 <= i < toks@.len() implies token_sp(
                #[trigger] toks@[i],
                srclen as int,
            ) by {
                lemma_token_ok_sp(toks@[i], source@);
            }
        }
        Parser { lexer: toks.npeekable(), scanner, errors: Errors::new(source), srclen }
    }

    /// Move every diagnostic collected here and during scanning into
    /// `target`.
    pub fn coalesce_errors(&mut self, target: &mut Errors)
        requires
            old(self).inv(),
        ensures
            final(self).inv(),
            final(self).srcn() == old(self).srcn(),
            final(self).toks() == old(self).toks(),
            final(self).errs().list == Seq::<ErrM>::empty(),
            final(self).errs().flag == old(self).errs().flag,
            final(self).scanner_errs().list == Seq::<ErrM>::empty(),
            final(target).inv() == old(target).inv(),
            final(target)@.source == old(target)@.source,
            final(target)@.flag == old(target)@.flag,
            final(target)@.list == old(target)@.list + old(self).errs().list + old(self).scanner_errs().list,
    {
        self.errors.coalesce(target);
        self.scanner.coalesce_errors(target);
        proof {
            assert(target@.list =~= old(target)@.list + old(self).errs().list + old(self).scanner_errs().list);
            assert(self.toks() == old(self).toks());
            assert forall|i: int|
                0 <= i < self.toks().len() implies token_sp(
                #[trigger] self.toks()[i],
                self.srclen as int,
            ) by {
                assert(token_sp(old(self).toks()[i], old(self).srclen as int));
            }
        }
    }

    /// The diagnostics the scanner collected.
    pub closed spec fn scanner_errs(&self) -> ErrsM {
        self.scanner.errs()
    }

    /// The kind of the next token, if any.
    fn peek_kind(&self) -> (r: Option<TokenType>)
        requires
            self.inv(),
        ensures
            match r {
                Some(k) => self.toks().len() > 0 && k == self.toks()[0].kind,
                None => self.toks().len() == 0,
            },
    {
        match self.lexer.peek() {
            Some(t) => Some(t.kind),
            None => None,
        }
    }

    /// The span of the next token, or the zero-width end of the source.
    fn peek_span(&self) -> (r: (usize, usize))
        requires
            self.inv(),
        ensures
            self.toks().len() > 0 ==> r.0 == self.toks()[0].start && r.1 == self.toks()[0].text@.len(),
            self.toks().len() == 0 ==> r.0 as int == self.srcn() && r.1 == 0,
            r.0 + r.1 <= self.srcn(),
    {
        match self.lexer.peek() {
            Some(t) => (t.start, text_len(t)),
            None => (self.srclen, 0),
        }
    }

    /// Consume the next token exactly when it is of the given kind.
    fn eat(&mut self, kind: TokenType) -> (r: Option<Token>)
        requires
            old(self).inv(),
        ensures
            final(self).inv(),
            final(self).srcn() == old(self).srcn(),
            final(self).errs() == old(self).errs(),
            final(self).scanner_errs() == old(self).scanner_errs(),
            match r {
                Some(t) => old(self).toks().len() > 0 && t == old(self).toks()[0] && t.kind == kind
                    && final(self).toks() == old(self).toks().skip(1) && token_sp(t, old(self).srcn()),
                None => final(self).toks() == old(self).toks() && (old(self).toks().len() > 0
                    ==> old(self).toks()[0].kind != kind),
            },
    {
        let test = |t: &Token| -> (b: bool)
            ensures
                b == (t.kind == kind),
            {
                t.kind == kind
            };
        let r = self.lexer.next_if(test);
        proof {
            if r is Some {
                assert forall|i: int| 0 <= i < self.toks().len() implies token_sp(
                    #[trigger] self.toks()[i],
                    self.srclen as int,
                ) by {
                    assert(self.toks()[i] == old(self).toks()[i + 1]);
                }
            }
        }
        r
    }

    /// Consume tokens until just past a semicolon or just before a
    /// keyword that can start a statement, clearing the panic flag.
    pub fn synchronize(&mut self)
        requires
            old(self).inv(),
        ensures
            final(self).inv(),
            final(self).srcn() == old(self).srcn(),
            final(self).scanner_errs() == old(self).scanner_errs(),
            final(self).errs() == (ErrsM { flag: false, ..old(self).errs() }),
            final(self).toks().len() <= old(self).toks().len(),
            final(self).toks() == old(self).toks().skip(sync_len(old(self).toks())),
    {
        proof {
            lemma_sync_len_bounds(old(self).toks());
        }
        self.errors.set_flag(false);
        loop
            invariant
                self.inv(),
                self.srcn() == old(self).srcn(),
                self.scanner_errs() == old(self).scanner_errs(),
                self.errs() == (ErrsM { flag: false, ..old(self).errs() }),
                self.toks().len() <= old(self).toks().len(),
                old(self).toks().skip(sync_len(old(self).toks())) == self.toks().skip(
                    sync_len(self.toks()),
                ),
            decreases self.toks().len(),
        {
            proof {
                lemma_sync_len_bounds(self.toks());
            }
            let ghost pre = self.toks();
            match self.peek_kind() {
                Some(k) => {
                    if k == TokenType::Semicolon {
                        self.advance_token();
                        proof {
                            assert(pre.skip(sync_len(pre)) =~= self.toks().skip(0));
                            assert(self.toks().skip(0) =~= self.toks());
                        }
                        return ;
                    } else if k == TokenType::Class || k == TokenType::For || k == TokenType::Fn
                        || k == TokenType::If || k == TokenType::Print || k == TokenType::Return
                        || k == TokenType::Var || k == TokenType::While {
                        proof {
                            assert(sync_len(pre) == 0);
                            assert(pre.skip(0) =~= pre);
                        }
                        return ;
                    } else {
                        self.advance_token();
                        proof {
                            lemma_sync_len_bounds(self.toks());
                            assert(pre.skip(sync_len(pre)) =~= pre.skip(1).skip(
                                sync_len(pre.skip(1)),
                            ));
                        }
                    }
                },
                None => {
                    proof {
                        assert(pre.skip(0) =~= pre);
                    }
                    return ;
                },
            }
        }
    }

    /// Consume one token, whatever it is.
    fn advance_token(&mut self) -> (r: Option<Token>)
        requires
            old(self).inv(),
        ensures
            final(self).inv(),
            final(self).srcn() == old(self).srcn(),
            final(self).errs() == old(self).errs(),
            final(self).scanner_errs() == old(self).scanner_errs(),
            match r {
                Some(t) => old(self).toks().len() > 0 && t == old(self).toks()[0] && final(self).toks() == old(self).toks().skip(1) && token_sp(t, old(self).srcn()),
                None => old(self).toks().len() == 0 && final(self).toks() == old(self).toks(),
            },
    {
        let r = self.lexer.next();
        proof {
            if r is Some {
                assert forall|i: int| 0 <= i < self.toks().len() implies token_sp(
                    #[trigger] self.toks()[i],
                    self.srclen as int,
                ) by {
                    assert(self.toks()[i] == old(self).toks()[i + 1]);
                }
            }
        }
        r
    }

    /// What every parsing step preserves: the invariant, the source,
    /// the scan diagnostics, the diagnostic discipline, and that tokens
    /// are only ever consumed.
    pub open spec fn step_ok(&self, post: &Parser) -> bool {
        &&& post.inv()
        &&& post.srcn() == self.srcn()
        &&& post.scanner_errs() == self.scanner_errs()
        &&& errs_step(self.errs(), post.errs())
        &&& post.toks().len() <= self.toks().len()
    }

    /// An expression production's outcome: a well-formed,
    /// left-associative expression whose top precedence family is
    /// `lvl` or tighter (or an atom), having consumed at least one
    /// token.
    pub open spec fn expr_post(&self, post: &Parser, r: &Option<Expr>, lvl: int) -> bool {
        match r {
            Some(e) => expr_wf(e, self.srcn()) && left_assoc(e) && (top_level_of(e) == 0
                || top_level_of(e) >= lvl) && post.toks().len() < self.toks().len() && post.errs()
                == self.errs(),
            None => true,
        }
    }

    /// Parse an expression.
    pub fn expression(&mut self) -> (r: Option<Expr>)
        requires
            old(self).inv(),
        ensures
            old(self).step_ok(final(self)),
            old(self).expr_post(final(self), &r, 0),
            (atom_first(old(self).toks()) && (old(self).toks().len() == 1 || old(
                self,
            ).toks()[1].kind != TokenType::Equal)) ==> r == Some(atom_expr(old(self).toks()[0]))
                && final(self).toks() == old(self).toks().skip(1),
            assign1_first(old(self).toks()) ==> r == Some(
                varset_of(old(self).toks()[0], atom_expr(old(self).toks()[2])),
            ) && final(self).toks() == old(self).toks().skip(3),
            assign2_first(old(self).toks()) ==> r == Some(
                varset_of(
                    old(self).toks()[0],
                    varset_of(old(self).toks()[2], atom_expr(old(self).toks()[4])),
                ),
            ) && final(self).toks() == old(self).toks().skip(5),
            (bad_target_first(old(self).toks()) && old(self).errs().flag == false) ==> r is None
                && final(self).toks() == old(self).toks().skip(2) && final(self).errs().flag
                == true && final(self).errs().list == old(self).errs().list.push(
                bad_target_err(old(self).toks()[0]),
            ),
        decreases old(self).toks().len(), 9int,
    {
        self.assignment()
    }

    /// assignment := logic_or ( "=" assignment )?   — the left side
    /// must be a bare variable read.
    fn assignment(&mut self) -> (r: Option<Expr>)
        requires
            old(self).inv(),
        ensures
            old(self).step_ok(final(self)),
            old(self).expr_post(final(self), &r, 0),
            (atom_first(old(self).toks()) && (old(self).toks().len() == 1 || old(
                self,
            ).toks()[1].kind != TokenType::Equal)) ==> r == Some(atom_expr(old(self).toks()[0]))
                && final(self).toks() == old(self).toks().skip(1),
            assign1_first(old(self).toks()) ==> r == Some(
                varset_of(old(self).toks()[0], atom_expr(old(self).toks()[2])),
            ) && final(self).toks() == old(self).toks().skip(3),
            assign2_first(old(self).toks()) ==> r == Some(
                varset_of(
                    old(self).toks()[0],
                    varset_of(old(self).toks()[2], atom_expr(old(self).toks()[4])),
                ),
            ) && final(self).toks() == old(self).toks().skip(5),
            (bad_target_first(old(self).toks()) && old(self).errs().flag == false) ==> r is None
                && final(self).toks() == old(self).toks().skip(2) && final(self).errs().flag
                == true && final(self).errs().list == old(self).errs().list.push(
                bad_target_err(old(self).toks()[0]),
            ),
        decreases old(self).toks().len(), 8int,
    {
        match self.logic_or() {
            None => None,
            Some(ex) => {
                match self.eat(TokenType::Equal) {
                    None => Some(ex),
                    Some(eq) => {
                        proof {
                            if assign1_first(old(self).toks()) || assign2_first(old(self).toks())
                                || bad_target_first(old(self).toks()) {
                                assert(atom_first(old(self).toks()));
                                assert(old(self).toks().skip(1).skip(1) =~= old(
                                    self,
                                ).toks().skip(2));
                            }
                        }
                        if ex.is_varget() {
                            match self.assignment() {
                                Some(value) => {
                                    proof {
                                        if assign1_first(old(self).toks()) {
                                            assert(old(self).toks().skip(2)[0] == old(
                                                self,
                                            ).toks()[2]);
                                            assert(old(self).toks().len() > 3
                                                ==> old(self).toks().skip(2)[1] == old(
                                                self,
                                            ).toks()[3]);
                                            assert(old(self).toks().skip(2).skip(1) =~= old(
                                                self,
                                            ).toks().skip(3));
                                        }
                                        if assign2_first(old(self).toks()) {
                                            assert(old(self).toks().skip(2).skip(3) =~= old(
                                                self,
                                            ).toks().skip(5));
                                        }
                                    }
                                    let st = ex.start();
                                    let ln = join_span(st, value.start(), value.len());
                                    proof {
                                        if assign1_first(old(self).toks()) || assign2_first(
                                            old(self).toks(),
                                        ) {
                                            assert(ln as int == span_to(
                                                st as int,
                                                expr_start(&value),
                                                expr_len(&value),
                                            ));
                                        }
                                    }
                                    let name = match ex {
                                        Expr::VarGet { name, .. } => name,
                                        _ => {
                                            proof {
                                                assert(false);
                                            }
                                            String::new()
                                        },
                                    };
                                    Some(
                                        Expr::VarSet {
                                            start: st,
                                            len: ln,
                                            name,
                                            expr: Box::new(value),
                                        },
                                    )
                                },
                                None => {
                                    let e = eat_end(&eq);
                                    self.report("expected value after assignment", e, 0);
                                    None
                                },
                            }
                        } else {
                            let st = ex.start();
                            let ln = ex.len();
                            self.report("invalid assignment target", st, ln);
                            None
                        }
                    },
                }
            },
        }
    }

    /// logic_or := logic_and ( "or" logic_and )*
    fn logic_or(&mut self) -> (r: Option<Expr>)
        requires
            old(self).inv(),
        ensures
            old(self).step_ok(final(self)),
            old(self).expr_post(final(self), &r, 1),
            atom_out(old(self).toks(), final(self).toks(), r),
        decreases old(self).toks().len(), 7int,
    {
        match self.logic_and() {
            None => {
                if self.lexer_has_tokens() {
                    let sp = self.peek_span();
                    self.report("expected expression", sp.0, sp.1);
                }
                None
            },
            Some(first) => {
                let mut left = first;
                loop
                    invariant
                        self.inv(),
                        self.srcn() == old(self).srcn(),
                        self.scanner_errs() == old(self).scanner_errs(),
                        self.errs() == old(self).errs(),
                        self.toks().len() < old(self).toks().len(),
                        expr_wf(&left, self.srcn()),
                        left_assoc(&left),
                        top_level_of(&left) == 0 || top_level_of(&left) >= 1,
                        atom_first(old(self).toks()) ==> left == atom_expr(old(self).toks()[0])
                            && self.toks() == old(self).toks().skip(1),
                    ensures
                        self.inv(),
                        self.srcn() == old(self).srcn(),
                        self.scanner_errs() == old(self).scanner_errs(),
                        self.errs() == old(self).errs(),
                        self.toks().len() < old(self).toks().len(),
                        expr_wf(&left, self.srcn()),
                        left_assoc(&left),
                        top_level_of(&left) == 0 || top_level_of(&left) >= 1,
                        atom_first(old(self).toks()) ==> left == atom_expr(old(self).toks()[0])
                            && self.toks() == old(self).toks().skip(1),
                    decreases self.toks().len(),
                {
                    match self.eat(TokenType::Or) {
                        None => {
                            break ;
                        },
                        Some(oper) => {
                            proof {
                                if atom_first(old(self).toks()) {
                                    assert(oper.kind == old(self).toks()[1].kind);
                                    assert(false);
                                }
                            }
                            match self.logic_and() {
                                Some(right) => {
                                    let st = left.start();
                                    let ln = join_span(st, right.start(), right.len());
                                    left = Expr::Logical {
                                        start: st,
                                        len: ln,
                                        left: Box::new(left),
                                        oper: oper.kind,
                                        right: Box::new(right),
                                    };
                                },
                                None => {
                                    let e = eat_end(&oper);
                                    self.report("expected expression after operator", e, 0);
                                    return None;
                                },
                            }
                        },
                    }
                }
                Some(left)
            },
        }
    }

    /// logic_and := equality ( "and" equality )*
    fn logic_and(&mut self) -> (r: Option<Expr>)
        requires
            old(self).inv(),
        ensures
            old(self).step_ok(final(self)),
            old(self).expr_post(final(self), &r, 2),
            atom_out(old(self).toks(), final(self).toks(), r),
        decreases old(self).toks().len(), 6int,
    {
        match self.equality() {
            None => {
                if self.lexer_has_tokens() {
                    let sp = self.peek_span();
                    self.report("expected expression", sp.0, sp.1);
                }
                None
            },
            Some(first) => {
                let mut left = first;
                loop
                    invariant
                        self.inv(),
                        self.srcn() == old(self).srcn(),
                        self.scanner_errs() == old(self).scanner_errs(),
                        self.errs() == old(self).errs(),
                        self.toks().len() < old(self).toks().len(),
                        expr_wf(&left, self.srcn()),
                        left_assoc(&left),
                        top_level_of(&left) == 0 || top_level_of(&left) >= 2,
                        atom_first(old(self).toks()) ==> left == atom_expr(old(self).toks()[0])
                            && self.toks() == old(self).toks().skip(1),
                    ensures
                        self.inv(),
                        self.srcn() == old(self).srcn(),
                        self.scanner_errs() == old(self).scanner_errs(),
                        self.errs() == old(self).errs(),
                        self.toks().len() < old(self).toks().len(),
                        expr_wf(&left, self.srcn()),
                        left_assoc(&left),
                        top_level_of(&left) == 0 || top_level_of(&left) >= 2,
                        atom_first(old(self).toks()) ==> left == atom_expr(old(self).toks()[0])
                            && self.toks() == old(self).toks().skip(1),
                    decreases self.toks().len(),
                {
                    match self.eat(TokenType::And) {
                        None => {
                            break ;
                        },
                        Some(oper) => {
                            proof {
                                if atom_first(old(self).toks()) {
                                    assert(oper.kind == old(self).toks()[1].kind);
                                    assert(false);
                                }
                            }
                            match self.equality() {
                                Some(right) => {
                                    let st = left.start();
                                    let ln = join_span(st, right.start(), right.len());
                                    left = Expr::Logical {
                                        start: st,
                                        len: ln,
                                        left: Box::new(left),
                                        oper: oper.kind,
                                        right: Box::new(right),
                                    };
                                },
                                None => {
                                    let e = eat_end(&oper);
                                    self.report("expected expression after operator", e, 0);
                                    return None;
                                },
                            }
                        },
                    }
                }
                Some(left)
            },
        }
    }

    /// equality := comparison ( ("=="|"!=") comparison )*
    fn equality(&mut self) -> (r: Option<Expr>)
        requires
            old(self).inv(),
        ensures
            old(self).step_ok(final(self)),
            old(self).expr_post(final(self), &r, 3),
            atom_out(old(self).toks(), final(self).toks(), r),
        decreases old(self).toks().len(), 5int,
    {
        match self.comparison() {
            None => {
                if self.lexer_has_tokens() {
                    let sp = self.peek_span();
                    self.report("expected expression", sp.0, sp.1);
                }
                None
            },
            Some(first) => {
                let mut left = first;
                loop
                    invariant
                        self.inv(),
                        self.srcn() == old(self).srcn(),
                        self.scanner_errs() == old(self).scanner_errs(),
                        self.errs() == old(self).errs(),
                        self.toks().len() < old(self).toks().len(),
                        expr_wf(&left, self.srcn()),
                        left_assoc(&left),
                        top_level_of(&left) == 0 || top_level_of(&left) >= 3,
                        atom_first(old(self).toks()) ==> left == atom_expr(old(self).toks()[0])
                            && self.toks() == old(self).toks().skip(1),
                    ensures
                        self.inv(),
                        self.srcn() == old(self).srcn(),
                        self.scanner_errs() == old(self).scanner_errs(),
                        self.errs() == old(self).errs(),
                        self.toks().len() < old(self).toks().len(),
                        expr_wf(&left, self.srcn()),
                        left_assoc(&left),
                        top_level_of(&left) == 0 || top_level_of(&left) >= 3,
                        atom_first(old(self).toks()) ==> left == atom_expr(old(self).toks()[0])
                            && self.toks() == old(self).toks().skip(1),
                    decreases self.toks().len(),
                {
                    let is_op = match self.peek_kind() {
                        Some(k) => k == TokenType::EqualEqual || k == TokenType::BangEqual,
                        None => false,
                    };
                    if !is_op {
                        break ;
                    }
                    proof {
                        if atom_first(old(self).toks()) {
                            assert(self.toks()[0] == old(self).toks()[1]);
                            assert(false);
                        }
                    }
                    let oper = match self.advance_token() {
                        Some(t) => t,
                        None => {
                            proof {
                                assert(false);
                            }
                            break ;
                        },
                    };
                    match self.comparison() {
                        Some(right) => {
                            let st = left.start();
                            let ln = join_span(st, right.start(), right.len());
                            left = Expr::Binary {
                                start: st,
                                len: ln,
                                left: Box::new(left),
                                oper: oper.kind,
                                right: Box::new(right),
                            };
                        },
                        None => {
                            let e = eat_end(&oper);
                            self.report("expected expression after operator", e, 0);
                            return None;
                        },
                    }
                }
                Some(left)
            },
        }
    }

    /// comparison := term ( ("<"|"<="|">"|">=") term )*
    fn comparison(&mut self) -> (r: Option<Expr>)
        requires
            old(self).inv(),
        ensures
            old(self).step_ok(final(self)),
            old(self).expr_post(final(self), &r, 4),
            atom_out(old(self).toks(), final(self).toks(), r),
        decreases old(self).toks().len(), 4int,
    {
        match self.term() {
            None => None,
            Some(first) => {
                let mut left = first;
                loop
                    invariant
                        self.inv(),
                        self.srcn() == old(self).srcn(),
                        self.scanner_errs() == old(self).scanner_errs(),
                        self.errs() == old(self).errs(),
                        self.toks().len() < old(self).toks().len(),
                        expr_wf(&left, self.srcn()),
                        left_assoc(&left),
                        top_level_of(&left) == 0 || top_level_of(&left) >= 4,
                        atom_first(old(self).toks()) ==> left == atom_expr(old(self).toks()[0])
                            && self.toks() == old(self).toks().skip(1),
                    ensures
                        self.inv(),
                        self.srcn() == old(self).srcn(),
                        self.scanner_errs() == old(self).scanner_errs(),
                        self.errs() == old(self).errs(),
                        self.toks().len() < old(self).toks().len(),
                        expr_wf(&left, self.srcn()),
                        left_assoc(&left),
                        top_level_of(&left) == 0 || top_level_of(&left) >= 4,
                        atom_first(old(self).toks()) ==> left == atom_expr(old(self).toks()[0])
                            && self.toks() == old(self).toks().skip(1),
                    decreases self.toks().len(),
                {
                    let is_op = match self.peek_kind() {
                        Some(k) => k == TokenType::Less || k == TokenType::LessEqual || k
                            == TokenType::Greater || k == TokenType::GreaterEqual,
                        None => false,
                    };
                    if !is_op {
                        break ;
                    }
                    proof {
                        if atom_first(old(self).toks()) {
                            assert(self.toks()[0] == old(self).toks()[1]);
                            assert(false);
                        }
                    }
                    let oper = match self.advance_token() {
                        Some(t) => t,
                        None => {
                            proof {
                                assert(false);
                            }
                            break ;
                        },
                    };
                    match self.term() {
                        Some(right) => {
                            let st = left.start();
                            let ln = join_span(st, right.start(), right.len());
                            left = Expr::Binary {
                                start: st,
                                len: ln,
                                left: Box::new(left),
                                oper: oper.kind,
                                right: Box::new(right),
                            };
                        },
                        None => {
                            let e = eat_end(&oper);
                            self.report("expected expression after operator", e, 0);
                            return None;
                        },
                    }
                }
                Some(left)
            },
        }
    }

    /// term := factor ( ("+"|"-") factor )*
    fn term(&mut self) -> (r: Option<Expr>)
        requires
            old(self).inv(),
        ensures
            old(self).step_ok(final(self)),
            old(self).expr_post(final(self), &r, 5),
            atom_out(old(self).toks(), final(self).toks(), r),
        decreases old(self).toks().len(), 3int,
    {
        match self.factor() {
            None => None,
            Some(first) => {
                let mut left = first;
                loop
                    invariant
                        self.inv(),
                        self.srcn() == old(self).srcn(),
                        self.scanner_errs() == old(self).scanner_errs(),
                        self.errs() == old(self).errs(),
                        self.toks().len() < old(self).toks().len(),
                        expr_wf(&left, self.srcn()),
                        left_assoc(&left),
                        top_level_of(&left) == 0 || top_level_of(&left) >= 5,
                        atom_first(old(self).toks()) ==> left == atom_expr(old(self).toks()[0])
                            && self.toks() == old(self).toks().skip(1),
                    ensures
                        self.inv(),
                        self.srcn() == old(self).srcn(),
                        self.scanner_errs() == old(self).scanner_errs(),
                        self.errs() == old(self).errs(),
                        self.toks().len() < old(self).toks().len(),
                        expr_wf(&left, self.srcn()),
                        left_assoc(&left),
                        top_level_of(&left) == 0 || top_level_of(&left) >= 5,
                        atom_first(old(self).toks()) ==> left == atom_expr(old(self).toks()[0])
                            && self.toks() == old(self).toks().skip(1),
                    decreases self.toks().len(),
                {
                    let is_op = match self.peek_kind() {
                        Some(k) => k == TokenType::Plus || k == TokenType::Minus,
                        None => false,
                    };
                    if !is_op {
                        break ;
                    }
                    proof {
                        if atom_first(old(self).toks()) {
                            assert(self.toks()[0] == old(self).toks()[1]);
                            assert(false);
                        }
                    }
                    let oper = match self.advance_token() {
                        Some(t) => t,
                        None => {
                            proof {
                                assert(false);
                            }
                            break ;
                        },
                    };
                    match self.factor() {
                        Some(right) => {
                            let st = left.start();
                            let ln = join_span(st, right.start(), right.len());
                            left = Expr::Binary {
                                start: st,
                                len: ln,
                                left: Box::new(left),
                                oper: oper.kind,
                                right: Box::new(right),
                            };
                        },
                        None => {
                            let e = eat_end(&oper);
                            self.report("expected expression after operator", e, 0);
                            return None;
                        },
                    }
                }
                Some(left)
            },
        }
    }

    /// factor := unary ( ("*"|"/"|"%") unary )*
    fn factor(&mut self) -> (r: Option<Expr>)
        requires
            old(self).inv(),
        ensures
            old(self).step_ok(final(self)),
            old(self).expr_post(final(self), &r, 6),
            atom_out(old(self).toks(), final(self).toks(), r),
        decreases old(self).toks().len(), 2int,
    {
        match self.unary() {
            None => None,
            Some(first) => {
                let mut left = first;
                loop
                    invariant
                        self.inv(),
                        self.srcn() == old(self).srcn(),
                        self.scanner_errs() == old(self).scanner_errs(),
                        self.errs() == old(self).errs(),
                        self.toks().len() < old(self).toks().len(),
                        expr_wf(&left, self.srcn()),
                        left_assoc(&left),
                        top_level_of(&left) == 0 || top_level_of(&left) >= 6,
                        atom_first(old(self).toks()) ==> left == atom_expr(old(self).toks()[0])
                            && self.toks() == old(self).toks().skip(1),
                    ensures
                        self.inv(),
                        self.srcn() == old(self).srcn(),
                        self.scanner_errs() == old(self).scanner_errs(),
                        self.errs() == old(self).errs(),
                        self.toks().len() < old(self).toks().len(),
                        expr_wf(&left, self.srcn()),
                        left_assoc(&left),
                        top_level_of(&left) == 0 || top_level_of(&left) >= 6,
                        atom_first(old(self).toks()) ==> left == atom_expr(old(self).toks()[0])
                            && self.toks() == old(self).toks().skip(1),
                    decreases self.toks().len(),
                {
                    let is_op = match self.peek_kind() {
                        Some(k) => k == TokenType::Star || k == TokenType::Slash || k
                            == TokenType::Percent,
                        None => false,
                    };
                    if !is_op {
                        break ;
                    }
                    proof {
                        if atom_first(old(self).toks()) {
                            assert(self.toks()[0] == old(self).toks()[1]);
                            assert(false);
                        }
                    }
                    let oper = match self.advance_token() {
                        Some(t) => t,
                        None => {
                            proof {
                                assert(false);
                            }
                            break ;
                        },
                    };
                    match self.unary() {
                        Some(right) => {
                            let st = left.start();
                            let ln = join_span(st, right.start(), right.len());
                            left = Expr::Binary {
                                start: st,
                                len: ln,
                                left: Box::new(left),
                                oper: oper.kind,
                                right: Box::new(right),
                            };
                        },
                        None => {
                            let e = eat_end(&oper);
                            self.report("expected expression after operator", e, 0);
                            return None;
                        },
                    }
                }
                Some(left)
            },
        }
    }

    /// unary := ("!"|"-") unary | primary
    fn unary(&mut self) -> (r: Option<Expr>)
        requires
            old(self).inv(),
        ensures
            old(self).step_ok(final(self)),
            old(self).expr_post(final(self), &r, 7),
            match r {
                Some(e) => top_level_of(&e) == 0,
                None => true,
            },
            atom_out(old(self).toks(), final(self).toks(), r),
        decreases old(self).toks().len(), 1int,
    {
        let is_op = match self.peek_kind() {
            Some(k) => k == TokenType::Bang || k == TokenType::Minus,
            None => false,
        };
        if is_op {
            let oper = match self.advance_token() {
                Some(t) => t,
                None => {
                    proof {
                        assert(false);
                    }
                    return None;
                },
            };
            match self.unary() {
                Some(ex) => {
                    let ln = join_span(oper.start, ex.start(), ex.len());
                    Some(
                        Expr::Unary {
                            start: oper.start,
                            len: ln,
                            oper: oper.kind,
                            expr: Box::new(ex),
                        },
                    )
                },
                None => {
                    let e = eat_end(&oper);
                    self.report("expected expression after operator", e, 0);
                    None
                },
            }
        } else {
            self.primary()
        }
    }

    /// primary := Literal | IDENT | "(" expression ")"
    fn primary(&mut self) -> (r: Option<Expr>)
        requires
            old(self).inv(),
        ensures
            old(self).step_ok(final(self)),
            old(self).expr_post(final(self), &r, 7),
            match r {
                Some(e) => top_level_of(&e) == 0,
                None => true,
            },
            old(self).toks().len() > 0 && old(self).toks()[0].kind == TokenType::Literal ==> r
                == Some(Expr::Literal {
                start: old(self).toks()[0].start,
                len: old(self).toks()[0].text@.len() as usize,
                value: old(self).toks()[0].value,
            }),
            old(self).toks().len() > 0 && old(self).toks()[0].kind == TokenType::Identifier ==> r
                == Some(Expr::VarGet {
                start: old(self).toks()[0].start,
                len: old(self).toks()[0].text@.len() as usize,
                name: old(self).toks()[0].text,
            }),
            (old(self).toks().len() > 0 && (old(self).toks()[0].kind == TokenType::Literal || old(
                self,
            ).toks()[0].kind == TokenType::Identifier)) ==> final(self).toks() == old(
                self,
            ).toks().skip(1),
        decreases old(self).toks().len(), 0int,
    {
        let kind = match self.peek_kind() {
            Some(k) => k,
            None => {
                return None;
            },
        };
        if kind == TokenType::Literal {
            let t = match self.advance_token() {
                Some(t) => t,
                None => {
                    proof {
                        assert(false);
                    }
                    return None;
                },
            };
            let ln = text_len(&t);
            Some(Expr::Literal { start: t.start, len: ln, value: t.value })
        } else if kind == TokenType::Identifier {
            let t = match self.advance_token() {
                Some(t) => t,
                None => {
                    proof {
                        assert(false);
                    }
                    return None;
                },
            };
            let ln = text_len(&t);
            Some(Expr::VarGet { start: t.start, len: ln, name: t.text })
        } else if kind == TokenType::LeftParen {
            let lp = match self.advance_token() {
                Some(t) => t,
                None => {
                    proof {
                        assert(false);
                    }
                    return None;
                },
            };
            match self.expression() {
                Some(ex) => {
                    match self.advance_token() {
                        Some(rt) => {
                            if rt.kind == TokenType::RightParen {
                                let ln = join_span(lp.start, rt.start, text_len(&rt));
                                Some(
                                    Expr::Grouping { start: lp.start, len: ln, expr: Box::new(ex) },
                                )
                            } else {
                                self.report("expected rparen after expression", rt.start, 0);
                                None
                            }
                        },
                        None => {
                            let sp = self.srclen;
                            self.report("expected rparen after expression", sp, 0);
                            None
                        },
                    }
                },
                None => {
                    let e = eat_end(&lp);
                    self.report("expected expression after lparen", e, 0);
                    None
                },
            }
        } else {
            None
        }
    }

    /// A statement production's outcome: a well-formed statement with
    /// left-associative expressions, having consumed at least one
    /// token.
    pub open spec fn stmt_post(&self, post: &Parser, r: &Option<Stmt>) -> bool {
        match r {
            Some(st) => stmt_wf(st, self.srcn()) && stmt_la(st) && post.toks().len()
                < self.toks().len() && post.errs() == self.errs(),
            None => true,
        }
    }

    /// Parse one declaration or statement.  On failure, either the
    /// panic flag was raised (and a diagnostic recorded), or there was
    /// nothing left to parse.
    pub fn declaration(&mut self) -> (r: Option<Stmt>)
        requires
            old(self).inv(),
        ensures
            old(self).step_ok(final(self)),
            old(self).stmt_post(final(self), &r),
            (r is None && old(self).errs().flag == false) ==> (final(self).errs().flag == true
                || old(self).toks().len() == 0),
            (r is None && old(self).errs().flag == false && final(self).errs().flag == true)
                ==> final(self).toks().len() < old(self).toks().len(),
            old(self).toks().len() == 0 ==> r is None && final(self).toks() == old(self).toks()
                && final(self).errs() == old(self).errs(),
            vardecl_first(old(self).toks()) ==> r == Some(vardecl_of(old(self).toks())) && final(self).toks() == old(self).toks().skip(3) && final(self).errs() == old(self).errs(),
            vardecl_init_first(old(self).toks()) ==> r == Some(vardecl_init_of(old(self).toks()))
                && final(self).toks() == old(self).toks().skip(5) && final(self).errs() == old(
                self,
            ).errs(),
            printstmt_first(old(self).toks()) ==> r == Some(printstmt_of(old(self).toks()))
                && final(self).toks() == old(self).toks().skip(3) && final(self).errs() == old(
                self,
            ).errs(),
            exprstmt_first(old(self).toks()) ==> r == Some(exprstmt_of(old(self).toks())) && final(self).toks() == old(self).toks().skip(2) && final(self).errs() == old(self).errs(),
            (bad_target_first(old(self).toks()) && old(self).errs().flag == false) ==> r is None
                && final(self).toks() == old(self).toks().skip(
                if old(self).toks().len() > 2 {
                    3int
                } else {
                    2int
                },
            ) && final(self).errs().flag == true && final(self).errs().list == old(
                self,
            ).errs().list.push(bad_target_err(old(self).toks()[0])),
            whilestmt_first(old(self).toks()) ==> (match r {
                Some(st) => whilestmt_shape(old(self).toks(), st) && final(self).toks() == old(
                    self,
                ).toks().skip(4) && final(self).errs() == old(self).errs(),
                None => false,
            }),
            ifstmt_first(old(self).toks()) ==> (match r {
                Some(st) => ifstmt_shape(old(self).toks(), st) && final(self).toks() == old(
                    self,
                ).toks().skip(4) && final(self).errs() == old(self).errs(),
                None => false,
            }),
            forstmt_first(old(self).toks()) ==> (match r {
                Some(st) => forstmt_shape(old(self).toks(), st) && final(self).toks() == old(
                    self,
                ).toks().skip(7) && final(self).errs() == old(self).errs(),
                None => false,
            }),
        decreases old(self).toks().len(), 13int,
    {
        match self.peek_kind() {
            None => None,
            Some(k) => {
                if k == TokenType::Var {
                    self.var_declaration()
                } else {
                    self.statement()
                }
            },
        }
    }

    /// declaration := "var" IDENT ( "=" expression )? ";"
    pub fn var_declaration(&mut self) -> (r: Option<Stmt>)
        requires
            old(self).inv(),
        ensures
            old(self).step_ok(final(self)),
            old(self).stmt_post(final(self), &r),
            (old(self).toks().len() > 0 && old(self).toks()[0].kind == TokenType::Var && r is None
                && old(self).errs().flag == false) ==> final(self).errs().flag == true && final(self).toks().len() < old(self).toks().len(),
            vardecl_first(old(self).toks()) ==> r == Some(vardecl_of(old(self).toks())) && final(self).toks() == old(self).toks().skip(3) && final(self).errs() == old(self).errs(),
            vardecl_init_first(old(self).toks()) ==> r == Some(vardecl_init_of(old(self).toks()))
                && final(self).toks() == old(self).toks().skip(5) && final(self).errs() == old(
                self,
            ).errs(),
            (old(self).toks().len() >= 1 && old(self).toks()[0].kind == TokenType::Var && (old(
                self,
            ).toks().len() == 1 || old(self).toks()[1].kind != TokenType::Identifier) && old(
                self,
            ).errs().flag == false) ==> r is None && final(self).toks() == old(self).toks().skip(1)
                && final(self).errs().flag == true && final(self).errs().list == old(
                self,
            ).errs().list.push(err_after("expected name after 'var'"@, old(self).toks()[0])),
            (old(self).toks().len() >= 2 && old(self).toks()[0].kind == TokenType::Var && old(
                self,
            ).toks()[1].kind == TokenType::Identifier && (old(self).toks().len() == 2 || (old(
                self,
            ).toks()[2].kind != TokenType::Semicolon && old(self).toks()[2].kind
                != TokenType::Equal)) && old(self).errs().flag == false) ==> r is None && final(self).toks() == old(self).toks().skip(2) && final(self).errs().flag == true && final(self).errs().list == old(self).errs().list.push(
                err_after("expected = or ; after name"@, old(self).toks()[1]),
            ),
        decreases old(self).toks().len(), 12int,
    {
        proof {
            if old(self).toks().len() >= 2 {
                lemma_skip_skip(old(self).toks(), 1, 1);
            }
            if old(self).toks().len() >= 3 {
                lemma_skip_skip(old(self).toks(), 2, 1);
            }
            if old(self).toks().len() >= 4 {
                lemma_skip_skip(old(self).toks(), 3, 1);
            }
            if old(self).toks().len() >= 5 {
                lemma_skip_skip(old(self).toks(), 4, 1);
            }
        }
        let vt = match self.eat(TokenType::Var) {
            Some(t) => t,
            None => {
                let sp = self.peek_span();
                self.report("expected 'var'", sp.0, sp.1);
                return None;
            },
        };
        let name_t = match self.eat(TokenType::Identifier) {
            Some(t) => t,
            None => {
                let e = eat_end(&vt);
                self.report("expected name after 'var'", e, 0);
                return None;
            },
        };
        match self.peek_kind() {
            Some(TokenType::Semicolon) => {
                let semi = match self.advance_token() {
                    Some(t) => t,
                    None => {
                        proof {
                            assert(false);
                        }
                        return None;
                    },
                };
                let ln = join_span(vt.start, semi.start, text_len(&semi));
                Some(
                    Stmt::VarStmt { start: vt.start, len: ln, name: name_t.text, expr: None },
                )
            },
            Some(TokenType::Equal) => {
                let eq = match self.advance_token() {
                    Some(t) => t,
                    None => {
                        proof {
                            assert(false);
                        }
                        return None;
                    },
                };
                match self.expression() {
                    None => {
                        let e = eat_end(&eq);
                        self.report("expected expression after =", e, 0);
                        None
                    },
                    Some(ex) => {
                        match self.eat(TokenType::Semicolon) {
                            None => {
                                let e = ex.start() + ex.len();
                                self.report("expected ; after expression", e, 0);
                                None
                            },
                            Some(semi) => {
                                let ln = join_span(vt.start, semi.start, text_len(&semi));
                                Some(
                                    Stmt::VarStmt {
                                        start: vt.start,
                                        len: ln,
                                        name: name_t.text,
                                        expr: Some(ex),
                                    },
                                )
                            },
                        }
                    },
                }
            },
            _ => {
                let e = eat_end(&name_t);
                self.report("expected = or ; after name", e, 0);
                None
            },
        }
    }

    /// statement := block | if | print | while | for | expr_stmt
    pub fn statement(&mut self) -> (r: Option<Stmt>)
        requires
            old(self).inv(),
        ensures
            old(self).step_ok(final(self)),
            old(self).stmt_post(final(self), &r),
            (old(self).toks().len() > 0 && r is None && old(self).errs().flag == false) ==> final(self).errs().flag == true && final(self).toks().len() < old(self).toks().len(),
            printstmt_first(old(self).toks()) ==> r == Some(printstmt_of(old(self).toks()))
                && final(self).toks() == old(self).toks().skip(3) && final(self).errs() == old(
                self,
            ).errs(),
            exprstmt_first(old(self).toks()) ==> r == Some(exprstmt_of(old(self).toks())) && final(self).toks() == old(self).toks().skip(2) && final(self).errs() == old(self).errs(),
            (bad_target_first(old(self).toks()) && old(self).errs().flag == false) ==> r is None
                && final(self).toks() == old(self).toks().skip(
                if old(self).toks().len() > 2 {
                    3int
                } else {
                    2int
                },
            ) && final(self).errs().flag == true && final(self).errs().list == old(
                self,
            ).errs().list.push(bad_target_err(old(self).toks()[0])),
            whilestmt_first(old(self).toks()) ==> (match r {
                Some(st) => whilestmt_shape(old(self).toks(), st) && final(self).toks() == old(
                    self,
                ).toks().skip(4) && final(self).errs() == old(self).errs(),
                None => false,
            }),
            ifstmt_first(old(self).toks()) ==> (match r {
                Some(st) => ifstmt_shape(old(self).toks(), st) && final(self).toks() == old(
                    self,
                ).toks().skip(4) && final(self).errs() == old(self).errs(),
                None => false,
            }),
            forstmt_first(old(self).toks()) ==> (match r {
                Some(st) => forstmt_shape(old(self).toks(), st) && final(self).toks() == old(
                    self,
                ).toks().skip(7) && final(self).errs() == old(self).errs(),
                None => false,
            }),
        decreases old(self).toks().len(), 12int,
    {
        match self.peek_kind() {
            None => None,
            Some(k) => {
                if k == TokenType::LeftBrace {
                    self.block_statement()
                } else if k == TokenType::For {
                    self.for_statement()
                } else if k == TokenType::If {
                    self.if_statement()
                } else if k == TokenType::Print {
                    self.print_statement()
                } else if k == TokenType::While {
                    self.while_statement()
                } else {
                    let sp = self.peek_span();
                    match self.expr_statement() {
                        Some(st) => Some(st),
                        None => {
                            self.report("expected statement", sp.0, sp.1);
                            self.advance_token();
                            proof {
                                if bad_target_first(old(self).toks()) && old(self).errs().flag
                                    == false {
                                    if old(self).toks().len() > 2 {
                                        lemma_skip_skip(old(self).toks(), 2, 1);
                                    } else {
                                        assert(old(self).toks().skip(2).len() == 0);
                                    }
                                }
                            }
                            None
                        },
                    }
                }
            },
        }
    }

    /// expr_stmt := expression ";"
    pub fn expr_statement(&mut self) -> (r: Option<Stmt>)
        requires
            old(self).inv(),
        ensures
            old(self).step_ok(final(self)),
            old(self).stmt_post(final(self), &r),
            match r {
                Some(st) => st is ExprStmt,
                None => true,
            },
            exprstmt_first(old(self).toks()) ==> r == Some(exprstmt_of(old(self).toks())) && final(self).toks() == old(self).toks().skip(2) && final(self).errs() == old(self).errs(),
            (bad_target_first(old(self).toks()) && old(self).errs().flag == false) ==> r is None
                && final(self).toks() == old(self).toks().skip(2) && final(self).errs().flag
                == true && final(self).errs().list == old(self).errs().list.push(
                bad_target_err(old(self).toks()[0]),
            ),
        decreases old(self).toks().len(), 11int,
    {
        proof {
            if old(self).toks().len() >= 2 {
                lemma_skip_skip(old(self).toks(), 1, 1);
            }
        }
        let sp = self.peek_span();
        match self.expression() {
            None => {
                self.report("expected expression", sp.0, sp.1);
                None
            },
            Some(ex) => {
                match self.eat(TokenType::Semicolon) {
                    None => {
                        let e = ex.start() + ex.len();
                        self.report("expected ; after expression statement", e, 0);
                        None
                    },
                    Some(semi) => {
                        let st = ex.start();
                        let ln = join_span(st, semi.start, text_len(&semi));
                        Some(Stmt::ExprStmt { start: st, len: ln, expr: ex })
                    },
                }
            },
        }
    }

    /// block := "{" declaration* "}"
    fn block(&mut self) -> (r: Option<(Vec<Stmt>, (usize, usize))>)
        requires
            old(self).inv(),
        ensures
            old(self).step_ok(final(self)),
            match r {
                Some(p) => (forall|i: int|
                    0 <= i < p.0@.len() ==> stmt_wf(#[trigger] &p.0@[i], old(self).srcn())
                        && stmt_la(&p.0@[i])) && p.1.0 + p.1.1 <= old(self).srcn() && final(self).toks().len() < old(self).toks().len() && final(self).errs() == old(self).errs(),
                None => true,
            },
            (old(self).toks().len() > 0 && old(self).toks()[0].kind == TokenType::LeftBrace && r
                is None && old(self).errs().flag == false) ==> final(self).errs().flag == true
                && final(self).toks().len() < old(self).toks().len(),
            (old(self).toks().len() == 0 || old(self).toks()[0].kind != TokenType::LeftBrace) ==> r
                is None && final(self).toks() == old(self).toks() && final(self).errs() == old(
                self,
            ).errs(),
            (old(self).toks().len() >= 2 && old(self).toks()[0].kind == TokenType::LeftBrace && old(
                self,
            ).toks()[1].kind == TokenType::RightBrace) ==> (match r {
                Some(p) => p.0@ == Seq::<Stmt>::empty() && p.1.0 == old(self).toks()[0].start
                    && p.1.1 as int == span_to(
                    old(self).toks()[0].start as int,
                    old(self).toks()[1].start as int,
                    1,
                ) && final(self).toks() == old(self).toks().skip(2) && final(self).errs() == old(
                    self,
                ).errs(),
                None => false,
            }),
            (old(self).toks().len() == 1 && old(self).toks()[0].kind == TokenType::LeftBrace && old(
                self,
            ).errs().flag == false) ==> r is None && final(self).toks() == old(self).toks().skip(1)
                && final(self).errs().flag == true && final(self).errs().list == old(
                self,
            ).errs().list.push(
                err_after("expected closing brace after block"@, old(self).toks()[0]),
            ),
        decreases old(self).toks().len(), 10int,
    {
        proof {
            if old(self).toks().len() >= 2 {
                lemma_skip_skip(old(self).toks(), 1, 1);
            }
        }
        let lb = match self.eat(TokenType::LeftBrace) {
            Some(t) => t,
            None => {
                return None;
            },
        };
        let mut stmts: Vec<Stmt> = Vec::new();
        loop
            invariant
                self.inv(),
                self.srcn() == old(self).srcn(),
                self.scanner_errs() == old(self).scanner_errs(),
                errs_step(old(self).errs(), self.errs()),
                self.toks().len() < old(self).toks().len(),
                self.errs() == old(self).errs(),
                token_sp(lb, old(self).srcn()),
                old(self).toks().len() > 0,
                old(self).toks()[0].kind == TokenType::LeftBrace,
                lb == old(self).toks()[0],
                forall|i: int|
                    0 <= i < stmts@.len() ==> stmt_wf(#[trigger] &stmts@[i], old(self).srcn())
                        && stmt_la(&stmts@[i]),
                (old(self).toks().len() >= 2 && old(self).toks()[1].kind == TokenType::RightBrace)
                    ==> stmts@ == Seq::<Stmt>::empty() && self.toks() == old(self).toks().skip(1),
                old(self).toks().len() == 1 ==> stmts@ == Seq::<Stmt>::empty() && self.toks()
                    == old(self).toks().skip(1),
            decreases self.toks().len(),
        {
            match self.peek_kind() {
                Some(k) => {
                    if k == TokenType::RightBrace {
                        let rb = match self.advance_token() {
                            Some(t) => t,
                            None => {
                                proof {
                                    assert(false);
                                }
                                return None;
                            },
                        };
                        let ln = join_span(lb.start, rb.start, 1);
                        proof {
                            assert(token_sp(rb, old(self).srcn()));
                        }
                        return Some((stmts, (lb.start, ln)));
                    } else {
                        match self.declaration() {
                            Some(st) => {
                                stmts.push(st);
                            },
                            None => {
                                return None;
                            },
                        }
                    }
                },
                None => {
                    if stmts.len() != 0 {
                        let last = &stmts[stmts.len() - 1];
                        let e = last.start() + last.len();
                        self.report("expected closing brace after block", e, 0);
                    } else {
                        let e = eat_end(&lb);
                        self.report("expected closing brace after block", e, 0);
                    }
                    return None;
                },
            }
        }
    }

    /// A block as a statement.
    pub fn block_statement(&mut self) -> (r: Option<Stmt>)
        requires
            old(self).inv(),
        ensures
            old(self).step_ok(final(self)),
            old(self).stmt_post(final(self), &r),
            (old(self).toks().len() > 0 && old(self).toks()[0].kind == TokenType::LeftBrace && r
                is None && old(self).errs().flag == false) ==> final(self).errs().flag == true
                && final(self).toks().len() < old(self).toks().len(),
            (old(self).toks().len() == 0 || old(self).toks()[0].kind != TokenType::LeftBrace) ==> r
                is None && final(self).toks() == old(self).toks() && final(self).errs() == old(
                self,
            ).errs(),
            (old(self).toks().len() >= 2 && old(self).toks()[0].kind == TokenType::LeftBrace && old(
                self,
            ).toks()[1].kind == TokenType::RightBrace) ==> (match r {
                Some(st) => st matches Stmt::BlockStmt { start, len, stmts } && stmts@
                    == Seq::<Stmt>::empty() && start == old(self).toks()[0].start && len as int
                    == span_to(
                    old(self).toks()[0].start as int,
                    old(self).toks()[1].start as int,
                    1,
                ) && final(self).toks() == old(self).toks().skip(2) && final(self).errs() == old(
                    self,
                ).errs(),
                None => false,
            }),
            (old(self).toks().len() == 1 && old(self).toks()[0].kind == TokenType::LeftBrace && old(
                self,
            ).errs().flag == false) ==> r is None && final(self).toks() == old(self).toks().skip(1)
                && final(self).errs().flag == true && final(self).errs().list == old(
                self,
            ).errs().list.push(
                err_after("expected closing brace after block"@, old(self).toks()[0]),
            ),
        decreases old(self).toks().len(), 11int,
    {
        match self.block() {
            Some(p) => {
                let (stmts, (st, ln)) = p;
                Some(Stmt::BlockStmt { start: st, len: ln, stmts })
            },
            None => None,
        }
    }

    /// print_stmt := "print" expression ";"
    pub fn print_statement(&mut self) -> (r: Option<Stmt>)
        requires
            old(self).inv(),
        ensures
            old(self).step_ok(final(self)),
            old(self).stmt_post(final(self), &r),
            (old(self).toks().len() > 0 && old(self).toks()[0].kind == TokenType::Print && r
                is None && old(self).errs().flag == false) ==> final(self).errs().flag == true
                && final(self).toks().len() < old(self).toks().len(),
            printstmt_first(old(self).toks()) ==> r == Some(printstmt_of(old(self).toks()))
                && final(self).toks() == old(self).toks().skip(3) && final(self).errs() == old(
                self,
            ).errs(),
        decreases old(self).toks().len(), 11int,
    {
        proof {
            if old(self).toks().len() >= 2 {
                lemma_skip_skip(old(self).toks(), 1, 1);
            }
            if old(self).toks().len() >= 3 {
                lemma_skip_skip(old(self).toks(), 2, 1);
            }
        }
        let pt = match self.eat(TokenType::Print) {
            Some(t) => t,
            None => {
                let sp = self.peek_span();
                self.report("expected 'print'", sp.0, sp.1);
                return None;
            },
        };
        match self.expression() {
            None => {
                let e = eat_end(&pt);
                self.report("expected expression after 'print'", e, 0);
                None
            },
            Some(ex) => {
                match self.eat(TokenType::Semicolon) {
                    None => {
                        let e = ex.start() + ex.len();
                        self.report("expected semicolon after print statement", e, 0);
                        None
                    },
                    Some(semi) => {
                        let ln = join_span(pt.start, semi.start, text_len(&semi));
                        Some(Stmt::PrintStmt { start: pt.start, len: ln, expr: ex })
                    },
                }
            },
        }
    }

    /// while_stmt := "while" expression block
    pub fn while_statement(&mut self) -> (r: Option<Stmt>)
        requires
            old(self).inv(),
        ensures
            old(self).step_ok(final(self)),
            old(self).stmt_post(final(self), &r),
            (old(self).toks().len() > 0 && old(self).toks()[0].kind == TokenType::While && r
                is None && old(self).errs().flag == false) ==> final(self).errs().flag == true
                && final(self).toks().len() < old(self).toks().len(),
            whilestmt_first(old(self).toks()) ==> (match r {
                Some(st) => whilestmt_shape(old(self).toks(), st) && final(self).toks() == old(
                    self,
                ).toks().skip(4) && final(self).errs() == old(self).errs(),
                None => false,
            }),
        decreases old(self).toks().len(), 11int,
    {
        proof {
            if whilestmt_first(old(self).toks()) {
                lemma_skip_skip(old(self).toks(), 1, 1);
                lemma_skip_skip(old(self).toks(), 2, 2);
                assert(old(self).toks().skip(1)[1] == old(self).toks()[2]);
                assert(old(self).toks().skip(2)[0] == old(self).toks()[2]);
                assert(old(self).toks().skip(2)[1] == old(self).toks()[3]);
            }
        }
        let wt = match self.eat(TokenType::While) {
            Some(t) => t,
            None => {
                let sp = self.peek_span();
                self.report("expected 'while'", sp.0, sp.1);
                return None;
            },
        };
        match self.expression() {
            None => {
                let e = eat_end(&wt);
                self.report("expected condition after 'while'", e, 0);
                None
            },
            Some(cond) => {
                let ce = cond.start() + cond.len();
                match self.block_statement() {
                    None => {
                        self.report("expected block after while statement", ce, 0);
                        None
                    },
                    Some(body) => {
                        let ln = join_span(wt.start, body.start(), body.len());
                        Some(
                            Stmt::WhileStmt {
                                start: wt.start,
                                len: ln,
                                expr: cond,
                                stmt: Box::new(body),
                            },
                        )
                    },
                }
            },
        }
    }

    /// if_stmt := "if" expression block ("else" (if_stmt | block))?
    pub fn if_statement(&mut self) -> (r: Option<Stmt>)
        requires
            old(self).inv(),
        ensures
            old(self).step_ok(final(self)),
            old(self).stmt_post(final(self), &r),
            (old(self).toks().len() > 0 && old(self).toks()[0].kind == TokenType::If && r is None
                && old(self).errs().flag == false) ==> final(self).errs().flag == true && final(self).toks().len() < old(self).toks().len(),
            ifstmt_first(old(self).toks()) ==> (match r {
                Some(st) => ifstmt_shape(old(self).toks(), st) && final(self).toks() == old(
                    self,
                ).toks().skip(4) && final(self).errs() == old(self).errs(),
                None => false,
            }),
        decreases old(self).toks().len(), 11int,
    {
        proof {
            if ifstmt_first(old(self).toks()) {
                lemma_skip_skip(old(self).toks(), 1, 1);
                lemma_skip_skip(old(self).toks(), 2, 2);
                assert(old(self).toks().skip(1)[1] == old(self).toks()[2]);
                assert(old(self).toks().skip(2)[0] == old(self).toks()[2]);
                assert(old(self).toks().skip(2)[1] == old(self).toks()[3]);
                assert(old(self).toks().len() > 4 ==> old(self).toks().skip(4)[0] == old(
                    self,
                ).toks()[4]);
            }
        }
        let it = match self.eat(TokenType::If) {
            Some(t) => t,
            None => {
                let sp = self.peek_span();
                self.report("expected 'if'", sp.0, sp.1);
                return None;
            },
        };
        let cond = match self.expression() {
            None => {
                let e = eat_end(&it);
                self.report("expected predicate after 'if'", e, 0);
                return None;
            },
            Some(c) => c,
        };
        let ce = cond.start() + cond.len();
        let then_b = match self.block_statement() {
            None => {
                self.report("expected block after if statement", ce, 0);
                return None;
            },
            Some(b) => b,
        };
        let has_else = match self.peek_kind() {
            Some(k) => k == TokenType::Else,
            None => false,
        };
        if has_else {
            let et = match self.advance_token() {
                Some(t) => t,
                None => {
                    proof {
                        assert(false);
                    }
                    return None;
                },
            };
            let is_if = match self.peek_kind() {
                Some(k) => k == TokenType::If,
                None => false,
            };
            let else_b = if is_if {
                self.if_statement()
            } else {
                self.block_statement()
            };
            match else_b {
                Some(eb) => {
                    let ln = join_span(it.start, eb.start(), eb.len());
                    Some(
                        Stmt::IfStmt {
                            start: it.start,
                            len: ln,
                            expr: cond,
                            stmt_true: Box::new(then_b),
                            stmt_false: Some(Box::new(eb)),
                        },
                    )
                },
                None => {
                    let e = eat_end(&et);
                    self.report("expected 'if' or block after else statement", e, 0);
                    None
                },
            }
        } else {
            let ln = join_span(it.start, then_b.start(), then_b.len());
            Some(
                Stmt::IfStmt {
                    start: it.start,
                    len: ln,
                    expr: cond,
                    stmt_true: Box::new(then_b),
                    stmt_false: None,
                },
            )
        }
    }

    /// for_stmt := "for" "("? init cond update ")"? block, desugared at
    /// parse time into `{ init; while (cond) { body; update; } }`.
    /// A parsed `for` is exactly that block: its observable behavior is
    /// the desugared form's by construction.
    pub fn for_statement(&mut self) -> (r: Option<Stmt>)
        requires
            old(self).inv(),
        ensures
            old(self).step_ok(final(self)),
            old(self).stmt_post(final(self), &r),
            match r {
                Some(st) => is_for_desugar(&st),
                None => true,
            },
            (old(self).toks().len() > 0 && old(self).toks()[0].kind == TokenType::For && r is None
                && old(self).errs().flag == false) ==> final(self).errs().flag == true && final(self).toks().len() < old(self).toks().len(),
            forstmt_first(old(self).toks()) ==> (match r {
                Some(st) => forstmt_shape(old(self).toks(), st) && final(self).toks() == old(
                    self,
                ).toks().skip(7) && final(self).errs() == old(self).errs(),
                None => false,
            }),
        decreases old(self).toks().len(), 11int,
    {
        proof {
            if forstmt_first(old(self).toks()) {
                lemma_skip_skip(old(self).toks(), 1, 1);
                lemma_skip_skip(old(self).toks(), 2, 1);
                lemma_skip_skip(old(self).toks(), 3, 1);
                lemma_skip_skip(old(self).toks(), 4, 1);
                lemma_skip_skip(old(self).toks(), 5, 2);
                assert(old(self).toks().skip(1)[0] == old(self).toks()[1]);
                assert(old(self).toks().skip(2)[0] == old(self).toks()[2]);
                assert(old(self).toks().skip(3)[0] == old(self).toks()[3]);
                assert(old(self).toks().skip(4)[0] == old(self).toks()[4]);
                assert(old(self).toks().skip(5)[0] == old(self).toks()[5]);
                assert(old(self).toks().skip(5)[1] == old(self).toks()[6]);
            }
        }
        let ft = match self.eat(TokenType::For) {
            Some(t) => t,
            None => {
                let sp = self.peek_span();
                self.report("expected 'for'", sp.0, sp.1);
                return None;
            },
        };
        let mut last_end = eat_end(&ft);
        let paren = self.eat(TokenType::LeftParen);
        match &paren {
            Some(p) => {
                last_end = eat_end(p);
            },
            None => {},
        }
        // initializer
        let init: Stmt = match self.peek_kind() {
            Some(TokenType::Semicolon) => {
                let semi = match self.advance_token() {
                    Some(t) => t,
                    None => {
                        proof {
                            assert(false);
                        }
                        return None;
                    },
                };
                last_end = eat_end(&semi);
                Self::true_stmt()
            },
            Some(TokenType::Var) => {
                match self.var_declaration() {
                    Some(s) => {
                        let e = s.start() + s.len();
                        last_end = e;
                        s
                    },
                    None => {
                        self.report(
                            "expected semicolon, 'var', or expression after 'for'",
                            last_end,
                            0,
                        );
                        return None;
                    },
                }
            },
            _ => {
                match self.expr_statement() {
                    Some(s) => {
                        let e = s.start() + s.len();
                        last_end = e;
                        s
                    },
                    None => {
                        self.report(
                            "expected semicolon, 'var', or expression after 'for'",
                            last_end,
                            0,
                        );
                        return None;
                    },
                }
            },
        };
        // condition
        let cond_stmt: Stmt = match self.peek_kind() {
            Some(TokenType::Semicolon) => {
                let semi = match self.advance_token() {
                    Some(t) => t,
                    None => {
                        proof {
                            assert(false);
                        }
                        return None;
                    },
                };
                last_end = eat_end(&semi);
                Self::true_stmt()
            },
            _ => {
                match self.expr_statement() {
                    Some(s) => {
                        let e = s.start() + s.len();
                        last_end = e;
                        s
                    },
                    None => {
                        self.report(
                            "expected semicolon or expression after initializer",
                            last_end,
                            0,
                        );
                        return None;
                    },
                }
            },
        };
        let ghost cg = cond_stmt;
        let cond_expr: Expr = match cond_stmt.to_exprstmt() {
            Some(e) => e,
            None => {
                proof {
                    assert(false);
                }
                Self::true_expr()
            },
        };
        proof {
            assert(stmt_wf(&cg, old(self).srcn()) && stmt_la(&cg));
            assert(expr_wf(&cond_expr, old(self).srcn()) && left_assoc(&cond_expr));
        }
        // update
        let at_body = match self.peek_kind() {
            Some(k) => k == TokenType::LeftBrace || k == TokenType::RightParen,
            None => false,
        };
        let upd: Expr = if at_body {
            Self::true_expr()
        } else {
            match self.expression() {
                Some(e) => e,
                None => {
                    self.report("expected left brace or expression after condition", last_end, 0);
                    return None;
                },
            }
        };
        // a parenthesized head must close before the body
        if paren.is_some() {
            match self.eat(TokenType::RightParen) {
                Some(_) => {},
                None => {
                    self.report("expected rparen after expression", last_end, 0);
                    return None;
                },
            }
        }
        let body = match self.block_statement() {
            Some(b) => b,
            None => {
                self.report("expected block after for statement", last_end, 0);
                return None;
            },
        };
        let start = ft.start;
        let ln = join_span(start, body.start(), body.len());
        let ghost n = old(self).srcn();
        proof {
            assert(start + ln <= n);
            assert(stmt_wf(&body, n) && stmt_la(&body));
            assert(expr_wf(&upd, n) && left_assoc(&upd));
            assert(expr_wf(&cond_expr, n) && left_assoc(&cond_expr));
            assert(stmt_wf(&init, n) && stmt_la(&init));
        }
        let mut inner: Vec<Stmt> = Vec::new();
        inner.push(body);
        inner.push(Stmt::ExprStmt { start, len: ln, expr: upd });
        proof {
            assert forall|i: int| 0 <= i < inner@.len() implies stmt_wf(
                #[trigger] &inner@[i],
                n,
            ) && stmt_la(&inner@[i]) by {
                assert(inner@.len() == 2);
                if i == 0 {
                    assert(stmt_wf(&inner@[0], n) && stmt_la(&inner@[0]));
                } else {
                    assert(stmt_wf(&inner@[1], n) && stmt_la(&inner@[1]));
                }
            }
        }
        let bs = Stmt::BlockStmt { start, len: ln, stmts: inner };
        proof {
            assert(stmt_wf(&bs, n) && stmt_la(&bs));
        }
        let wh = Stmt::WhileStmt { start, len: ln, expr: cond_expr, stmt: Box::new(bs) };
        proof {
            assert(stmt_wf(&wh, n) && stmt_la(&wh));
        }
        let mut outer: Vec<Stmt> = Vec::new();
        outer.push(init);
        outer.push(wh);
        proof {
            assert forall|i: int| 0 <= i < outer@.len() implies stmt_wf(
                #[trigger] &outer@[i],
                n,
            ) && stmt_la(&outer@[i]) by {
                assert(outer@.len() == 2);
                if i == 0 {
                    assert(stmt_wf(&outer@[0], n) && stmt_la(&outer@[0]));
                } else {
                    assert(stmt_wf(&outer@[1], n) && stmt_la(&outer@[1]));
                }
            }
        }
        Some(Stmt::BlockStmt { start, len: ln, stmts: outer })
    }

    /// The no-op statement a `for` clause left out stands for.
    fn true_stmt() -> (r: Stmt)
        ensures
            forall|n: int| n >= 0 ==> stmt_wf(&r, n),
            stmt_la(&r),
            r is ExprStmt,
            r == true_stmt_s(),
    {
        Stmt::ExprStmt { start: 0, len: 0, expr: Self::true_expr() }
    }

    /// The always-true expression a `for` clause left out stands for.
    fn true_expr() -> (r: Expr)
        ensures
            forall|n: int| n >= 0 ==> expr_wf(&r, n),
            left_assoc(&r),
            top_level_of(&r) == 0,
            r == true_expr_s(),
    {
        Expr::Literal { start: 0, len: 0, value: LoxValue::Bool(true) }
    }

    /// Parse the next top-level statement, running panic-mode recovery
    /// over failed ones; nothing is left when this yields nothing.
    pub fn next(&mut self) -> (r: Option<Stmt>)
        requires
            old(self).inv(),
            old(self).errs().flag == false,
        ensures
            final(self).inv(),
            final(self).srcn() == old(self).srcn(),
            final(self).errs().source == old(self).errs().source,
            final(self).errs().flag == false,
            final(self).scanner_errs() == old(self).scanner_errs(),
            match r {
                Some(st) => stmt_wf(&st, old(self).srcn()) && stmt_la(&st) && final(self).toks().len() < old(self).toks().len(),
                None => final(self).toks().len() == 0,
            },
            old(self).toks().len() == 0 ==> r is None && final(self).errs() == old(self).errs(),
            vardecl_first(old(self).toks()) ==> r == Some(vardecl_of(old(self).toks())) && final(self).toks() == old(self).toks().skip(3) && final(self).errs() == old(self).errs(),
            vardecl_init_first(old(self).toks()) ==> r == Some(vardecl_init_of(old(self).toks()))
                && final(self).toks() == old(self).toks().skip(5) && final(self).errs() == old(
                self,
            ).errs(),
            printstmt_first(old(self).toks()) ==> r == Some(printstmt_of(old(self).toks()))
                && final(self).toks() == old(self).toks().skip(3) && final(self).errs() == old(
                self,
            ).errs(),
            exprstmt_first(old(self).toks()) ==> r == Some(exprstmt_of(old(self).toks())) && final(self).toks() == old(self).toks().skip(2) && final(self).errs() == old(self).errs(),
            whilestmt_first(old(self).toks()) ==> (match r {
                Some(st) => whilestmt_shape(old(self).toks(), st) && final(self).toks() == old(
                    self,
                ).toks().skip(4) && final(self).errs() == old(self).errs(),
                None => false,
            }),
            ifstmt_first(old(self).toks()) ==> (match r {
                Some(st) => ifstmt_shape(old(self).toks(), st) && final(self).toks() == old(
                    self,
                ).toks().skip(4) && final(self).errs() == old(self).errs(),
                None => false,
            }),
            forstmt_first(old(self).toks()) ==> (match r {
                Some(st) => forstmt_shape(old(self).toks(), st) && final(self).toks() == old(
                    self,
                ).toks().skip(7) && final(self).errs() == old(self).errs(),
                None => false,
            }),
            bad_target_stmt_first(old(self).toks()) ==> r is None && final(self).toks().len() == 0
                && final(self).errs().list == old(self).errs().list.push(
                bad_target_err(old(self).toks()[0]),
            ),
        decreases old(self).toks().len(),
    {
        loop
            invariant
                self.inv(),
                self.srcn() == old(self).srcn(),
                self.errs().source == old(self).errs().source,
                self.errs().flag == false,
                self.scanner_errs() == old(self).scanner_errs(),
                self.toks().len() <= old(self).toks().len(),
                old(self).toks().len() == 0 ==> self.toks() == old(self).toks() && self.errs()
                    == old(self).errs(),
                (vardecl_first(old(self).toks()) || vardecl_init_first(old(self).toks())
                    || printstmt_first(old(self).toks()) || exprstmt_first(old(self).toks())
                    || whilestmt_first(old(self).toks()) || ifstmt_first(old(self).toks())
                    || forstmt_first(old(self).toks())) ==> self.toks() == old(self).toks()
                    && self.errs() == old(self).errs(),
                bad_target_stmt_first(old(self).toks()) ==> (self.toks() == old(self).toks()
                    && self.errs() == old(self).errs()) || (self.toks().len() == 0
                    && self.errs().list == old(self).errs().list.push(
                    bad_target_err(old(self).toks()[0]),
                )),
            decreases self.toks().len(),
        {
            match self.declaration() {
                Some(st) => {
                    return Some(st);
                },
                None => {
                    if self.errors.get_flag() {
                        proof {
                            if bad_target_stmt_first(old(self).toks()) {
                                assert(self.toks() == old(self).toks().skip(3));
                                assert(old(self).toks().skip(3).len() == 1);
                                assert(old(self).toks().skip(3)[0] == old(self).toks()[3]);
                                assert(sync_len(old(self).toks().skip(3)) == 1);
                            }
                        }
                        self.synchronize();
                        proof {
                            if bad_target_stmt_first(old(self).toks()) {
                                assert(self.toks() =~= old(self).toks().skip(3).skip(1));
                                assert(self.toks().len() == 0);
                            }
                        }
                    } else {
                        return None;
                    }
                },
            }
        }
    }

    /// Whether any token is left.
    fn lexer_has_tokens(&self) -> (r: bool)
        requires
            self.inv(),
        ensures
            r == (self.toks().len() > 0),
    {
        match self.lexer.peek() {
            Some(_) => true,
            None => false,
        }
    }

    /// Record a parse diagnostic and raise the panic flag.
    fn report(&mut self, message: &'static str, start: usize, length: usize)
        requires
            old(self).inv(),
        ensures
            final(self).inv(),
            final(self).srcn() == old(self).srcn(),
            final(self).toks() == old(self).toks(),
            final(self).scanner_errs() == old(self).scanner_errs(),
            errs_step(old(self).errs(), final(self).errs()),
            final(self).errs().flag == true,
            old(self).errs().flag == false ==> final(self).errs().list == old(
                self,
            ).errs().list.push(
                (ErrM {
                    msg: message@,
                    severity: Severity::Error,
                    start: start as nat,
                    length: length as nat,
                }),
            ),
    {
        self.errors.push(message, Severity::Error, start, length, true);
        proof {
            assert(self.errors.inv());
            assert(self.scanner.inv());
            assert(self.lexer.cursor_at() == 0);
            assert(self.srclen + 64 <= usize::MAX);
            assert(self.toks() == old(self).toks());
            assert forall|i: int|
                0 <= i < self.toks().len() implies token_sp(
                #[trigger] self.toks()[i],
                self.srclen as int,
            ) by {
                assert(token_sp(old(self).toks()[i], old(self).srclen as int));
            }
            if !old(self).errs().flag {
                let er = ErrM {
                    msg: message@,
                    severity: Severity::Error,
                    start: start as nat,
                    length: length as nat,
                };
                assert(self.errs().list == old(self).errs().list.push(er));
            }
        }
    }
}

} // verus!
