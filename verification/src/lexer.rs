//! The scanner: source text to tokens.
use vstd::prelude::*;
use crate::errors::{ErrM, Errors, ErrsM, Severity};
use crate::num::{LoxNum, is_digit_char, num_from_parts};
use crate::text::{chars_to_string, str_to_chars, subrange_chars};
use crate::value::{LoxValue, Token, TokenType, ValM, val_inv};

verus! {

/// The characters the language treats as spacing between tokens (the
/// Unicode White_Space set).
pub open spec fn is_space_char(c: char) -> bool {
    c == '\t' || c == '\n' || c == '\u{b}' || c == '\u{c}' || c == '\r' || c == ' ' || c == '\u{85}'
        || c == '\u{a0}' || c == '\u{1680}' || ('\u{2000}' <= c && c <= '\u{200a}') || c
        == '\u{2028}' || c == '\u{2029}' || c == '\u{202f}' || c == '\u{205f}' || c == '\u{3000}'
}

fn is_space(c: char) -> (r: bool)
    ensures
        r == is_space_char(c),
{
    c == '\t' || c == '\n' || c == '\u{b}' || c == '\u{c}' || c == '\r' || c == ' ' || c == '\u{85}'
        || c == '\u{a0}' || c == '\u{1680}' || ('\u{2000}' <= c && c <= '\u{200a}') || c
        == '\u{2028}' || c == '\u{2029}' || c == '\u{202f}' || c == '\u{205f}' || c == '\u{3000}'
}

pub open spec fn is_ident_start(c: char) -> bool {
    ('A' <= c && c <= 'Z') || ('a' <= c && c <= 'z') || c == '_'
}

pub open spec fn is_ident_char(c: char) -> bool {
    is_ident_start(c) || is_digit_char(c)
}

/// First offset at or after `i` that does not hold whitespace.
pub open spec fn ws_run_end(src: Seq<char>, i: int) -> int
    decreases src.len() - i,
{
    if i < 0 || i >= src.len() || !is_space_char(src[i]) {
        i
    } else {
        ws_run_end(src, i + 1)
    }
}

pub proof fn lemma_ws_run_bounds(src: Seq<char>, i: int)
    requires
        0 <= i <= src.len(),
    ensures
        i <= ws_run_end(src, i) <= src.len(),
    decreases src.len() - i,
{
    if i < src.len() && is_space_char(src[i]) {
        lemma_ws_run_bounds(src, i + 1);
    }
}

/// First offset at or after `i` that does not hold a decimal digit.
pub open spec fn digit_run_end(src: Seq<char>, i: int) -> int
    decreases src.len() - i,
{
    if i < 0 || i >= src.len() || !is_digit_char(src[i]) {
        i
    } else {
        digit_run_end(src, i + 1)
    }
}

/// First offset at or after `i` that does not hold an identifier char.
pub open spec fn ident_run_end(src: Seq<char>, i: int) -> int
    decreases src.len() - i,
{
    if i < 0 || i >= src.len() || !is_ident_char(src[i]) {
        i
    } else {
        ident_run_end(src, i + 1)
    }
}

pub proof fn lemma_digit_run_bounds(src: Seq<char>, i: int)
    requires
        0 <= i <= src.len(),
    ensures
        i <= digit_run_end(src, i) <= src.len(),
    decreases src.len() - i,
{
    if i < src.len() && is_digit_char(src[i]) {
        lemma_digit_run_bounds(src, i + 1);
    }
}

pub proof fn lemma_ident_run_bounds(src: Seq<char>, i: int)
    requires
        0 <= i <= src.len(),
    ensures
        i <= ident_run_end(src, i) <= src.len(),
    decreases src.len() - i,
{
    if i < src.len() && is_ident_char(src[i]) {
        lemma_ident_run_bounds(src, i + 1);
    }
}

proof fn lemma_prefix_push(a: Seq<ErrM>, b: Seq<ErrM>)
    requires
        b == a || (exists|e: ErrM| b == a.push(e)),
    ensures
        a.is_prefix_of(b),
{
    if b != a {
        let e = choose|e: ErrM| b == a.push(e);
        assert(a =~= a.push(e).subrange(0, a.len() as int));
    }
}

proof fn lemma_prefix_trans(a: Seq<ErrM>, b: Seq<ErrM>, c: Seq<ErrM>)
    requires
        a.is_prefix_of(b),
        b.is_prefix_of(c),
    ensures
        a.is_prefix_of(c),
{
    assert(a =~= c.subrange(0, a.len() as int));
}

/// A scanned string literal ends past where it began and within bounds.
proof fn lemma_str_scan_bounds(src: Seq<char>, i: int, esc: bool)
    requires
        0 <= i,
    ensures
        match str_scan(src, i, esc) {
            Some(p) => i < p.1 <= src.len(),
            None => true,
        },
    decreases src.len() - i,
{
    if 0 <= i < src.len() {
        lemma_str_scan_bounds(src, i + 1, false);
        lemma_str_scan_bounds(src, i + 1, true);
    }
}

/// What an escape sequence inside a string literal produces.
pub open spec fn escape_char(c: char) -> char {
    if c == 'r' {
        '\r'
    } else if c == 'n' {
        '\n'
    } else if c == 't' {
        '\t'
    } else {
        c
    }
}

fn escape_exec(c: char) -> (r: char)
    ensures
        r == escape_char(c),
{
    if c == 'r' {
        '\r'
    } else if c == 'n' {
        '\n'
    } else if c == 't' {
        '\t'
    } else {
        c
    }
}

/// Classify an identifier's text against the keyword table.
fn kw_lookup(text: &String) -> (r: TokenType)
    ensures
        r == keyword_kind(text@),
{
    if text.eq(&"and".to_owned()) {
        TokenType::And
    } else if text.eq(&"class".to_owned()) {
        TokenType::Class
    } else if text.eq(&"else".to_owned()) {
        TokenType::Else
    } else if text.eq(&"false".to_owned()) {
        TokenType::False
    } else if text.eq(&"for".to_owned()) {
        TokenType::For
    } else if text.eq(&"fn".to_owned()) {
        TokenType::Fn
    } else if text.eq(&"if".to_owned()) {
        TokenType::If
    } else if text.eq(&"nil".to_owned()) {
        TokenType::Nil
    } else if text.eq(&"or".to_owned()) {
        TokenType::Or
    } else if text.eq(&"print".to_owned()) {
        TokenType::Print
    } else if text.eq(&"return".to_owned()) {
        TokenType::Return
    } else if text.eq(&"super".to_owned()) {
        TokenType::Super
    } else if text.eq(&"this".to_owned()) {
        TokenType::This
    } else if text.eq(&"true".to_owned()) {
        TokenType::True
    } else if text.eq(&"var".to_owned()) {
        TokenType::Var
    } else if text.eq(&"while".to_owned()) {
        TokenType::While
    } else {
        TokenType::Identifier
    }
}

/// Scan a string literal body starting at `i` (just after the opening
/// quote, or within it when `esc` says a backslash was just read).
/// Yields the decoded contents and the offset past the closing quote,
/// or nothing when the literal never terminates.
pub open spec fn str_scan(src: Seq<char>, i: int, esc: bool) -> Option<(Seq<char>, int)>
    decreases src.len() - i,
{
    if i < 0 || i >= src.len() {
        None
    } else if esc {
        match str_scan(src, i + 1, false) {
            Some(p) => Some((seq![escape_char(src[i])] + p.0, p.1)),
            None => None,
        }
    } else if src[i] == '\\' {
        str_scan(src, i + 1, true)
    } else if src[i] == '"' {
        Some((Seq::<char>::empty(), i + 1))
    } else {
        match str_scan(src, i + 1, false) {
            Some(p) => Some((seq![src[i]] + p.0, p.1)),
            None => None,
        }
    }
}

/// Where a numeric literal starting at `s` ends: the integer digit run,
/// a fraction only when a dot is followed by a digit, an exponent only
/// when `e`/`E` is followed by a digit.
pub open spec fn num_scan_end(src: Seq<char>, s: int) -> int {
    let ie = digit_run_end(src, s);
    let fe = if ie + 1 < src.len() && src[ie] == '.' && is_digit_char(src[ie + 1]) {
        digit_run_end(src, ie + 1)
    } else {
        ie
    };
    if fe + 1 < src.len() && (src[fe] == 'e' || src[fe] == 'E') && is_digit_char(src[fe + 1]) {
        digit_run_end(src, fe + 1)
    } else {
        fe
    }
}

/// The mantissa a numeric literal starting at `s` denotes.
pub open spec fn num_scan_val(src: Seq<char>, s: int) -> int {
    let ie = digit_run_end(src, s);
    let has_frac = ie + 1 < src.len() && src[ie] == '.' && is_digit_char(src[ie + 1]);
    let fe = if has_frac {
        digit_run_end(src, ie + 1)
    } else {
        ie
    };
    let sig = if has_frac {
        src.subrange(s, ie) + src.subrange(ie + 1, fe)
    } else {
        src.subrange(s, ie)
    };
    let flen = if has_frac {
        fe - (ie + 1)
    } else {
        0
    };
    let has_exp = fe + 1 < src.len() && (src[fe] == 'e' || src[fe] == 'E') && is_digit_char(
        src[fe + 1],
    );
    let xp = if has_exp {
        src.subrange(fe + 1, digit_run_end(src, fe + 1))
    } else {
        Seq::<char>::empty()
    };
    num_from_parts(sig, flen, xp)
}

/// The token kind an identifier's text denotes: one of the keywords, or
/// a plain identifier.
pub open spec fn keyword_kind(s: Seq<char>) -> TokenType {
    if s == "and"@ {
        TokenType::And
    } else if s == "class"@ {
        TokenType::Class
    } else if s == "else"@ {
        TokenType::Else
    } else if s == "false"@ {
        TokenType::False
    } else if s == "for"@ {
        TokenType::For
    } else if s == "fn"@ {
        TokenType::Fn
    } else if s == "if"@ {
        TokenType::If
    } else if s == "nil"@ {
        TokenType::Nil
    } else if s == "or"@ {
        TokenType::Or
    } else if s == "print"@ {
        TokenType::Print
    } else if s == "return"@ {
        TokenType::Return
    } else if s == "super"@ {
        TokenType::Super
    } else if s == "this"@ {
        TokenType::This
    } else if s == "true"@ {
        TokenType::True
    } else if s == "var"@ {
        TokenType::Var
    } else if s == "while"@ {
        TokenType::While
    } else {
        TokenType::Identifier
    }
}

/// What a literal token's attached value must be, given where its
/// lexeme stands in the source.
pub open spec fn lit_ok(v: ValM, src: Seq<char>, s: int, e: int) -> bool {
    if src[s] == '"' {
        match v {
            ValM::Str(c) => str_scan(src, s + 1, false) == Some((c, e)),
            _ => false,
        }
    } else if is_digit_char(src[s]) {
        v == ValM::Num(num_scan_val(src, s)) && e == num_scan_end(src, s)
    } else {
        (keyword_kind(src.subrange(s, e)) == TokenType::True && v == ValM::Bool(true)) || (
        keyword_kind(src.subrange(s, e)) == TokenType::False && v == ValM::Bool(false)) || (
        keyword_kind(src.subrange(s, e)) == TokenType::Nil && v == ValM::Nil)
    }
}

/// `token_ok` over a token's parts, before the token is assembled.
pub open spec fn token_parts_ok(kind: TokenType, v: ValM, s: int, e: int, src: Seq<char>) -> bool {
    &&& 0 <= s < e <= src.len()
    &&& val_inv(v)
    &&& kind != TokenType::Error
    &&& kind != TokenType::EOF
    &&& match kind {
        TokenType::Literal => lit_ok(v, src, s, e),
        TokenType::Identifier => keyword_kind(src.subrange(s, e)) == TokenType::Identifier && v
            == ValM::Nil,
        _ => v == ValM::Nil,
    }
}

/// The span and value facts about a token that the parser relies on.
pub open spec fn token_sp(t: Token, n: int) -> bool {
    &&& t.start + t.text@.len() <= n
    &&& t.text@.len() >= 1
    &&& val_inv(t.value@)
    &&& t.kind != TokenType::Error
    &&& t.kind != TokenType::EOF
    &&& (t.kind == TokenType::Literal || t.value@ == ValM::Nil)
}

pub proof fn lemma_token_ok_sp(t: Token, src: Seq<char>)
    requires
        token_ok(t, src),
    ensures
        token_sp(t, src.len() as int),
{
}

/// Every token the lexer hands out satisfies this: its span lies within
/// the source and carries its exact lexeme, and its kind and value fit
/// what stands there.
pub open spec fn token_ok(t: Token, src: Seq<char>) -> bool {
    &&& t.text@ == src.subrange(t.start as int, t.start + t.text@.len())
    &&& token_parts_ok(t.kind, t.value@, t.start as int, t.start + t.text@.len(), src)
}

/// The kind and end of the operator or punctuation token beginning at
/// `s`, if one does: two characters when `=` follows one of `! = < >`,
/// and nothing for a comment.
pub open spec fn punct_token(src: Seq<char>, s: int) -> Option<(TokenType, int)> {
    let c = src[s];
    let eq = s + 1 < src.len() && src[s + 1] == '=';
    if c == '(' {
        Some((TokenType::LeftParen, s + 1))
    } else if c == ')' {
        Some((TokenType::RightParen, s + 1))
    } else if c == '{' {
        Some((TokenType::LeftBrace, s + 1))
    } else if c == '}' {
        Some((TokenType::RightBrace, s + 1))
    } else if c == ',' {
        Some((TokenType::Comma, s + 1))
    } else if c == '.' {
        Some((TokenType::Dot, s + 1))
    } else if c == '-' {
        Some((TokenType::Minus, s + 1))
    } else if c == '+' {
        Some((TokenType::Plus, s + 1))
    } else if c == ';' {
        Some((TokenType::Semicolon, s + 1))
    } else if c == '*' {
        Some((TokenType::Star, s + 1))
    } else if c == '%' {
        Some((TokenType::Percent, s + 1))
    } else if c == '!' {
        if eq {
            Some((TokenType::BangEqual, s + 2))
        } else {
            Some((TokenType::Bang, s + 1))
        }
    } else if c == '=' {
        if eq {
            Some((TokenType::EqualEqual, s + 2))
        } else {
            Some((TokenType::Equal, s + 1))
        }
    } else if c == '<' {
        if eq {
            Some((TokenType::LessEqual, s + 2))
        } else {
            Some((TokenType::Less, s + 1))
        }
    } else if c == '>' {
        if eq {
            Some((TokenType::GreaterEqual, s + 2))
        } else {
            Some((TokenType::Greater, s + 1))
        }
    } else if c == '/' {
        if s + 1 < src.len() && src[s + 1] == '/' {
            None
        } else {
            Some((TokenType::Slash, s + 1))
        }
    } else {
        None
    }
}

/// The kind, attached value and end of the token the scan at non-space
/// position `s` yields at once — nothing when what stands there is a
/// comment, an unterminated string or a character the language has no
/// use for.
pub open spec fn scan_tok(src: Seq<char>, s: int) -> Option<(TokenType, ValM, int)> {
    let c = src[s];
    if c == '"' {
        match str_scan(src, s + 1, false) {
            Some(p) => Some((TokenType::Literal, ValM::Str(p.0), p.1)),
            None => None,
        }
    } else if is_digit_char(c) {
        Some((TokenType::Literal, ValM::Num(num_scan_val(src, s)), num_scan_end(src, s)))
    } else if is_ident_start(c) {
        let e = ident_run_end(src, s + 1);
        let k = keyword_kind(src.subrange(s, e));
        if k == TokenType::True {
            Some((TokenType::Literal, ValM::Bool(true), e))
        } else if k == TokenType::False {
            Some((TokenType::Literal, ValM::Bool(false), e))
        } else if k == TokenType::Nil {
            Some((TokenType::Literal, ValM::Nil, e))
        } else {
            Some((k, ValM::Nil, e))
        }
    } else {
        match punct_token(src, s) {
            Some(p) => Some((p.0, ValM::Nil, p.1)),
            None => None,
        }
    }
}

/// A token the scan yields at once is never of the two administrative
/// kinds.
pub proof fn lemma_scan_tok_kind(src: Seq<char>, s: int)
    ensures
        match scan_tok(src, s) {
            Some(p) => p.0 != TokenType::Error && p.0 != TokenType::EOF,
            None => true,
        },
{
}

/// A token the scan yields at once ends past where it began and within
/// the source.
pub proof fn lemma_scan_tok_end(src: Seq<char>, s: int)
    requires
        0 <= s < src.len(),
    ensures
        match scan_tok(src, s) {
            Some(p) => s < p.2 <= src.len(),
            None => true,
        },
{
    let c = src[s];
    if c == '"' {
        lemma_str_scan_bounds(src, s + 1, false);
    } else if is_digit_char(c) {
        lemma_digit_run_bounds(src, s);
        lemma_digit_run_bounds(src, s + 1);
        let ie = digit_run_end(src, s);
        if ie + 1 < src.len() && src[ie] == '.' && is_digit_char(src[ie + 1]) {
            lemma_digit_run_bounds(src, ie + 1);
        }
        let fe = if ie + 1 < src.len() && src[ie] == '.' && is_digit_char(src[ie + 1]) {
            digit_run_end(src, ie + 1)
        } else {
            ie
        };
        if fe + 1 < src.len() && (src[fe] == 'e' || src[fe] == 'E') && is_digit_char(src[fe + 1]) {
            lemma_digit_run_bounds(src, fe + 1);
        }
    } else if is_ident_start(c) {
        lemma_ident_run_bounds(src, s + 1);
    }
}

/// The token fields of a source that scans cleanly from `i` on: each
/// step yields a token at once until only whitespace is left.  Nothing
/// when a comment, a stray character or an unterminated string
/// interrupts such a scan.  Each entry is a token's kind, attached
/// value, start and end.
pub open spec fn lex_clean(src: Seq<char>, i: int) -> Option<Seq<(TokenType, ValM, int, int)>>
    decreases src.len() - i,
{
    let j0 = ws_run_end(src, i);
    let j = if j0 >= i {
        j0
    } else {
        i
    };
    if j >= src.len() {
        Some(Seq::<(TokenType, ValM, int, int)>::empty())
    } else {
        match scan_tok(src, j) {
            Some(p) => {
                let e = if j < p.2 <= src.len() {
                    p.2
                } else {
                    j + 1
                };
                match lex_clean(src, e) {
                    Some(rest) => Some(seq![(p.0, p.1, j, e)] + rest),
                    None => None,
                }
            },
            None => None,
        }
    }
}

/// The diagnostic an unterminated string literal opening at `s`
/// records.
pub open spec fn unterminated_err(s: int) -> ErrM {
    ErrM { msg: "unterminated string"@, severity: Severity::Error, start: s as nat, length: 1 }
}

/// The scanner.  It owns the source as characters, a read position, the
/// start of the token being read, and its own diagnostics.
pub struct Lexer {
    source: Vec<char>,
    index: usize,
    token_start: usize,
    errors: Errors,
}

impl Lexer {
    pub closed spec fn src(&self) -> Seq<char> {
        self.source@
    }

    pub closed spec fn idx(&self) -> int {
        self.index as int
    }

    pub closed spec fn tstart(&self) -> int {
        self.token_start as int
    }

    pub closed spec fn errs(&self) -> ErrsM {
        self.errors@
    }

    pub closed spec fn inv(&self) -> bool {
        &&& self.index <= self.source.len()
        &&& self.errors@.source == self.source@
        &&& self.errors.inv()
        &&& self.errors@.flag == false
    }

    /// How many characters the source holds.
    pub fn source_len(&self) -> (r: usize)
        requires
            self.inv(),
        ensures
            r as int == self.src().len(),
            r + 64 <= usize::MAX,
    {
        self.source.len()
    }

    pub fn new(source: &str) -> (r: Lexer)
        ensures
            r.inv(),
            r.src() == source@,
            r.idx() == 0,
            r.errs().list == Seq::<ErrM>::empty(),
    {
        Lexer {
            source: str_to_chars(source),
            index: 0,
            token_start: 0,
            errors: Errors::new(source),
        }
    }

    /// Move every diagnostic this lexer collected into `target`.
    pub fn coalesce_errors(&mut self, target: &mut Errors)
        requires
            old(self).inv(),
        ensures
            final(self).inv(),
            final(self).src() == old(self).src(),
            final(self).idx() == old(self).idx(),
            final(self).errs().list == Seq::<ErrM>::empty(),
            final(target).inv() == old(target).inv(),
            final(target)@ == (ErrsM {
                list: old(target)@.list + old(self).errs().list,
                ..old(target)@
            }),
    {
        self.errors.coalesce(target);
    }

    /// Consume and return the next character.
    fn advance(&mut self) -> (r: Option<char>)
        requires
            old(self).inv(),
        ensures
            final(self).inv(),
            final(self).src() == old(self).src(),
            final(self).errs() == old(self).errs(),
            final(self).tstart() == old(self).tstart(),
            old(self).idx() < old(self).src().len() ==> r == Some(old(self).src()[old(self).idx()])
                && final(self).idx() == old(self).idx() + 1,
            old(self).idx() >= old(self).src().len() ==> r is None && final(self).idx() == old(
                self,
            ).idx(),
    {
        if self.index < self.source.len() {
            let c = self.source[self.index];
            self.index = self.index + 1;
            Some(c)
        } else {
            None
        }
    }

    /// Consume characters until a non-whitespace one arrives, and return
    /// it.
    fn advance_past_whitespace(&mut self) -> (r: Option<char>)
        requires
            old(self).inv(),
        ensures
            final(self).inv(),
            final(self).src() == old(self).src(),
            final(self).errs() == old(self).errs(),
            final(self).tstart() == old(self).tstart(),
            final(self).idx() >= old(self).idx(),
            match r {
                Some(c) => old(self).idx() < final(self).idx() <= final(self).src().len() && c
                    == final(self).src()[final(self).idx() - 1] && !is_space_char(c),
                None => final(self).idx() == final(self).src().len(),
            },
            ({
                let j = ws_run_end(old(self).src(), old(self).idx());
                if j < old(self).src().len() {
                    r == Some(old(self).src()[j]) && final(self).idx() == j + 1
                } else {
                    r is None && final(self).idx() == old(self).src().len()
                }
            }),
    {
        proof {
            lemma_ws_run_bounds(old(self).src(), old(self).idx());
        }
        loop
            invariant
                self.inv(),
                self.src() == old(self).src(),
                self.errs() == old(self).errs(),
                self.tstart() == old(self).tstart(),
                self.idx() >= old(self).idx(),
                ws_run_end(self.src(), old(self).idx()) == ws_run_end(self.src(), self.idx()),
            decreases self.src().len() - self.idx(),
        {
            proof {
                lemma_ws_run_bounds(self.src(), self.idx());
            }
            match self.advance() {
                Some(c) => {
                    if !is_space(c) {
                        proof {
                            assert(ws_run_end(self.src(), self.idx() - 1) == self.idx() - 1);
                        }
                        return Some(c);
                    }
                },
                None => {
                    return None;
                },
            }
        }
    }

    /// The next character, if any, without consuming.
    fn peek(&self) -> (r: Option<char>)
        ensures
            r == if self.idx() < self.src().len() {
                Some(self.src()[self.idx()])
            } else {
                None::<char>
            },
    {
        if self.index < self.source.len() {
            Some(self.source[self.index])
        } else {
            None
        }
    }

    /// The character after the next one, if any, without consuming.
    fn peek_next(&self) -> (r: Option<char>)
        ensures
            r == if self.idx() + 1 < self.src().len() {
                Some(self.src()[self.idx() + 1])
            } else {
                None::<char>
            },
    {
        let n = self.source.len();
        if self.index < n && self.index + 1 < n {
            Some(self.source[self.index + 1])
        } else {
            None
        }
    }

    /// Consume the next character exactly when it is the expected one.
    fn check(&mut self, char: char) -> (r: bool)
        requires
            old(self).inv(),
        ensures
            final(self).inv(),
            final(self).src() == old(self).src(),
            final(self).errs() == old(self).errs(),
            final(self).tstart() == old(self).tstart(),
            r == (old(self).idx() < old(self).src().len() && old(self).src()[old(self).idx()]
                == char),
            final(self).idx() == if r {
                old(self).idx() + 1
            } else {
                old(self).idx()
            },
    {
        match self.peek() {
            Some(c) => {
                if c == char {
                    self.advance();
                    true
                } else {
                    false
                }
            },
            None => false,
        }
    }

    /// Scan a string literal's body, the opening quote already consumed.
    /// Decodes escapes; an unterminated literal consumes to the end and
    /// yields nothing.
    fn string(&mut self) -> (r: Option<String>)
        requires
            old(self).inv(),
        ensures
            final(self).inv(),
            final(self).src() == old(self).src(),
            final(self).errs() == old(self).errs(),
            final(self).tstart() == old(self).tstart(),
            final(self).idx() >= old(self).idx(),
            match str_scan(old(self).src(), old(self).idx(), false) {
                Some(p) => r is Some && r.unwrap()@ == p.0 && final(self).idx() == p.1,
                None => r is None && final(self).idx() == final(self).src().len(),
            },
    {
        let mut out: Vec<char> = Vec::new();
        let mut escaped = false;
        loop
            invariant
                self.inv(),
                self.src() == old(self).src(),
                self.errs() == old(self).errs(),
                self.tstart() == old(self).tstart(),
                self.idx() >= old(self).idx(),
                str_scan(self.src(), old(self).idx(), false) == match str_scan(self.src(), self.idx(), escaped) {
                    Some(p) => Some((out@ + p.0, p.1)),
                    None => None::<(Seq<char>, int)>,
                },
            decreases self.src().len() - self.idx(),
        {
            let ghost pre = self.idx();
            let ghost outpre = out@;
            match self.advance() {
                Some(c) => {
                    if escaped {
                        out.push(escape_exec(c));
                        escaped = false;
                        proof {
                            assert forall|p: (Seq<char>, int)|
                                str_scan(self.src(), self.idx(), false) == Some::<(Seq<char>, int)>(p)
                                implies outpre + (seq![escape_char(self.src()[pre])] + p.0) =~= out@
                                + p.0 by {}
                        }
                    } else if c == '\\' {
                        escaped = true;
                    } else if c == '"' {
                        proof {
                            assert(out@ + Seq::<char>::empty() =~= out@);
                        }
                        return Some(chars_to_string(out));
                    } else {
                        out.push(c);
                        proof {
                            assert forall|p: (Seq<char>, int)|
                                str_scan(self.src(), self.idx(), false) == Some::<(Seq<char>, int)>(p)
                                implies outpre + (seq![self.src()[pre]] + p.0) =~= out@ + p.0 by {}
                        }
                    }
                },
                None => {
                    return None;
                },
            }
        }
    }

    /// Consume the run of digits ahead, appending them to `out`.
    fn integer(&mut self, out: &mut Vec<char>)
        requires
            old(self).inv(),
        ensures
            final(self).inv(),
            final(self).src() == old(self).src(),
            final(self).errs() == old(self).errs(),
            final(self).tstart() == old(self).tstart(),
            final(self).idx() == digit_run_end(old(self).src(), old(self).idx()),
            final(out)@ == old(out)@ + old(self).src().subrange(old(self).idx(), final(self).idx()),
    {
        proof {
            assert(old(out)@ + self.src().subrange(old(self).idx(), old(self).idx()) =~= old(
                out,
            )@);
        }
        loop
            invariant
                self.inv(),
                self.src() == old(self).src(),
                self.errs() == old(self).errs(),
                self.tstart() == old(self).tstart(),
                self.idx() >= old(self).idx(),
                digit_run_end(self.src(), old(self).idx()) == digit_run_end(
                    self.src(),
                    self.idx(),
                ),
                out@ == old(out)@ + self.src().subrange(old(self).idx(), self.idx()),
            decreases self.src().len() - self.idx(),
        {
            match self.peek() {
                Some(c) => {
                    if '0' <= c && c <= '9' {
                        self.advance();
                        out.push(c);
                        proof {
                            assert(out@ =~= old(out)@ + self.src().subrange(
                                old(self).idx(),
                                self.idx(),
                            ));
                        }
                    } else {
                        return ;
                    }
                },
                None => {
                    return ;
                },
            }
        }
    }

    /// Scan a numeric literal whose first digit was just consumed, and
    /// build the number it denotes.
    fn number(&mut self) -> (n: LoxNum)
        requires
            old(self).inv(),
            old(self).idx() >= 1,
            is_digit_char(old(self).src()[old(self).idx() - 1]),
        ensures
            final(self).inv(),
            final(self).src() == old(self).src(),
            final(self).errs() == old(self).errs(),
            final(self).tstart() == old(self).tstart(),
            n.inv(),
            n@ == num_scan_val(old(self).src(), old(self).idx() - 1),
            final(self).idx() == num_scan_end(old(self).src(), old(self).idx() - 1),
            final(self).idx() > old(self).idx() - 1,
    {
        let ghost src = self.src();
        let ghost s = old(self).idx() - 1;
        let mut sig: Vec<char> = Vec::new();
        sig.push(self.source[self.index - 1]);
        proof {
            assert(sig@ =~= src.subrange(s, s + 1));
        }
        self.integer(&mut sig);
        let ghost ie = digit_run_end(src, s);
        proof {
            lemma_digit_run_bounds(src, s + 1);
            assert(digit_run_end(src, s) == digit_run_end(src, s + 1));
            assert(sig@ =~= src.subrange(s, ie));
        }
        let mut flen: usize = 0;
        let has_frac = match (self.peek(), self.peek_next()) {
            (Some(c1), Some(c2)) => c1 == '.' && '0' <= c2 && c2 <= '9',
            _ => false,
        };
        if has_frac {
            self.advance();
            let before = sig.len();
            self.integer(&mut sig);
            flen = sig.len() - before;
            proof {
                lemma_digit_run_bounds(src, ie + 1);
                assert(sig@ =~= src.subrange(s, ie) + src.subrange(ie + 1, self.idx()));
            }
        }
        let ghost fe = self.idx();
        let has_exp = match (self.peek(), self.peek_next()) {
            (Some(c1), Some(c2)) => (c1 == 'e' || c1 == 'E') && '0' <= c2 && c2 <= '9',
            _ => false,
        };
        let mut xp: Vec<char> = Vec::new();
        if has_exp {
            self.advance();
            self.integer(&mut xp);
            proof {
                lemma_digit_run_bounds(src, fe + 1);
                assert(xp@ =~= src.subrange(fe + 1, self.idx()));
            }
        } else {
            proof {
                assert(xp@ =~= Seq::<char>::empty());
            }
        }
        LoxNum::from_parts(&sig, flen, &xp)
    }

    /// Scan the identifier whose first character was just consumed, and
    /// classify it against the keyword table.
    fn identifier(&mut self) -> (r: TokenType)
        requires
            old(self).inv(),
            old(self).tstart() < old(self).idx() <= old(self).src().len(),
        ensures
            final(self).inv(),
            final(self).src() == old(self).src(),
            final(self).errs() == old(self).errs(),
            final(self).tstart() == old(self).tstart(),
            final(self).idx() == ident_run_end(old(self).src(), old(self).idx()),
            r == keyword_kind(
                old(self).src().subrange(old(self).tstart(), final(self).idx()),
            ),
    {
        loop
            invariant
                self.inv(),
                self.src() == old(self).src(),
                self.errs() == old(self).errs(),
                self.tstart() == old(self).tstart(),
                old(self).idx() <= self.idx(),
                ident_run_end(self.src(), old(self).idx()) == ident_run_end(self.src(), self.idx()),
            ensures
                self.inv(),
                self.src() == old(self).src(),
                self.errs() == old(self).errs(),
                self.tstart() == old(self).tstart(),
                old(self).idx() <= self.idx(),
                self.idx() == ident_run_end(self.src(), old(self).idx()),
            decreases self.src().len() - self.idx(),
        {
            match self.peek() {
                Some(c) => {
                    if ('A' <= c && c <= 'Z') || ('a' <= c && c <= 'z') || ('0' <= c && c <= '9')
                        || c == '_' {
                        self.advance();
                    } else {
                        break ;
                    }
                },
                None => {
                    break ;
                },
            }
        }
        let text = chars_to_string(Self::split_range(&self.source, self.token_start, self.index));
        kw_lookup(&text)
    }

    /// Read one token, whose first character was just consumed.  Yields
    /// its kind and attached value; the token's span then runs from
    /// `tstart` to `idx`.  A comment restarts the scan after the line.
    fn read_token(&mut self, char: char) -> (r: (TokenType, LoxValue))
        requires
            old(self).inv(),
            1 <= old(self).idx() <= old(self).src().len(),
            char == old(self).src()[old(self).idx() - 1],
            !is_space_char(char),
        ensures
            final(self).inv(),
            final(self).src() == old(self).src(),
            final(self).errs().source == old(self).errs().source,
            final(self).errs().flag == old(self).errs().flag,
            old(self).errs().list.is_prefix_of(final(self).errs().list),
            final(self).idx() >= old(self).idx(),
            r.0 == TokenType::EOF ==> final(self).idx() == final(self).src().len(),
            r.0 != TokenType::EOF && r.0 != TokenType::Error ==> final(self).tstart() >= old(
                self,
            ).idx() - 1 && token_parts_ok(
                r.0,
                r.1@,
                final(self).tstart(),
                final(self).idx(),
                old(self).src(),
            ),
            ({
                let s = old(self).idx() - 1;
                match scan_tok(old(self).src(), s) {
                    Some(p) => r.0 == p.0 && r.1@ == p.1 && final(self).tstart() == s && final(self).idx() == p.2 && final(self).errs() == old(self).errs(),
                    None => true,
                }
            }),
            (old(self).src()[old(self).idx() - 1] == '"' && str_scan(
                old(self).src(),
                old(self).idx(),
                false,
            ) is None) ==> r.0 == TokenType::Error && final(self).idx() == old(self).src().len()
                && final(self).errs().list == old(self).errs().list.push(
                unterminated_err(old(self).idx() - 1),
            ),
        decreases self.src().len() - self.idx(),
    {
        self.token_start = self.index - 1;
        let ghost ts = self.tstart();
        let kind = if char == '(' {
            TokenType::LeftParen
        } else if char == ')' {
            TokenType::RightParen
        } else if char == '{' {
            TokenType::LeftBrace
        } else if char == '}' {
            TokenType::RightBrace
        } else if char == ',' {
            TokenType::Comma
        } else if char == '.' {
            TokenType::Dot
        } else if char == '-' {
            TokenType::Minus
        } else if char == '+' {
            TokenType::Plus
        } else if char == ';' {
            TokenType::Semicolon
        } else if char == '*' {
            TokenType::Star
        } else if char == '%' {
            TokenType::Percent
        } else if char == '!' {
            if self.check('=') {
                TokenType::BangEqual
            } else {
                TokenType::Bang
            }
        } else if char == '=' {
            if self.check('=') {
                TokenType::EqualEqual
            } else {
                TokenType::Equal
            }
        } else if char == '<' {
            if self.check('=') {
                TokenType::LessEqual
            } else {
                TokenType::Less
            }
        } else if char == '>' {
            if self.check('=') {
                TokenType::GreaterEqual
            } else {
                TokenType::Greater
            }
        } else if char == '"' {
            TokenType::String
        } else if '0' <= char && char <= '9' {
            TokenType::Number
        } else if ('A' <= char && char <= 'Z') || ('a' <= char && char <= 'z') || char == '_' {
            TokenType::Identifier
        } else if char == '/' {
            if self.check('/') {
                // a comment runs to the end of the line
                loop
                    invariant
                        self.inv(),
                        self.src() == old(self).src(),
                        self.errs() == old(self).errs(),
                        self.idx() >= old(self).idx() + 1,
                    ensures
                        self.inv(),
                        self.src() == old(self).src(),
                        self.errs() == old(self).errs(),
                        self.idx() >= old(self).idx() + 1,
                    decreases self.src().len() - self.idx(),
                {
                    match self.advance() {
                        Some(c) => {
                            if c == '\n' {
                                break ;
                            }
                        },
                        None => {
                            break ;
                        },
                    }
                }
                match self.advance_past_whitespace() {
                    Some(c) => {
                        return self.read_token(c);
                    },
                    None => {
                        return (TokenType::EOF, LoxValue::Nil);
                    },
                }
            } else {
                TokenType::Slash
            }
        } else {
            self.errors.push("unexpected character", Severity::Error, self.token_start, 1, false);
            proof {
                lemma_prefix_push(old(self).errs().list, self.errs().list);
            }
            return (TokenType::Error, LoxValue::Nil);
        };
        if kind == TokenType::String {
            proof {
                lemma_str_scan_bounds(self.src(), self.idx(), false);
            }
            match self.string() {
                Some(s) => (TokenType::Literal, LoxValue::Str(s)),
                None => {
                    self.errors.push(
                        "unterminated string",
                        Severity::Error,
                        self.token_start,
                        1,
                        false,
                    );
                    proof {
                        lemma_prefix_push(old(self).errs().list, self.errs().list);
                    }
                    (TokenType::Error, LoxValue::Nil)
                },
            }
        } else if kind == TokenType::Number {
            let n = self.number();
            (TokenType::Literal, LoxValue::Num(n))
        } else if kind == TokenType::Identifier {
            let k = self.identifier();
            proof {
                lemma_ident_run_bounds(self.src(), ts + 1);
            }
            if k == TokenType::True {
                (TokenType::Literal, LoxValue::Bool(true))
            } else if k == TokenType::False {
                (TokenType::Literal, LoxValue::Bool(false))
            } else if k == TokenType::Nil {
                (TokenType::Literal, LoxValue::Nil)
            } else {
                (k, LoxValue::Nil)
            }
        } else {
            (kind, LoxValue::Nil)
        }
    }

    /// Produce the next token.  Skips over bad input, recording
    /// diagnostics for it, and yields nothing once the source ends.
    pub fn next(&mut self) -> (r: Option<Token>)
        requires
            old(self).inv(),
        ensures
            final(self).inv(),
            final(self).src() == old(self).src(),
            final(self).errs().source == old(self).errs().source,
            final(self).errs().flag == old(self).errs().flag,
            old(self).errs().list.is_prefix_of(final(self).errs().list),
            final(self).idx() >= old(self).idx(),
            match r {
                Some(t) => token_ok(t, old(self).src()) && old(self).idx() <= t.start as int
                    && t.start + t.text@.len() <= final(self).idx(),
                None => final(self).idx() == final(self).src().len(),
            },
            ({
                let j = ws_run_end(old(self).src(), old(self).idx());
                j >= old(self).src().len() ==> r is None && final(self).errs() == old(self).errs()
            }),
            ({
                let j = ws_run_end(old(self).src(), old(self).idx());
                (j < old(self).src().len() && scan_tok(old(self).src(), j) is Some) ==> ({
                    let p = scan_tok(old(self).src(), j).unwrap();
                    match r {
                        Some(t) => t.kind == p.0 && t.start as int == j && t.value@ == p.1
                            && t.text@ == old(self).src().subrange(j, p.2) && t.start
                            + t.text@.len() == p.2 && final(self).idx() == p.2 && final(self).errs()
                            == old(self).errs(),
                        None => false,
                    }
                })
            }),
            ({
                let j = ws_run_end(old(self).src(), old(self).idx());
                (j < old(self).src().len() && old(self).src()[j] == '"' && str_scan(
                    old(self).src(),
                    j + 1,
                    false,
                ) is None) ==> r is None && final(self).idx() == old(self).src().len() && final(self).errs().list == old(self).errs().list.push(unterminated_err(j))
            }),
    {
        proof {
            lemma_ws_run_bounds(old(self).src(), old(self).idx());
            lemma_scan_tok_kind(
                old(self).src(),
                ws_run_end(old(self).src(), old(self).idx()),
            );
        }
        loop
            invariant
                self.inv(),
                self.src() == old(self).src(),
                self.errs().source == old(self).errs().source,
                self.errs().flag == old(self).errs().flag,
                old(self).errs().list.is_prefix_of(self.errs().list),
                self.idx() >= old(self).idx(),
                ({
                    let j = ws_run_end(old(self).src(), old(self).idx());
                    j >= old(self).src().len() ==> self.idx() == old(self).idx() && self.errs()
                        == old(self).errs()
                }),
                ({
                    let j = ws_run_end(old(self).src(), old(self).idx());
                    (j < old(self).src().len() && scan_tok(old(self).src(), j) is Some)
                        ==> self.idx() == old(self).idx() && self.errs() == old(self).errs()
                }),
                ({
                    let j = ws_run_end(old(self).src(), old(self).idx());
                    (j < old(self).src().len() && old(self).src()[j] == '"' && str_scan(
                        old(self).src(),
                        j + 1,
                        false,
                    ) is None) ==> (self.idx() == old(self).idx() && self.errs() == old(self).errs())
                        || (self.idx() == old(self).src().len() && self.errs().list == old(
                        self,
                    ).errs().list.push(unterminated_err(j)))
                }),
            decreases self.src().len() - self.idx(),
        {
            proof {
                lemma_ws_run_bounds(self.src(), self.idx());
                lemma_scan_tok_kind(
                    self.src(),
                    ws_run_end(old(self).src(), old(self).idx()),
                );
            }
            let ghost pre = self.errs().list;
            match self.advance_past_whitespace() {
                Some(c) => {
                    let (kind, value) = self.read_token(c);
                    proof {
                        lemma_prefix_trans(old(self).errs().list, pre, self.errs().list);
                    }
                    if kind == TokenType::EOF {
                        return None;
                    } else if kind != TokenType::Error {
                        let text = chars_to_string(
                            Self::split_range(&self.source, self.token_start, self.index),
                        );
                        return Some(
                            Token { kind, start: self.token_start, text, value },
                        );
                    }
                },
                None => {
                    return None;
                },
            }
        }
    }

    /// Drive the scanner to the end and collect every token.
    pub fn tokens(&mut self) -> (r: Vec<Token>)
        requires
            old(self).inv(),
        ensures
            final(self).inv(),
            final(self).src() == old(self).src(),
            final(self).errs().source == old(self).errs().source,
            final(self).errs().flag == old(self).errs().flag,
            old(self).errs().list.is_prefix_of(final(self).errs().list),
            forall|i: int| 0 <= i < r@.len() ==> token_ok(#[trigger] r@[i], old(self).src()),
            ws_run_end(old(self).src(), old(self).idx()) >= old(self).src().len() ==> r@
                == Seq::<Token>::empty() && final(self).errs() == old(self).errs(),
            ({
                let j = ws_run_end(old(self).src(), old(self).idx());
                (j < old(self).src().len() && scan_tok(old(self).src(), j) is Some) ==> ({
                    let p = scan_tok(old(self).src(), j).unwrap();
                    r@.len() > 0 && r@[0].kind == p.0 && r@[0].start as int == j && r@[0].value@
                        == p.1 && r@[0].text@ == old(self).src().subrange(j, p.2)
                })
            }),
            (lex_clean(old(self).src(), old(self).idx()) matches Some(ts)) ==> ({
                let ts = lex_clean(old(self).src(), old(self).idx()).unwrap();
                r@.len() == ts.len() && (forall|k: int|
                    0 <= k < ts.len() ==> (#[trigger] r@[k]).kind == ts[k].0 && r@[k].value@
                        == ts[k].1 && r@[k].start as int == ts[k].2 && r@[k].text@ == old(
                        self,
                    ).src().subrange(ts[k].2, ts[k].3) && r@[k].start + r@[k].text@.len()
                        == ts[k].3) && final(self).errs() == old(self).errs()
            }),
    {
        let mut out: Vec<Token> = Vec::new();
        proof {
            assert(out@ =~= Seq::<Token>::empty());
            if lex_clean(old(self).src(), old(self).idx()) is Some {
                let ts = lex_clean(old(self).src(), old(self).idx()).unwrap();
                assert(ts.take(0) =~= Seq::<(TokenType, ValM, int, int)>::empty());
                assert(ts.take(0) + ts =~= ts);
            }
        }
        loop
            invariant
                self.inv(),
                self.src() == old(self).src(),
                self.errs().source == old(self).errs().source,
                self.errs().flag == old(self).errs().flag,
                old(self).errs().list.is_prefix_of(self.errs().list),
                forall|i: int| 0 <= i < out@.len() ==> token_ok(#[trigger] out@[i], old(self).src()),
                ws_run_end(old(self).src(), old(self).idx()) >= old(self).src().len() ==> out@
                    == Seq::<Token>::empty() && self.idx() == old(self).idx() && self.errs() == old(
                    self,
                ).errs(),
                ({
                    let j = ws_run_end(old(self).src(), old(self).idx());
                    (j < old(self).src().len() && scan_tok(old(self).src(), j) is Some) ==> ({
                        let p = scan_tok(old(self).src(), j).unwrap();
                        (out@.len() == 0 && self.idx() == old(self).idx() && self.errs() == old(
                            self,
                        ).errs()) || (out@.len() > 0 && out@[0].kind == p.0 && out@[0].start as int
                            == j && out@[0].value@ == p.1 && out@[0].text@ == old(
                            self,
                        ).src().subrange(j, p.2))
                    })
                }),
                (lex_clean(old(self).src(), old(self).idx()) matches Some(ts0)) ==> ({
                    let ts = lex_clean(old(self).src(), old(self).idx()).unwrap();
                    lex_clean(old(self).src(), self.idx()) is Some && out@.len() <= ts.len() && ts
                        == ts.take(out@.len() as int) + lex_clean(
                        old(self).src(),
                        self.idx(),
                    ).unwrap() && (forall|k: int|
                        0 <= k < out@.len() ==> (#[trigger] out@[k]).kind == ts[k].0
                            && out@[k].value@ == ts[k].1 && out@[k].start as int == ts[k].2
                            && out@[k].text@ == old(self).src().subrange(ts[k].2, ts[k].3)
                            && out@[k].start + out@[k].text@.len() == ts[k].3) && self.errs()
                        == old(self).errs()
                }),
            decreases self.src().len() - self.idx() + 1,
        {
            let ghost pre = self.errs().list;
            let ghost i1 = self.idx();
            proof {
                lemma_ws_run_bounds(self.src(), i1);
                if ws_run_end(self.src(), i1) < self.src().len() {
                    lemma_scan_tok_end(self.src(), ws_run_end(self.src(), i1));
                }
            }
            match self.next() {
                Some(t) => {
                    out.push(t);
                    proof {
                        lemma_prefix_trans(old(self).errs().list, pre, self.errs().list);
                        if lex_clean(old(self).src(), old(self).idx()) is Some {
                            let src = old(self).src();
                            let ts = lex_clean(src, old(self).idx()).unwrap();
                            let n = out@.len() - 1;
                            let rest = lex_clean(src, i1).unwrap();
                            let j = ws_run_end(src, i1);
                            // the scan was not at the end, so the clean list continues
                            assert(j < src.len());
                            assert(rest[0] == (scan_tok(src, j).unwrap().0, scan_tok(
                                src,
                                j,
                            ).unwrap().1, j, self.idx()));
                            assert(ts[n] == rest[0]);
                            assert(ts.take(n + 1) =~= ts.take(n).push(ts[n]));
                            assert(ts =~= ts.take(n + 1) + lex_clean(src, self.idx()).unwrap());
                        }
                    }
                },
                None => {
                    proof {
                        lemma_prefix_trans(old(self).errs().list, pre, self.errs().list);
                        if lex_clean(old(self).src(), old(self).idx()) is Some {
                            let src = old(self).src();
                            let ts = lex_clean(src, old(self).idx()).unwrap();
                            // nothing but whitespace was left, so the clean list is spent
                            assert(lex_clean(src, i1).unwrap() =~= Seq::<(
                                TokenType,
                                ValM,
                                int,
                                int,
                            )>::empty());
                            assert(ts.take(out@.len() as int) =~= ts);
                        }
                    }
                    return out;
                },
            }
        }
    }

    /// Split a character vector at the provided start and end index.
    pub fn split_range(text: &Vec<char>, start: usize, end: usize) -> (r: Vec<char>)
        requires
            start <= end <= text.len(),
        ensures
            r@ == text@.subrange(start as int, end as int),
    {
        subrange_chars(text, start, end)
    }
}

} // verus!
