//! Runtime values, token kinds and tokens.
use vstd::prelude::*;
use crate::num::{LoxNum, num_text};
use crate::text::chars_to_string;

verus! {

/// Placeholder for a callable value; calling one is not implemented, so
/// an invocation simply yields nil.
#[derive(Clone, Copy, Debug, PartialEq, Eq, Structural)]
pub struct LoxClosure {}

impl LoxClosure {
    /// Invoke the closure on already-evaluated arguments.  Closure
    /// bodies are not implemented: every call succeeds with nil.
    pub fn call(&mut self, args: Vec<LoxValue>) -> (r: Result<LoxValue, crate::backtrace::Backtrace>)
        ensures
            match r {
                Ok(v) => v@ == ValM::Nil,
                Err(_) => false,
            },
    {
        let _ = args;
        Ok(LoxValue::Nil)
    }
}

/// A runtime value of the language.
#[derive(Debug)]
pub enum LoxValue {
    Bool(bool),
    Num(LoxNum),
    Str(String),
    Fn(LoxClosure),
    Nil,
}

/// The mathematical model of a runtime value.
pub enum ValM {
    Bool(bool),
    Num(int),
    Str(Seq<char>),
    Fn,
    Nil,
}

impl View for LoxValue {
    type V = ValM;

    open spec fn view(&self) -> ValM {
        match self {
            LoxValue::Bool(b) => ValM::Bool(*b),
            LoxValue::Num(n) => ValM::Num(n@),
            LoxValue::Str(s) => ValM::Str(s@),
            LoxValue::Fn(_) => ValM::Fn,
            LoxValue::Nil => ValM::Nil,
        }
    }
}

/// Everything is truthy except `false` and nil.
pub open spec fn truthy(v: ValM) -> bool {
    match v {
        ValM::Bool(b) => b,
        ValM::Nil => false,
        _ => true,
    }
}

/// A number keeps its mantissa within range; other values hold anything.
pub open spec fn val_inv(v: ValM) -> bool {
    match v {
        ValM::Num(n) => -crate::num::bound() <= n <= crate::num::bound(),
        _ => true,
    }
}

/// The printed form of a value.
pub open spec fn val_text(v: ValM) -> Seq<char> {
    match v {
        ValM::Bool(b) => if b {
            "true"@
        } else {
            "false"@
        },
        ValM::Num(n) => num_text(n),
        ValM::Str(s) => s,
        ValM::Fn => "<function>"@,
        ValM::Nil => "nil"@,
    }
}

impl LoxValue {
    /// Whether the value counts as true in a condition.
    pub fn is_truthy(value: &LoxValue) -> (r: bool)
        ensures
            r == truthy(value@),
    {
        match value {
            LoxValue::Bool(b) => *b,
            LoxValue::Num(_) => true,
            LoxValue::Str(_) => true,
            LoxValue::Fn(_) => true,
            LoxValue::Nil => false,
        }
    }

    /// An independent copy of the value.
    pub fn duplicate(&self) -> (r: LoxValue)
        ensures
            r@ == self@,
    {
        match self {
            LoxValue::Bool(b) => LoxValue::Bool(*b),
            LoxValue::Num(n) => LoxValue::Num(*n),
            LoxValue::Str(s) => LoxValue::Str(s.clone()),
            LoxValue::Fn(f) => LoxValue::Fn(*f),
            LoxValue::Nil => LoxValue::Nil,
        }
    }

    /// The text a `print` statement emits for the value.
    pub fn to_text(&self) -> (r: String)
        requires
            val_inv(self@),
        ensures
            r@ == val_text(self@),
    {
        match self {
            LoxValue::Bool(b) => if *b {
                "true".to_owned()
            } else {
                "false".to_owned()
            },
            LoxValue::Num(n) => chars_to_string(n.to_chars()),
            LoxValue::Str(s) => s.clone(),
            LoxValue::Fn(_) => "<function>".to_owned(),
            LoxValue::Nil => "nil".to_owned(),
        }
    }
}

impl PartialEq for LoxValue {
    /// Structural equality: same variant, same content; any two closures
    /// are equal, values of different variants never are.
    fn eq(&self, other: &LoxValue) -> (r: bool) {
        match (self, other) {
            (LoxValue::Bool(a), LoxValue::Bool(b)) => *a == *b,
            (LoxValue::Num(a), LoxValue::Num(b)) => *a == *b,
            (LoxValue::Str(a), LoxValue::Str(b)) => a.eq(b),
            (LoxValue::Fn(_), LoxValue::Fn(_)) => true,
            (LoxValue::Nil, LoxValue::Nil) => true,
            _ => false,
        }
    }
}

impl vstd::std_specs::cmp::PartialEqSpecImpl for LoxValue {
    open spec fn obeys_eq_spec() -> bool {
        true
    }

    open spec fn eq_spec(&self, other: &LoxValue) -> bool {
        self@ == other@
    }
}

/// The kind of a token.
#[derive(Clone, Copy, Debug, PartialEq, Eq, Structural)]
pub enum TokenType {
    // single-character tokens
    LeftParen,
    RightParen,
    LeftBrace,
    RightBrace,
    Comma,
    Dot,
    Minus,
    Percent,
    Plus,
    Semicolon,
    Slash,
    Star,
    // one- or two-character tokens
    Bang,
    BangEqual,
    Equal,
    EqualEqual,
    Greater,
    GreaterEqual,
    Less,
    LessEqual,
    // literals
    Literal,
    Identifier,
    Number,
    String,
    // keywords
    And,
    Class,
    Else,
    False,
    Fn,
    For,
    If,
    Nil,
    Or,
    Return,
    Super,
    This,
    True,
    Var,
    While,
    Print,
    // sentinels
    Error,
    EOF,
}

/// A lexed token: where it starts, its exact text, its kind, and the
/// literal value it carries (nil for non-literals).
pub struct Token {
    pub start: usize,
    pub text: String,
    pub kind: TokenType,
    pub value: LoxValue,
}

} // verus!
