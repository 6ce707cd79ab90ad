//! Core of a tree-walking interpreter for a small dynamically typed
//! scripting language: lexer, parser, evaluator and diagnostics.
#![allow(unused_imports)]

pub mod ast;
pub mod backtrace;
pub mod errors;
pub mod lexer;
pub mod npeekable;
pub mod num;
pub mod parser;
pub mod printer;
pub mod scope;
pub mod semantics;
pub mod text;
pub mod value;
pub mod vm;

pub use ast::Expr;
pub use ast::Stmt;
pub use backtrace::Backtrace;
pub use errors::Error;
pub use errors::Errors;
pub use errors::Severity;
pub use lexer::Lexer;
pub use npeekable::NPeekable;
pub use npeekable::NPeekableExt;
pub use num::LoxNum;
pub use parser::Parser;
pub use printer::AstPrinter;
pub use scope::Scope;
pub use value::LoxClosure;
pub use value::LoxValue;
pub use value::Token;
pub use value::TokenType;
pub use vm::VM;
