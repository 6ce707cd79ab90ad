//! Direct exercises of the library's pieces.
use lox_rs::ast::Expr;
use lox_rs::npeekable::NPeekableExt;
use lox_rs::value::{LoxClosure, LoxValue, TokenType};
use lox_rs::{AstPrinter, Backtrace, Errors, Lexer, LoxNum, Parser, Scope, Severity, VM};

#[test]
fn lexer_token_kinds_and_spans() {
    let mut lexer = Lexer::new("var x = 1;");
    let t1 = lexer.next().unwrap();
    assert_eq!(t1.kind, TokenType::Var);
    assert_eq!(t1.start, 0);
    assert_eq!(t1.text, "var");
    let t2 = lexer.next().unwrap();
    assert_eq!(t2.kind, TokenType::Identifier);
    assert_eq!(t2.text, "x");
    let t3 = lexer.next().unwrap();
    assert_eq!(t3.kind, TokenType::Equal);
    let t4 = lexer.next().unwrap();
    assert_eq!(t4.kind, TokenType::Literal);
    assert!(matches!(t4.value, LoxValue::Num(_)));
    let t5 = lexer.next().unwrap();
    assert_eq!(t5.kind, TokenType::Semicolon);
    assert!(lexer.next().is_none());
}

#[test]
fn lexer_skips_bad_characters_and_records_them() {
    let mut lexer = Lexer::new("@ 1");
    let t = lexer.next().unwrap();
    assert_eq!(t.kind, TokenType::Literal);
    let mut sink = Errors::new("@ 1");
    lexer.coalesce_errors(&mut sink);
    let lines = sink.print_errors();
    assert_eq!(lines[0], "Error: unexpected character");
}

#[test]
fn lexer_two_character_operators() {
    let mut lexer = Lexer::new("<= == != >= < >");
    let kinds: Vec<TokenType> = {
        let mut v = Vec::new();
        while let Some(t) = lexer.next() {
            v.push(t.kind);
        }
        v
    };
    assert_eq!(
        kinds,
        vec![
            TokenType::LessEqual,
            TokenType::EqualEqual,
            TokenType::BangEqual,
            TokenType::GreaterEqual,
            TokenType::Less,
            TokenType::Greater,
        ]
    );
}

#[test]
fn keywords_and_literals_are_classified() {
    let mut lexer = Lexer::new("while true fn whileish");
    assert_eq!(lexer.next().unwrap().kind, TokenType::While);
    let t = lexer.next().unwrap();
    assert_eq!(t.kind, TokenType::Literal);
    assert!(matches!(t.value, LoxValue::Bool(true)));
    assert_eq!(lexer.next().unwrap().kind, TokenType::Fn);
    assert_eq!(lexer.next().unwrap().kind, TokenType::Identifier);
}

#[test]
fn npeekable_cursor_walks_without_consuming() {
    let items: Vec<u32> = vec![10, 20, 30];
    let mut it = items.npeekable();
    assert_eq!(it.peek().copied(), Some(10));
    assert_eq!(it.peek_next().copied(), Some(20));
    assert_eq!(it.peek_next().copied(), Some(30));
    assert_eq!(it.peek_next(), None);
    it.reset_cursor();
    assert_eq!(it.peek().copied(), Some(10));
    assert_eq!(it.next(), Some(10));
    assert_eq!(it.next_if(|v: &u32| *v == 99), None);
    assert_eq!(it.next_if(|v: &u32| *v == 20), Some(20));
    assert!(it.advance_cursor());
    assert!(!it.advance_cursor());
    assert_eq!(it.unwrap().len(), 1);
    assert_eq!(it.next(), Some(30));
    assert_eq!(it.next(), None);
}

#[test]
fn backtrace_collects_sites_in_order() {
    let mut bt = Backtrace::starting_at("boom".to_string(), (3, 4));
    bt.push((10, 2));
    assert_eq!(bt.get_error(), "boom");
    let sites: Vec<(usize, usize)> = bt.iter().clone();
    assert_eq!(sites, vec![(3, 4), (10, 2)]);
    let empty = Backtrace::new("quiet".to_string());
    assert_eq!(empty.iter().len(), 0);
}

#[test]
fn errors_flag_gates_further_pushes() {
    let mut errors = Errors::new("x");
    assert!(!errors.get_flag());
    errors.push("first", Severity::Error, 0, 1, true);
    assert!(errors.get_flag());
    errors.push("second", Severity::Error, 0, 1, true);
    let lines = errors.print_errors();
    // only the first diagnostic was recorded: one three-line rendering
    assert_eq!(lines.len(), 3);
    assert_eq!(lines[0], "Error: first");
    let mut errors2 = Errors::new("x");
    errors2.set_flag(false);
    errors2.push("third", Severity::Warning, 0, 1, false);
    errors2.push("fourth", Severity::Info, 0, 0, false);
    assert_eq!(errors2.print_errors().len(), 6);
}

#[test]
fn errors_coalesce_moves_diagnostics() {
    let mut a = Errors::new("src");
    let mut b = Errors::new("src");
    a.push("one", Severity::Error, 0, 1, false);
    a.coalesce(&mut b);
    assert_eq!(a.print_errors().len(), 0);
    assert_eq!(b.print_errors().len(), 3);
}

#[test]
fn diagnostic_rendering_marks_the_line() {
    let mut errors = Errors::new("var a = 1;\nprint b;");
    errors.push("undefined variable", Severity::Error, 17, 1, false);
    let lines = errors.print_errors();
    assert_eq!(lines[0], "Error: undefined variable");
    assert_eq!(lines[1], "line 2: print b;");
    let expected = " ".repeat(18) + "here --^";
    assert_eq!(lines[2], expected);
}

#[test]
fn zero_width_markers_point_both_ways() {
    let mut errors = Errors::new("abcdefgh");
    errors.push("early", Severity::Error, 1, 0, false);
    errors.push("late", Severity::Error, 7, 0, false);
    let lines = errors.print_errors();
    let early = " ".repeat(9) + "\\__ here";
    assert_eq!(lines[2], early);
    let late = " ".repeat(7) + "here __/";
    assert_eq!(lines[5], late);
}

#[test]
fn scope_chain_shadows_and_restores() {
    let mut outer = Scope::new();
    outer.define("a".to_string(), LoxValue::Num(LoxNum::from_int(1)));
    let mut inner = Scope::new_inner(outer);
    inner.define("a".to_string(), LoxValue::Num(LoxNum::from_int(2)));
    assert!(matches!(inner.get(&"a".to_string()), Some(LoxValue::Num(_))));
    assert!(inner.set("a".to_string(), LoxValue::Bool(true)));
    assert!(!inner.set("missing".to_string(), LoxValue::Nil));
    let restored = *inner.unscope().unwrap();
    // the outer binding was untouched by the shadowing definition
    match restored.get(&"a".to_string()) {
        Some(LoxValue::Num(_)) => {},
        other => panic!("unexpected binding {:?}", other),
    }
}

#[test]
fn values_compare_structurally() {
    assert_eq!(LoxValue::Bool(true), LoxValue::Bool(true));
    assert_eq!(
        LoxValue::Str("ab".to_string()),
        LoxValue::Str("ab".to_string())
    );
    assert_ne!(LoxValue::Str("ab".to_string()), LoxValue::Bool(true));
    assert_eq!(LoxValue::Fn(LoxClosure {}), LoxValue::Fn(LoxClosure {}));
    assert!(LoxValue::is_truthy(&LoxValue::Str(String::new())));
    assert!(!LoxValue::is_truthy(&LoxValue::Nil));
}

#[test]
fn printer_renders_prefix_notation() {
    let mut parser = Parser::new("1 + 2 * 3");
    let expr = parser.expression().unwrap();
    let mut printer = AstPrinter {};
    assert_eq!(printer.print(&expr), "(+ 1 (* 2 3))");
    let mut parser2 = Parser::new("a = !(b or c)");
    let expr2 = parser2.expression().unwrap();
    assert_eq!(printer.print(&expr2), "(set a (! (group (or (get b) (get c)))))");
}

#[test]
fn parser_builds_left_leaning_trees() {
    let mut parser = Parser::new("1 - 2 - 3");
    let expr = parser.expression().unwrap();
    match expr {
        Expr::Binary { left, right, .. } => {
            assert!(matches!(*left, Expr::Binary { .. }));
            assert!(matches!(*right, Expr::Literal { .. }));
        },
        other => panic!("unexpected tree {:?}", AstPrinter {}.print(&other)),
    }
}

#[test]
fn parser_synchronize_skips_to_statement_start() {
    let mut parser = Parser::new("@@ ; print 1;");
    // the bad characters are lex errors; parsing then sees `; print 1;`
    let first = parser.next();
    assert!(first.is_some());
}

#[test]
fn calling_a_closure_yields_nil() {
    let mut vm = VM::new();
    let call = Expr::Call {
        start: 0,
        len: 0,
        callee: Box::new(Expr::Literal { start: 0, len: 0, value: LoxValue::Fn(LoxClosure {}) }),
        args: vec![Expr::Literal { start: 0, len: 0, value: LoxValue::Bool(true) }],
    };
    match vm.eval_expr(&call) {
        Ok(LoxValue::Nil) => {},
        other => panic!("unexpected call result {:?}", other),
    }
    let not_callable = Expr::Call {
        start: 0,
        len: 0,
        callee: Box::new(Expr::Literal { start: 0, len: 5, value: LoxValue::Nil }),
        args: Vec::new(),
    };
    match vm.eval_expr(&not_callable) {
        Err(bt) => assert_eq!(bt.get_error(), "expected callable"),
        Ok(v) => panic!("unexpected value {:?}", v),
    }
}

#[test]
fn number_text_round_trips_simple_values() {
    let mut vm = VM::new();
    assert_eq!(vm.run("print 0.5;"), vec!["0.5".to_string()]);
    assert_eq!(vm.run("print 123.450;"), vec!["123.45".to_string()]);
    assert_eq!(vm.run("print 0.000000001;"), vec!["0.000000001".to_string()]);
}

#[test]
fn number_scanning_takes_one_fraction() {
    let mut lexer = Lexer::new("123.4.5");
    let kinds: Vec<TokenType> = {
        let mut v = Vec::new();
        while let Some(t) = lexer.next() {
            v.push(t.kind);
        }
        v
    };
    assert_eq!(kinds, vec![TokenType::Literal, TokenType::Dot, TokenType::Literal]);
}

#[test]
fn exponent_needs_a_following_digit() {
    let mut lexer = Lexer::new("2E");
    let t1 = lexer.next().unwrap();
    assert_eq!(t1.kind, TokenType::Literal);
    assert_eq!(t1.text, "2");
    let t2 = lexer.next().unwrap();
    assert_eq!(t2.kind, TokenType::Identifier);
    assert_eq!(t2.text, "E");
}

#[test]
fn trailing_dot_stays_with_the_next_token() {
    let mut lexer = Lexer::new("123.");
    let t1 = lexer.next().unwrap();
    assert_eq!(t1.kind, TokenType::Literal);
    assert_eq!(t1.text, "123");
    assert_eq!(lexer.next().unwrap().kind, TokenType::Dot);
}
