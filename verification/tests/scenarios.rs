//! End-to-end runs of whole programs through the interpreter.
use lox_rs::VM;

fn run_lines(code: &str) -> Vec<String> {
    let mut vm = VM::new();
    vm.run(code)
}

#[test]
fn precedence_product_before_sum() {
    assert_eq!(run_lines("print 1 + 2 * 3;"), vec!["7".to_string()]);
}

#[test]
fn block_shadowing() {
    assert_eq!(
        run_lines("var a = 1; { var a = 2; print a; } print a;"),
        vec!["2".to_string(), "1".to_string()]
    );
}

#[test]
fn while_counts_to_three() {
    assert_eq!(
        run_lines("var i = 0; while (i < 3) { print i; i = i + 1; }"),
        vec!["0".to_string(), "1".to_string(), "2".to_string()]
    );
}

#[test]
fn string_concatenation() {
    assert_eq!(run_lines("print \"foo\" + \"bar\";"), vec!["foobar".to_string()]);
}

#[test]
fn or_falls_through_nil() {
    assert_eq!(
        run_lines("var x = nil; print x or \"default\";"),
        vec!["default".to_string()]
    );
}

#[test]
fn for_loop_counts_to_two() {
    assert_eq!(
        run_lines("for (var i = 0; i < 2; i = i + 1) { print i; }"),
        vec!["0".to_string(), "1".to_string()]
    );
}

#[test]
fn for_loop_without_parens() {
    assert_eq!(
        run_lines("for var i = 0; i < 2; i = i + 1 { print i; }"),
        vec!["0".to_string(), "1".to_string()]
    );
}

#[test]
fn add_number_and_string_reports_runtime_error() {
    let out = run_lines("print 1 + \"a\";");
    assert_eq!(out.len(), 3);
    assert_eq!(out[0], "Runtime: expected two numbers or two strings");
    assert_eq!(out[1], "line 1: print 1 + \"a\";");
    assert_eq!(out[2], "           here --^^^");
}

#[test]
fn undefined_variable_reports_runtime_error() {
    let out = run_lines("print undefined;");
    assert_eq!(out.len(), 3);
    assert_eq!(out[0], "Runtime: undefined variable");
    assert_eq!(out[1], "line 1: print undefined;");
    assert_eq!(out[2], "       here --^^^^^^^^^");
}

#[test]
fn invalid_assignment_target_recovers_past_semicolon() {
    let out = run_lines("1 = 2; print 3;");
    assert_eq!(out.len(), 4);
    assert_eq!(out[0], "3");
    assert_eq!(out[1], "Error: invalid assignment target");
    assert_eq!(out[2], "line 1: 1 = 2; print 3;");
    assert_eq!(out[3], " here --^");
}

#[test]
fn unterminated_string_reports_lex_error() {
    let out = run_lines("\"hello");
    assert!(out.iter().any(|l| l == "Error: unterminated string"));
}

#[test]
fn modulo_is_mathematical() {
    assert_eq!(run_lines("print 10 % 3;"), vec!["1".to_string()]);
}

#[test]
fn modulo_of_negative_uses_floor() {
    assert_eq!(run_lines("print -2.5 % 1;"), vec!["0.5".to_string()]);
}

#[test]
fn subtraction_is_left_associative() {
    assert_eq!(run_lines("print 1 - 2 - 3;"), vec!["-4".to_string()]);
    assert_eq!(run_lines("print 20 / 2 / 5;"), vec!["2".to_string()]);
}

#[test]
fn and_short_circuits_past_error() {
    assert_eq!(run_lines("print false and undefined;"), vec!["false".to_string()]);
}

#[test]
fn or_short_circuits_past_error() {
    assert_eq!(run_lines("print true or undefined;"), vec!["true".to_string()]);
}

#[test]
fn zero_is_truthy() {
    assert_eq!(run_lines("print !0;"), vec!["false".to_string()]);
    assert_eq!(run_lines("print !nil;"), vec!["true".to_string()]);
}

#[test]
fn fractional_arithmetic_prints_trimmed() {
    assert_eq!(run_lines("print 2.5 + 1.25;"), vec!["3.75".to_string()]);
    assert_eq!(run_lines("print 10 / 4;"), vec!["2.5".to_string()]);
    assert_eq!(run_lines("print 1 / 3;"), vec!["0.333333333".to_string()]);
}

#[test]
fn exponents_scale_literals() {
    assert_eq!(run_lines("print 1e2;"), vec!["100".to_string()]);
    assert_eq!(run_lines("print 1.5e2;"), vec!["150".to_string()]);
}

#[test]
fn string_ordering_is_lexicographic() {
    assert_eq!(run_lines("print \"a\" < \"b\";"), vec!["true".to_string()]);
    assert_eq!(run_lines("print \"abc\" <= \"abc\";"), vec!["true".to_string()]);
    assert_eq!(run_lines("print \"b\" > \"ab\";"), vec!["true".to_string()]);
}

#[test]
fn equality_is_structural_and_never_mixes_kinds() {
    assert_eq!(run_lines("print 1 == 1;"), vec!["true".to_string()]);
    assert_eq!(run_lines("print \"a\" == 1;"), vec!["false".to_string()]);
    assert_eq!(run_lines("print nil == nil;"), vec!["true".to_string()]);
    assert_eq!(run_lines("print 1 != 2;"), vec!["true".to_string()]);
}

#[test]
fn comparison_of_mixed_kinds_reports_left_operand() {
    let out = run_lines("print nil < 1;");
    assert_eq!(out[0], "Runtime: expected number or string");
}

#[test]
fn negating_a_string_reports_expected_number() {
    let out = run_lines("print -\"a\";");
    assert_eq!(out[0], "Runtime: expected number");
}

#[test]
fn arithmetic_on_strings_reports_expected_two_numbers() {
    let out = run_lines("print \"a\" * 2;");
    assert_eq!(out[0], "Runtime: expected two numbers");
}

#[test]
fn one_diagnostic_per_syntactic_error() {
    let out = run_lines("1 = 2; 3 = 4;");
    // two syntax errors, three rendered lines each, no program output
    assert_eq!(out.len(), 6);
    assert_eq!(out[0], "Error: invalid assignment target");
    assert_eq!(out[3], "Error: invalid assignment target");
}

#[test]
fn runtime_error_aborts_only_its_statement() {
    let out = run_lines("print undefined; print 5;");
    assert_eq!(out.len(), 4);
    assert_eq!(out[0], "Runtime: undefined variable");
    assert_eq!(out[3], "5");
}

#[test]
fn if_else_chains() {
    assert_eq!(
        run_lines("var x = 2; if x == 1 { print \"one\"; } else if x == 2 { print \"two\"; } else { print \"many\"; }"),
        vec!["two".to_string()]
    );
}

#[test]
fn assignment_chains_right_associatively() {
    assert_eq!(
        run_lines("var a = 0; var b = 0; a = b = 5; print a; print b;"),
        vec!["5".to_string(), "5".to_string()]
    );
}

#[test]
fn escapes_in_string_literals() {
    let out = run_lines("print \"a\\tb\";");
    assert_eq!(out, vec!["a\tb".to_string()]);
    let out2 = run_lines("print \"q\\\"q\";");
    assert_eq!(out2, vec!["q\"q".to_string()]);
}

#[test]
fn comments_run_to_end_of_line() {
    assert_eq!(
        run_lines("// nothing here\nprint 1; // trailing\nprint 2;"),
        vec!["1".to_string(), "2".to_string()]
    );
}

#[test]
fn state_persists_across_runs() {
    let mut vm = VM::new();
    assert_eq!(vm.run("var a = 41;"), Vec::<String>::new());
    assert_eq!(vm.run("print a + 1;"), vec!["42".to_string()]);
}

#[test]
fn division_by_zero_saturates() {
    assert_eq!(run_lines("print 1 / 0;"), vec!["1000000000000000000".to_string()]);
    assert_eq!(run_lines("print 0 / 0;"), vec!["0".to_string()]);
}

#[test]
fn two_runs_from_equal_state_agree() {
    let code = "var i = 0; while (i < 5) { print i * i; i = i + 1; }";
    let mut vm1 = VM::new();
    let mut vm2 = VM::new();
    assert_eq!(vm1.run(code), vm2.run(code));
}

#[test]
fn parsed_spans_stay_within_the_source() {
    let code = "print (1 + 2) * 3;";
    let mut parser = lox_rs::Parser::new(code);
    let stmt = parser.next().unwrap();
    assert!(stmt.start() + stmt.len() <= code.len());
    assert_eq!(stmt.start(), 0);
    assert_eq!(stmt.len(), code.len());
}

#[test]
fn long_fractions_truncate_at_nine_places() {
    assert_eq!(run_lines("print 0.12345678912;"), vec!["0.123456789".to_string()]);
}

#[test]
fn huge_literals_saturate() {
    assert_eq!(
        run_lines("print 1e30;"),
        vec!["1000000000000000000".to_string()]
    );
}

#[test]
fn empty_and_whitespace_sources_produce_nothing() {
    assert_eq!(run_lines(""), Vec::<String>::new());
    assert_eq!(run_lines("  \t\n  "), Vec::<String>::new());
}

#[test]
fn print_single_literal_prints_its_value() {
    assert_eq!(run_lines("print 42;"), vec!["42".to_string()]);
    assert_eq!(run_lines("print \"hi\";"), vec!["hi".to_string()]);
}

#[test]
fn while_with_nil_condition_runs_zero_times() {
    assert_eq!(run_lines("while nil { }"), Vec::<String>::new());
}

#[test]
fn if_with_nil_condition_skips_its_block() {
    assert_eq!(run_lines("if nil { }"), Vec::<String>::new());
}

#[test]
fn lone_var_declaration_defaults_to_nil() {
    let mut vm = VM::new();
    assert_eq!(vm.run("var a;"), Vec::<String>::new());
    assert_eq!(vm.run("print a;"), vec!["nil".to_string()]);
}
