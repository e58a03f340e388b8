use jitcalc::errors::CalcError;
use jitcalc::parser::Calculator;

fn run(line: &str) -> Result<i64, CalcError> {
    let mut calc = Calculator::new();
    calc.run(line)
}

#[test]
fn precedence_mul_before_add() {
    assert_eq!(run("2 + 3 * 4").unwrap(), 14);
}

#[test]
fn parens_override_precedence() {
    assert_eq!(run("(2 + 3) * 4").unwrap(), 20);
}

#[test]
fn division_truncates() {
    assert_eq!(run("10 / 3").unwrap(), 3);
}

#[test]
fn static_division_by_zero_fails() {
    let e = run("5 / 0").unwrap_err();
    assert!(matches!(e, CalcError::DivisionByZero));
    assert_eq!(e.message(), "ZeroDivisionError: division by zero");
}

#[test]
fn static_division_by_parenthesized_literal_zero_fails() {
    let e = run("5 / (0)").unwrap_err();
    assert!(matches!(e, CalcError::DivisionByZero));
}

#[test]
fn dangling_operator_is_unexpected_end() {
    let e = run("2 +").unwrap_err();
    assert!(matches!(e, CalcError::UnexpectedEnd));
    assert_eq!(e.message(), "SyntaxError: unexpected end of expression");
}

#[test]
fn caret_is_invalid_character() {
    // After a complete expression the caret is reported as an invalid
    // trailing character; both kinds are syntax errors naming the caret.
    let e = run("2 ^ 3").unwrap_err();
    assert!(matches!(e, CalcError::InvalidTrailingChar('^')));
    assert_eq!(e.message(), "SyntaxError: invalid trailing character '^'");
}

#[test]
fn caret_in_factor_position_is_invalid_character() {
    let e = run("2 + ^ 3").unwrap_err();
    assert!(matches!(e, CalcError::InvalidCharacter('^')));
    assert_eq!(
        e.message(),
        "SyntaxError: invalid character '^' (only 0-9, +, -, *, /, () are allowed)"
    );
}

#[test]
fn left_associative_subtraction() {
    assert_eq!(run("2 - 3 - 4").unwrap(), -5);
    assert_eq!(run("100 - 10 * 5").unwrap(), 50);
}

#[test]
fn left_associative_division_chain() {
    assert_eq!(run("7 / 2 * 2").unwrap(), 6);
    assert_eq!(run("100 / 10 / 5").unwrap(), 2);
}

#[test]
fn whitespace_runs_do_not_change_results() {
    assert_eq!(run("2+3*4").unwrap(), 14);
    assert_eq!(run(" 2 \t+  3\u{a0}*\n 4  ").unwrap(), 14);
    assert_eq!(run("(  2+ 3 )   *4").unwrap(), 20);
    assert_eq!(run("10/ 3").unwrap(), 3);
}

#[test]
fn largest_literal_is_accepted() {
    assert_eq!(run("9223372036854775807").unwrap(), i64::MAX);
}

#[test]
fn literal_one_past_max_is_value_error_not_wraparound() {
    let e = run("9223372036854775808").unwrap_err();
    match e {
        CalcError::InvalidLiteral(s) => assert_eq!(s, "9223372036854775808"),
        _ => panic!("expected a value error"),
    }
}

#[test]
fn huge_literal_is_value_error() {
    let e = run("99999999999999999999999999").unwrap_err();
    match &e {
        CalcError::InvalidLiteral(s) => assert_eq!(s, "99999999999999999999999999"),
        _ => panic!("expected a value error"),
    }
    assert_eq!(
        e.message(),
        "ValueError: invalid literal for int() with base 10: '99999999999999999999999999'"
    );
}

#[test]
fn leading_zeros_are_fine() {
    assert_eq!(run("007 + 001").unwrap(), 8);
}

#[test]
fn deep_parenthesis_nesting() {
    let depth: usize = 300;
    let mut line = String::new();
    for _ in 0..depth {
        line.push('(');
    }
    line.push_str("6 * 7");
    for _ in 0..depth {
        line.push(')');
    }
    assert_eq!(run(&line).unwrap(), 42);
}

#[test]
fn unmatched_open_paren_is_missing_close() {
    let e = run("(1 + 2").unwrap_err();
    assert!(matches!(e, CalcError::MissingClosingParen));
    assert_eq!(e.message(), "SyntaxError: missing closing parenthesis ')'");
}

#[test]
fn bare_close_paren_is_invalid_character() {
    let e = run(")").unwrap_err();
    assert!(matches!(e, CalcError::InvalidCharacter(')')));
}

#[test]
fn extra_close_paren_is_incomplete_expression() {
    let e = run("(1))").unwrap_err();
    assert!(matches!(e, CalcError::IncompleteExpression(')')));
    assert_eq!(
        e.message(),
        "SyntaxError: incomplete expression, trailing character ')'"
    );
}

#[test]
fn trailing_number_is_incomplete_expression() {
    let e = run("2 3").unwrap_err();
    assert!(matches!(e, CalcError::IncompleteExpression('3')));
}

#[test]
fn trailing_garbage_is_invalid_trailing_character() {
    let e = run("2 $").unwrap_err();
    assert!(matches!(e, CalcError::InvalidTrailingChar('$')));
    assert_eq!(e.message(), "SyntaxError: invalid trailing character '$'");
}

#[test]
fn dynamic_zero_divisor_is_a_runtime_error_not_static() {
    // The static check sees literal zeros alone: a zero produced by a
    // sub-expression compiles, and the failure surfaces only when the
    // compiled function runs. This gap is intentional and kept.
    let e = run("5 / (2 - 2)").unwrap_err();
    assert!(matches!(e, CalcError::RuntimeDivisionByZero));
}

#[test]
fn division_is_unsigned_on_bit_patterns() {
    // -5 read as an unsigned bit pattern is 2^64 - 5; dividing by 2 gives
    // (2^64 - 5) / 2, whose bit pattern reads back as a positive value.
    assert_eq!(run("(0 - 5) / 2").unwrap(), 9223372036854775805);
    // A negative divisor reads as a huge unsigned value, so the quotient is 0.
    assert_eq!(run("10 / (0 - 2)").unwrap(), 0);
}

#[test]
fn subtraction_goes_negative() {
    assert_eq!(run("0 - 5").unwrap(), -5);
    assert_eq!(run("3 - 10").unwrap(), -7);
}

#[test]
fn addition_wraps_in_64_bits() {
    assert_eq!(run("9223372036854775807 + 1").unwrap(), i64::MIN);
}

#[test]
fn multiplication_wraps_in_64_bits() {
    assert_eq!(
        run("4611686018427387904 * 2").unwrap(),
        i64::MIN
    );
}

#[test]
fn counter_isolation_between_lines() {
    let mut calc = Calculator::new();
    assert_eq!(calc.run("1+1").unwrap(), 2);
    assert_eq!(calc.run("2+2").unwrap(), 4);
    assert!(calc.run("2 +").is_err());
    assert_eq!(calc.run("(1 + 2) * (3 + 4)").unwrap(), 21);
}

#[test]
fn empty_and_blank_lines_are_unexpected_end() {
    assert!(matches!(run("").unwrap_err(), CalcError::UnexpectedEnd));
    assert!(matches!(run("   \t ").unwrap_err(), CalcError::UnexpectedEnd));
}

#[test]
fn single_literal_runs() {
    assert_eq!(run("42").unwrap(), 42);
    assert_eq!(run(" 0 ").unwrap(), 0);
}

#[test]
fn compile_then_verify_then_execute() {
    let mut calc = Calculator::new();
    let f = calc.compile("1 + 2 * 3").unwrap();
    assert!(jitcalc::ir::verify_function(&f));
    assert_eq!(jitcalc::ir::execute(&f).unwrap(), 7);
}

#[test]
fn compiled_function_labels_are_distinct() {
    let mut calc = Calculator::new();
    let f = calc.compile("1 + 2 * 3 - 4 / 2 + (5 - 1)").unwrap();
    let mut names: Vec<String> = Vec::new();
    for node in f.nodes.iter() {
        if let jitcalc::ir::Node::Bin(b) = node {
            assert!(!names.contains(&b.name));
            names.push(b.name.clone());
        }
    }
    assert!(names.len() >= 4);
}

#[test]
fn reset_starts_a_clean_compilation() {
    let mut calc = Calculator::new();
    assert_eq!(calc.run("6 * 7").unwrap(), 42);
    calc.reset();
    assert_eq!(calc.run("6 * 7").unwrap(), 42);
}

#[test]
fn runtime_division_error_message() {
    let e = run("1 / (3 - 3)").unwrap_err();
    assert_eq!(
        e.message(),
        "RuntimeError: division by zero when the compiled function ran"
    );
}

#[test]
fn is_valid_char_accepts_grammar_alphabet() {
    assert!(jitcalc::is_valid_char('0'));
    assert!(jitcalc::is_valid_char('9'));
    assert!(jitcalc::is_valid_char('+'));
    assert!(jitcalc::is_valid_char('-'));
    assert!(jitcalc::is_valid_char('*'));
    assert!(jitcalc::is_valid_char('/'));
    assert!(jitcalc::is_valid_char('('));
    assert!(jitcalc::is_valid_char(')'));
    assert!(!jitcalc::is_valid_char('^'));
    assert!(!jitcalc::is_valid_char(' '));
    assert!(!jitcalc::is_valid_char('a'));
}

#[test]
fn skip_whitespace_stops_at_content() {
    let mut cur = jitcalc::cursor::Cursor::new("   \t 7 + 1");
    jitcalc::cursor::skip_whitespace(&mut cur);
    assert_eq!(cur.peek(), Some('7'));
    let mut cur2 = jitcalc::cursor::Cursor::new("   ");
    jitcalc::cursor::skip_whitespace(&mut cur2);
    assert_eq!(cur2.peek(), None);
}

#[test]
fn capitalize_first_uppercases_only_the_head() {
    assert_eq!(jitcalc::text::capitalize_first("hello"), "Hello");
    assert_eq!(jitcalc::text::capitalize_first(""), "");
    assert_eq!(jitcalc::text::capitalize_first("zebra calc"), "Zebra calc");
    assert_eq!(jitcalc::text::capitalize_first("123"), "123");
    assert_eq!(jitcalc::text::capitalize_first("Already"), "Already");
}
