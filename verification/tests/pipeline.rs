// End-to-end behaviour of the expression pipeline.

use infix_calc::{evaluate_expression, Error, EvalKind, LexKind, Rat};

fn eval_ok(expr: &str) -> Rat {
    match evaluate_expression(expr) {
        Ok(r) => r,
        Err(e) => panic!("expected a value for {:?}, got {:?}", expr, e),
    }
}

fn eval_err(expr: &str) -> Error {
    match evaluate_expression(expr) {
        Ok(r) => panic!("expected an error for {:?}, got {:?}", expr, r),
        Err(e) => e,
    }
}

fn as_f64(r: Rat) -> f64 {
    r.num as f64 / r.den as f64
}

#[test]
fn deterministic_same_input_same_output() {
    let a = evaluate_expression("2+3*4-1");
    let b = evaluate_expression("2+3*4-1");
    assert_eq!(a, b);
    let c = evaluate_expression("5/0");
    let d = evaluate_expression("5/0");
    assert_eq!(c, d);
}

#[test]
fn paren_wrapping_is_a_noop() {
    let plain = eval_ok("1+2");
    let wrapped = eval_ok("(1+2)");
    assert_eq!(plain, wrapped);
    assert_eq!(plain, Rat { num: 3, den: 1 });
}

#[test]
fn multiplication_binds_tighter_than_addition() {
    let r = eval_ok("2+3*4");
    assert!(r.eq_val(Rat { num: 14, den: 1 }));
    assert_eq!(as_f64(r), 14.0);
}

#[test]
fn subtraction_is_left_associative() {
    let r = eval_ok("8-3-2");
    assert!(r.eq_val(Rat { num: 3, den: 1 }));
    assert_eq!(as_f64(r), 3.0);
}

#[test]
fn division_is_left_associative() {
    let r = eval_ok("8/4/2");
    assert!(r.eq_val(Rat { num: 1, den: 1 }));
    assert_eq!(as_f64(r), 1.0);
}

#[test]
fn division_by_zero_is_an_eval_error() {
    let e = eval_err("5/0");
    assert_eq!(e, Error::EvalError { kind: EvalKind::DivisionByZero });
}

#[test]
fn unclosed_parenthesis_is_a_syntax_error() {
    let e = eval_err("(1+2");
    assert_eq!(e, Error::SyntaxError { unclosed: true });
}

#[test]
fn unmatched_closing_parenthesis_is_a_syntax_error() {
    let e = eval_err("1+2)");
    assert_eq!(e, Error::SyntaxError { unclosed: false });
}

#[test]
fn unknown_character_is_a_lex_error_naming_it() {
    let e = eval_err("1+a");
    assert_eq!(e, Error::LexError { kind: LexKind::UnknownChar, text: String::from("a") });
}

#[test]
fn lone_operator_has_insufficient_operands() {
    let e = eval_err("+");
    assert_eq!(e, Error::EvalError { kind: EvalKind::InsufficientOperands });
}

#[test]
fn two_numbers_without_operator_are_invalid() {
    let e = eval_err("1 2");
    assert_eq!(e, Error::EvalError { kind: EvalKind::InvalidExpression });
}

#[test]
fn spaces_are_skipped() {
    let spaced = eval_ok(" 1 + 2 ");
    let tight = eval_ok("1+2");
    assert_eq!(spaced, tight);
    assert_eq!(as_f64(spaced), 3.0);
}

#[test]
fn decimal_literals_add_exactly() {
    let r = eval_ok("1.5+2.5");
    assert_eq!(r, Rat { num: 400, den: 100 });
    assert!(r.eq_val(Rat { num: 4, den: 1 }));
    assert_eq!(as_f64(r), 4.0);
}

#[test]
fn empty_input_is_invalid() {
    let e = eval_err("");
    assert_eq!(e, Error::EvalError { kind: EvalKind::InvalidExpression });
}

#[test]
fn division_result_is_an_exact_fraction() {
    let r = eval_ok("1/3");
    assert_eq!(r, Rat { num: 1, den: 3 });
}

#[test]
fn division_by_a_negative_difference() {
    let r = eval_ok("6/(1-3)");
    assert_eq!(r, Rat { num: -6, den: 2 });
    assert!(r.eq_val(Rat { num: -3, den: 1 }));
    assert_eq!(as_f64(r), -3.0);
}

#[test]
fn nested_parentheses_group_first() {
    let r = eval_ok("(2+3)*4");
    assert!(r.eq_val(Rat { num: 20, den: 1 }));
}

#[test]
fn tab_is_not_whitespace() {
    let e = eval_err("1\t+2");
    assert_eq!(e, Error::LexError { kind: LexKind::UnknownChar, text: String::from("\t") });
}

#[test]
fn multi_digit_literals() {
    let r = eval_ok("10+20");
    assert_eq!(r, Rat { num: 30, den: 1 });
}

#[test]
fn deeply_nested_parentheses() {
    let r = eval_ok("((((1))))");
    assert_eq!(r, Rat { num: 1, den: 1 });
}

#[test]
fn parentheses_override_precedence() {
    let r = eval_ok("2*(3+4)");
    assert!(r.eq_val(Rat { num: 14, den: 1 }));
}

#[test]
fn blank_input_is_invalid() {
    let e = eval_err("   ");
    assert_eq!(e, Error::EvalError { kind: EvalKind::InvalidExpression });
}

#[test]
fn empty_parentheses_are_invalid() {
    let e = eval_err("()");
    assert_eq!(e, Error::EvalError { kind: EvalKind::InvalidExpression });
}

#[test]
fn sum_beyond_the_machine_range_overflows() {
    let e = eval_err("9223372036854775807+1");
    assert_eq!(e, Error::EvalError { kind: EvalKind::Overflow });
}

#[test]
fn literal_beyond_the_machine_range_is_rejected() {
    let e = eval_err("99999999999999999999");
    assert_eq!(
        e,
        Error::LexError { kind: LexKind::OutOfRange, text: String::from("99999999999999999999") }
    );
}

#[test]
fn fraction_scale_beyond_the_machine_range_is_rejected() {
    let e = eval_err("0.0000000000000000001");
    assert_eq!(
        e,
        Error::LexError { kind: LexKind::OutOfRange, text: String::from("0.0000000000000000001") }
    );
}
