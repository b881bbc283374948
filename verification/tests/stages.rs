// The three stages taken one at a time, and the rational arithmetic.

use infix_calc::{
    evaluate_rpn, precedence, to_rpn, tokenize, Error, EvalKind, LexKind, Op, Rat, Token,
};

fn num(n: i64, d: i64) -> Token {
    Token::Number(Rat { num: n, den: d })
}

#[test]
fn tokenize_mixed_expression() {
    let ts = tokenize("2+3*(4-1)").unwrap();
    assert_eq!(
        ts,
        vec![
            num(2, 1),
            Token::Operator(Op::Add),
            num(3, 1),
            Token::Operator(Op::Mul),
            Token::LeftParen,
            num(4, 1),
            Token::Operator(Op::Sub),
            num(1, 1),
            Token::RightParen,
        ]
    );
}

#[test]
fn tokenize_decimal_literal() {
    let ts = tokenize("1.25").unwrap();
    assert_eq!(ts, vec![num(125, 100)]);
}

#[test]
fn tokenize_literal_with_leading_dot() {
    let ts = tokenize(".5").unwrap();
    assert_eq!(ts, vec![num(5, 10)]);
}

#[test]
fn tokenize_literal_with_trailing_dot() {
    let ts = tokenize("5.").unwrap();
    assert_eq!(ts, vec![num(5, 1)]);
}

#[test]
fn tokenize_rejects_two_decimal_points() {
    let e = tokenize("1.2.3").unwrap_err();
    assert_eq!(e, Error::LexError { kind: LexKind::BadLiteral, text: String::from("1.2.3") });
}

#[test]
fn tokenize_rejects_a_lone_dot() {
    let e = tokenize(".").unwrap_err();
    assert_eq!(e, Error::LexError { kind: LexKind::BadLiteral, text: String::from(".") });
}

#[test]
fn tokenize_names_the_unknown_character() {
    let e = tokenize("7%2").unwrap_err();
    assert_eq!(e, Error::LexError { kind: LexKind::UnknownChar, text: String::from("%") });
}

#[test]
fn precedence_ranks_operators() {
    assert_eq!(precedence(Op::Add), 1);
    assert_eq!(precedence(Op::Sub), 1);
    assert_eq!(precedence(Op::Mul), 2);
    assert_eq!(precedence(Op::Div), 2);
}

#[test]
fn to_rpn_orders_by_precedence() {
    let ts = tokenize("2+3*4").unwrap();
    let rpn = to_rpn(ts).unwrap();
    assert_eq!(
        rpn,
        vec![num(2, 1), num(3, 1), num(4, 1), Token::Operator(Op::Mul), Token::Operator(Op::Add)]
    );
}

#[test]
fn to_rpn_pops_equal_precedence_left_to_right() {
    let ts = tokenize("8-3-2").unwrap();
    let rpn = to_rpn(ts).unwrap();
    assert_eq!(
        rpn,
        vec![num(8, 1), num(3, 1), Token::Operator(Op::Sub), num(2, 1), Token::Operator(Op::Sub)]
    );
}

#[test]
fn to_rpn_discards_parentheses() {
    let ts = tokenize("(1+2)").unwrap();
    let rpn = to_rpn(ts).unwrap();
    assert_eq!(rpn, vec![num(1, 1), num(2, 1), Token::Operator(Op::Add)]);
}

#[test]
fn to_rpn_reports_unclosed_parenthesis() {
    let ts = tokenize("(1+2").unwrap();
    let e = to_rpn(ts).unwrap_err();
    assert_eq!(e, Error::SyntaxError { unclosed: true });
}

#[test]
fn to_rpn_reports_unmatched_close() {
    let ts = tokenize("1+2)").unwrap();
    let e = to_rpn(ts).unwrap_err();
    assert_eq!(e, Error::SyntaxError { unclosed: false });
}

#[test]
fn evaluate_rpn_applies_operands_in_order() {
    let rpn = vec![num(8, 1), num(3, 1), Token::Operator(Op::Sub)];
    let r = evaluate_rpn(&rpn).unwrap();
    assert_eq!(r, Rat { num: 5, den: 1 });
}

#[test]
fn evaluate_rpn_rejects_a_stray_parenthesis() {
    let rpn = vec![Token::LeftParen];
    let e = evaluate_rpn(&rpn).unwrap_err();
    assert_eq!(e, Error::EvalError { kind: EvalKind::InvalidToken });
}

#[test]
fn evaluate_rpn_rejects_an_empty_sequence() {
    let rpn: Vec<Token> = vec![];
    let e = evaluate_rpn(&rpn).unwrap_err();
    assert_eq!(e, Error::EvalError { kind: EvalKind::InvalidExpression });
}

#[test]
fn evaluate_rpn_needs_two_operands() {
    let rpn = vec![num(1, 1), Token::Operator(Op::Add)];
    let e = evaluate_rpn(&rpn).unwrap_err();
    assert_eq!(e, Error::EvalError { kind: EvalKind::InsufficientOperands });
}

#[test]
fn rat_equality_is_cross_multiplication() {
    assert!(Rat { num: 1, den: 2 }.eq_val(Rat { num: 2, den: 4 }));
    assert!(!Rat { num: 1, den: 2 }.eq_val(Rat { num: 1, den: 3 }));
    assert!(Rat { num: 0, den: 7 }.eq_val(Rat { num: 0, den: 1 }));
}

#[test]
fn rat_from_int_is_a_whole_number() {
    let r = Rat::from_int(9);
    assert_eq!(r, Rat { num: 9, den: 1 });
}
