//! Verified evaluator for infix arithmetic expressions.
//!
//! The pipeline has three stages: a tokenizer turning text into tokens, a
//! shunting-yard conversion from infix to postfix (reverse Polish) order, and
//! a stack-based postfix evaluator. Numbers are exact rationals held as an
//! `i64` numerator and positive `i64` denominator; every stage is specified
//! against a mathematical model of the same pipeline over unbounded integers,
//! and inputs or intermediate values that exceed the machine range are
//! reported as range errors rather than silently misbehaving.

mod error;
mod eval;
mod laws;
mod lexer;
mod rat;
mod rpn;
mod token;

pub use error::{Error, EvalKind, LexKind, SpecError};
pub use eval::{rat_vals, spec_apply, eval_steps, spec_eval_rpn, evaluate_rpn, spec_evaluate, evaluate_expression, lemma_division_by_zero, lemma_evaluate_deterministic};
pub use laws::{lemma_outer_spaces_noop, lemma_paren_noop, lemma_space_insert_noop, lemma_to_rpn_paren_wrap};
pub use lexer::{is_digit, is_num_char, digit_val, num_end, lit_steps, spec_parse_literal, tok_steps, spec_tokenize, tokenize};
pub use rat::{fits_i64, rat_add, rat_div, rat_fits, rat_mul, rat_sub, Rat, RatVal};
pub use rpn::{drain_ops, drain_until_lparen, final_drain, rpn_steps, spec_to_rpn, to_rpn};
pub use token::{precedence, spec_prec, tok_views, Op, SpecToken, Token};
