//! Errors of the three pipeline stages.
//!
//! Each stage owns one error kind: the tokenizer reports lexical errors with
//! the offending text, the infix-to-postfix converter reports parenthesis
//! imbalance, and the postfix evaluator reports arithmetic and structural
//! problems. The pipeline stops at the first error.

use vstd::prelude::*;

verus! {

/// What went wrong while scanning a lexical unit.
#[derive(Debug, Clone, Copy, PartialEq, Eq, Structural)]
pub enum LexKind {
    /// A character outside the grammar: not a digit, `.`, operator,
    /// parenthesis or space.
    UnknownChar,
    /// A numeric literal that is not a number, such as one with two decimal
    /// points or a lone `.`.
    BadLiteral,
    /// A numeric literal whose value or decimal scale exceeds the machine
    /// range of the evaluator.
    OutOfRange,
}

/// What went wrong while evaluating the postfix sequence.
#[derive(Debug, Clone, Copy, PartialEq, Eq, Structural)]
pub enum EvalKind {
    /// An operator arrived with fewer than two values on the stack.
    InsufficientOperands,
    /// The right operand of `/` was zero.
    DivisionByZero,
    /// A parenthesis token appeared in postfix position; the converter never
    /// emits one.
    InvalidToken,
    /// After all tokens, the value stack did not hold exactly one value.
    InvalidExpression,
    /// An intermediate result left the machine range of the evaluator.
    Overflow,
}

/// An error of the evaluation pipeline, tagged by the stage that found it.
#[derive(Debug, Clone, PartialEq, Eq)]
pub enum Error {
    /// The tokenizer rejected the input; `text` is the offending character or
    /// literal.
    LexError { kind: LexKind, text: String },
    /// The converter found unbalanced parentheses: `unclosed` is true for a
    /// `(` never closed, false for a `)` with no matching `(`.
    SyntaxError { unclosed: bool },
    /// The evaluator rejected the postfix sequence or its arithmetic.
    EvalError { kind: EvalKind },
}

/// Mathematical counterpart of [`Error`]: text as a character sequence.
pub enum SpecError {
    LexError { kind: LexKind, text: Seq<char> },
    SyntaxError { unclosed: bool },
    EvalError { kind: EvalKind },
}

impl View for Error {
    type V = SpecError;

    open spec fn view(&self) -> SpecError {
        match self {
            Error::LexError { kind, text } => SpecError::LexError { kind: *kind, text: text@ },
            Error::SyntaxError { unclosed } => SpecError::SyntaxError { unclosed: *unclosed },
            Error::EvalError { kind } => SpecError::EvalError { kind: *kind },
        }
    }
}

} // verus!
