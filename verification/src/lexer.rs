//! Tokenizer: from raw text to a sequence of tokens.
//!
//! The scanner walks the text left to right. Runs of digits and `.` are
//! gathered greedily into one numeric literal and parsed as an exact decimal
//! rational; the four operator characters, the parentheses and the space are
//! single-character units; anything else is a lexical error naming the
//! character. The mathematical model is `spec_tokenize`; the executable
//! `tokenize` returns exactly what the model says, for every input.

use vstd::prelude::*;
use vstd::string::*;
use crate::error::{Error, LexKind, SpecError};
use crate::rat::{Rat, RatVal};
use crate::token::{all_tokens_wf, lemma_push_wf, spec_token_wf, tok_views, Op, SpecToken, Token};

verus! {

pub open spec fn is_digit(c: char) -> bool {
    48 <= c as int <= 57
}

pub open spec fn is_num_char(c: char) -> bool {
    is_digit(c) || c == '.'
}

pub open spec fn digit_val(c: char) -> int {
    c as int - 48
}

/// End of the maximal run of digit or `.` characters that starts at `i`.
pub open spec fn num_end(s: Seq<char>, i: int) -> int
    decreases s.len() - i,
{
    if i < s.len() && is_num_char(s[i]) {
        num_end(s, i + 1)
    } else {
        i
    }
}

pub proof fn lemma_num_end(s: Seq<char>, i: int)
    requires
        0 <= i <= s.len(),
    ensures
        i <= num_end(s, i) <= s.len(),
        forall|k: int| i <= k < num_end(s, i) ==> is_num_char(s[k]),
        num_end(s, i) == s.len() || !is_num_char(s[num_end(s, i)]),
        i < s.len() && is_num_char(s[i]) ==> num_end(s, i) > i,
    decreases s.len() - i,
{
    if i < s.len() && is_num_char(s[i]) {
        lemma_num_end(s, i + 1);
    }
}

pub proof fn lemma_num_end_unique(s: Seq<char>, i: int, j: int)
    requires
        0 <= i <= j <= s.len(),
        forall|k: int| i <= k < j ==> is_num_char(s[k]),
        j == s.len() || !is_num_char(s[j]),
    ensures
        num_end(s, i) == j,
    decreases j - i,
{
    if i < j {
        assert(is_num_char(s[i]));
        lemma_num_end_unique(s, i + 1, j);
    }
}

/// One scanning step of a numeric literal, mirroring the accumulating parse:
/// `num` is the value of the digits seen so far with the decimal point
/// ignored, `den` the power of ten for the fractional digits seen so far.
pub open spec fn lit_steps(
    lit: Seq<char>,
    j: int,
    num: int,
    den: int,
    seen_dot: bool,
    has_digit: bool,
) -> Result<RatVal, SpecError>
    decreases lit.len() - j,
{
    if j < 0 || j >= lit.len() {
        if has_digit {
            Ok(RatVal { num, den })
        } else {
            Err(SpecError::LexError { kind: LexKind::BadLiteral, text: lit })
        }
    } else if lit[j] == '.' {
        if seen_dot {
            Err(SpecError::LexError { kind: LexKind::BadLiteral, text: lit })
        } else {
            lit_steps(lit, j + 1, num, den, true, has_digit)
        }
    } else {
        let d = digit_val(lit[j]);
        if num > (i64::MAX - d) / 10 {
            Err(SpecError::LexError { kind: LexKind::OutOfRange, text: lit })
        } else if seen_dot && den > i64::MAX / 10 {
            Err(SpecError::LexError { kind: LexKind::OutOfRange, text: lit })
        } else {
            lit_steps(lit, j + 1, num * 10 + d, if seen_dot { den * 10 } else { den }, seen_dot, true)
        }
    }
}

/// Value of a numeric literal: the digits with the point ignored over the
/// power of ten of the fractional places, or a lexical error for a literal
/// with two points, no digits, or a value beyond the machine range.
pub open spec fn spec_parse_literal(lit: Seq<char>) -> Result<RatVal, SpecError> {
    lit_steps(lit, 0, 0, 1, false, false)
}

pub proof fn lemma_lit_steps_wf(
    lit: Seq<char>,
    j: int,
    num: int,
    den: int,
    seen_dot: bool,
    has_digit: bool,
)
    requires
        num >= 0,
        den >= 1,
        forall|k: int| 0 <= k < lit.len() ==> is_num_char(lit[k]),
        lit_steps(lit, j, num, den, seen_dot, has_digit) is Ok,
    ensures
        lit_steps(lit, j, num, den, seen_dot, has_digit) matches Ok(v) ==> v.num >= 0 && v.den >= 1,
    decreases lit.len() - j,
{
    if j < 0 || j >= lit.len() {
    } else if lit[j] == '.' {
        if !seen_dot {
            lemma_lit_steps_wf(lit, j + 1, num, den, true, has_digit);
        }
    } else {
        let d = digit_val(lit[j]);
        if num <= (i64::MAX - d) / 10 && !(seen_dot && den > i64::MAX / 10) {
            lemma_lit_steps_wf(
                lit,
                j + 1,
                num * 10 + d,
                if seen_dot { den * 10 } else { den },
                seen_dot,
                true,
            );
        }
    }
}

/// One scanning step of the tokenizer over the text.
pub open spec fn tok_steps(s: Seq<char>, i: int, acc: Seq<SpecToken>) -> Result<
    Seq<SpecToken>,
    SpecError,
>
    decreases s.len() - i,
{
    if i < 0 || i >= s.len() {
        Ok(acc)
    } else if s[i] == ' ' {
        tok_steps(s, i + 1, acc)
    } else if s[i] == '+' {
        tok_steps(s, i + 1, acc.push(SpecToken::Operator(Op::Add)))
    } else if s[i] == '-' {
        tok_steps(s, i + 1, acc.push(SpecToken::Operator(Op::Sub)))
    } else if s[i] == '*' {
        tok_steps(s, i + 1, acc.push(SpecToken::Operator(Op::Mul)))
    } else if s[i] == '/' {
        tok_steps(s, i + 1, acc.push(SpecToken::Operator(Op::Div)))
    } else if s[i] == '(' {
        tok_steps(s, i + 1, acc.push(SpecToken::LeftParen))
    } else if s[i] == ')' {
        tok_steps(s, i + 1, acc.push(SpecToken::RightParen))
    } else if is_num_char(s[i]) {
        proof {
            lemma_num_end(s, i);
        }
        match spec_parse_literal(s.subrange(i, num_end(s, i))) {
            Ok(v) => tok_steps(s, num_end(s, i), acc.push(SpecToken::Number(v))),
            Err(e) => Err(e),
        }
    } else {
        Err(SpecError::LexError { kind: LexKind::UnknownChar, text: s.subrange(i, i + 1) })
    }
}

/// The tokenizer's mathematical model: the token sequence of the text, or
/// the first lexical error found scanning left to right.
pub open spec fn spec_tokenize(s: Seq<char>) -> Result<Seq<SpecToken>, SpecError> {
    tok_steps(s, 0, Seq::empty())
}

pub proof fn lemma_tok_steps_wf(s: Seq<char>, i: int, acc: Seq<SpecToken>)
    requires
        all_tokens_wf(acc),
        tok_steps(s, i, acc) is Ok,
    ensures
        tok_steps(s, i, acc) matches Ok(out) ==> all_tokens_wf(out),
    decreases s.len() - i,
{
    if i < 0 || i >= s.len() {
    } else if s[i] == ' ' {
        lemma_tok_steps_wf(s, i + 1, acc);
    } else if s[i] == '+' {
        lemma_push_wf(acc, SpecToken::Operator(Op::Add));
        lemma_tok_steps_wf(s, i + 1, acc.push(SpecToken::Operator(Op::Add)));
    } else if s[i] == '-' {
        lemma_push_wf(acc, SpecToken::Operator(Op::Sub));
        lemma_tok_steps_wf(s, i + 1, acc.push(SpecToken::Operator(Op::Sub)));
    } else if s[i] == '*' {
        lemma_push_wf(acc, SpecToken::Operator(Op::Mul));
        lemma_tok_steps_wf(s, i + 1, acc.push(SpecToken::Operator(Op::Mul)));
    } else if s[i] == '/' {
        lemma_push_wf(acc, SpecToken::Operator(Op::Div));
        lemma_tok_steps_wf(s, i + 1, acc.push(SpecToken::Operator(Op::Div)));
    } else if s[i] == '(' {
        lemma_push_wf(acc, SpecToken::LeftParen);
        lemma_tok_steps_wf(s, i + 1, acc.push(SpecToken::LeftParen));
    } else if s[i] == ')' {
        lemma_push_wf(acc, SpecToken::RightParen);
        lemma_tok_steps_wf(s, i + 1, acc.push(SpecToken::RightParen));
    } else if is_num_char(s[i]) {
        lemma_num_end(s, i);
        match spec_parse_literal(s.subrange(i, num_end(s, i))) {
            Ok(v) => {
                assert forall|k: int|
                    0 <= k < s.subrange(i, num_end(s, i)).len() implies is_num_char(
                    #[trigger] s.subrange(i, num_end(s, i))[k],
                ) by {
                    assert(s.subrange(i, num_end(s, i))[k] == s[i + k]);
                }
                lemma_lit_steps_wf(s.subrange(i, num_end(s, i)), 0, 0, 1, false, false);
                lemma_push_wf(acc, SpecToken::Number(v));
                lemma_tok_steps_wf(s, num_end(s, i), acc.push(SpecToken::Number(v)));
            },
            Err(_) => {},
        }
    } else {
    }
}

fn is_num_char_exec(c: char) -> (r: bool)
    ensures
        r == is_num_char(c),
{
    let u = c as u32;
    (48 <= u && u <= 57) || c == '.'
}

/// Parse the numeric literal standing at `expr[start..end]`, a run of digit
/// or `.` characters, into an exact rational.
fn parse_literal(expr: &str, start: usize, end: usize) -> (r: Result<Rat, Error>)
    requires
        start <= end <= expr@.len(),
        forall|k: int| start <= k < end ==> is_num_char(expr@[k]),
    ensures
        ({
            let m = spec_parse_literal(expr@.subrange(start as int, end as int));
            match r {
                Ok(q) => m == Ok::<RatVal, SpecError>(q@) && q.wf(),
                Err(e) => m == Err::<RatVal, SpecError>(e@),
            }
        }),
{
    let ghost lit = expr@.subrange(start as int, end as int);
    let mut num: i64 = 0;
    let mut den: i64 = 1;
    let mut seen_dot = false;
    let mut has_digit = false;
    let mut j = start;
    while j < end
        invariant
            start <= j <= end <= expr@.len(),
            forall|k: int| start <= k < end ==> is_num_char(expr@[k]),
            lit == expr@.subrange(start as int, end as int),
            0 <= num,
            1 <= den,
            spec_parse_literal(lit) == lit_steps(
                lit,
                j - start,
                num as int,
                den as int,
                seen_dot,
                has_digit,
            ),
        decreases end - j,
    {
        let c = expr.get_char(j);
        proof {
            assert(lit[j - start] == expr@[j as int]);
        }
        if c == '.' {
            if seen_dot {
                return Err(
                    Error::LexError {
                        kind: LexKind::BadLiteral,
                        text: String::from_str(expr.substring_char(start, end)),
                    },
                );
            }
            seen_dot = true;
        } else {
            proof {
                assert(is_digit(c));
            }
            let d: i64 = (c as u32) as i64 - 48;
            if num > (i64::MAX - d) / 10 {
                return Err(
                    Error::LexError {
                        kind: LexKind::OutOfRange,
                        text: String::from_str(expr.substring_char(start, end)),
                    },
                );
            }
            if seen_dot && den > i64::MAX / 10 {
                return Err(
                    Error::LexError {
                        kind: LexKind::OutOfRange,
                        text: String::from_str(expr.substring_char(start, end)),
                    },
                );
            }
            num = num * 10 + d;
            if seen_dot {
                den = den * 10;
            }
            has_digit = true;
        }
        j += 1;
    }
    if !has_digit {
        return Err(
            Error::LexError {
                kind: LexKind::BadLiteral,
                text: String::from_str(expr.substring_char(start, end)),
            },
        );
    }
    Ok(Rat { num, den })
}

/// Turn the expression text into its token sequence, scanning left to right,
/// or report the first lexical error. Returns exactly what `spec_tokenize`
/// says of the text; on success every number token is well-formed.
pub fn tokenize(expr: &str) -> (r: Result<Vec<Token>, Error>)
    ensures
        ({
            let m = spec_tokenize(expr@);
            match r {
                Ok(ts) => m == Ok::<Seq<SpecToken>, SpecError>(tok_views(ts@)) && all_tokens_wf(
                    tok_views(ts@),
                ),
                Err(e) => m == Err::<Seq<SpecToken>, SpecError>(e@),
            }
        }),
{
    let n = expr.unicode_len();
    let mut tokens: Vec<Token> = Vec::new();
    proof {
        assert(tok_views(tokens@) =~= Seq::<SpecToken>::empty());
    }
    let mut i: usize = 0;
    while i < n
        invariant
            i <= n == expr@.len(),
            spec_tokenize(expr@) == tok_steps(expr@, i as int, tok_views(tokens@)),
        decreases n - i,
    {
        let ghost pre = tok_views(tokens@);
        let c = expr.get_char(i);
        if c == ' ' {
            i += 1;
        } else if c == '+' {
            tokens.push(Token::Operator(Op::Add));
            proof {
                assert(tok_views(tokens@) =~= pre.push(SpecToken::Operator(Op::Add)));
            }
            i += 1;
        } else if c == '-' {
            tokens.push(Token::Operator(Op::Sub));
            proof {
                assert(tok_views(tokens@) =~= pre.push(SpecToken::Operator(Op::Sub)));
            }
            i += 1;
        } else if c == '*' {
            tokens.push(Token::Operator(Op::Mul));
            proof {
                assert(tok_views(tokens@) =~= pre.push(SpecToken::Operator(Op::Mul)));
            }
            i += 1;
        } else if c == '/' {
            tokens.push(Token::Operator(Op::Div));
            proof {
                assert(tok_views(tokens@) =~= pre.push(SpecToken::Operator(Op::Div)));
            }
            i += 1;
        } else if c == '(' {
            tokens.push(Token::LeftParen);
            proof {
                assert(tok_views(tokens@) =~= pre.push(SpecToken::LeftParen));
            }
            i += 1;
        } else if c == ')' {
            tokens.push(Token::RightParen);
            proof {
                assert(tok_views(tokens@) =~= pre.push(SpecToken::RightParen));
            }
            i += 1;
        } else if is_num_char_exec(c) {
            let start = i;
            let mut j = i;
            while j < n && is_num_char_exec(expr.get_char(j))
                invariant
                    i <= j <= n == expr@.len(),
                    forall|k: int| i <= k < j ==> is_num_char(expr@[k]),
                decreases n - j,
            {
                j += 1;
            }
            proof {
                lemma_num_end_unique(expr@, i as int, j as int);
            }
            match parse_literal(expr, start, j) {
                Ok(q) => {
                    tokens.push(Token::Number(q));
                    proof {
                        assert(tok_views(tokens@) =~= pre.push(SpecToken::Number(q@)));
                    }
                    i = j;
                },
                Err(e) => {
                    return Err(e);
                },
            }
        } else {
            return Err(
                Error::LexError {
                    kind: LexKind::UnknownChar,
                    text: String::from_str(expr.substring_char(i, i + 1)),
                },
            );
        }
    }
    proof {
        lemma_tok_steps_wf(expr@, 0, Seq::empty());
    }
    Ok(tokens)
}

} // verus!
