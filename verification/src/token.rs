//! Lexical tokens of an arithmetic expression, and operator precedence.

use vstd::prelude::*;
use crate::rat::{Rat, RatVal};

verus! {

/// One of the four arithmetic operators.
#[derive(Debug, Clone, Copy, PartialEq, Eq, Structural)]
pub enum Op {
    Add,
    Sub,
    Mul,
    Div,
}

/// One lexical unit of an expression: a numeric literal, an operator, or a
/// grouping parenthesis.
#[derive(Debug, Clone, Copy, PartialEq, Eq, Structural)]
pub enum Token {
    Number(Rat),
    Operator(Op),
    LeftParen,
    RightParen,
}

/// Mathematical counterpart of [`Token`]: numbers carry their unbounded
/// rational value.
pub enum SpecToken {
    Number(RatVal),
    Operator(Op),
    LeftParen,
    RightParen,
}

impl View for Token {
    type V = SpecToken;

    open spec fn view(&self) -> SpecToken {
        match self {
            Token::Number(r) => SpecToken::Number(r@),
            Token::Operator(op) => SpecToken::Operator(*op),
            Token::LeftParen => SpecToken::LeftParen,
            Token::RightParen => SpecToken::RightParen,
        }
    }
}

/// The views of a sequence of executable tokens.
pub open spec fn tok_views(ts: Seq<Token>) -> Seq<SpecToken> {
    ts.map_values(|t: Token| t@)
}

/// A number token whose denominator is positive, as the tokenizer produces.
pub open spec fn spec_token_wf(t: SpecToken) -> bool {
    t matches SpecToken::Number(v) ==> v.den >= 1
}

pub open spec fn all_tokens_wf(ts: Seq<SpecToken>) -> bool {
    forall|k: int| 0 <= k < ts.len() ==> spec_token_wf(#[trigger] ts[k])
}

pub proof fn lemma_push_wf(acc: Seq<SpecToken>, t: SpecToken)
    requires
        all_tokens_wf(acc),
        spec_token_wf(t),
    ensures
        all_tokens_wf(acc.push(t)),
{
    assert forall|k: int| 0 <= k < acc.push(t).len() implies spec_token_wf(#[trigger] acc.push(t)[k]) by {
        if k < acc.len() {
            assert(acc.push(t)[k] == acc[k]);
        }
    }
}

pub proof fn lemma_drop_last_wf(s: Seq<SpecToken>)
    requires
        s.len() > 0,
        all_tokens_wf(s),
    ensures
        all_tokens_wf(s.drop_last()),
        spec_token_wf(s.last()),
{
    assert(spec_token_wf(s[s.len() - 1]));
    assert forall|k: int| 0 <= k < s.drop_last().len() implies spec_token_wf(
        #[trigger] s.drop_last()[k],
    ) by {
        assert(s.drop_last()[k] == s[k]);
    }
}

pub proof fn lemma_concat_wf(a: Seq<SpecToken>, b: Seq<SpecToken>)
    requires
        all_tokens_wf(a),
        all_tokens_wf(b),
    ensures
        all_tokens_wf(a + b),
{
    assert forall|k: int| 0 <= k < (a + b).len() implies spec_token_wf(#[trigger] (a + b)[k]) by {
        if k < a.len() {
            assert((a + b)[k] == a[k]);
        } else {
            assert((a + b)[k] == b[k - a.len()]);
        }
    }
}

/// Binding strength of an operator: additive operators rank 1, multiplicative
/// operators rank 2; a higher rank binds tighter. All four operators are
/// left-associative.
pub open spec fn spec_prec(op: Op) -> int {
    match op {
        Op::Add => 1,
        Op::Sub => 1,
        Op::Mul => 2,
        Op::Div => 2,
    }
}

/// Executable operator precedence.
pub fn precedence(op: Op) -> (r: u8)
    ensures
        r as int == spec_prec(op),
{
    match op {
        Op::Add => 1,
        Op::Sub => 1,
        Op::Mul => 2,
        Op::Div => 2,
    }
}

} // verus!
