//! Infix-to-postfix conversion by the shunting-yard algorithm.
//!
//! Tokens are processed left to right against an auxiliary operator stack.
//! Numbers go straight to the output; an incoming operator first pops every
//! stacked operator of greater or equal precedence (equal pops, which makes
//! all operators left-associative); `(` is pushed unconditionally; `)` pops
//! operators to the output until the matching `(`, which is discarded. At the
//! end the stack is flushed to the output, and a surviving `(` means the
//! parentheses were never closed. The mathematical model is `spec_to_rpn`;
//! the executable `to_rpn` returns exactly what the model says.

use vstd::prelude::*;
use crate::error::{Error, SpecError};
use crate::token::{
    all_tokens_wf, lemma_concat_wf, lemma_drop_last_wf, lemma_push_wf, precedence, spec_prec,
    spec_token_wf, tok_views, Op, SpecToken, Token,
};

verus! {

/// Pop every stacked operator whose precedence is at least that of `op`:
/// returns the popped tokens, top first, and the remaining stack.
pub open spec fn drain_ops(stack: Seq<SpecToken>, op: Op) -> (Seq<SpecToken>, Seq<SpecToken>)
    decreases stack.len(),
{
    if stack.len() > 0 && (stack.last() matches SpecToken::Operator(top) && spec_prec(top)
        >= spec_prec(op)) {
        let r = drain_ops(stack.drop_last(), op);
        (seq![stack.last()] + r.0, r.1)
    } else {
        (Seq::empty(), stack)
    }
}

/// Pop to the output until a `(` is popped and discarded: returns the popped
/// tokens, top first, and the remaining stack, or the mismatched-close error
/// when the stack empties first.
pub open spec fn drain_until_lparen(stack: Seq<SpecToken>) -> Result<
    (Seq<SpecToken>, Seq<SpecToken>),
    SpecError,
>
    decreases stack.len(),
{
    if stack.len() == 0 {
        Err(SpecError::SyntaxError { unclosed: false })
    } else if stack.last() is LeftParen {
        Ok((Seq::empty(), stack.drop_last()))
    } else {
        match drain_until_lparen(stack.drop_last()) {
            Ok(p) => Ok((seq![stack.last()] + p.0, p.1)),
            Err(e) => Err(e),
        }
    }
}

/// Flush the whole stack to the output at end of input; a `(` still on the
/// stack is the unclosed-parenthesis error.
pub open spec fn final_drain(stack: Seq<SpecToken>) -> Result<Seq<SpecToken>, SpecError>
    decreases stack.len(),
{
    if stack.len() == 0 {
        Ok(Seq::empty())
    } else if stack.last() is LeftParen {
        Err(SpecError::SyntaxError { unclosed: true })
    } else {
        match final_drain(stack.drop_last()) {
            Ok(r) => Ok(seq![stack.last()] + r),
            Err(e) => Err(e),
        }
    }
}

/// One step of the shunting-yard run: `out` is the output emitted so far,
/// `stack` the operator stack.
pub open spec fn rpn_steps(
    toks: Seq<SpecToken>,
    i: int,
    out: Seq<SpecToken>,
    stack: Seq<SpecToken>,
) -> Result<Seq<SpecToken>, SpecError>
    decreases toks.len() - i,
{
    if i < 0 || i >= toks.len() {
        match final_drain(stack) {
            Ok(r) => Ok(out + r),
            Err(e) => Err(e),
        }
    } else {
        match toks[i] {
            SpecToken::Number(v) => rpn_steps(toks, i + 1, out.push(SpecToken::Number(v)), stack),
            SpecToken::Operator(op) => {
                let p = drain_ops(stack, op);
                rpn_steps(toks, i + 1, out + p.0, p.1.push(SpecToken::Operator(op)))
            },
            SpecToken::LeftParen => rpn_steps(toks, i + 1, out, stack.push(SpecToken::LeftParen)),
            SpecToken::RightParen => match drain_until_lparen(stack) {
                Ok(p) => rpn_steps(toks, i + 1, out + p.0, p.1),
                Err(e) => Err(e),
            },
        }
    }
}

/// The converter's mathematical model: the postfix ordering of the tokens,
/// or the parenthesis-imbalance error.
pub open spec fn spec_to_rpn(toks: Seq<SpecToken>) -> Result<Seq<SpecToken>, SpecError> {
    rpn_steps(toks, 0, Seq::empty(), Seq::empty())
}

proof fn lemma_drain_ops_wf(stack: Seq<SpecToken>, op: Op)
    requires
        all_tokens_wf(stack),
    ensures
        all_tokens_wf(drain_ops(stack, op).0),
        all_tokens_wf(drain_ops(stack, op).1),
    decreases stack.len(),
{
    if stack.len() > 0 && (stack.last() matches SpecToken::Operator(top) && spec_prec(top)
        >= spec_prec(op)) {
        lemma_drop_last_wf(stack);
        lemma_drain_ops_wf(stack.drop_last(), op);
        lemma_push_wf(Seq::empty(), stack.last());
        assert(seq![stack.last()] =~= Seq::empty().push(stack.last()));
        lemma_concat_wf(seq![stack.last()], drain_ops(stack.drop_last(), op).0);
    }
}

proof fn lemma_drain_until_lparen_wf(stack: Seq<SpecToken>)
    requires
        all_tokens_wf(stack),
        drain_until_lparen(stack) is Ok,
    ensures
        drain_until_lparen(stack) matches Ok(p) ==> all_tokens_wf(p.0) && all_tokens_wf(p.1),
    decreases stack.len(),
{
    if stack.len() == 0 {
    } else if stack.last() is LeftParen {
        lemma_drop_last_wf(stack);
    } else {
        lemma_drop_last_wf(stack);
        lemma_drain_until_lparen_wf(stack.drop_last());
        match drain_until_lparen(stack.drop_last()) {
            Ok(p) => {
                lemma_push_wf(Seq::empty(), stack.last());
                assert(seq![stack.last()] =~= Seq::empty().push(stack.last()));
                lemma_concat_wf(seq![stack.last()], p.0);
            },
            Err(_) => {},
        }
    }
}

proof fn lemma_final_drain_wf(stack: Seq<SpecToken>)
    requires
        all_tokens_wf(stack),
        final_drain(stack) is Ok,
    ensures
        final_drain(stack) matches Ok(r) ==> all_tokens_wf(r),
    decreases stack.len(),
{
    if stack.len() == 0 {
    } else if stack.last() is LeftParen {
    } else {
        lemma_drop_last_wf(stack);
        lemma_final_drain_wf(stack.drop_last());
        match final_drain(stack.drop_last()) {
            Ok(r) => {
                lemma_push_wf(Seq::empty(), stack.last());
                assert(seq![stack.last()] =~= Seq::empty().push(stack.last()));
                lemma_concat_wf(seq![stack.last()], r);
            },
            Err(_) => {},
        }
    }
}

pub proof fn lemma_rpn_steps_wf(
    toks: Seq<SpecToken>,
    i: int,
    out: Seq<SpecToken>,
    stack: Seq<SpecToken>,
)
    requires
        all_tokens_wf(toks),
        all_tokens_wf(out),
        all_tokens_wf(stack),
        rpn_steps(toks, i, out, stack) is Ok,
    ensures
        rpn_steps(toks, i, out, stack) matches Ok(o) ==> all_tokens_wf(o),
    decreases toks.len() - i,
{
    if i < 0 || i >= toks.len() {
        match final_drain(stack) {
            Ok(r) => {
                lemma_final_drain_wf(stack);
                lemma_concat_wf(out, r);
            },
            Err(_) => {},
        }
    } else {
        assert(spec_token_wf(toks[i]));
        match toks[i] {
            SpecToken::Number(v) => {
                lemma_push_wf(out, SpecToken::Number(v));
                lemma_rpn_steps_wf(toks, i + 1, out.push(SpecToken::Number(v)), stack);
            },
            SpecToken::Operator(op) => {
                let p = drain_ops(stack, op);
                lemma_drain_ops_wf(stack, op);
                lemma_concat_wf(out, p.0);
                lemma_push_wf(p.1, SpecToken::Operator(op));
                lemma_rpn_steps_wf(toks, i + 1, out + p.0, p.1.push(SpecToken::Operator(op)));
            },
            SpecToken::LeftParen => {
                lemma_push_wf(stack, SpecToken::LeftParen);
                lemma_rpn_steps_wf(toks, i + 1, out, stack.push(SpecToken::LeftParen));
            },
            SpecToken::RightParen => {
                match drain_until_lparen(stack) {
                    Ok(p) => {
                        lemma_drain_until_lparen_wf(stack);
                        lemma_concat_wf(out, p.0);
                        lemma_rpn_steps_wf(toks, i + 1, out + p.0, p.1);
                    },
                    Err(_) => {},
                }
            },
        }
    }
}

/// Reorder the token sequence into postfix (reverse Polish) order, or report
/// a parenthesis imbalance. Returns exactly what `spec_to_rpn` says of the
/// token views; well-formed numbers stay well-formed.
pub fn to_rpn(tokens: Vec<Token>) -> (r: Result<Vec<Token>, Error>)
    ensures
        ({
            let m = spec_to_rpn(tok_views(tokens@));
            match r {
                Ok(out) => m == Ok::<Seq<SpecToken>, SpecError>(tok_views(out@)) && (all_tokens_wf(
                    tok_views(tokens@),
                ) ==> all_tokens_wf(tok_views(out@))),
                Err(e) => m == Err::<Seq<SpecToken>, SpecError>(e@),
            }
        }),
{
    let ghost t = tok_views(tokens@);
    let mut output: Vec<Token> = Vec::new();
    let mut operators: Vec<Token> = Vec::new();
    proof {
        assert(tok_views(output@) =~= Seq::<SpecToken>::empty());
        assert(tok_views(operators@) =~= Seq::<SpecToken>::empty());
    }
    let mut i: usize = 0;
    while i < tokens.len()
        invariant
            i <= tokens@.len(),
            t == tok_views(tokens@),
            spec_to_rpn(t) == rpn_steps(t, i as int, tok_views(output@), tok_views(operators@)),
        decreases tokens@.len() - i,
    {
        let tok = tokens[i];
        proof {
            assert(t[i as int] == tok@);
        }
        match tok {
            Token::Number(_) => {
                let ghost pre = tok_views(output@);
                output.push(tok);
                proof {
                    assert(tok_views(output@) =~= pre.push(tok@));
                }
                i += 1;
            },
            Token::Operator(op) => {
                let ghost out0 = tok_views(output@);
                let ghost st0 = tok_views(operators@);
                loop
                    invariant
                        out0 + drain_ops(st0, op).0 == tok_views(output@) + drain_ops(
                            tok_views(operators@),
                            op,
                        ).0,
                        drain_ops(st0, op).1 == drain_ops(tok_views(operators@), op).1,
                    ensures
                        tok_views(output@) == out0 + drain_ops(st0, op).0,
                        tok_views(operators@) == drain_ops(st0, op).1,
                    decreases operators@.len(),
                {
                    let ghost cur = tok_views(operators@);
                    if operators.len() == 0 {
                        proof {
                            assert(cur.len() == 0);
                            assert(drain_ops(cur, op) == (Seq::<SpecToken>::empty(), cur));
                            assert(out0 + drain_ops(st0, op).0 =~= tok_views(output@));
                            assert(cur =~= Seq::<SpecToken>::empty());
                        }
                        break;
                    }
                    let top = operators[operators.len() - 1];
                    proof {
                        assert(cur.last() == top@);
                    }
                    let qualifies = match &top {
                        Token::Operator(top_op) => precedence(*top_op) >= precedence(op),
                        _ => false,
                    };
                    if !qualifies {
                        proof {
                            assert(drain_ops(cur, op) == (Seq::<SpecToken>::empty(), cur));
                            assert(out0 + drain_ops(st0, op).0 =~= tok_views(output@));
                        }
                        break;
                    }
                    let ghost outv = tok_views(output@);
                    operators.pop();
                    output.push(top);
                    proof {
                        assert(tok_views(operators@) =~= cur.drop_last());
                        assert(tok_views(output@) =~= outv.push(top@));
                        assert(drain_ops(cur, op).0 == seq![top@] + drain_ops(cur.drop_last(), op).0);
                        assert(out0 + drain_ops(st0, op).0 =~= tok_views(output@) + drain_ops(
                            cur.drop_last(),
                            op,
                        ).0);
                    }
                }
                let ghost rem = tok_views(operators@);
                operators.push(Token::Operator(op));
                proof {
                    assert(tok_views(operators@) =~= rem.push(SpecToken::Operator(op)));
                }
                i += 1;
            },
            Token::LeftParen => {
                let ghost pre = tok_views(operators@);
                operators.push(tok);
                proof {
                    assert(tok_views(operators@) =~= pre.push(SpecToken::LeftParen));
                }
                i += 1;
            },
            Token::RightParen => {
                let ghost out0 = tok_views(output@);
                let ghost st0 = tok_views(operators@);
                loop
                    invariant_except_break
                        ({
                            match drain_until_lparen(tok_views(operators@)) {
                                Ok(p) => drain_until_lparen(st0) matches Ok(p0) && out0 + p0.0
                                    == tok_views(output@) + p.0 && p0.1 == p.1,
                                Err(e) => drain_until_lparen(st0) == Err::<
                                    (Seq<SpecToken>, Seq<SpecToken>),
                                    SpecError,
                                >(e),
                            }
                        }),
                    invariant
                        t == tok_views(tokens@),
                        0 <= i < t.len(),
                        t[i as int] == SpecToken::RightParen,
                        spec_to_rpn(t) == rpn_steps(t, i as int, out0, st0),
                    ensures
                        drain_until_lparen(st0) matches Ok(p) && tok_views(output@) == out0 + p.0
                            && tok_views(operators@) == p.1,
                    decreases operators@.len(),
                {
                    let ghost cur = tok_views(operators@);
                    if operators.len() == 0 {
                        proof {
                            assert(cur.len() == 0);
                        }
                        return Err(Error::SyntaxError { unclosed: false });
                    }
                    let ghost outv = tok_views(output@);
                    let top = operators.pop().unwrap();
                    proof {
                        assert(cur.last() == top@);
                        assert(tok_views(operators@) =~= cur.drop_last());
                    }
                    match top {
                        Token::LeftParen => {
                            proof {
                                assert(drain_until_lparen(cur) == Ok::<
                                    (Seq<SpecToken>, Seq<SpecToken>),
                                    SpecError,
                                >((Seq::empty(), cur.drop_last())));
                                assert(out0 + drain_until_lparen(st0)->Ok_0.0 =~= tok_views(
                                    output@,
                                ));
                            }
                            break;
                        },
                        _ => {
                            output.push(top);
                            proof {
                                assert(tok_views(output@) =~= outv.push(top@));
                                match drain_until_lparen(cur.drop_last()) {
                                    Ok(p) => {
                                        assert(drain_until_lparen(cur) == Ok::<
                                            (Seq<SpecToken>, Seq<SpecToken>),
                                            SpecError,
                                        >((seq![top@] + p.0, p.1)));
                                        assert(out0 + drain_until_lparen(st0)->Ok_0.0 =~= tok_views(
                                            output@,
                                        ) + p.0);
                                    },
                                    Err(_) => {},
                                }
                            }
                        },
                    }
                }
                i += 1;
            },
        }
    }
    let ghost out0 = tok_views(output@);
    let ghost st0 = tok_views(operators@);
    loop
        invariant
            t == tok_views(tokens@),
            spec_to_rpn(t) == (match final_drain(st0) {
                Ok(r) => Ok::<Seq<SpecToken>, SpecError>(out0 + r),
                Err(e) => Err::<Seq<SpecToken>, SpecError>(e),
            }),
            ({
                match final_drain(tok_views(operators@)) {
                    Ok(rr) => final_drain(st0) matches Ok(r0) && out0 + r0 == tok_views(output@)
                        + rr,
                    Err(e) => final_drain(st0) == Err::<Seq<SpecToken>, SpecError>(e),
                }
            }),
        ensures
            spec_to_rpn(t) == Ok::<Seq<SpecToken>, SpecError>(tok_views(output@)),
        decreases operators@.len(),
    {
        let ghost cur = tok_views(operators@);
        if operators.len() == 0 {
            proof {
                assert(cur.len() == 0);
                assert(final_drain(cur) == Ok::<Seq<SpecToken>, SpecError>(Seq::empty()));
                assert(tok_views(output@) + Seq::<SpecToken>::empty() =~= tok_views(output@));
            }
            break;
        }
        let ghost outv = tok_views(output@);
        let top = operators.pop().unwrap();
        proof {
            assert(cur.last() == top@);
            assert(tok_views(operators@) =~= cur.drop_last());
        }
        match top {
            Token::LeftParen => {
                proof {
                    assert(final_drain(cur) == Err::<Seq<SpecToken>, SpecError>(
                        SpecError::SyntaxError { unclosed: true },
                    ));
                    assert(final_drain(st0) == Err::<Seq<SpecToken>, SpecError>(
                        SpecError::SyntaxError { unclosed: true },
                    ));
                    assert(spec_to_rpn(t) == Err::<Seq<SpecToken>, SpecError>(
                        SpecError::SyntaxError { unclosed: true },
                    ));
                }
                return Err(Error::SyntaxError { unclosed: true });
            },
            _ => {
                output.push(top);
                proof {
                    assert(tok_views(output@) =~= outv.push(top@));
                    match final_drain(cur.drop_last()) {
                        Ok(rr) => {
                            assert(final_drain(cur) == Ok::<Seq<SpecToken>, SpecError>(
                                seq![top@] + rr,
                            ));
                            assert(out0 + final_drain(st0)->Ok_0 =~= tok_views(output@) + rr);
                        },
                        Err(_) => {},
                    }
                }
            },
        }
    }
    proof {
        if all_tokens_wf(t) {
            lemma_rpn_steps_wf(t, 0, Seq::empty(), Seq::empty());
        }
    }
    Ok(output)
}

} // verus!
