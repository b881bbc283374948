//! Postfix evaluation, and the whole pipeline.
//!
//! The postfix sequence is processed left to right against a value stack:
//! numbers are pushed; an operator pops the right operand, then the left,
//! applies the exact rational operation and pushes the result. Division by
//! zero, an operator with fewer than two stacked values, a stray parenthesis
//! token and a final stack of any size but one are evaluation errors, as is
//! an intermediate value beyond the machine range. The mathematical model is
//! `spec_eval_rpn`; `spec_evaluate` composes the three stage models.

use vstd::prelude::*;
use crate::error::{Error, EvalKind, SpecError};
use crate::lexer::{spec_tokenize, tokenize};
use crate::rat::{rat_add, rat_div, rat_fits, rat_mul, rat_sub, Rat, RatVal};
use crate::rpn::{spec_to_rpn, to_rpn};
use crate::token::{all_tokens_wf, spec_token_wf, tok_views, Op, SpecToken, Token};

verus! {

/// The views of a sequence of executable rationals.
pub open spec fn rat_vals(s: Seq<Rat>) -> Seq<RatVal> {
    s.map_values(|q: Rat| q@)
}

/// Apply one operator to left operand `a` and right operand `b`, exactly:
/// division by zero and a result beyond the machine range are errors.
pub open spec fn spec_apply(op: Op, a: RatVal, b: RatVal) -> Result<RatVal, SpecError> {
    if op is Div && b.num == 0 {
        Err(SpecError::EvalError { kind: EvalKind::DivisionByZero })
    } else {
        let v = match op {
            Op::Add => rat_add(a, b),
            Op::Sub => rat_sub(a, b),
            Op::Mul => rat_mul(a, b),
            Op::Div => rat_div(a, b),
        };
        if rat_fits(v) {
            Ok(v)
        } else {
            Err(SpecError::EvalError { kind: EvalKind::Overflow })
        }
    }
}

/// One step of the postfix run over the value stack.
pub open spec fn eval_steps(rpn: Seq<SpecToken>, i: int, stack: Seq<RatVal>) -> Result<
    RatVal,
    SpecError,
>
    decreases rpn.len() - i,
{
    if i < 0 || i >= rpn.len() {
        if stack.len() == 1 {
            Ok(stack[0])
        } else {
            Err(SpecError::EvalError { kind: EvalKind::InvalidExpression })
        }
    } else {
        match rpn[i] {
            SpecToken::Number(v) => eval_steps(rpn, i + 1, stack.push(v)),
            SpecToken::Operator(op) => if stack.len() < 2 {
                Err(SpecError::EvalError { kind: EvalKind::InsufficientOperands })
            } else {
                let b = stack.last();
                let a = stack[stack.len() - 2];
                match spec_apply(op, a, b) {
                    Ok(v) => eval_steps(rpn, i + 1, stack.drop_last().drop_last().push(v)),
                    Err(e) => Err(e),
                }
            },
            _ => Err(SpecError::EvalError { kind: EvalKind::InvalidToken }),
        }
    }
}

/// The evaluator's mathematical model: the single value the postfix sequence
/// denotes, or the first evaluation error.
pub open spec fn spec_eval_rpn(rpn: Seq<SpecToken>) -> Result<RatVal, SpecError> {
    eval_steps(rpn, 0, Seq::empty())
}

/// Evaluate a postfix token sequence with a value stack. Returns exactly
/// what `spec_eval_rpn` says of the token views.
pub fn evaluate_rpn(rpn: &Vec<Token>) -> (r: Result<Rat, Error>)
    requires
        all_tokens_wf(tok_views(rpn@)),
    ensures
        ({
            let m = spec_eval_rpn(tok_views(rpn@));
            match r {
                Ok(q) => m == Ok::<RatVal, SpecError>(q@) && q.wf(),
                Err(e) => m == Err::<RatVal, SpecError>(e@),
            }
        }),
{
    let ghost t = tok_views(rpn@);
    let mut stack: Vec<Rat> = Vec::new();
    proof {
        assert(rat_vals(stack@) =~= Seq::<RatVal>::empty());
    }
    let mut i: usize = 0;
    while i < rpn.len()
        invariant
            i <= rpn@.len(),
            t == tok_views(rpn@),
            all_tokens_wf(t),
            forall|k: int| 0 <= k < stack@.len() ==> (#[trigger] stack@[k]).wf(),
            spec_eval_rpn(t) == eval_steps(t, i as int, rat_vals(stack@)),
        decreases rpn@.len() - i,
    {
        let tok = rpn[i];
        proof {
            assert(t[i as int] == tok@);
            assert(spec_token_wf(t[i as int]));
        }
        match tok {
            Token::Number(q) => {
                let ghost pre = rat_vals(stack@);
                stack.push(q);
                proof {
                    assert(rat_vals(stack@) =~= pre.push(q@));
                }
                i += 1;
            },
            Token::Operator(op) => {
                let ghost pre = rat_vals(stack@);
                if stack.len() < 2 {
                    return Err(Error::EvalError { kind: EvalKind::InsufficientOperands });
                }
                let b = stack.pop().unwrap();
                let a = stack.pop().unwrap();
                proof {
                    assert(b@ == pre.last());
                    assert(a@ == pre[pre.len() - 2]);
                    assert(rat_vals(stack@) =~= pre.drop_last().drop_last());
                }
                let res_opt = match op {
                    Op::Add => a.checked_add(b),
                    Op::Sub => a.checked_sub(b),
                    Op::Mul => a.checked_mul(b),
                    Op::Div => {
                        if b.num == 0 {
                            return Err(Error::EvalError { kind: EvalKind::DivisionByZero });
                        }
                        a.checked_div(b)
                    },
                };
                match res_opt {
                    Some(v) => {
                        let ghost mid = rat_vals(stack@);
                        stack.push(v);
                        proof {
                            assert(rat_vals(stack@) =~= mid.push(v@));
                            assert(spec_apply(op, a@, b@) == Ok::<RatVal, SpecError>(v@));
                        }
                        i += 1;
                    },
                    None => {
                        return Err(Error::EvalError { kind: EvalKind::Overflow });
                    },
                }
            },
            _ => {
                return Err(Error::EvalError { kind: EvalKind::InvalidToken });
            },
        }
    }
    if stack.len() == 1 {
        let v = stack[0];
        proof {
            assert(rat_vals(stack@)[0] == v@);
        }
        Ok(v)
    } else {
        Err(Error::EvalError { kind: EvalKind::InvalidExpression })
    }
}

/// The pipeline's mathematical model: tokenize, convert to postfix, then
/// evaluate, stopping at the first error.
pub open spec fn spec_evaluate(s: Seq<char>) -> Result<RatVal, SpecError> {
    match spec_tokenize(s) {
        Ok(toks) => match spec_to_rpn(toks) {
            Ok(rpn) => spec_eval_rpn(rpn),
            Err(e) => Err(e),
        },
        Err(e) => Err(e),
    }
}

/// Evaluate an infix arithmetic expression: the exact rational value of the
/// text, or the first error of the first failing stage. Returns exactly what
/// `spec_evaluate` says of the text, for every input.
pub fn evaluate_expression(expr: &str) -> (r: Result<Rat, Error>)
    ensures
        ({
            let m = spec_evaluate(expr@);
            match r {
                Ok(q) => m == Ok::<RatVal, SpecError>(q@) && q.wf(),
                Err(e) => m == Err::<RatVal, SpecError>(e@),
            }
        }),
{
    let tokens = match tokenize(expr) {
        Ok(ts) => ts,
        Err(e) => {
            return Err(e);
        },
    };
    let rpn = match to_rpn(tokens) {
        Ok(o) => o,
        Err(e) => {
            return Err(e);
        },
    };
    evaluate_rpn(&rpn)
}

/// Division by zero never slips through: for every pair of operands a zero
/// right operand makes division the division-by-zero error, and a division
/// that produced a value had a nonzero right operand.
pub proof fn lemma_division_by_zero(a: RatVal, b: RatVal)
    ensures
        b.num == 0 ==> spec_apply(Op::Div, a, b) == Err::<RatVal, SpecError>(
            SpecError::EvalError { kind: EvalKind::DivisionByZero },
        ),
        spec_apply(Op::Div, a, b) is Ok ==> b.num != 0,
{
}

/// Evaluation is deterministic: the outcome, value or error, is a function
/// of the input text alone, so two runs over equal text agree.
pub proof fn lemma_evaluate_deterministic(s1: Seq<char>, s2: Seq<char>)
    requires
        s1 == s2,
    ensures
        spec_evaluate(s1) == spec_evaluate(s2),
{
}

} // verus!
