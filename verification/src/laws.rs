//! Laws of the pipeline that relate whole runs to one another.
//!
//! Two families. Parenthesization: wrapping an entire expression in one pair
//! of parentheses is arithmetically a no-op, so it changes neither the
//! postfix form nor the evaluated outcome — the proof follows the
//! shunting-yard run, where a `(` at the bottom of the operator stack is a
//! barrier that no pop of the inner run ever reaches, and the closing `)`
//! flushes exactly what the plain run's final drain would have flushed.
//! Whitespace: a space inserted anywhere short of the middle of a numeric
//! literal is skipped silently and changes nothing.

use vstd::prelude::*;
use crate::error::SpecError;
use crate::eval::spec_evaluate;
use crate::lexer::{
    is_num_char, lemma_num_end, lemma_num_end_unique, num_end, spec_parse_literal, spec_tokenize,
    tok_steps,
};
use crate::rpn::{drain_ops, drain_until_lparen, final_drain, rpn_steps, spec_to_rpn};
use crate::token::{spec_prec, Op, SpecToken};

verus! {

proof fn lemma_drain_ops_barrier(stack: Seq<SpecToken>, op: Op)
    ensures
        drain_ops(seq![SpecToken::LeftParen] + stack, op).0 == drain_ops(stack, op).0,
        drain_ops(seq![SpecToken::LeftParen] + stack, op).1 == seq![SpecToken::LeftParen]
            + drain_ops(stack, op).1,
    decreases stack.len(),
{
    let w = seq![SpecToken::LeftParen] + stack;
    if stack.len() == 0 {
        assert(w.len() == 1);
        assert(w.last() == SpecToken::LeftParen);
        assert(w =~= seq![SpecToken::LeftParen] + stack);
    } else {
        assert(w.last() == stack.last());
        if stack.last() matches SpecToken::Operator(top) && spec_prec(top) >= spec_prec(op) {
            assert(w.drop_last() =~= seq![SpecToken::LeftParen] + stack.drop_last());
            lemma_drain_ops_barrier(stack.drop_last(), op);
        }
    }
}

proof fn lemma_drain_until_barrier(stack: Seq<SpecToken>)
    requires
        drain_until_lparen(stack) is Ok,
    ensures
        drain_until_lparen(seq![SpecToken::LeftParen] + stack) == (match drain_until_lparen(
            stack,
        ) {
            Ok(p) => Ok::<(Seq<SpecToken>, Seq<SpecToken>), SpecError>(
                (p.0, seq![SpecToken::LeftParen] + p.1),
            ),
            Err(e) => Err::<(Seq<SpecToken>, Seq<SpecToken>), SpecError>(e),
        }),
    decreases stack.len(),
{
    let w = seq![SpecToken::LeftParen] + stack;
    assert(stack.len() > 0);
    assert(w.last() == stack.last());
    if stack.last() is LeftParen {
        assert(w.drop_last() =~= seq![SpecToken::LeftParen] + stack.drop_last());
    } else {
        assert(w.drop_last() =~= seq![SpecToken::LeftParen] + stack.drop_last());
        lemma_drain_until_barrier(stack.drop_last());
    }
}

proof fn lemma_final_drain_barrier(stack: Seq<SpecToken>)
    requires
        final_drain(stack) is Ok,
    ensures
        drain_until_lparen(seq![SpecToken::LeftParen] + stack) == (match final_drain(stack) {
            Ok(r) => Ok::<(Seq<SpecToken>, Seq<SpecToken>), SpecError>(
                (r, Seq::<SpecToken>::empty()),
            ),
            Err(e) => Err::<(Seq<SpecToken>, Seq<SpecToken>), SpecError>(e),
        }),
    decreases stack.len(),
{
    let w = seq![SpecToken::LeftParen] + stack;
    if stack.len() == 0 {
        assert(w.len() == 1);
        assert(w.last() == SpecToken::LeftParen);
        assert(w.drop_last() =~= Seq::<SpecToken>::empty());
    } else {
        assert(w.last() == stack.last());
        assert(!(stack.last() is LeftParen));
        assert(w.drop_last() =~= seq![SpecToken::LeftParen] + stack.drop_last());
        lemma_final_drain_barrier(stack.drop_last());
        match final_drain(stack.drop_last()) {
            Ok(r) => {
                assert(seq![stack.last()] + r + Seq::<SpecToken>::empty() =~= seq![stack.last()]
                    + r);
            },
            Err(_) => {},
        }
    }
}

proof fn lemma_rpn_steps_wrap(toks: Seq<SpecToken>, i: int, out: Seq<SpecToken>, stack: Seq<
    SpecToken,
>)
    requires
        0 <= i <= toks.len(),
        rpn_steps(toks, i, out, stack) is Ok,
    ensures
        rpn_steps(
            seq![SpecToken::LeftParen] + toks + seq![SpecToken::RightParen],
            i + 1,
            out,
            seq![SpecToken::LeftParen] + stack,
        ) == rpn_steps(toks, i, out, stack),
    decreases toks.len() - i,
{
    let w = seq![SpecToken::LeftParen] + toks + seq![SpecToken::RightParen];
    assert(w.len() == toks.len() + 2);
    let ws = seq![SpecToken::LeftParen] + stack;
    if i == toks.len() {
        assert(w[i + 1] == SpecToken::RightParen);
        match final_drain(stack) {
            Ok(r) => {
                lemma_final_drain_barrier(stack);
                assert(drain_until_lparen(ws) == Ok::<(Seq<SpecToken>, Seq<SpecToken>), SpecError>(
                    (r, Seq::<SpecToken>::empty()),
                ));
                assert(rpn_steps(w, i + 1, out, ws) == rpn_steps(
                    w,
                    i + 2,
                    out + r,
                    Seq::<SpecToken>::empty(),
                ));
                assert(final_drain(Seq::<SpecToken>::empty()) == Ok::<Seq<SpecToken>, SpecError>(
                    Seq::<SpecToken>::empty(),
                ));
                assert(rpn_steps(w, i + 2, out + r, Seq::<SpecToken>::empty()) == Ok::<
                    Seq<SpecToken>,
                    SpecError,
                >((out + r) + Seq::<SpecToken>::empty()));
                assert((out + r) + Seq::<SpecToken>::empty() =~= out + r);
                assert(rpn_steps(toks, i, out, stack) == Ok::<Seq<SpecToken>, SpecError>(out + r));
            },
            Err(_) => {},
        }
    } else {
        assert(w[i + 1] == toks[i]);
        match toks[i] {
            SpecToken::Number(v) => {
                lemma_rpn_steps_wrap(toks, i + 1, out.push(SpecToken::Number(v)), stack);
                assert(rpn_steps(w, i + 1, out, ws) == rpn_steps(
                    w,
                    i + 2,
                    out.push(SpecToken::Number(v)),
                    ws,
                ));
                assert(rpn_steps(toks, i, out, stack) == rpn_steps(
                    toks,
                    i + 1,
                    out.push(SpecToken::Number(v)),
                    stack,
                ));
            },
            SpecToken::Operator(op) => {
                lemma_drain_ops_barrier(stack, op);
                let p = drain_ops(stack, op);
                assert((seq![SpecToken::LeftParen] + p.1).push(SpecToken::Operator(op))
                    =~= seq![SpecToken::LeftParen] + p.1.push(SpecToken::Operator(op)));
                lemma_rpn_steps_wrap(toks, i + 1, out + p.0, p.1.push(SpecToken::Operator(op)));
                assert(rpn_steps(w, i + 1, out, ws) == rpn_steps(
                    w,
                    i + 2,
                    out + p.0,
                    (seq![SpecToken::LeftParen] + p.1).push(SpecToken::Operator(op)),
                ));
                assert(rpn_steps(toks, i, out, stack) == rpn_steps(
                    toks,
                    i + 1,
                    out + p.0,
                    p.1.push(SpecToken::Operator(op)),
                ));
            },
            SpecToken::LeftParen => {
                assert((seq![SpecToken::LeftParen] + stack).push(SpecToken::LeftParen)
                    =~= seq![SpecToken::LeftParen] + stack.push(SpecToken::LeftParen));
                lemma_rpn_steps_wrap(toks, i + 1, out, stack.push(SpecToken::LeftParen));
                assert(rpn_steps(w, i + 1, out, ws) == rpn_steps(
                    w,
                    i + 2,
                    out,
                    ws.push(SpecToken::LeftParen),
                ));
                assert(rpn_steps(toks, i, out, stack) == rpn_steps(
                    toks,
                    i + 1,
                    out,
                    stack.push(SpecToken::LeftParen),
                ));
            },
            SpecToken::RightParen => {
                match drain_until_lparen(stack) {
                    Ok(p) => {
                        lemma_drain_until_barrier(stack);
                        lemma_rpn_steps_wrap(toks, i + 1, out + p.0, p.1);
                        assert(rpn_steps(w, i + 1, out, ws) == rpn_steps(
                            w,
                            i + 2,
                            out + p.0,
                            seq![SpecToken::LeftParen] + p.1,
                        ));
                        assert(rpn_steps(toks, i, out, stack) == rpn_steps(
                            toks,
                            i + 1,
                            out + p.0,
                            p.1,
                        ));
                    },
                    Err(_) => {},
                }
            },
        }
    }
}

proof fn lemma_tok_steps_frame(s: Seq<char>, i: int, acc: Seq<SpecToken>)
    requires
        0 <= i <= s.len(),
    ensures
        tok_steps(s, i, acc) == (match tok_steps(s, i, Seq::<SpecToken>::empty()) {
            Ok(r) => Ok::<Seq<SpecToken>, SpecError>(acc + r),
            Err(e) => Err::<Seq<SpecToken>, SpecError>(e),
        }),
    decreases s.len() - i,
{
    let emp = Seq::<SpecToken>::empty();
    if i == s.len() {
        assert(acc + emp =~= acc);
    } else if s[i] == ' ' {
        lemma_tok_steps_frame(s, i + 1, acc);
    } else if s[i] == '+' || s[i] == '-' || s[i] == '*' || s[i] == '/' || s[i] == '(' || s[i]
        == ')' {
        let t: SpecToken = if s[i] == '+' {
            SpecToken::Operator(Op::Add)
        } else if s[i] == '-' {
            SpecToken::Operator(Op::Sub)
        } else if s[i] == '*' {
            SpecToken::Operator(Op::Mul)
        } else if s[i] == '/' {
            SpecToken::Operator(Op::Div)
        } else if s[i] == '(' {
            SpecToken::LeftParen
        } else {
            SpecToken::RightParen
        };
        lemma_tok_steps_frame(s, i + 1, acc.push(t));
        lemma_tok_steps_frame(s, i + 1, emp.push(t));
        match tok_steps(s, i + 1, emp) {
            Ok(r) => {
                assert(acc + (emp.push(t) + r) =~= acc.push(t) + r);
            },
            Err(_) => {},
        }
    } else if is_num_char(s[i]) {
        lemma_num_end(s, i);
        let j = num_end(s, i);
        match spec_parse_literal(s.subrange(i, j)) {
            Ok(v) => {
                lemma_tok_steps_frame(s, j, acc.push(SpecToken::Number(v)));
                lemma_tok_steps_frame(s, j, emp.push(SpecToken::Number(v)));
                match tok_steps(s, j, emp) {
                    Ok(r) => {
                        assert(acc + (emp.push(SpecToken::Number(v)) + r) =~= acc.push(
                            SpecToken::Number(v),
                        ) + r);
                    },
                    Err(_) => {},
                }
            },
            Err(_) => {},
        }
    } else {
    }
}

proof fn lemma_tok_steps_shift(s: Seq<char>, i: int, acc: Seq<SpecToken>)
    requires
        0 <= i <= s.len(),
    ensures
        tok_steps(seq!['('] + s + seq![')'], i + 1, acc) == (match tok_steps(s, i, acc) {
            Ok(r) => Ok::<Seq<SpecToken>, SpecError>(r.push(SpecToken::RightParen)),
            Err(e) => Err::<Seq<SpecToken>, SpecError>(e),
        }),
    decreases s.len() - i,
{
    let w = seq!['('] + s + seq![')'];
    assert(w.len() == s.len() + 2);
    if i == s.len() {
        assert(w[i + 1] == ')');
        assert(tok_steps(w, i + 1, acc) == tok_steps(w, i + 2, acc.push(SpecToken::RightParen)));
        assert(tok_steps(w, i + 2, acc.push(SpecToken::RightParen)) == Ok::<
            Seq<SpecToken>,
            SpecError,
        >(acc.push(SpecToken::RightParen)));
    } else {
        assert(w[i + 1] == s[i]);
        if s[i] == ' ' {
            lemma_tok_steps_shift(s, i + 1, acc);
        } else if s[i] == '+' {
            lemma_tok_steps_shift(s, i + 1, acc.push(SpecToken::Operator(Op::Add)));
        } else if s[i] == '-' {
            lemma_tok_steps_shift(s, i + 1, acc.push(SpecToken::Operator(Op::Sub)));
        } else if s[i] == '*' {
            lemma_tok_steps_shift(s, i + 1, acc.push(SpecToken::Operator(Op::Mul)));
        } else if s[i] == '/' {
            lemma_tok_steps_shift(s, i + 1, acc.push(SpecToken::Operator(Op::Div)));
        } else if s[i] == '(' {
            lemma_tok_steps_shift(s, i + 1, acc.push(SpecToken::LeftParen));
        } else if s[i] == ')' {
            lemma_tok_steps_shift(s, i + 1, acc.push(SpecToken::RightParen));
        } else if is_num_char(s[i]) {
            lemma_num_end(s, i);
            let j = num_end(s, i);
            assert forall|k: int| i + 1 <= k < j + 1 implies is_num_char(w[k]) by {
                assert(w[k] == s[k - 1]);
            }
            if j < s.len() {
                assert(w[j + 1] == s[j]);
            } else {
                assert(w[j + 1] == ')');
            }
            lemma_num_end_unique(w, i + 1, j + 1);
            assert(w.subrange(i + 1, j + 1) =~= s.subrange(i, j));
            match spec_parse_literal(s.subrange(i, j)) {
                Ok(v) => {
                    lemma_tok_steps_shift(s, j, acc.push(SpecToken::Number(v)));
                },
                Err(_) => {},
            }
        } else {
            assert(w.subrange(i + 1, i + 2) =~= s.subrange(i, i + 1));
        }
    }
}

/// Wrapping the whole token sequence in one pair of parentheses does not
/// change the postfix form the converter produces.
pub proof fn lemma_to_rpn_paren_wrap(toks: Seq<SpecToken>)
    requires
        spec_to_rpn(toks) is Ok,
    ensures
        spec_to_rpn(seq![SpecToken::LeftParen] + toks + seq![SpecToken::RightParen]) == spec_to_rpn(
            toks,
        ),
{
    let w = seq![SpecToken::LeftParen] + toks + seq![SpecToken::RightParen];
    assert(w[0] == SpecToken::LeftParen);
    assert(Seq::<SpecToken>::empty().push(SpecToken::LeftParen) =~= seq![SpecToken::LeftParen]
        + Seq::<SpecToken>::empty());
    lemma_rpn_steps_wrap(toks, 0, Seq::empty(), Seq::empty());
}

proof fn lemma_tok_steps_after_space(a: Seq<char>, b: Seq<char>, jb: int, acc: Seq<SpecToken>)
    requires
        0 <= jb <= b.len(),
    ensures
        tok_steps(a + seq![' '] + b, a.len() + 1 + jb, acc) == tok_steps(
            a + b,
            a.len() + jb,
            acc,
        ),
    decreases b.len() - jb,
{
    let w = a + seq![' '] + b;
    let u = a + b;
    assert(w.len() == a.len() + 1 + b.len());
    assert(u.len() == a.len() + b.len());
    let i = a.len() + jb;
    if jb == b.len() {
    } else {
        assert(w[i + 1] == b[jb]);
        assert(u[i] == b[jb]);
        let c = b[jb];
        if c == ' ' {
            lemma_tok_steps_after_space(a, b, jb + 1, acc);
        } else if c == '+' {
            lemma_tok_steps_after_space(a, b, jb + 1, acc.push(SpecToken::Operator(Op::Add)));
        } else if c == '-' {
            lemma_tok_steps_after_space(a, b, jb + 1, acc.push(SpecToken::Operator(Op::Sub)));
        } else if c == '*' {
            lemma_tok_steps_after_space(a, b, jb + 1, acc.push(SpecToken::Operator(Op::Mul)));
        } else if c == '/' {
            lemma_tok_steps_after_space(a, b, jb + 1, acc.push(SpecToken::Operator(Op::Div)));
        } else if c == '(' {
            lemma_tok_steps_after_space(a, b, jb + 1, acc.push(SpecToken::LeftParen));
        } else if c == ')' {
            lemma_tok_steps_after_space(a, b, jb + 1, acc.push(SpecToken::RightParen));
        } else if is_num_char(c) {
            lemma_num_end(u, i);
            let j = num_end(u, i);
            assert forall|k: int| i + 1 <= k < j + 1 implies is_num_char(w[k]) by {
                assert(w[k] == u[k - 1]);
            }
            if j < u.len() {
                assert(w[j + 1] == u[j]);
            }
            lemma_num_end_unique(w, i + 1, j + 1);
            assert(w.subrange(i + 1, j + 1) =~= u.subrange(i, j));
            match spec_parse_literal(u.subrange(i, j)) {
                Ok(v) => {
                    lemma_tok_steps_after_space(a, b, j - a.len(), acc.push(SpecToken::Number(v)));
                },
                Err(_) => {},
            }
        } else {
            assert(w.subrange(i + 1, i + 2) =~= u.subrange(i, i + 1));
        }
    }
}

proof fn lemma_tok_steps_space_insert(a: Seq<char>, b: Seq<char>, i: int, acc: Seq<SpecToken>)
    requires
        0 <= i <= a.len(),
        !(a.len() > 0 && b.len() > 0 && is_num_char(a.last()) && is_num_char(b.first())),
    ensures
        tok_steps(a + seq![' '] + b, i, acc) == tok_steps(a + b, i, acc),
    decreases a.len() - i,
{
    let w = a + seq![' '] + b;
    let u = a + b;
    assert(w.len() == a.len() + 1 + b.len());
    assert(u.len() == a.len() + b.len());
    if i == a.len() {
        assert(w[i] == ' ');
        assert(tok_steps(w, i, acc) == tok_steps(w, i + 1, acc));
        lemma_tok_steps_after_space(a, b, 0, acc);
    } else {
        assert(w[i] == a[i]);
        assert(u[i] == a[i]);
        let c = a[i];
        if c == ' ' {
            lemma_tok_steps_space_insert(a, b, i + 1, acc);
        } else if c == '+' {
            lemma_tok_steps_space_insert(a, b, i + 1, acc.push(SpecToken::Operator(Op::Add)));
        } else if c == '-' {
            lemma_tok_steps_space_insert(a, b, i + 1, acc.push(SpecToken::Operator(Op::Sub)));
        } else if c == '*' {
            lemma_tok_steps_space_insert(a, b, i + 1, acc.push(SpecToken::Operator(Op::Mul)));
        } else if c == '/' {
            lemma_tok_steps_space_insert(a, b, i + 1, acc.push(SpecToken::Operator(Op::Div)));
        } else if c == '(' {
            lemma_tok_steps_space_insert(a, b, i + 1, acc.push(SpecToken::LeftParen));
        } else if c == ')' {
            lemma_tok_steps_space_insert(a, b, i + 1, acc.push(SpecToken::RightParen));
        } else if is_num_char(c) {
            lemma_num_end(u, i);
            let j = num_end(u, i);
            if j > a.len() {
                assert(is_num_char(u[a.len() - 1]));
                assert(u[a.len() - 1] == a.last());
                assert(is_num_char(u[a.len() as int]));
                assert(u[a.len() as int] == b.first());
                assert(false);
            }
            assert forall|k: int| i <= k < j implies is_num_char(w[k]) by {
                assert(w[k] == a[k]);
                assert(u[k] == a[k]);
            }
            if j < a.len() {
                assert(w[j] == a[j]);
                assert(u[j] == a[j]);
            } else {
                assert(w[j] == ' ');
            }
            lemma_num_end_unique(w, i, j);
            assert(w.subrange(i, j) =~= u.subrange(i, j));
            match spec_parse_literal(u.subrange(i, j)) {
                Ok(v) => {
                    lemma_tok_steps_space_insert(a, b, j, acc.push(SpecToken::Number(v)));
                },
                Err(_) => {},
            }
        } else {
            assert(w.subrange(i, i + 1) =~= u.subrange(i, i + 1));
        }
    }
}

/// Spaces are skipped silently: inserting one space at any place that does
/// not split a numeric literal in two changes neither the value nor the
/// error of the whole evaluation. Applied once per space, this covers any
/// amount of whitespace between tokens or at either end.
pub proof fn lemma_space_insert_noop(a: Seq<char>, b: Seq<char>)
    requires
        !(a.len() > 0 && b.len() > 0 && is_num_char(a.last()) && is_num_char(b.first())),
    ensures
        spec_evaluate(a + seq![' '] + b) == spec_evaluate(a + b),
{
    lemma_tok_steps_space_insert(a, b, 0, Seq::empty());
}

/// A leading or a trailing space is a no-op for the whole evaluation.
pub proof fn lemma_outer_spaces_noop(s: Seq<char>)
    ensures
        spec_evaluate(seq![' '] + s) == spec_evaluate(s),
        spec_evaluate(s + seq![' ']) == spec_evaluate(s),
{
    let emp = Seq::<char>::empty();
    lemma_space_insert_noop(emp, s);
    assert(emp + seq![' '] + s =~= seq![' '] + s);
    assert(emp + s =~= s);
    lemma_space_insert_noop(s, emp);
    assert(s + seq![' '] + emp =~= s + seq![' ']);
    assert(s + emp =~= s);
}

/// Parenthesization that is arithmetically a no-op does not change the
/// outcome: wrapping the whole expression text in one pair of parentheses
/// tokenizes to the wrapped token sequence, converts to the very same
/// postfix form, and so evaluates to the very same value or error.
pub proof fn lemma_paren_noop(s: Seq<char>)
    requires
        spec_tokenize(s) matches Ok(toks) && spec_to_rpn(toks) is Ok,
    ensures
        spec_evaluate(seq!['('] + s + seq![')']) == spec_evaluate(s),
{
    let w = seq!['('] + s + seq![')'];
    let toks = spec_tokenize(s)->Ok_0;
    let emp = Seq::<SpecToken>::empty();
    let lp = emp.push(SpecToken::LeftParen);
    assert(w[0] == '(');
    assert(0 < w.len());
    assert(tok_steps(w, 0, emp) == tok_steps(w, 1, lp));
    lemma_tok_steps_shift(s, 0, lp);
    lemma_tok_steps_frame(s, 0, lp);
    assert(tok_steps(s, 0, lp) == Ok::<Seq<SpecToken>, SpecError>(lp + toks));
    assert(spec_tokenize(w) == Ok::<Seq<SpecToken>, SpecError>(
        (lp + toks).push(SpecToken::RightParen),
    ));
    assert((lp + toks).push(SpecToken::RightParen) =~= seq![SpecToken::LeftParen] + toks
        + seq![SpecToken::RightParen]);
    lemma_to_rpn_paren_wrap(toks);
}

} // verus!
