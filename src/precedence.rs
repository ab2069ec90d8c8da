//! Standard arithmetic, stated as the expression grammar reads it, and the
//! proof that the shunting-yard algorithm followed by postfix evaluation
//! computes it.
use vstd::prelude::*;

use crate::compiler::{bind_all, expression_value, is_assignment, is_program, program_value, statements};
use crate::lexer::lex_spec;
use crate::eval::run_postfix;
use crate::operator::BinOp;
use crate::parser::{flush, pop_to_left_paren, pop_yielding, postfix_spec, shunt};
use crate::token::{Lex, Lexeme, NumeralView, ParseError};

verus! {

/// Folds the current term into the running sum, if there is one.
pub open spec fn close<V>(sum: Option<(V, BinOp)>, term: V, ap: spec_fn(BinOp, V, V) -> V) -> V {
    match sum {
        Some((s, a)) => ap(a, s, term),
        None => term,
    }
}

/// A factor at position `i`: a literal, or an expression in parentheses.
/// The result is its value and the position after it.
pub open spec fn parse_factor<V>(
    toks: Seq<Lex>,
    i: nat,
    lit: spec_fn(NumeralView) -> V,
    ap: spec_fn(BinOp, V, V) -> V,
) -> Option<(V, nat)>
    decreases toks.len() - i, 0nat,
{
    if i >= toks.len() {
        None
    } else {
        match toks[i as int].lexeme {
            Lexeme::Number(n) => Some((lit(n), i + 1)),
            Lexeme::LeftParen => match parse_expr(toks, i + 1, lit, ap) {
                Some((v, j)) => if j < toks.len() && toks[j as int].lexeme is RightParen {
                    Some((v, j + 1))
                } else {
                    None
                },
                None => None,
            },
            _ => None,
        }
    }
}

/// An expression at position `i`: factors joined by operators, read with
/// standard precedence (see `expr_rest`). Positions only move forward.
pub open spec fn parse_expr<V>(
    toks: Seq<Lex>,
    i: nat,
    lit: spec_fn(NumeralView) -> V,
    ap: spec_fn(BinOp, V, V) -> V,
) -> Option<(V, nat)>
    decreases toks.len() - i, 2nat,
{
    match parse_factor(toks, i, lit, ap) {
        Some((x, j)) => if i < j <= toks.len() {
            expr_rest(toks, j, None, x, lit, ap)
        } else {
            None
        },
        None => None,
    }
}

/// The rest of an expression after a running sum and term: each operator
/// and the factor after it either extend the term (`*`, `/`) or close the
/// term into the sum and start a new one (`+`, `-`), left to right.
pub open spec fn expr_rest<V>(
    toks: Seq<Lex>,
    j: nat,
    sum: Option<(V, BinOp)>,
    term: V,
    lit: spec_fn(NumeralView) -> V,
    ap: spec_fn(BinOp, V, V) -> V,
) -> Option<(V, nat)>
    decreases toks.len() - j, 1nat,
{
    if j < toks.len() && toks[j as int].lexeme is Operator {
        let o = toks[j as int].lexeme->Operator_0;
        match parse_factor(toks, j + 1, lit, ap) {
            Some((x, k)) => if j < k <= toks.len() {
                if o.rank() == 2 {
                    expr_rest(toks, k, sum, ap(o, term, x), lit, ap)
                } else {
                    expr_rest(toks, k, Some((close(sum, term, ap), o)), x, lit, ap)
                }
            } else {
                None
            },
            None => None,
        }
    } else {
        Some((close(sum, term, ap), j))
    }
}

/// One postfix token applied to a value stack; `None` where evaluation fails.
spec fn step<V>(
    st: Seq<V>,
    t: Lex,
    env: Map<Seq<char>, V>,
    lit: spec_fn(NumeralView) -> V,
    ap: spec_fn(BinOp, V, V) -> V,
) -> Option<Seq<V>> {
    match t.lexeme {
        Lexeme::Number(n) => Some(st.push(lit(n))),
        Lexeme::Identifier(id) => if env.contains_key(id) {
            Some(st.push(env[id]))
        } else {
            None
        },
        Lexeme::Operator(op) => if st.len() >= 2 {
            Some(st.subrange(0, st.len() - 2).push(ap(op, st[st.len() - 2], st.last())))
        } else {
            None
        },
        _ => None,
    }
}

/// The value stack after running a postfix prefix.
spec fn exec_front<V>(
    toks: Seq<Lex>,
    st: Seq<V>,
    env: Map<Seq<char>, V>,
    lit: spec_fn(NumeralView) -> V,
    ap: spec_fn(BinOp, V, V) -> V,
) -> Option<Seq<V>>
    decreases toks.len(),
{
    if toks.len() == 0 {
        Some(st)
    } else {
        match step(st, toks[0], env, lit, ap) {
            Some(s) => exec_front(toks.drop_first(), s, env, lit, ap),
            None => None,
        }
    }
}

proof fn lemma_exec_push<V>(
    toks: Seq<Lex>,
    t: Lex,
    st: Seq<V>,
    env: Map<Seq<char>, V>,
    lit: spec_fn(NumeralView) -> V,
    ap: spec_fn(BinOp, V, V) -> V,
)
    ensures
        exec_front(toks.push(t), st, env, lit, ap) == match exec_front(toks, st, env, lit, ap) {
            Some(s) => step(s, t, env, lit, ap),
            None => None,
        },
    decreases toks.len(),
{
    if toks.len() == 0 {
        assert(toks.push(t).drop_first() =~= seq![]);
        assert(toks.push(t)[0] == t);
        if let Some(s) = step(st, t, env, lit, ap) {
            assert(exec_front(seq![], s, env, lit, ap) == Some(s));
        }
    } else {
        assert(toks.push(t).drop_first() =~= toks.drop_first().push(t));
        assert(toks.push(t)[0] == toks[0]);
        if let Some(s) = step(st, toks[0], env, lit, ap) {
            lemma_exec_push(toks.drop_first(), t, s, env, lit, ap);
        }
    }
}

proof fn lemma_run_from_exec<V>(
    toks: Seq<Lex>,
    st: Seq<V>,
    v: V,
    env: Map<Seq<char>, V>,
    lit: spec_fn(NumeralView) -> V,
    ap: spec_fn(BinOp, V, V) -> V,
)
    requires
        exec_front(toks, st, env, lit, ap) == Some(seq![v]),
    ensures
        run_postfix(toks, st, env, lit, ap) == Ok::<V, ParseError>(v),
    decreases toks.len(),
{
    if toks.len() > 0 {
        let s = step(st, toks[0], env, lit, ap)->Some_0;
        lemma_run_from_exec(toks.drop_first(), s, v, env, lit, ap);
    }
}

/// How the shunting-yard state stands for the state of standard evaluation:
/// the operator stack holds the open additive operator (when there is a
/// running sum) and then the open multiplicative one (when the term is a
/// product still to be computed); the value stack holds their operands.
spec fn sim<V>(
    stack: Seq<Lex>,
    vals: Seq<V>,
    sum: Option<(V, BinOp)>,
    term: V,
    ap: spec_fn(BinOp, V, V) -> V,
) -> bool {
    let base: int = if sum is Some { 1 } else { 0 };
    &&& match sum {
        Some((s, a)) => stack.len() >= 1 && stack[0].lexeme == Lexeme::Operator(a) && a.rank() == 1
            && vals.len() >= 1 && vals[0] == s,
        None => true,
    }
    &&& {
        ||| (stack.len() == base && vals.len() == base + 1 && vals[base] == term)
        ||| (stack.len() == base + 1 && stack[base].lexeme is Operator
            && stack[base].lexeme->Operator_0.rank() == 2 && vals.len() == base + 2
            && ap(stack[base].lexeme->Operator_0, vals[base], vals[base + 1]) == term)
    }
}

/// At the end of the input the stack empties into the output, leaving the
/// closed sum as the only value.
proof fn lemma_flush_sim<V>(
    stack: Seq<Lex>,
    out: Seq<Lex>,
    vals: Seq<V>,
    sum: Option<(V, BinOp)>,
    term: V,
    env: Map<Seq<char>, V>,
    lit: spec_fn(NumeralView) -> V,
    ap: spec_fn(BinOp, V, V) -> V,
)
    requires
        exec_front(out, seq![], env, lit, ap) == Some(vals),
        sim(stack, vals, sum, term, ap),
    ensures
        flush(stack, out) is Ok,
        exec_front(flush(stack, out)->Ok_0, seq![], env, lit, ap) == Some(
            seq![close(sum, term, ap)],
        ),
    decreases stack.len(),
{
    let base: int = if sum is Some { 1 } else { 0 };
    if stack.len() == base + 1 && stack[base].lexeme is Operator
        && stack[base].lexeme->Operator_0.rank() == 2 && vals.len() == base + 2
        && ap(stack[base].lexeme->Operator_0, vals[base], vals[base + 1]) == term {
        let m = stack.last();
        assert(m.lexeme is Operator);
        assert(flush(stack, out) == flush(stack.drop_last(), out.push(m)));
        lemma_exec_push(out, m, seq![], env, lit, ap);
        let vals1 = vals.subrange(0, base).push(term);
        assert(vals.subrange(0, vals.len() - 2).push(
            ap(m.lexeme->Operator_0, vals[vals.len() - 2], vals.last()),
        ) =~= vals1);
        assert(sim(stack.drop_last(), vals1, sum, term, ap));
        lemma_flush_sim(stack.drop_last(), out.push(m), vals1, sum, term, env, lit, ap);
    } else {
        match sum {
            None => {
                assert(vals =~= seq![term]);
            },
            Some((sv, a)) => {
                let at = stack.last();
                assert(stack.drop_last() =~= Seq::<Lex>::empty());
                assert(flush(stack, out) == flush(stack.drop_last(), out.push(at)));
                assert(flush(stack.drop_last(), out.push(at)) == Ok::<Seq<Lex>, ParseError>(out.push(at)));
                lemma_exec_push(out, at, seq![], env, lit, ap);
                assert(vals.subrange(0, 0).push(ap(a, sv, term)) =~= seq![ap(a, sv, term)]);
            },
        }
    }
}

/// A stack prefix that popping for an operator never reaches into.
spec fn sealed(p: Seq<Lex>) -> bool {
    p.len() == 0 || p.last().lexeme is LeftParen
}

/// Popping for an operator touches only the current level above `p`.
proof fn lemma_pop_level<V>(
    p: Seq<Lex>,
    l: Seq<Lex>,
    pv: Seq<V>,
    lv: Seq<V>,
    out: Seq<Lex>,
    sum: Option<(V, BinOp)>,
    term: V,
    o: BinOp,
    env: Map<Seq<char>, V>,
    lit: spec_fn(NumeralView) -> V,
    ap: spec_fn(BinOp, V, V) -> V,
) -> (r: (Seq<Lex>, Seq<V>, Seq<Lex>))
    requires
        sealed(p),
        exec_front(out, seq![], env, lit, ap) == Some(pv + lv),
        sim(l, lv, sum, term, ap),
    ensures
        pop_yielding(p + l, out, o) == (p + r.0, r.2),
        exec_front(r.2, seq![], env, lit, ap) == Some(pv + r.1),
        o.rank() == 2 ==> sim(r.0, r.1, sum, term, ap),
        o.rank() == 2 ==> r.0.len() == if sum is Some { 1int } else { 0int },
        o.rank() != 2 ==> r.0 == Seq::<Lex>::empty() && r.1 == seq![close(sum, term, ap)],
    decreases l.len(),
{
    let base: int = if sum is Some { 1 } else { 0 };
    let st = p + l;
    if l.len() == base + 1 && l[base].lexeme is Operator && l[base].lexeme->Operator_0.rank() == 2
        && lv.len() == base + 2 && ap(l[base].lexeme->Operator_0, lv[base], lv[base + 1]) == term {
        let m = l.last();
        assert(st.last() == m);
        assert(st.drop_last() =~= p + l.drop_last());
        assert(pop_yielding(st, out, o) == pop_yielding(p + l.drop_last(), out.push(m), o));
        lemma_exec_push(out, m, seq![], env, lit, ap);
        let lv1 = lv.subrange(0, base).push(term);
        let vals = pv + lv;
        assert(vals.subrange(0, vals.len() - 2).push(
            ap(m.lexeme->Operator_0, vals[vals.len() - 2], vals.last()),
        ) =~= pv + lv1);
        assert(sim(l.drop_last(), lv1, sum, term, ap));
        lemma_pop_level(p, l.drop_last(), pv, lv1, out.push(m), sum, term, o, env, lit, ap)
    } else {
        assert(l.len() == base && lv.len() == base + 1 && lv[base] == term);
        match sum {
            None => {
                assert(l =~= Seq::<Lex>::empty());
                assert(st =~= p);
                assert(lv =~= seq![term]);
                (l, lv, out)
            },
            Some((sv, a)) => {
                assert(lv =~= seq![sv, term]);
                assert(st.last() == l[0]);
                if o.rank() == 2 {
                    (l, lv, out)
                } else {
                    let at = l[0];
                    assert(st.drop_last() =~= p + Seq::<Lex>::empty());
                    assert(p + Seq::<Lex>::empty() =~= p);
                    assert(pop_yielding(st, out, o) == pop_yielding(p, out.push(at), o));
                    lemma_exec_push(out, at, seq![], env, lit, ap);
                    let vals = pv + lv;
                    assert(vals.subrange(0, vals.len() - 2).push(
                        ap(a, vals[vals.len() - 2], vals.last()),
                    ) =~= pv + seq![ap(a, sv, term)]);
                    (Seq::<Lex>::empty(), seq![ap(a, sv, term)], out.push(at))
                }
            },
        }
    }
}

/// A closing parenthesis empties the current level and removes the `(`
/// under it, leaving the level's value on the value stack.
proof fn lemma_close_level<V>(
    p: Seq<Lex>,
    l: Seq<Lex>,
    pv: Seq<V>,
    lv: Seq<V>,
    out: Seq<Lex>,
    sum: Option<(V, BinOp)>,
    term: V,
    env: Map<Seq<char>, V>,
    lit: spec_fn(NumeralView) -> V,
    ap: spec_fn(BinOp, V, V) -> V,
) -> (out1: Seq<Lex>)
    requires
        p.len() > 0,
        p.last().lexeme is LeftParen,
        exec_front(out, seq![], env, lit, ap) == Some(pv + lv),
        sim(l, lv, sum, term, ap),
    ensures
        pop_to_left_paren(p + l, out) == Some((p.drop_last(), out1)),
        exec_front(out1, seq![], env, lit, ap) == Some(pv.push(close(sum, term, ap))),
    decreases l.len(),
{
    let base: int = if sum is Some { 1 } else { 0 };
    let st = p + l;
    if l.len() == base + 1 && l[base].lexeme is Operator && l[base].lexeme->Operator_0.rank() == 2
        && lv.len() == base + 2 && ap(l[base].lexeme->Operator_0, lv[base], lv[base + 1]) == term {
        let m = l.last();
        assert(st.last() == m);
        assert(st.drop_last() =~= p + l.drop_last());
        assert(pop_to_left_paren(st, out) == pop_to_left_paren(p + l.drop_last(), out.push(m)));
        lemma_exec_push(out, m, seq![], env, lit, ap);
        let lv1 = lv.subrange(0, base).push(term);
        let vals = pv + lv;
        assert(vals.subrange(0, vals.len() - 2).push(
            ap(m.lexeme->Operator_0, vals[vals.len() - 2], vals.last()),
        ) =~= pv + lv1);
        assert(sim(l.drop_last(), lv1, sum, term, ap));
        lemma_close_level(p, l.drop_last(), pv, lv1, out.push(m), sum, term, env, lit, ap)
    } else {
        match sum {
            None => {
                assert(l =~= Seq::<Lex>::empty());
                assert(st =~= p);
                assert(pop_to_left_paren(p, out) == Some((p.drop_last(), out)));
                assert(pv + lv =~= pv.push(term));
                out
            },
            Some((sv, a)) => {
                let at = l[0];
                assert(st.last() == at);
                assert(st.drop_last() =~= p);
                assert(pop_to_left_paren(st, out) == pop_to_left_paren(p, out.push(at)));
                assert(pop_to_left_paren(p, out.push(at)) == Some((p.drop_last(), out.push(at))));
                lemma_exec_push(out, at, seq![], env, lit, ap);
                let vals = pv + lv;
                assert(vals.subrange(0, vals.len() - 2).push(
                    ap(a, vals[vals.len() - 2], vals.last()),
                ) =~= pv.push(ap(a, sv, term)));
                out.push(at)
            },
        }
    }
}

/// A factor moves the shunting-yard state forward by pushing its value.
proof fn lemma_factor<V>(
    toks: Seq<Lex>,
    i: nat,
    stack: Seq<Lex>,
    out: Seq<Lex>,
    vals: Seq<V>,
    env: Map<Seq<char>, V>,
    lit: spec_fn(NumeralView) -> V,
    ap: spec_fn(BinOp, V, V) -> V,
) -> (out2: Seq<Lex>)
    requires
        parse_factor(toks, i, lit, ap) is Some,
        exec_front(out, seq![], env, lit, ap) == Some(vals),
    ensures
        shunt(toks.skip(i as int), stack, out) == shunt(
            toks.skip(parse_factor(toks, i, lit, ap)->Some_0.1 as int),
            stack,
            out2,
        ),
        exec_front(out2, seq![], env, lit, ap) == Some(
            vals.push(parse_factor(toks, i, lit, ap)->Some_0.0),
        ),
    decreases toks.len() - i, 0nat,
{
    let t = toks[i as int];
    assert(toks.skip(i as int)[0] == t);
    assert(toks.skip(i as int).drop_first() =~= toks.skip((i + 1) as int));
    match t.lexeme {
        Lexeme::Number(n) => {
            lemma_exec_push(out, t, seq![], env, lit, ap);
            out.push(t)
        },
        _ => {
            assert(t.lexeme is LeftParen);
            let ps = stack.push(t);
            assert(shunt(toks.skip(i as int), stack, out) == shunt(toks.skip((i + 1) as int), ps, out));
            let (v, j) = parse_expr(toks, i + 1, lit, ap)->Some_0;
            let r = lemma_expr(toks, i + 1, ps, vals, out, env, lit, ap);
            let out2 = lemma_close_level(ps, r.0, vals, r.1, r.4, r.2, r.3, env, lit, ap);
            assert(toks.skip(j as int)[0] == toks[j as int]);
            assert(toks.skip(j as int).drop_first() =~= toks.skip((j + 1) as int));
            assert(ps.drop_last() =~= stack);
            out2
        },
    }
}

/// An expression, processed on a sealed stack prefix, leaves one level on
/// top of it whose closed value is the expression's value.
proof fn lemma_expr<V>(
    toks: Seq<Lex>,
    i: nat,
    p: Seq<Lex>,
    pv: Seq<V>,
    out: Seq<Lex>,
    env: Map<Seq<char>, V>,
    lit: spec_fn(NumeralView) -> V,
    ap: spec_fn(BinOp, V, V) -> V,
) -> (r: (Seq<Lex>, Seq<V>, Option<(V, BinOp)>, V, Seq<Lex>))
    requires
        parse_expr(toks, i, lit, ap) is Some,
        sealed(p),
        exec_front(out, seq![], env, lit, ap) == Some(pv),
    ensures
        shunt(toks.skip(i as int), p, out) == shunt(
            toks.skip(parse_expr(toks, i, lit, ap)->Some_0.1 as int),
            p + r.0,
            r.4,
        ),
        exec_front(r.4, seq![], env, lit, ap) == Some(pv + r.1),
        sim(r.0, r.1, r.2, r.3, ap),
        close(r.2, r.3, ap) == parse_expr(toks, i, lit, ap)->Some_0.0,
    decreases toks.len() - i, 2nat,
{
    let (x, j) = parse_factor(toks, i, lit, ap)->Some_0;
    let out1 = lemma_factor(toks, i, p, out, pv, env, lit, ap);
    assert(p + Seq::<Lex>::empty() =~= p);
    assert(pv + seq![x] =~= pv.push(x));
    assert(sim(Seq::<Lex>::empty(), seq![x], None, x, ap));
    lemma_rest(toks, j, p, pv, Seq::<Lex>::empty(), seq![x], None, x, out1, env, lit, ap)
}

/// The operators and factors after a running sum and term.
proof fn lemma_rest<V>(
    toks: Seq<Lex>,
    j: nat,
    p: Seq<Lex>,
    pv: Seq<V>,
    l: Seq<Lex>,
    lv: Seq<V>,
    sum: Option<(V, BinOp)>,
    term: V,
    out: Seq<Lex>,
    env: Map<Seq<char>, V>,
    lit: spec_fn(NumeralView) -> V,
    ap: spec_fn(BinOp, V, V) -> V,
) -> (r: (Seq<Lex>, Seq<V>, Option<(V, BinOp)>, V, Seq<Lex>))
    requires
        expr_rest(toks, j, sum, term, lit, ap) is Some,
        sealed(p),
        exec_front(out, seq![], env, lit, ap) == Some(pv + lv),
        sim(l, lv, sum, term, ap),
    ensures
        shunt(toks.skip(j as int), p + l, out) == shunt(
            toks.skip(expr_rest(toks, j, sum, term, lit, ap)->Some_0.1 as int),
            p + r.0,
            r.4,
        ),
        exec_front(r.4, seq![], env, lit, ap) == Some(pv + r.1),
        sim(r.0, r.1, r.2, r.3, ap),
        close(r.2, r.3, ap) == expr_rest(toks, j, sum, term, lit, ap)->Some_0.0,
    decreases toks.len() - j, 1nat,
{
    if j < toks.len() && toks[j as int].lexeme is Operator {
        let o_tok = toks[j as int];
        let o = o_tok.lexeme->Operator_0;
        let (x, k) = parse_factor(toks, j + 1, lit, ap)->Some_0;
        let (l1, lv1, out1) = lemma_pop_level(p, l, pv, lv, out, sum, term, o, env, lit, ap);
        assert(toks.skip(j as int)[0] == o_tok);
        assert(toks.skip(j as int).drop_first() =~= toks.skip((j + 1) as int));
        let stack2 = (p + l1).push(o_tok);
        assert(shunt(toks.skip(j as int), p + l, out) == shunt(toks.skip((j + 1) as int), stack2, out1));
        let out2 = lemma_factor(toks, j + 1, stack2, out1, pv + lv1, env, lit, ap);
        let l2 = l1.push(o_tok);
        let lv2 = lv1.push(x);
        assert(stack2 =~= p + l2);
        assert((pv + lv1).push(x) =~= pv + lv2);
        if o.rank() == 2 {
            assert(sim(l2, lv2, sum, ap(o, term, x), ap));
            lemma_rest(toks, k, p, pv, l2, lv2, sum, ap(o, term, x), out2, env, lit, ap)
        } else {
            let sum2 = Some((close(sum, term, ap), o));
            assert(sim(l2, lv2, sum2, x, ap));
            lemma_rest(toks, k, p, pv, l2, lv2, sum2, x, out2, env, lit, ap)
        }
    } else {
        (l, lv, sum, term, out)
    }
}

/// Parsing to postfix and evaluating gives the value of standard arithmetic
/// for every expression of literals, operators and parentheses: what is in
/// parentheses first, then `*` and `/`, then `+` and `-`, operators of equal
/// precedence from left to right.
pub proof fn lemma_standard_arithmetic<V>(
    toks: Seq<Lex>,
    env: Map<Seq<char>, V>,
    lit: spec_fn(NumeralView) -> V,
    ap: spec_fn(BinOp, V, V) -> V,
)
    requires
        parse_expr(toks, 0, lit, ap) is Some,
        parse_expr(toks, 0, lit, ap)->Some_0.1 == toks.len(),
    ensures
        postfix_spec(toks) is Ok,
        expression_value(toks, env, lit, ap) == Ok::<V, ParseError>(
            parse_expr(toks, 0, lit, ap)->Some_0.0,
        ),
{
    let r = lemma_expr(toks, 0, Seq::<Lex>::empty(), Seq::<V>::empty(), Seq::<Lex>::empty(), env, lit, ap);
    assert(toks.skip(0) =~= toks);
    assert(toks.skip(toks.len() as int) =~= Seq::<Lex>::empty());
    assert(Seq::<Lex>::empty() + r.0 =~= r.0);
    assert(Seq::<V>::empty() + r.1 =~= r.1);
    lemma_flush_sim(r.0, r.4, r.1, r.2, r.3, env, lit, ap);
    let pf = flush(r.0, r.4)->Ok_0;
    lemma_run_from_exec(pf, seq![], parse_expr(toks, 0, lit, ap)->Some_0.0, env, lit, ap);
}

/// No token of a parsed factor is a statement separator.
proof fn lemma_factor_tokens<V>(
    toks: Seq<Lex>,
    i: nat,
    lit: spec_fn(NumeralView) -> V,
    ap: spec_fn(BinOp, V, V) -> V,
)
    requires
        parse_factor(toks, i, lit, ap) is Some,
    ensures
        forall|k: int|
            i <= k < parse_factor(toks, i, lit, ap)->Some_0.1 ==> !((#[trigger] toks[k]).lexeme is Separator),
    decreases toks.len() - i, 0nat,
{
    if toks[i as int].lexeme is LeftParen {
        lemma_expr_tokens(toks, i + 1, lit, ap);
    }
}

proof fn lemma_expr_tokens<V>(
    toks: Seq<Lex>,
    i: nat,
    lit: spec_fn(NumeralView) -> V,
    ap: spec_fn(BinOp, V, V) -> V,
)
    requires
        parse_expr(toks, i, lit, ap) is Some,
    ensures
        forall|k: int|
            i <= k < parse_expr(toks, i, lit, ap)->Some_0.1 ==> !((#[trigger] toks[k]).lexeme is Separator),
    decreases toks.len() - i, 2nat,
{
    let (x, j) = parse_factor(toks, i, lit, ap)->Some_0;
    lemma_factor_tokens(toks, i, lit, ap);
    lemma_rest_tokens(toks, j, None, x, lit, ap);
}

proof fn lemma_rest_tokens<V>(
    toks: Seq<Lex>,
    j: nat,
    sum: Option<(V, BinOp)>,
    term: V,
    lit: spec_fn(NumeralView) -> V,
    ap: spec_fn(BinOp, V, V) -> V,
)
    requires
        expr_rest(toks, j, sum, term, lit, ap) is Some,
    ensures
        forall|k: int|
            j <= k < expr_rest(toks, j, sum, term, lit, ap)->Some_0.1 ==> !(
            (#[trigger] toks[k]).lexeme is Separator),
    decreases toks.len() - j, 1nat,
{
    if j < toks.len() && toks[j as int].lexeme is Operator {
        let o = toks[j as int].lexeme->Operator_0;
        let (x, k) = parse_factor(toks, j + 1, lit, ap)->Some_0;
        lemma_factor_tokens(toks, j + 1, lit, ap);
        if o.rank() == 2 {
            lemma_rest_tokens(toks, k, sum, ap(o, term, x), lit, ap);
        } else {
            lemma_rest_tokens(toks, k, Some((close(sum, term, ap), o)), x, lit, ap);
        }
    }
}

proof fn lemma_statements_single(ts: Seq<Lex>)
    requires
        forall|i: int| 0 <= i < ts.len() ==> !((#[trigger] ts[i]).lexeme is Separator),
    ensures
        statements(ts) == seq![ts],
    decreases ts.len(),
{
    if ts.len() > 0 {
        lemma_statements_single(ts.drop_last());
        assert(ts.last().lexeme !is Separator);
        assert(ts.drop_last().push(ts.last()) =~= ts);
        assert(seq![ts.drop_last()].update(0, ts) =~= seq![ts]);
    } else {
        assert(ts =~= seq![]);
    }
}

/// A program that is one expression of literals, operators and parentheses
/// evaluates to the value of standard arithmetic.
pub proof fn lemma_standard_program<V>(
    src: Seq<char>,
    lit: spec_fn(NumeralView) -> V,
    ap: spec_fn(BinOp, V, V) -> V,
)
    requires
        lex_spec(src) is Ok,
        parse_expr(lex_spec(src)->Ok_0, 0, lit, ap) is Some,
        parse_expr(lex_spec(src)->Ok_0, 0, lit, ap)->Some_0.1 == lex_spec(src)->Ok_0.len(),
    ensures
        program_value(src, lit, ap) == Ok::<V, ParseError>(
            parse_expr(lex_spec(src)->Ok_0, 0, lit, ap)->Some_0.0,
        ),
{
    let toks = lex_spec(src)->Ok_0;
    lemma_expr_tokens(toks, 0, lit, ap);
    lemma_statements_single(toks);
    let segs = statements(toks);
    assert(toks.len() > 0);
    assert(toks[0].lexeme is Number || toks[0].lexeme is LeftParen);
    assert(!is_assignment(segs.last()));
    assert(is_program(segs));
    assert(segs.drop_last() =~= Seq::<Seq<Lex>>::empty());
    assert(bind_all(segs.drop_last(), lit, ap) == Ok::<Map<Seq<char>, V>, ParseError>(Map::empty()));
    lemma_standard_arithmetic(toks, Map::empty(), lit, ap);
}

} // verus!
