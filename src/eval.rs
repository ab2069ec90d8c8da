use vstd::prelude::*;

use crate::operator::BinOp;
use crate::symbols::SymbolTable;
use crate::token::{error_at, error_of, lexes, ErrorKind, Lex, Lexeme, Numeral, NumeralView, ParseError, Token, TokenType};

verus! {

/// A literal conversion that accepts every numeral and whose result depends
/// only on the numeral's digits.
pub open spec fn literal_ok<V, L: Fn(&Numeral) -> V>(literal: L) -> bool {
    &&& forall|m: &Numeral| call_requires(literal, (m,))
    &&& forall|m1: &Numeral, m2: &Numeral, r1: V, r2: V|
        m1@ == m2@ && #[trigger] call_ensures(literal, (m1,), r1) && #[trigger] call_ensures(
            literal,
            (m2,),
            r2,
        ) ==> r1 == r2
}

/// Arithmetic routines that accept every pair of operands and return one
/// result for each.
pub open spec fn apply_ok<V, A: Fn(BinOp, V, V) -> V>(apply: A) -> bool {
    &&& forall|op: BinOp, x: V, y: V| call_requires(apply, (op, x, y))
    &&& forall|op: BinOp, x: V, y: V, r1: V, r2: V|
        #[trigger] call_ensures(apply, (op, x, y), r1) && #[trigger] call_ensures(
            apply,
            (op, x, y),
            r2,
        ) ==> r1 == r2
}

/// Whether `literal` may return `r` for a numeral that reads `n`.
pub open spec fn literal_yields<V, L: Fn(&Numeral) -> V>(literal: L, n: NumeralView, r: V) -> bool {
    exists|m: &Numeral| m@ == n && #[trigger] call_ensures(literal, (m,), r)
}

/// The value that `literal` gives a numeral.
pub open spec fn literal_fn<V, L: Fn(&Numeral) -> V>(literal: L) -> spec_fn(NumeralView) -> V {
    |n: NumeralView| choose|r: V| #[trigger] literal_yields(literal, n, r)
}

/// The value that `apply` gives an operator and its two operands.
pub open spec fn apply_fn<V, A: Fn(BinOp, V, V) -> V>(apply: A) -> spec_fn(BinOp, V, V) -> V {
    |op: BinOp, x: V, y: V| choose|r: V| call_ensures(apply, (op, x, y), r)
}

/// Runs a postfix token sequence on a value stack. Numbers and identifiers
/// push their values; an operator pops its right operand, then its left one,
/// and pushes `ap(op, left, right)`. Exactly one value must remain.
pub open spec fn run_postfix<V>(
    toks: Seq<Lex>,
    stack: Seq<V>,
    env: Map<Seq<char>, V>,
    lit: spec_fn(NumeralView) -> V,
    ap: spec_fn(BinOp, V, V) -> V,
) -> Result<V, ParseError>
    decreases toks.len(),
{
    if toks.len() == 0 {
        if stack.len() == 1 {
            Ok(stack[0])
        } else {
            Err(error_of(ErrorKind::IllFormedExpression))
        }
    } else {
        let t = toks[0];
        let rest = toks.drop_first();
        match t.lexeme {
            Lexeme::Number(n) => run_postfix(rest, stack.push(lit(n)), env, lit, ap),
            Lexeme::Identifier(id) => if env.contains_key(id) {
                run_postfix(rest, stack.push(env[id]), env, lit, ap)
            } else {
                Err(error_at(ErrorKind::UndefinedVariable, t.column))
            },
            Lexeme::Operator(op) => if stack.len() >= 2 {
                let x = stack[stack.len() - 2];
                let y = stack.last();
                run_postfix(
                    rest,
                    stack.subrange(0, stack.len() - 2).push(ap(op, x, y)),
                    env,
                    lit,
                    ap,
                )
            } else {
                Err(error_of(ErrorKind::IllFormedExpression))
            },
            _ => Err(error_at(ErrorKind::IllFormedExpression, t.column)),
        }
    }
}

/// The value of a postfix token sequence.
pub open spec fn postfix_value<V>(
    toks: Seq<Lex>,
    env: Map<Seq<char>, V>,
    lit: spec_fn(NumeralView) -> V,
    ap: spec_fn(BinOp, V, V) -> V,
) -> Result<V, ParseError> {
    run_postfix(toks, seq![], env, lit, ap)
}

fn convert_literal<V, L: Fn(&Numeral) -> V>(literal: &L, n: &Numeral) -> (r: V)
    requires
        literal_ok(*literal),
    ensures
        r == literal_fn(*literal)(n@),
{
    let r = literal(n);
    proof {
        let f = literal_fn(*literal);
        assert(literal_yields(*literal, n@, r));
        let c = f(n@);
        let m = choose|m: &Numeral| m@ == n@ && call_ensures(*literal, (m,), c);
        assert(call_ensures(*literal, (m,), c));
    }
    r
}

fn apply_op<V, A: Fn(BinOp, V, V) -> V>(apply: &A, op: BinOp, x: V, y: V) -> (r: V)
    requires
        apply_ok(*apply),
    ensures
        r == apply_fn(*apply)(op, x, y),
{
    let r = apply(op, x, y);
    proof {
        assert(call_ensures(*apply, (op, x, y), r));
        let c = apply_fn(*apply)(op, x, y);
        assert(call_ensures(*apply, (op, x, y), c));
    }
    r
}

/// Evaluates a postfix token sequence, resolving identifiers in `symbols`,
/// converting numerals with `literal` and computing each operator with
/// `apply(op, left, right)`.
pub fn evaluate<V: Copy, L: Fn(&Numeral) -> V, A: Fn(BinOp, V, V) -> V>(
    postfix: &Vec<Token>,
    symbols: &SymbolTable<V>,
    literal: &L,
    apply: &A,
) -> (r: Result<V, ParseError>)
    requires
        literal_ok(*literal),
        apply_ok(*apply),
    ensures
        r == postfix_value(lexes(postfix@), symbols@, literal_fn(*literal), apply_fn(*apply)),
{
    let ghost toks = lexes(postfix@);
    let ghost lit = literal_fn(*literal);
    let ghost ap = apply_fn(*apply);
    let mut stack: Vec<V> = Vec::new();
    let mut i: usize = 0;
    assert(toks.skip(0) =~= toks);
    while i < postfix.len()
        invariant
            toks == lexes(postfix@),
            lit == literal_fn(*literal),
            ap == apply_fn(*apply),
            literal_ok(*literal),
            apply_ok(*apply),
            i <= postfix@.len(),
            run_postfix(toks.skip(i as int), stack@, symbols@, lit, ap) == postfix_value(
                toks,
                symbols@,
                lit,
                ap,
            ),
        decreases postfix@.len() - i,
    {
        let t = &postfix[i];
        assert(toks.skip(i as int).drop_first() =~= toks.skip(i + 1));
        assert(toks.skip(i as int)[0] == t@);
        match &t.token_type {
            TokenType::Number(n) => {
                let v = convert_literal(literal, n);
                stack.push(v);
            },
            TokenType::Identifier(id) => {
                match symbols.lookup(id.as_str()) {
                    Some(v) => stack.push(*v),
                    None => {
                        return Err(ParseError::new(ErrorKind::UndefinedVariable, Some(t.column)));
                    },
                }
            },
            TokenType::Operator(op) => {
                if stack.len() < 2 {
                    return Err(ParseError::new(ErrorKind::IllFormedExpression, None));
                }
                let ghost before = stack@;
                let y = stack.pop().unwrap();
                let x = stack.pop().unwrap();
                assert(stack@ =~= before.subrange(0, before.len() - 2));
                let v = apply_op(apply, *op, x, y);
                stack.push(v);
            },
            _ => {
                return Err(ParseError::new(ErrorKind::IllFormedExpression, Some(t.column)));
            },
        }
        i += 1;
    }
    if stack.len() == 1 {
        Ok(stack[0])
    } else {
        Err(ParseError::new(ErrorKind::IllFormedExpression, None))
    }
}

} // verus!
