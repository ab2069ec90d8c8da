use vstd::prelude::*;

use crate::compiler::{assigned_name, bind_all, expression_value, program_value, Compiler};
use crate::lexer::{digit_run_end, is_digit, lex_from, lex_spec};
use crate::operator::BinOp;
use crate::token::{Lex, Lexeme, NumeralView, ParseError};

verus! {

/// A second binding of a name replaces the first: looking the name up
/// afterwards gives the later value.
pub proof fn lemma_later_binding_wins<O>(table: Map<Seq<char>, O>, id: Seq<char>, first: O, second: O)
    ensures
        table.insert(id, first).insert(id, second).contains_key(id),
        table.insert(id, first).insert(id, second)[id] == second,
{
}

/// Within a run, the name of the last assignment is bound to the value of
/// that assignment's expression, whatever earlier assignments bound it to.
pub proof fn lemma_later_assignment_wins<V>(
    assigns: Seq<Seq<Lex>>,
    lit: spec_fn(NumeralView) -> V,
    ap: spec_fn(BinOp, V, V) -> V,
)
    requires
        assigns.len() > 0,
        bind_all(assigns, lit, ap) is Ok,
    ensures
        bind_all(assigns.drop_last(), lit, ap) is Ok,
        bind_all(assigns, lit, ap)->Ok_0.contains_key(assigned_name(assigns.last())),
        expression_value(
            assigns.last().skip(2),
            bind_all(assigns.drop_last(), lit, ap)->Ok_0,
            lit,
            ap,
        ) == Ok::<V, ParseError>(bind_all(assigns, lit, ap)->Ok_0[assigned_name(assigns.last())]),
{
}

/// Running is repeatable: two compilers made from the same source text give
/// the same outcome with the same routines, since the outcome is a function
/// of the source alone.
pub proof fn lemma_run_repeatable<V>(
    first: Compiler,
    second: Compiler,
    lit: spec_fn(NumeralView) -> V,
    ap: spec_fn(BinOp, V, V) -> V,
)
    requires
        first.source() == second.source(),
    ensures
        program_value(first.source(), lit, ap) == program_value(second.source(), lit, ap),
{
}

proof fn lemma_all_digits_run(s: Seq<char>, i: nat)
    requires
        i <= s.len(),
        forall|k: int| 0 <= k < s.len() ==> is_digit(#[trigger] s[k]),
    ensures
        digit_run_end(s, i) == s.len(),
    decreases s.len() - i,
{
    if i < s.len() {
        lemma_all_digits_run(s, i + 1);
    }
}

/// A numeral made of digits alone becomes one number token whose text is the
/// numeral itself.
pub proof fn lemma_digits_round_trip(s: Seq<char>)
    requires
        s.len() > 0,
        forall|k: int| 0 <= k < s.len() ==> is_digit(#[trigger] s[k]),
    ensures
        lex_spec(s) == Ok::<Seq<Lex>, ParseError>(
            seq![Lex { lexeme: Lexeme::Number(NumeralView { whole: s, fraction: None }), column: 1 }],
        ),
        (NumeralView { whole: s, fraction: None }).text() == s,
{
    lemma_all_digits_run(s, 0);
    assert(s.subrange(0, s.len() as int) =~= s);
    assert(lex_from(s, s.len()) == Ok::<Seq<Lex>, ParseError>(seq![]));
    let l = Lex { lexeme: Lexeme::Number(NumeralView { whole: s, fraction: None }), column: 1 };
    assert(seq![l] + seq![] =~= seq![l]);
}

} // verus!
