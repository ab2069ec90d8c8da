use vstd::prelude::*;

use crate::eval::{apply_fn, apply_ok, evaluate, literal_fn, literal_ok, postfix_value};
use crate::lexer::{lex_spec, tokenize};
use crate::operator::BinOp;
use crate::parser::{parse_to_postfix, postfix_spec};
use crate::symbols::SymbolTable;
use crate::token::{
    error_of, lemma_lexes_push, lexes, ErrorKind, Lex, Numeral, NumeralView, ParseError,
    Token, TokenType,
};

verus! {

/// The statements of a token sequence: the runs of tokens between `;`
/// separators. There is always at least one, possibly empty.
pub open spec fn statements(ts: Seq<Lex>) -> Seq<Seq<Lex>>
    decreases ts.len(),
{
    if ts.len() == 0 {
        seq![seq![]]
    } else {
        let segs = statements(ts.drop_last());
        if ts.last().lexeme is Separator {
            segs.push(seq![])
        } else {
            segs.update(segs.len() - 1, segs.last().push(ts.last()))
        }
    }
}

pub proof fn lemma_statements_nonempty(ts: Seq<Lex>)
    ensures
        statements(ts).len() >= 1,
    decreases ts.len(),
{
    if ts.len() > 0 {
        lemma_statements_nonempty(ts.drop_last());
    }
}

/// A statement of the form `identifier = ...`.
pub open spec fn is_assignment(st: Seq<Lex>) -> bool {
    st.len() >= 2 && st[0].lexeme is Identifier && st[1].lexeme is Assign
}

pub open spec fn assigned_name(st: Seq<Lex>) -> Seq<char> {
    st[0].lexeme->Identifier_0
}

/// Assignments followed by exactly one expression, which comes last. An
/// empty statement is no expression.
pub open spec fn is_program(segs: Seq<Seq<Lex>>) -> bool {
    &&& segs.len() >= 1
    &&& forall|i: int| 0 <= i < segs.len() - 1 ==> is_assignment(#[trigger] segs[i])
    &&& segs.last().len() > 0
    &&& !is_assignment(segs.last())
}

/// The value of an expression's tokens under the bindings `env`.
pub open spec fn expression_value<V>(
    toks: Seq<Lex>,
    env: Map<Seq<char>, V>,
    lit: spec_fn(NumeralView) -> V,
    ap: spec_fn(BinOp, V, V) -> V,
) -> Result<V, ParseError> {
    match postfix_spec(toks) {
        Ok(pf) => postfix_value(pf, env, lit, ap),
        Err(e) => Err(e),
    }
}

/// The bindings made by a list of assignment statements, each evaluated with
/// the bindings made before it.
pub open spec fn bind_all<V>(
    assigns: Seq<Seq<Lex>>,
    lit: spec_fn(NumeralView) -> V,
    ap: spec_fn(BinOp, V, V) -> V,
) -> Result<Map<Seq<char>, V>, ParseError>
    decreases assigns.len(),
{
    if assigns.len() == 0 {
        Ok(Map::empty())
    } else {
        match bind_all(assigns.drop_last(), lit, ap) {
            Ok(env) => match expression_value(assigns.last().skip(2), env, lit, ap) {
                Ok(v) => Ok(env.insert(assigned_name(assigns.last()), v)),
                Err(e) => Err(e),
            },
            Err(e) => Err(e),
        }
    }
}

/// The result of a whole program: its tokens, split into statements, must be
/// assignments followed by one expression; the assignments bind in order and
/// the expression's value is the result.
pub open spec fn program_value<V>(
    src: Seq<char>,
    lit: spec_fn(NumeralView) -> V,
    ap: spec_fn(BinOp, V, V) -> V,
) -> Result<V, ParseError> {
    match lex_spec(src) {
        Err(e) => Err(e),
        Ok(ts) => {
            let segs = statements(ts);
            if !is_program(segs) {
                Err(error_of(ErrorKind::MalformedProgram))
            } else {
                match bind_all(segs.drop_last(), lit, ap) {
                    Ok(env) => expression_value(segs.last(), env, lit, ap),
                    Err(e) => Err(e),
                }
            }
        },
    }
}

/// Once an assignment fails, the whole list fails with the same error.
pub proof fn lemma_bind_all_error<V>(
    assigns: Seq<Seq<Lex>>,
    k: int,
    lit: spec_fn(NumeralView) -> V,
    ap: spec_fn(BinOp, V, V) -> V,
)
    requires
        0 <= k <= assigns.len(),
        bind_all(assigns.take(k), lit, ap) is Err,
    ensures
        bind_all(assigns, lit, ap) == bind_all(assigns.take(k), lit, ap),
    decreases assigns.len(),
{
    if k == assigns.len() {
        assert(assigns.take(k) =~= assigns);
    } else {
        assert(assigns.drop_last().take(k) =~= assigns.take(k));
        lemma_bind_all_error(assigns.drop_last(), k, lit, ap);
    }
}

pub open spec fn segment_lexes(segs: Seq<Vec<Token>>) -> Seq<Seq<Lex>> {
    segs.map_values(|v: Vec<Token>| lexes(v@))
}

/// Splits tokens into statements at each `;`.
pub fn split_statements(tokens: &Vec<Token>) -> (r: Vec<Vec<Token>>)
    ensures
        segment_lexes(r@) == statements(lexes(tokens@)),
{
    let ghost toks = lexes(tokens@);
    let mut segs: Vec<Vec<Token>> = Vec::new();
    let mut cur: Vec<Token> = Vec::new();
    let mut i: usize = 0;
    assert(toks.take(0) =~= seq![]);
    assert(lexes(cur@) =~= seq![]);
    assert(segment_lexes(segs@) =~= seq![]);
    assert(segment_lexes(segs@).push(lexes(cur@)) =~= seq![seq![]]);
    while i < tokens.len()
        invariant
            toks == lexes(tokens@),
            i <= tokens@.len(),
            statements(toks.take(i as int)) == segment_lexes(segs@).push(lexes(cur@)),
        decreases tokens@.len() - i,
    {
        let t = tokens[i].clone();
        assert(toks.take(i + 1).drop_last() =~= toks.take(i as int));
        assert(toks.take(i + 1).last() == t@);
        if matches!(t.token_type, TokenType::Separator) {
            let ghost before = segs@;
            let done = cur;
            segs.push(done);
            cur = Vec::new();
            assert(segment_lexes(segs@) =~= segment_lexes(before).push(lexes(done@)));
            assert(lexes(cur@) =~= seq![]);
        } else {
            let ghost before = cur@;
            proof {
                lemma_lexes_push(cur@, t);
            }
            cur.push(t);
            assert(segment_lexes(segs@).push(lexes(cur@)) =~= segment_lexes(segs@).push(
                lexes(before),
            ).update(segs@.len() as int, lexes(before).push(t@)));
        }
        i += 1;
    }
    assert(toks.take(i as int) =~= toks);
    let ghost before = segs@;
    let last = cur;
    segs.push(last);
    assert(segment_lexes(segs@) =~= segment_lexes(before).push(lexes(last@)));
    segs
}

fn is_assignment_statement(st: &Vec<Token>) -> (r: bool)
    ensures
        r == is_assignment(lexes(st@)),
{
    st.len() >= 2 && matches!(st[0].token_type, TokenType::Identifier(_)) && matches!(
        st[1].token_type,
        TokenType::Assign,
    )
}

/// The tokens of `st` from position `k` on.
fn tail_from(st: &Vec<Token>, k: usize) -> (r: Vec<Token>)
    requires
        k <= st@.len(),
    ensures
        lexes(r@) == lexes(st@).skip(k as int),
{
    let mut r: Vec<Token> = Vec::new();
    let mut i = k;
    while i < st.len()
        invariant
            k <= i <= st@.len(),
            lexes(r@) == lexes(st@).subrange(k as int, i as int),
        decreases st@.len() - i,
    {
        let t = st[i].clone();
        proof {
            lemma_lexes_push(r@, t);
        }
        r.push(t);
        assert(lexes(st@).subrange(k as int, i + 1) =~= lexes(st@).subrange(k as int, i as int).push(
            t@,
        ));
        i += 1;
    }
    assert(lexes(st@).subrange(k as int, i as int) =~= lexes(st@).skip(k as int));
    r
}

/// Parses the tokens of one expression to postfix form and evaluates it.
pub fn eval_expression<V: Copy, L: Fn(&Numeral) -> V, A: Fn(BinOp, V, V) -> V>(
    tokens: &Vec<Token>,
    symbols: &SymbolTable<V>,
    literal: &L,
    apply: &A,
) -> (r: Result<V, ParseError>)
    requires
        literal_ok(*literal),
        apply_ok(*apply),
    ensures
        r == expression_value(lexes(tokens@), symbols@, literal_fn(*literal), apply_fn(*apply)),
{
    match parse_to_postfix(tokens) {
        Ok(postfix) => evaluate(&postfix, symbols, literal, apply),
        Err(e) => Err(e),
    }
}

/// Compiles and runs one program of the arithmetic language.
pub struct Compiler {
    source: String,
}

impl Compiler {
    pub closed spec fn source(&self) -> Seq<char> {
        self.source@
    }

    pub fn new(src: &str) -> (r: Self)
        ensures
            r.source() == src@,
    {
        Compiler { source: String::from_str(src) }
    }

    /// Runs the program: tokenizes it, splits it into statements, binds each
    /// assignment in order and returns the value of the final expression.
    /// `literal` turns numerals into values and `apply` computes each
    /// operator, as `apply(op, left, right)`.
    pub fn run<V: Copy, L: Fn(&Numeral) -> V, A: Fn(BinOp, V, V) -> V>(
        self,
        literal: &L,
        apply: &A,
    ) -> (r: Result<V, ParseError>)
        requires
            literal_ok(*literal),
            apply_ok(*apply),
        ensures
            r == program_value(self.source(), literal_fn(*literal), apply_fn(*apply)),
    {
        let ghost lit = literal_fn(*literal);
        let ghost ap = apply_fn(*apply);
        let tokens = match tokenize(self.source.as_str()) {
            Ok(ts) => ts,
            Err(e) => {
                return Err(e);
            },
        };
        let segs = split_statements(&tokens);
        let ghost sv = segment_lexes(segs@);
        let ghost src = self.source();
        assert(lex_spec(src) == Ok::<Seq<Lex>, ParseError>(lexes(tokens@)));
        proof {
            lemma_statements_nonempty(lexes(tokens@));
        }
        let n = segs.len();
        let mut j: usize = 0;
        while j + 1 < n
            invariant
                n == segs@.len(),
                n >= 1,
                sv == segment_lexes(segs@),
                sv == statements(lexes(tokens@)),
                lex_spec(src) == Ok::<Seq<Lex>, ParseError>(lexes(tokens@)),
                src == self.source(),
                j < n,
                forall|k: int| 0 <= k < j ==> is_assignment(#[trigger] sv[k]),
            decreases n - j,
        {
            if !is_assignment_statement(&segs[j]) {
                assert(sv[j as int] == lexes(segs@[j as int]@));
                assert(!is_program(sv));
                return Err(ParseError::new(ErrorKind::MalformedProgram, None));
            }
            j += 1;
        }
        if segs[n - 1].len() == 0 || is_assignment_statement(&segs[n - 1]) {
            return Err(ParseError::new(ErrorKind::MalformedProgram, None));
        }
        assert(is_program(sv));
        let mut symbols: SymbolTable<V> = SymbolTable::new();
        let mut i: usize = 0;
        assert(sv.take(0) =~= seq![]);
        while i + 1 < n
            invariant
                n == segs@.len(),
                n >= 1,
                sv == segment_lexes(segs@),
                sv == statements(lexes(tokens@)),
                lex_spec(src) == Ok::<Seq<Lex>, ParseError>(lexes(tokens@)),
                src == self.source(),
                is_program(sv),
                i < n,
                lit == literal_fn(*literal),
                ap == apply_fn(*apply),
                literal_ok(*literal),
                apply_ok(*apply),
                bind_all(sv.take(i as int), lit, ap) == Ok::<Map<Seq<char>, V>, ParseError>(
                    symbols@,
                ),
            decreases n - i,
        {
            let st = &segs[i];
            assert(sv.take(i + 1).drop_last() =~= sv.take(i as int));
            assert(sv.take(i + 1).last() == lexes(st@));
            assert(is_assignment(sv[i as int]));
            let expr = tail_from(st, 2);
            let v = match eval_expression(&expr, &symbols, literal, apply) {
                Ok(v) => v,
                Err(e) => {
                    proof {
                        assert(sv.drop_last().take(i + 1) =~= sv.take(i + 1));
                        assert(bind_all(sv.take(i + 1), lit, ap) == Err::<Map<Seq<char>, V>, ParseError>(e));
                        lemma_bind_all_error(sv.drop_last(), i + 1, lit, ap);
                    }
                    return Err(e);
                },
            };
            match &st[0].token_type {
                TokenType::Identifier(id) => {
                    symbols.add(id.as_str(), v);
                },
                _ => {
                    proof {
                        assert(false);
                    }
                },
            }
            i += 1;
        }
        assert(sv.take(i as int) =~= sv.drop_last());
        eval_expression(&segs[n - 1], &symbols, literal, apply)
    }
}

} // verus!
