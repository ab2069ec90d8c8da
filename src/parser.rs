use vstd::prelude::*;

use crate::lexer::lexed;
use crate::operator::BinOp;
use crate::token::{
    error_at, lemma_lexes_pop, lemma_lexes_push, lexes, ErrorKind, Lex, Lexeme, ParseError, Token,
    TokenType,
};

verus! {

/// Whether the stack entry `top` is an operator that binds at least as
/// tightly as the incoming `op`, and so must leave the stack first.
pub open spec fn yields_to(top: Lex, op: BinOp) -> bool {
    match top.lexeme {
        Lexeme::Operator(o) => o.rank() >= op.rank(),
        _ => false,
    }
}

/// Moves operators from the top of `stack` to `out` while they yield to `op`.
pub open spec fn pop_yielding(stack: Seq<Lex>, out: Seq<Lex>, op: BinOp) -> (Seq<Lex>, Seq<Lex>)
    decreases stack.len(),
{
    if stack.len() > 0 && yields_to(stack.last(), op) {
        pop_yielding(stack.drop_last(), out.push(stack.last()), op)
    } else {
        (stack, out)
    }
}

/// Moves operators to `out` down to the nearest left parenthesis, which is
/// dropped; `None` when the stack holds no left parenthesis.
pub open spec fn pop_to_left_paren(stack: Seq<Lex>, out: Seq<Lex>) -> Option<(Seq<Lex>, Seq<Lex>)>
    decreases stack.len(),
{
    if stack.len() == 0 {
        None
    } else if stack.last().lexeme is LeftParen {
        Some((stack.drop_last(), out))
    } else {
        pop_to_left_paren(stack.drop_last(), out.push(stack.last()))
    }
}

/// Empties the stack onto `out` at the end of the input; a left parenthesis
/// still on it was never closed.
pub open spec fn flush(stack: Seq<Lex>, out: Seq<Lex>) -> Result<Seq<Lex>, ParseError>
    decreases stack.len(),
{
    if stack.len() == 0 {
        Ok(out)
    } else if stack.last().lexeme is LeftParen {
        Err(error_at(ErrorKind::UnclosedParenthesis, stack.last().column))
    } else {
        flush(stack.drop_last(), out.push(stack.last()))
    }
}

/// The postfix form that the shunting-yard algorithm gives `toks`, given
/// the operator stack and the output built so far.
pub open spec fn shunt(toks: Seq<Lex>, stack: Seq<Lex>, out: Seq<Lex>) -> Result<
    Seq<Lex>,
    ParseError,
>
    decreases toks.len(),
{
    if toks.len() == 0 {
        flush(stack, out)
    } else {
        let t = toks[0];
        let rest = toks.drop_first();
        match t.lexeme {
            Lexeme::Number(_) | Lexeme::Identifier(_) => shunt(rest, stack, out.push(t)),
            Lexeme::Operator(op) => {
                let (st, o) = pop_yielding(stack, out, op);
                shunt(rest, st.push(t), o)
            },
            Lexeme::LeftParen => shunt(rest, stack.push(t), out),
            Lexeme::RightParen => match pop_to_left_paren(stack, out) {
                Some((st, o)) => shunt(rest, st, o),
                None => Err(error_at(ErrorKind::MismatchedParenthesis, t.column)),
            },
            _ => Err(error_at(ErrorKind::UnexpectedToken, t.column)),
        }
    }
}

/// The postfix (reverse Polish) form of an expression's tokens.
pub open spec fn postfix_spec(toks: Seq<Lex>) -> Result<Seq<Lex>, ParseError> {
    shunt(toks, seq![], seq![])
}

fn top_yields_to(stack: &Vec<Token>, op: BinOp) -> (r: bool)
    ensures
        r == (stack@.len() > 0 && yields_to(stack@.last()@, op)),
{
    if stack.len() == 0 {
        false
    } else {
        match &stack[stack.len() - 1].token_type {
            TokenType::Operator(o) => !op.has_greater_precedence_than(o),
            _ => false,
        }
    }
}

fn top_is_left_paren(stack: &Vec<Token>) -> (r: bool)
    requires
        stack@.len() > 0,
    ensures
        r == (stack@.last()@.lexeme is LeftParen),
{
    matches!(stack[stack.len() - 1].token_type, TokenType::LeftParen)
}

/// Moves the top of `from` onto the end of `to`.
fn move_top(from: &mut Vec<Token>, to: &mut Vec<Token>)
    requires
        old(from)@.len() > 0,
    ensures
        lexes(final(from)@) == lexes(old(from)@).drop_last(),
        lexes(final(to)@) == lexes(old(to)@).push(lexes(old(from)@).last()),
        final(from)@.len() == old(from)@.len() - 1,
{
    proof {
        lemma_lexes_pop(from@);
    }
    let t = from.pop().unwrap();
    proof {
        lemma_lexes_push(to@, t);
    }
    to.push(t);
}

/// Reorders the tokens of one expression into postfix form with the
/// shunting-yard algorithm; operators of equal precedence associate to the
/// left.
pub fn parse_to_postfix(tokens: &Vec<Token>) -> (r: Result<Vec<Token>, ParseError>)
    ensures
        lexed(r) == postfix_spec(lexes(tokens@)),
{
    let ghost toks = lexes(tokens@);
    let mut output: Vec<Token> = Vec::new();
    let mut stack: Vec<Token> = Vec::new();
    let mut i: usize = 0;
    assert(toks.skip(0) =~= toks);
    assert(lexes(stack@) =~= seq![]);
    assert(lexes(output@) =~= seq![]);
    while i < tokens.len()
        invariant
            toks == lexes(tokens@),
            i <= tokens@.len(),
            shunt(toks.skip(i as int), lexes(stack@), lexes(output@)) == postfix_spec(toks),
        decreases tokens@.len() - i,
    {
        let t = tokens[i].clone();
        assert(toks.skip(i as int).drop_first() =~= toks.skip(i + 1));
        assert(toks.skip(i as int)[0] == t@);
        match &t.token_type {
            TokenType::Number(_) | TokenType::Identifier(_) => {
                proof {
                    lemma_lexes_push(output@, t);
                }
                output.push(t);
            },
            TokenType::Operator(op) => {
                let op = *op;
                let ghost st0 = lexes(stack@);
                let ghost out0 = lexes(output@);
                while top_yields_to(&stack, op)
                    invariant
                        shunt(toks.skip(i as int), st0, out0) == postfix_spec(toks),
                        pop_yielding(lexes(stack@), lexes(output@), op) == pop_yielding(
                            st0,
                            out0,
                            op,
                        ),
                    decreases stack@.len(),
                {
                    move_top(&mut stack, &mut output);
                }
                proof {
                    lemma_lexes_push(stack@, t);
                }
                stack.push(t);
            },
            TokenType::LeftParen => {
                proof {
                    lemma_lexes_push(stack@, t);
                }
                stack.push(t);
            },
            TokenType::RightParen => {
                let ghost st0 = lexes(stack@);
                let ghost out0 = lexes(output@);
                while stack.len() > 0 && !top_is_left_paren(&stack)
                    invariant
                        shunt(toks.skip(i as int), st0, out0) == postfix_spec(toks),
                        pop_to_left_paren(lexes(stack@), lexes(output@)) == pop_to_left_paren(
                            st0,
                            out0,
                        ),
                    decreases stack@.len(),
                {
                    move_top(&mut stack, &mut output);
                }
                if stack.len() == 0 {
                    return Err(ParseError::new(ErrorKind::MismatchedParenthesis, Some(t.column)));
                }
                proof {
                    lemma_lexes_pop(stack@);
                }
                stack.pop();
            },
            _ => {
                return Err(ParseError::new(ErrorKind::UnexpectedToken, Some(t.column)));
            },
        }
        i += 1;
    }
    assert(toks.skip(i as int).len() == 0);
    while stack.len() > 0
        invariant
            toks == lexes(tokens@),
            flush(lexes(stack@), lexes(output@)) == postfix_spec(toks),
        decreases stack@.len(),
    {
        proof {
            lemma_lexes_pop(stack@);
        }
        if top_is_left_paren(&stack) {
            let column = stack[stack.len() - 1].column;
            return Err(ParseError::new(ErrorKind::UnclosedParenthesis, Some(column)));
        }
        move_top(&mut stack, &mut output);
    }
    Ok(output)
}

} // verus!
