use vstd::prelude::*;

use crate::operator::BinOp;

verus! {

/// A numeric literal as it was written: the digits before the point and,
/// when there is a point, the digits after it.
#[derive(Debug, PartialEq)]
pub struct Numeral {
    pub whole: String,
    pub fraction: Option<String>,
}

/// What a numeral says, as character sequences.
pub struct NumeralView {
    pub whole: Seq<char>,
    pub fraction: Option<Seq<char>>,
}

impl NumeralView {
    /// The numeral written back out: `whole` or `whole.fraction`.
    pub open spec fn text(self) -> Seq<char> {
        match self.fraction {
            Some(f) => self.whole + seq!['.'] + f,
            None => self.whole,
        }
    }
}

impl View for Numeral {
    type V = NumeralView;

    open spec fn view(&self) -> NumeralView {
        NumeralView {
            whole: self.whole@,
            fraction: match self.fraction {
                Some(f) => Some(f@),
                None => None,
            },
        }
    }
}

impl Numeral {
    /// The literal's text, ready for a numeric parser: `123` or `12.5`.
    pub fn text(&self) -> (r: String)
        ensures
            r@ == self@.text(),
    {
        let mut s = self.whole.clone();
        match &self.fraction {
            Some(f) => {
                proof {
                    reveal_strlit(".");
                }
                s.append(".");
                s.append(f.as_str());
            },
            None => {},
        }
        s
    }
}

#[derive(Debug, PartialEq)]
pub enum TokenType {
    Number(Numeral),
    Identifier(String),
    Operator(BinOp),
    LeftParen,
    RightParen,
    /// `=` between an identifier and its expression.
    Assign,
    /// `;` between statements.
    Separator,
}

/// A token and the 1-based column of its first character.
#[derive(Debug, PartialEq)]
pub struct Token {
    pub token_type: TokenType,
    pub column: usize,
}

impl Clone for Numeral {
    fn clone(&self) -> (r: Self)
        ensures
            r == *self,
    {
        let fraction = match &self.fraction {
            Some(f) => Some(f.clone()),
            None => None,
        };
        Numeral { whole: self.whole.clone(), fraction }
    }
}

impl Clone for TokenType {
    fn clone(&self) -> (r: Self)
        ensures
            r == *self,
    {
        match self {
            TokenType::Number(n) => TokenType::Number(n.clone()),
            TokenType::Identifier(id) => TokenType::Identifier(id.clone()),
            TokenType::Operator(op) => TokenType::Operator(*op),
            TokenType::LeftParen => TokenType::LeftParen,
            TokenType::RightParen => TokenType::RightParen,
            TokenType::Assign => TokenType::Assign,
            TokenType::Separator => TokenType::Separator,
        }
    }
}

impl Clone for Token {
    fn clone(&self) -> (r: Self)
        ensures
            r == *self,
    {
        Token { token_type: self.token_type.clone(), column: self.column }
    }
}

/// The mathematical content of a token type.
pub enum Lexeme {
    Number(NumeralView),
    Identifier(Seq<char>),
    Operator(BinOp),
    LeftParen,
    RightParen,
    Assign,
    Separator,
}

/// The mathematical content of a token.
pub struct Lex {
    pub lexeme: Lexeme,
    pub column: nat,
}

impl View for TokenType {
    type V = Lexeme;

    open spec fn view(&self) -> Lexeme {
        match self {
            TokenType::Number(n) => Lexeme::Number(n@),
            TokenType::Identifier(id) => Lexeme::Identifier(id@),
            TokenType::Operator(op) => Lexeme::Operator(*op),
            TokenType::LeftParen => Lexeme::LeftParen,
            TokenType::RightParen => Lexeme::RightParen,
            TokenType::Assign => Lexeme::Assign,
            TokenType::Separator => Lexeme::Separator,
        }
    }
}

impl View for Token {
    type V = Lex;

    open spec fn view(&self) -> Lex {
        Lex { lexeme: self.token_type@, column: self.column as nat }
    }
}

/// The views of a sequence of tokens.
pub open spec fn lexes(ts: Seq<Token>) -> Seq<Lex> {
    ts.map_values(|t: Token| t@)
}

pub proof fn lemma_lexes_pop(ts: Seq<Token>)
    requires
        ts.len() > 0,
    ensures
        lexes(ts.drop_last()) == lexes(ts).drop_last(),
        lexes(ts).last() == ts.last()@,
{
    assert(lexes(ts.drop_last()) =~= lexes(ts).drop_last());
}

pub proof fn lemma_lexes_push(ts: Seq<Token>, t: Token)
    ensures
        lexes(ts.push(t)) == lexes(ts).push(t@),
{
    assert(lexes(ts.push(t)) =~= lexes(ts).push(t@));
}

#[derive(Debug, Clone, Copy, PartialEq, Eq, Structural)]
pub enum ErrorKind {
    /// A character that starts no token.
    UnexpectedToken,
    /// A decimal point without digits on both sides.
    IncompleteFloatingPoint,
    /// A closing parenthesis with no open one before it.
    MismatchedParenthesis,
    /// An opening parenthesis that is never closed.
    UnclosedParenthesis,
    /// An identifier with no earlier assignment.
    UndefinedVariable,
    /// Operands missing for an operator, or left over at the end.
    IllFormedExpression,
    /// Not a sequence of assignments followed by exactly one expression.
    MalformedProgram,
}

/// An error and, where one character is to blame, its 1-based column.
#[derive(Debug, Clone, Copy, PartialEq, Eq, Structural)]
pub struct ParseError {
    pub kind: ErrorKind,
    pub column: Option<usize>,
}

pub open spec fn error_at(kind: ErrorKind, column: nat) -> ParseError {
    ParseError { kind, column: Some(column as usize) }
}

pub open spec fn error_of(kind: ErrorKind) -> ParseError {
    ParseError { kind, column: None }
}

impl ParseError {
    pub fn new(kind: ErrorKind, column: Option<usize>) -> (r: Self)
        ensures
            r.kind == kind,
            r.column == column,
    {
        ParseError { kind, column }
    }
}

impl ErrorKind {
    pub open spec fn spec_message(self) -> Seq<char> {
        match self {
            ErrorKind::UnexpectedToken => "unexpected character"@,
            ErrorKind::IncompleteFloatingPoint => "a decimal point needs digits on both sides"@,
            ErrorKind::MismatchedParenthesis => "closing parenthesis without an opening one"@,
            ErrorKind::UnclosedParenthesis => "opening parenthesis is never closed"@,
            ErrorKind::UndefinedVariable => "variable is used before it is assigned"@,
            ErrorKind::IllFormedExpression => "operands and operators do not match up"@,
            ErrorKind::MalformedProgram => "a program is assignments followed by exactly one expression"@,
        }
    }

    /// A human-readable description of the error.
    pub fn message(&self) -> (r: &'static str)
        ensures
            r@ == self.spec_message(),
    {
        match self {
            ErrorKind::UnexpectedToken => "unexpected character",
            ErrorKind::IncompleteFloatingPoint => "a decimal point needs digits on both sides",
            ErrorKind::MismatchedParenthesis => "closing parenthesis without an opening one",
            ErrorKind::UnclosedParenthesis => "opening parenthesis is never closed",
            ErrorKind::UndefinedVariable => "variable is used before it is assigned",
            ErrorKind::IllFormedExpression => "operands and operators do not match up",
            ErrorKind::MalformedProgram => "a program is assignments followed by exactly one expression",
        }
    }
}

} // verus!
