use vstd::prelude::*;

use crate::operator::BinOp;
use crate::token::{
    error_at, lexes, lemma_lexes_push, ErrorKind, Lex, Lexeme, Numeral, NumeralView, ParseError,
    Token, TokenType,
};

verus! {

pub open spec fn is_digit(c: char) -> bool {
    '0' <= c && c <= '9'
}

pub open spec fn is_letter(c: char) -> bool {
    ('a' <= c && c <= 'z') || ('A' <= c && c <= 'Z')
}

/// The end of the run of digits that starts at `i`.
pub open spec fn digit_run_end(s: Seq<char>, i: nat) -> nat
    decreases s.len() - i,
{
    if i < s.len() && is_digit(s[i as int]) {
        digit_run_end(s, i + 1)
    } else {
        i
    }
}

/// The end of the run of letters that starts at `i`.
pub open spec fn letter_run_end(s: Seq<char>, i: nat) -> nat
    decreases s.len() - i,
{
    if i < s.len() && is_letter(s[i as int]) {
        letter_run_end(s, i + 1)
    } else {
        i
    }
}

pub proof fn lemma_digit_run_end(s: Seq<char>, i: nat)
    requires
        i <= s.len(),
    ensures
        i <= digit_run_end(s, i) <= s.len(),
        i < s.len() && is_digit(s[i as int]) ==> i < digit_run_end(s, i),
        forall|k: int| i <= k < digit_run_end(s, i) ==> is_digit(#[trigger] s[k]),
        digit_run_end(s, i) < s.len() ==> !is_digit(s[digit_run_end(s, i) as int]),
    decreases s.len() - i,
{
    if i < s.len() && is_digit(s[i as int]) {
        lemma_digit_run_end(s, i + 1);
    }
}

pub proof fn lemma_letter_run_end(s: Seq<char>, i: nat)
    requires
        i <= s.len(),
    ensures
        i <= letter_run_end(s, i) <= s.len(),
        i < s.len() && is_letter(s[i as int]) ==> i < letter_run_end(s, i),
    decreases s.len() - i,
{
    if i < s.len() && is_letter(s[i as int]) {
        lemma_letter_run_end(s, i + 1);
    }
}

/// The token that a character makes on its own, if it makes one.
pub open spec fn single_lexeme(c: char) -> Option<Lexeme> {
    if c == '+' {
        Some(Lexeme::Operator(BinOp::Plus))
    } else if c == '-' {
        Some(Lexeme::Operator(BinOp::Minus))
    } else if c == '*' {
        Some(Lexeme::Operator(BinOp::Times))
    } else if c == '/' {
        Some(Lexeme::Operator(BinOp::Divide))
    } else if c == '(' {
        Some(Lexeme::LeftParen)
    } else if c == ')' {
        Some(Lexeme::RightParen)
    } else if c == '=' {
        Some(Lexeme::Assign)
    } else if c == ';' {
        Some(Lexeme::Separator)
    } else {
        None
    }
}

/// `ts` followed by what `r` lexed, or the error of `r`.
pub open spec fn prepend_all(ts: Seq<Lex>, r: Result<Seq<Lex>, ParseError>) -> Result<
    Seq<Lex>,
    ParseError,
> {
    match r {
        Ok(rest) => Ok(ts + rest),
        Err(e) => Err(e),
    }
}

pub open spec fn numeral_at(s: Seq<char>, i: nat, j: nat, fraction: Option<Seq<char>>) -> Lex {
    Lex {
        lexeme: Lexeme::Number(NumeralView { whole: s.subrange(i as int, j as int), fraction }),
        column: i + 1,
    }
}

/// Tokens of `s` from position `i` on (columns count from 1). Spaces separate
/// tokens and make none; a number is a maximal run of digits, optionally
/// followed by a point and a second run of digits; an identifier is a maximal
/// run of ASCII letters.
pub open spec fn lex_from(s: Seq<char>, i: nat) -> Result<Seq<Lex>, ParseError>
    decreases s.len() - i,
    via lex_from_decreases
{
    if i >= s.len() {
        Ok(seq![])
    } else {
        let c = s[i as int];
        if c == ' ' {
            lex_from(s, i + 1)
        } else if is_digit(c) {
            let j = digit_run_end(s, i);
            if j < s.len() && s[j as int] == '.' {
                if j + 1 < s.len() && is_digit(s[(j + 1) as int]) {
                    let k = digit_run_end(s, j + 1);
                    prepend_all(
                        seq![numeral_at(s, i, j, Some(s.subrange((j + 1) as int, k as int)))],
                        lex_from(s, k),
                    )
                } else {
                    Err(error_at(ErrorKind::IncompleteFloatingPoint, j + 1))
                }
            } else {
                prepend_all(seq![numeral_at(s, i, j, None)], lex_from(s, j))
            }
        } else if c == '.' {
            Err(error_at(ErrorKind::IncompleteFloatingPoint, i + 1))
        } else if is_letter(c) {
            let j = letter_run_end(s, i);
            prepend_all(
                seq![
                    Lex {
                        lexeme: Lexeme::Identifier(s.subrange(i as int, j as int)),
                        column: i + 1,
                    },
                ],
                lex_from(s, j),
            )
        } else {
            match single_lexeme(c) {
                Some(l) => prepend_all(seq![Lex { lexeme: l, column: i + 1 }], lex_from(s, i + 1)),
                None => Err(error_at(ErrorKind::UnexpectedToken, i + 1)),
            }
        }
    }
}

#[via_fn]
proof fn lex_from_decreases(s: Seq<char>, i: nat) {
    if i < s.len() {
        lemma_digit_run_end(s, i);
        lemma_letter_run_end(s, i);
        let j = digit_run_end(s, i);
        if j + 1 < s.len() {
            lemma_digit_run_end(s, j + 1);
        }
    }
}

/// The tokens of a whole source text.
pub open spec fn lex_spec(s: Seq<char>) -> Result<Seq<Lex>, ParseError> {
    lex_from(s, 0)
}

/// The view of a tokenizer result.
pub open spec fn lexed(r: Result<Vec<Token>, ParseError>) -> Result<Seq<Lex>, ParseError> {
    match r {
        Ok(ts) => Ok(lexes(ts@)),
        Err(e) => Err(e),
    }
}

proof fn lemma_prepend_push(ts: Seq<Lex>, l: Lex, r: Result<Seq<Lex>, ParseError>)
    ensures
        prepend_all(ts.push(l), r) == prepend_all(ts, prepend_all(seq![l], r)),
{
    if let Ok(rest) = r {
        assert(ts.push(l) + rest =~= ts + (seq![l] + rest));
    }
}

fn is_digit_char(c: char) -> (r: bool)
    ensures
        r == is_digit(c),
{
    '0' <= c && c <= '9'
}

fn is_letter_char(c: char) -> (r: bool)
    ensures
        r == is_letter(c),
{
    ('a' <= c && c <= 'z') || ('A' <= c && c <= 'Z')
}

fn single_token_type(c: char) -> (r: Option<TokenType>)
    ensures
        match r {
            Some(t) => single_lexeme(c) == Some(t@),
            None => single_lexeme(c) is None,
        },
{
    if c == '+' {
        Some(TokenType::Operator(BinOp::Plus))
    } else if c == '-' {
        Some(TokenType::Operator(BinOp::Minus))
    } else if c == '*' {
        Some(TokenType::Operator(BinOp::Times))
    } else if c == '/' {
        Some(TokenType::Operator(BinOp::Divide))
    } else if c == '(' {
        Some(TokenType::LeftParen)
    } else if c == ')' {
        Some(TokenType::RightParen)
    } else if c == '=' {
        Some(TokenType::Assign)
    } else if c == ';' {
        Some(TokenType::Separator)
    } else {
        None
    }
}

pub(crate) fn char_vec(s: &str) -> (r: Vec<char>)
    ensures
        r@ == s@,
{
    let n = s.unicode_len();
    let mut r: Vec<char> = Vec::new();
    let mut i: usize = 0;
    while i < n
        invariant
            n == s@.len(),
            i <= n,
            r@ == s@.subrange(0, i as int),
        decreases n - i,
    {
        r.push(s.get_char(i));
        i += 1;
    }
    assert(r@ =~= s@);
    r
}

fn scan_digits(chars: &Vec<char>, i: usize) -> (j: usize)
    requires
        i <= chars@.len(),
    ensures
        j == digit_run_end(chars@, i as nat),
{
    let mut j = i;
    while j < chars.len() && is_digit_char(chars[j])
        invariant
            i <= j <= chars@.len(),
            digit_run_end(chars@, i as nat) == digit_run_end(chars@, j as nat),
        decreases chars@.len() - j,
    {
        j += 1;
    }
    j
}

fn scan_letters(chars: &Vec<char>, i: usize) -> (j: usize)
    requires
        i <= chars@.len(),
    ensures
        j == letter_run_end(chars@, i as nat),
{
    let mut j = i;
    while j < chars.len() && is_letter_char(chars[j])
        invariant
            i <= j <= chars@.len(),
            letter_run_end(chars@, i as nat) == letter_run_end(chars@, j as nat),
        decreases chars@.len() - j,
    {
        j += 1;
    }
    j
}

/// Splits source text into tokens, or reports the first character that
/// cannot be read, with its column.
pub fn tokenize(source: &str) -> (r: Result<Vec<Token>, ParseError>)
    ensures
        lexed(r) == lex_spec(source@),
{
    let ghost s = source@;
    let chars = char_vec(source);
    let n = chars.len();
    let mut tokens: Vec<Token> = Vec::new();
    let mut i: usize = 0;
    while i < n
        invariant
            chars@ == s,
            s == source@,
            n == s.len(),
            i <= n,
            prepend_all(lexes(tokens@), lex_from(s, i as nat)) == lex_spec(s),
        decreases n - i,
    {
        let c = chars[i];
        proof {
            lemma_digit_run_end(s, i as nat);
            lemma_letter_run_end(s, i as nat);
        }
        if c == ' ' {
            i += 1;
        } else if is_digit_char(c) {
            let j = scan_digits(&chars, i);
            if j < n && chars[j] == '.' {
                if j + 1 < n && is_digit_char(chars[j + 1]) {
                    let k = scan_digits(&chars, j + 1);
                    proof {
                        lemma_digit_run_end(s, (j + 1) as nat);
                    }
                    let whole = String::from_str(source.substring_char(i, j));
                    let fraction = String::from_str(source.substring_char(j + 1, k));
                    let t = Token {
                        token_type: TokenType::Number(Numeral { whole, fraction: Some(fraction) }),
                        column: i + 1,
                    };
                    proof {
                        assert(t@ == numeral_at(s, i as nat, j as nat, Some(s.subrange(j + 1, k as int))));
                        lemma_lexes_push(tokens@, t);
                        lemma_prepend_push(lexes(tokens@), t@, lex_from(s, k as nat));
                    }
                    tokens.push(t);
                    i = k;
                } else {
                    return Err(ParseError::new(ErrorKind::IncompleteFloatingPoint, Some(j + 1)));
                }
            } else {
                let whole = String::from_str(source.substring_char(i, j));
                let t = Token {
                    token_type: TokenType::Number(Numeral { whole, fraction: None }),
                    column: i + 1,
                };
                proof {
                    assert(t@ == numeral_at(s, i as nat, j as nat, None));
                    lemma_lexes_push(tokens@, t);
                    lemma_prepend_push(lexes(tokens@), t@, lex_from(s, j as nat));
                }
                tokens.push(t);
                i = j;
            }
        } else if c == '.' {
            return Err(ParseError::new(ErrorKind::IncompleteFloatingPoint, Some(i + 1)));
        } else if is_letter_char(c) {
            let j = scan_letters(&chars, i);
            let id = String::from_str(source.substring_char(i, j));
            let t = Token { token_type: TokenType::Identifier(id), column: i + 1 };
            proof {
                lemma_lexes_push(tokens@, t);
                lemma_prepend_push(lexes(tokens@), t@, lex_from(s, j as nat));
            }
            tokens.push(t);
            i = j;
        } else {
            match single_token_type(c) {
                Some(tt) => {
                    let t = Token { token_type: tt, column: i + 1 };
                    proof {
                        lemma_lexes_push(tokens@, t);
                        lemma_prepend_push(lexes(tokens@), t@, lex_from(s, (i + 1) as nat));
                    }
                    tokens.push(t);
                    i += 1;
                },
                None => {
                    return Err(ParseError::new(ErrorKind::UnexpectedToken, Some(i + 1)));
                },
            }
        }
    }
    assert(lexes(tokens@) + seq![] =~= lexes(tokens@));
    Ok(tokens)
}

} // verus!

verus! {

/// A non-empty source text, ready to be split into tokens.
pub struct Lexer {
    src: String,
}

impl Lexer {
    pub closed spec fn source(&self) -> Seq<char> {
        self.src@
    }

    /// Empty input is a caller error, not a recoverable one.
    pub fn new(expr_as_string: &str) -> (r: Self)
        requires
            expr_as_string@.len() > 0,
        ensures
            r.source() == expr_as_string@,
    {
        Lexer { src: String::from_str(expr_as_string) }
    }

    pub fn lex(&self) -> (r: Result<Vec<Token>, ParseError>)
        ensures
            lexed(r) == lex_spec(self.source()),
    {
        tokenize(self.src.as_str())
    }

    pub fn src(&self) -> (r: &str)
        ensures
            r@ == self.source(),
    {
        self.src.as_str()
    }
}

} // verus!
