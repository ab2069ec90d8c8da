use vstd::prelude::*;

use crate::render::{debug_quoted, debug_quoted_of, decimal, decimal_string, signed_decimal, signed_decimal_string};

verus! {

/// `left_child` holds a token; `next_node` continues the list.
#[derive(Debug)]
pub struct ASTNode {
    pub left_child: TOKEN,
    pub next_node: Option<Box<ASTNode>>,
}

#[derive(Debug, PartialEq)]
pub struct TOKEN {
    pub kind: TOKENTYPE,
    pub value: Option<REPDATA>,
}

#[derive(Debug, Clone, Copy, PartialEq, Eq, Structural)]
pub enum TOKENTYPE {
    PRINT,
    STRING,
    FUNCTION,
    RPAREN,
    LPAREN,
    RETURN,
    NULL,
}

#[derive(Debug, PartialEq)]
pub enum REPDATA {
    STRING(String),
    UINT(usize),
    IINT(isize),
}

impl Clone for REPDATA {
    fn clone(&self) -> (r: Self)
        ensures
            r == *self,
    {
        match self {
            REPDATA::STRING(s) => REPDATA::STRING(s.clone()),
            REPDATA::UINT(n) => REPDATA::UINT(*n),
            REPDATA::IINT(n) => REPDATA::IINT(*n),
        }
    }
}

impl Clone for TOKEN {
    fn clone(&self) -> (r: Self)
        ensures
            r == *self,
    {
        let value = match &self.value {
            Some(v) => Some(v.clone()),
            None => None,
        };
        TOKEN { kind: self.kind, value }
    }
}

/// `Debug` text of a payload: `STRING("..")`, `UINT(7)` or `IINT(-7)`.
pub open spec fn repdata_text(v: REPDATA) -> Seq<char> {
    match v {
        REPDATA::STRING(s) => seq!['S', 'T', 'R', 'I', 'N', 'G', '('] + debug_quoted_of(s@) + seq![')'],
        REPDATA::UINT(n) => seq!['U', 'I', 'N', 'T', '('] + decimal(n as nat) + seq![')'],
        REPDATA::IINT(n) => seq!['I', 'I', 'N', 'T', '('] + signed_decimal(n as int) + seq![')'],
    }
}

/// `Debug` text of an optional payload: `None` or `Some(..)`.
pub open spec fn value_text(v: Option<REPDATA>) -> Seq<char> {
    match v {
        Some(d) => seq!['S', 'o', 'm', 'e', '('] + repdata_text(d) + seq![')'],
        None => seq!['N', 'o', 'n', 'e'],
    }
}

pub open spec fn kind_name(k: TOKENTYPE) -> Seq<char> {
    match k {
        TOKENTYPE::PRINT => seq!['P', 'R', 'I', 'N', 'T'],
        TOKENTYPE::STRING => seq!['S', 'T', 'R', 'I', 'N', 'G'],
        TOKENTYPE::FUNCTION => seq!['F', 'U', 'N', 'C', 'T', 'I', 'O', 'N'],
        TOKENTYPE::RPAREN => seq!['R', 'P', 'A', 'R', 'E', 'N'],
        TOKENTYPE::LPAREN => seq!['L', 'P', 'A', 'R', 'E', 'N'],
        TOKENTYPE::RETURN => seq!['R', 'E', 'T', 'U', 'R', 'N'],
        TOKENTYPE::NULL => seq!['N', 'U', 'L', 'L'],
    }
}

/// The display text of a token: the name of its kind, except that string
/// and return tokens show their value instead.
pub open spec fn token_text(t: TOKEN) -> Seq<char> {
    match t.kind {
        TOKENTYPE::STRING | TOKENTYPE::RETURN => value_text(t.value),
        _ => kind_name(t.kind),
    }
}

fn literal(s: &'static str) -> (r: String)
    ensures
        r@ == s@,
{
    String::from_str(s)
}

fn repdata_string(v: &REPDATA) -> (r: String)
    ensures
        r@ == repdata_text(*v),
{
    let (mut s, inner) = match v {
        REPDATA::STRING(text) => {
            proof {
                reveal_strlit("STRING(");
            }
            (literal("STRING("), debug_quoted(text.as_str()))
        },
        REPDATA::UINT(n) => {
            proof {
                reveal_strlit("UINT(");
            }
            (literal("UINT("), decimal_string(*n))
        },
        REPDATA::IINT(n) => {
            proof {
                reveal_strlit("IINT(");
            }
            (literal("IINT("), signed_decimal_string(*n))
        },
    };
    proof {
        reveal_strlit(")");
    }
    s.append(inner.as_str());
    s.append(")");
    s
}

fn value_string(v: &Option<REPDATA>) -> (r: String)
    ensures
        r@ == value_text(*v),
{
    proof {
        reveal_strlit("Some(");
        reveal_strlit(")");
        reveal_strlit("None");
    }
    match v {
        Some(d) => {
            let mut s = literal("Some(");
            let inner = repdata_string(d);
            s.append(inner.as_str());
            s.append(")");
            s
        },
        None => literal("None"),
    }
}

impl TOKEN {
    /// A token of the given kind, with the default value of that kind: an
    /// empty string for print and string tokens, none otherwise.
    pub fn of_kind(kind: TOKENTYPE) -> (r: TOKEN)
        ensures
            r.kind == kind,
            match kind {
                TOKENTYPE::PRINT | TOKENTYPE::STRING => r.value matches Some(REPDATA::STRING(s))
                    && s@ == Seq::<char>::empty(),
                _ => r.value is None,
            },
    {
        let value = match kind {
            TOKENTYPE::PRINT | TOKENTYPE::STRING => Some(REPDATA::STRING(String::new())),
            _ => None,
        };
        TOKEN { kind, value }
    }

    pub fn as_string(&self) -> (r: String)
        ensures
            r@ == token_text(*self),
    {
        proof {
            reveal_strlit("PRINT");
            reveal_strlit("FUNCTION");
            reveal_strlit("RPAREN");
            reveal_strlit("LPAREN");
            reveal_strlit("NULL");
        }
        match self.kind {
            TOKENTYPE::PRINT => literal("PRINT"),
            TOKENTYPE::STRING => value_string(&self.value),
            TOKENTYPE::FUNCTION => literal("FUNCTION"),
            TOKENTYPE::RPAREN => literal("RPAREN"),
            TOKENTYPE::LPAREN => literal("LPAREN"),
            TOKENTYPE::RETURN => value_string(&self.value),
            TOKENTYPE::NULL => literal("NULL"),
        }
    }
}

impl From<TOKENTYPE> for TOKEN {
    fn from(value: TOKENTYPE) -> TOKEN {
        TOKEN::of_kind(value)
    }
}

impl vstd::std_specs::convert::FromSpecImpl<TOKENTYPE> for TOKEN {
    open spec fn obeys_from_spec() -> bool {
        false
    }

    open spec fn from_spec(v: TOKENTYPE) -> TOKEN {
        arbitrary()
    }
}

} // verus!
