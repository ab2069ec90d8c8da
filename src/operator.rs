use vstd::prelude::*;

verus! {

/// One of the four arithmetic operators of the language.
#[derive(Debug, Clone, Copy, PartialEq, Eq, Structural)]
pub enum BinOp {
    Plus,
    Minus,
    Times,
    Divide,
}

impl BinOp {
    /// Binding strength: `*` and `/` bind tighter than `+` and `-`.
    pub open spec fn rank(self) -> nat {
        match self {
            BinOp::Plus | BinOp::Minus => 1,
            BinOp::Times | BinOp::Divide => 2,
        }
    }

    /// The character that spells the operator in source text.
    pub open spec fn spec_symbol(self) -> char {
        match self {
            BinOp::Plus => '+',
            BinOp::Minus => '-',
            BinOp::Times => '*',
            BinOp::Divide => '/',
        }
    }

    /// Strict precedence: true exactly when `self` binds tighter than `other_op`.
    /// Operators of equal rank never outrank each other, which makes them
    /// associate to the left in the parser.
    pub fn has_greater_precedence_than(&self, other_op: &Self) -> (r: bool)
        ensures
            r == (self.rank() > other_op.rank()),
    {
        match self {
            BinOp::Plus | BinOp::Minus => false,
            BinOp::Times | BinOp::Divide => matches!(other_op, BinOp::Plus | BinOp::Minus),
        }
    }

    pub fn symbol(&self) -> (c: char)
        ensures
            c == self.spec_symbol(),
    {
        match self {
            BinOp::Plus => '+',
            BinOp::Minus => '-',
            BinOp::Times => '*',
            BinOp::Divide => '/',
        }
    }
}

} // verus!
