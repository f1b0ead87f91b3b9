//! Tokens: the lexical units of an expression.

use crate::number::CalcNumber;
use crate::operator::Operator;
use crate::tree::Expr;
use vstd::prelude::*;

verus! {

/// One lexical unit, with the offset of its first character in the input.
#[derive(Debug, PartialEq, Eq)]
pub enum Token {
    /// An operator.
    Op(Operator, usize),
    /// `(`
    LParen(usize),
    /// `)`
    RParen(usize),
    /// A number written out in digits.
    Number(CalcNumber, usize),
    /// The name of a bound variable, with a copy of the tree it is bound to.
    Reference(Expr, usize),
}

impl Token {
    /// The offset of the token's first character.
    pub open spec fn position(self) -> usize {
        match self {
            Token::Op(_, at) => at,
            Token::LParen(at) => at,
            Token::RParen(at) => at,
            Token::Number(_, at) => at,
            Token::Reference(_, at) => at,
        }
    }

    /// Whether the token is an operand: a number or a reference.
    pub open spec fn is_operand(self) -> bool {
        self is Number || self is Reference
    }

    pub fn offset(&self) -> (at: usize)
        ensures
            at == self.position(),
    {
        match self {
            Token::Op(_, at) => *at,
            Token::LParen(at) => *at,
            Token::RParen(at) => *at,
            Token::Number(_, at) => *at,
            Token::Reference(_, at) => *at,
        }
    }
}

impl Clone for Token {
    fn clone(&self) -> (r: Token)
        ensures
            r == *self,
    {
        match self {
            Token::Op(op, at) => Token::Op(*op, *at),
            Token::LParen(at) => Token::LParen(*at),
            Token::RParen(at) => Token::RParen(*at),
            Token::Number(n, at) => Token::Number(*n, *at),
            Token::Reference(tree, at) => Token::Reference(tree.clone(), *at),
        }
    }
}

} // verus!
