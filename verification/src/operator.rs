//! The operators of the expression language, with their precedence and
//! associativity.

use vstd::prelude::*;

verus! {

/// An infix operator with two operands.
#[derive(Clone, Copy, PartialEq, Eq, Debug, Structural)]
pub enum BinaryOp {
    /// `+`
    Plus,
    /// `-`
    Minus,
    /// `*`
    Mul,
    /// `/`
    Div,
    /// `**`
    Pow,
    /// `%`
    Mod,
    /// `==`
    Equal,
    /// `~=`
    NotEqual,
    /// `>`
    Gt,
    /// `>=`
    Ge,
    /// `<`
    Lt,
    /// `<=`
    Le,
    /// `&&`
    And,
    /// `||`
    Or,
    /// `^^`
    Xor,
    /// `&`
    BitAnd,
    /// `|`
    BitOr,
    /// `^`
    BitXor,
}

/// A unary operator written before its operand.
#[derive(Clone, Copy, PartialEq, Eq, Debug, Structural)]
pub enum PrefixOp {
    /// `@`, the integer square root
    Sqrt,
    /// `~`, logical negation
    Not,
}

/// A unary operator written after its operand.
#[derive(Clone, Copy, PartialEq, Eq, Debug, Structural)]
pub enum PostfixOp {
    /// `!`
    Factorial,
}

/// Any operator of the language.
#[derive(Clone, Copy, PartialEq, Eq, Debug, Structural)]
pub enum Operator {
    Binary(BinaryOp),
    Prefix(PrefixOp),
    Postfix(PostfixOp),
}

/// How operators of equal precedence group.
#[derive(Clone, Copy, PartialEq, Eq, Debug, Structural)]
pub enum Associativity {
    Right,
    Left,
}

impl Operator {
    /// How tightly the operator binds; a larger number binds tighter.
    pub open spec fn precedence(self) -> u32 {
        match self {
            Operator::Postfix(PostfixOp::Factorial) => 7,
            Operator::Binary(BinaryOp::Pow) | Operator::Prefix(PrefixOp::Sqrt) => 6,
            Operator::Binary(BinaryOp::Mul) | Operator::Binary(BinaryOp::Div) | Operator::Binary(
                BinaryOp::Mod,
            ) => 5,
            Operator::Binary(BinaryOp::Plus) | Operator::Binary(BinaryOp::Minus) => 4,
            Operator::Binary(BinaryOp::Equal) | Operator::Binary(BinaryOp::NotEqual)
            | Operator::Binary(BinaryOp::Gt) | Operator::Binary(BinaryOp::Ge) | Operator::Binary(
                BinaryOp::Lt,
            ) | Operator::Binary(BinaryOp::Le) | Operator::Prefix(PrefixOp::Not) => 3,
            Operator::Binary(BinaryOp::And) | Operator::Binary(BinaryOp::BitAnd) => 2,
            Operator::Binary(BinaryOp::Or) | Operator::Binary(BinaryOp::BitOr) | Operator::Binary(
                BinaryOp::Xor,
            ) | Operator::Binary(BinaryOp::BitXor) => 1,
        }
    }

    /// Power, square root and logical negation group to the right; every
    /// other operator groups to the left.
    pub open spec fn associativity(self) -> Associativity {
        match self {
            Operator::Binary(BinaryOp::Pow) | Operator::Prefix(_) => Associativity::Right,
            _ => Associativity::Left,
        }
    }

    /// Whether `self`, on top of the operator stack, leaves the stack for the
    /// output when `incoming` arrives: it binds tighter, or as tightly while
    /// `incoming` groups to the left.
    pub open spec fn yields_to(self, incoming: Operator) -> bool {
        self.precedence() > incoming.precedence() || (self.precedence() == incoming.precedence()
            && incoming.associativity() == Associativity::Left)
    }
}

pub fn op_precedence(op: Operator) -> (p: u32)
    ensures
        p == op.precedence(),
{
    match op {
        Operator::Postfix(PostfixOp::Factorial) => 7,
        Operator::Binary(BinaryOp::Pow) | Operator::Prefix(PrefixOp::Sqrt) => 6,
        Operator::Binary(BinaryOp::Mul) | Operator::Binary(BinaryOp::Div) | Operator::Binary(
            BinaryOp::Mod,
        ) => 5,
        Operator::Binary(BinaryOp::Plus) | Operator::Binary(BinaryOp::Minus) => 4,
        Operator::Binary(BinaryOp::Equal) | Operator::Binary(BinaryOp::NotEqual) | Operator::Binary(
            BinaryOp::Gt,
        ) | Operator::Binary(BinaryOp::Ge) | Operator::Binary(BinaryOp::Lt) | Operator::Binary(
            BinaryOp::Le,
        ) | Operator::Prefix(PrefixOp::Not) => 3,
        Operator::Binary(BinaryOp::And) | Operator::Binary(BinaryOp::BitAnd) => 2,
        Operator::Binary(BinaryOp::Or) | Operator::Binary(BinaryOp::BitOr) | Operator::Binary(
            BinaryOp::Xor,
        ) | Operator::Binary(BinaryOp::BitXor) => 1,
    }
}

pub fn op_associative(op: Operator) -> (a: Associativity)
    ensures
        a == op.associativity(),
{
    match op {
        Operator::Binary(BinaryOp::Pow) | Operator::Prefix(_) => Associativity::Right,
        _ => Associativity::Left,
    }
}

} // verus!
