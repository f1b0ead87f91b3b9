//! Expression trees and their evaluation.

use crate::error::CalcError;
use crate::number::{
    factorial, factorial_of, floor_sqrt, number_of, sqrt, to_bool, to_calc_num, truth, wrap,
    wrapping_pow, CalcNumber,
};
use crate::operator::{BinaryOp, PostfixOp, PrefixOp};
use vstd::arithmetic::power::pow;
use vstd::prelude::*;

verus! {

/// An expression. Every node owns its children, so a tree is a plain value.
#[derive(Debug, PartialEq, Eq)]
#[allow(inconsistent_fields)]
pub enum Expr {
    /// A number written out in the input.
    Literal(CalcNumber),
    /// The tree that a variable was bound to when the expression was read.
    /// It is a copy: binding the variable anew leaves it as it is.
    Reference(Box<Expr>),
    /// An infix operator, found at `offset`, with its two operands.
    Binary { op: BinaryOp, offset: usize, left: Box<Expr>, right: Box<Expr> },
    /// A postfix operator, found at `offset`, applied to the operand on its left.
    Postfix { op: PostfixOp, offset: usize, operand: Box<Expr> },
    /// A prefix operator, found at `offset`, applied to the operand on its right.
    Prefix { op: PrefixOp, offset: usize, operand: Box<Expr> },
}

/// What the binary operator `op`, found at `offset`, makes of two numbers.
pub open spec fn binary_value(op: BinaryOp, offset: usize, l: CalcNumber, r: CalcNumber) -> Result<
    CalcNumber,
    CalcError,
> {
    match op {
        BinaryOp::Plus => Ok(wrap(l.0 + r.0)),
        BinaryOp::Minus => Ok(wrap(l.0 - r.0)),
        BinaryOp::Mul => Ok(wrap(l.0 * r.0)),
        BinaryOp::Div => if r.0 == 0 {
            Err(CalcError::DivideByZero { offset })
        } else {
            Ok(CalcNumber((l.0 / r.0) as u32))
        },
        BinaryOp::Pow => Ok(wrap(pow(l.0 as int, r.0 as nat))),
        BinaryOp::Mod => if r.0 == 0 {
            Err(CalcError::DivideByZero { offset })
        } else {
            Ok(CalcNumber((l.0 % r.0) as u32))
        },
        BinaryOp::Equal => Ok(number_of(l.0 == r.0)),
        BinaryOp::NotEqual => Ok(number_of(l.0 != r.0)),
        BinaryOp::Gt => Ok(number_of(l.0 > r.0)),
        BinaryOp::Ge => Ok(number_of(l.0 >= r.0)),
        BinaryOp::Lt => Ok(number_of(l.0 < r.0)),
        BinaryOp::Le => Ok(number_of(l.0 <= r.0)),
        BinaryOp::And => Ok(number_of(truth(l) && truth(r))),
        BinaryOp::Or => Ok(number_of(truth(l) || truth(r))),
        BinaryOp::Xor => Ok(number_of(truth(l) != truth(r))),
        BinaryOp::BitAnd => Ok(CalcNumber(l.0 & r.0)),
        BinaryOp::BitOr => Ok(CalcNumber(l.0 | r.0)),
        BinaryOp::BitXor => Ok(CalcNumber(l.0 ^ r.0)),
    }
}

/// What the postfix operator `op` makes of a number.
pub open spec fn postfix_value(op: PostfixOp, v: CalcNumber) -> CalcNumber {
    match op {
        PostfixOp::Factorial => wrap(factorial_of(v.0 as nat) as int),
    }
}

/// What the prefix operator `op` makes of a number.
pub open spec fn prefix_value(op: PrefixOp, v: CalcNumber) -> CalcNumber {
    match op {
        PrefixOp::Sqrt => CalcNumber(floor_sqrt(v.0 as nat) as u32),
        PrefixOp::Not => number_of(!truth(v)),
    }
}

impl Expr {
    /// The value of the expression, or the error that its evaluation ends in.
    /// Where both operands of a binary operator fail, the error of the left
    /// one is reported.
    pub open spec fn value(self) -> Result<CalcNumber, CalcError>
        decreases self,
    {
        match self {
            Expr::Literal(n) => Ok(n),
            Expr::Reference(inner) => inner.value(),
            Expr::Binary { op, offset, left, right } => match left.value() {
                Err(e) => Err(e),
                Ok(l) => match right.value() {
                    Err(e) => Err(e),
                    Ok(r) => binary_value(op, offset, l, r),
                },
            },
            Expr::Postfix { op, operand, .. } => match operand.value() {
                Err(e) => Err(e),
                Ok(v) => Ok(postfix_value(op, v)),
            },
            Expr::Prefix { op, operand, .. } => match operand.value() {
                Err(e) => Err(e),
                Ok(v) => Ok(prefix_value(op, v)),
            },
        }
    }

    /// A copy of the tree, node by node.
    fn duplicate(&self) -> (r: Expr)
        ensures
            r == *self,
        decreases *self,
    {
        match self {
            Expr::Literal(n) => Expr::Literal(*n),
            Expr::Reference(inner) => Expr::Reference(Box::new(inner.duplicate())),
            Expr::Binary { op, offset, left, right } => Expr::Binary {
                op: *op,
                offset: *offset,
                left: Box::new(left.duplicate()),
                right: Box::new(right.duplicate()),
            },
            Expr::Postfix { op, offset, operand } => Expr::Postfix {
                op: *op,
                offset: *offset,
                operand: Box::new(operand.duplicate()),
            },
            Expr::Prefix { op, offset, operand } => Expr::Prefix {
                op: *op,
                offset: *offset,
                operand: Box::new(operand.duplicate()),
            },
        }
    }

    /// Reduces the tree to its value. The two operands of a binary operator
    /// are evaluated independently of each other, possibly in parallel.
    pub fn eval(&self) -> (r: Result<CalcNumber, CalcError>)
        ensures
            r == self.value(),
        decreases *self,
    {
        match self {
            Expr::Literal(n) => Ok(*n),
            Expr::Reference(inner) => inner.eval(),
            Expr::Binary { op, offset, left, right } => {
                let eval_left = || -> (l: Result<CalcNumber, CalcError>)
                    ensures
                        l == left.value(),
                    {
                        left.eval()
                    };
                let eval_right = || -> (r: Result<CalcNumber, CalcError>)
                    ensures
                        r == right.value(),
                    {
                        right.eval()
                    };
                let (maybe_left, maybe_right) = rayon::join(eval_left, eval_right);
                let lval = match maybe_left {
                    Err(e) => {
                        return Err(e);
                    },
                    Ok(v) => v,
                };
                let rval = match maybe_right {
                    Err(e) => {
                        return Err(e);
                    },
                    Ok(v) => v,
                };
                apply_binary(*op, *offset, lval, rval)
            },
            Expr::Postfix { op, operand, .. } => {
                let v = match operand.eval() {
                    Err(e) => {
                        return Err(e);
                    },
                    Ok(v) => v,
                };
                match op {
                    PostfixOp::Factorial => Ok(factorial(v)),
                }
            },
            Expr::Prefix { op, operand, .. } => {
                let v = match operand.eval() {
                    Err(e) => {
                        return Err(e);
                    },
                    Ok(v) => v,
                };
                match op {
                    PrefixOp::Sqrt => Ok(sqrt(v)),
                    PrefixOp::Not => Ok(to_calc_num(!to_bool(v))),
                }
            },
        }
    }
}

impl Clone for Expr {
    fn clone(&self) -> (r: Expr)
        ensures
            r == *self,
    {
        self.duplicate()
    }
}

/// Applies the binary operator `op`, found at `offset`, to two numbers.
pub fn apply_binary(op: BinaryOp, offset: usize, l: CalcNumber, r: CalcNumber) -> (res: Result<
    CalcNumber,
    CalcError,
>)
    ensures
        res == binary_value(op, offset, l, r),
{
    match op {
        BinaryOp::Plus => Ok(CalcNumber(l.0.wrapping_add(r.0))),
        BinaryOp::Minus => Ok(CalcNumber(l.0.wrapping_sub(r.0))),
        BinaryOp::Mul => Ok(CalcNumber(l.0.wrapping_mul(r.0))),
        BinaryOp::Div => {
            if r.0 == 0 {
                Err(CalcError::DivideByZero { offset })
            } else {
                Ok(CalcNumber(l.0 / r.0))
            }
        },
        BinaryOp::Pow => Ok(wrapping_pow(l, r)),
        BinaryOp::Mod => {
            if r.0 == 0 {
                Err(CalcError::DivideByZero { offset })
            } else {
                Ok(CalcNumber(l.0 % r.0))
            }
        },
        BinaryOp::Equal => Ok(to_calc_num(l.0 == r.0)),
        BinaryOp::NotEqual => Ok(to_calc_num(l.0 != r.0)),
        BinaryOp::Gt => Ok(to_calc_num(l.0 > r.0)),
        BinaryOp::Ge => Ok(to_calc_num(l.0 >= r.0)),
        BinaryOp::Lt => Ok(to_calc_num(l.0 < r.0)),
        BinaryOp::Le => Ok(to_calc_num(l.0 <= r.0)),
        BinaryOp::And => Ok(to_calc_num(to_bool(l) && to_bool(r))),
        BinaryOp::Or => Ok(to_calc_num(to_bool(l) || to_bool(r))),
        BinaryOp::Xor => Ok(to_calc_num(to_bool(l) != to_bool(r))),
        BinaryOp::BitAnd => Ok(CalcNumber(l.0 & r.0)),
        BinaryOp::BitOr => Ok(CalcNumber(l.0 | r.0)),
        BinaryOp::BitXor => Ok(CalcNumber(l.0 ^ r.0)),
    }
}


/// Evaluation fails in one way only: by a division or a remainder with a
/// zero divisor.
pub proof fn lemma_value_fails_by_zero_divisor(tree: Expr)
    ensures
        tree.value() matches Err(e) ==> e is DivideByZero,
    decreases tree,
{
    match tree {
        Expr::Literal(_) => {},
        Expr::Reference(inner) => {
            lemma_value_fails_by_zero_divisor(*inner);
        },
        Expr::Binary { left, right, .. } => {
            lemma_value_fails_by_zero_divisor(*left);
            lemma_value_fails_by_zero_divisor(*right);
        },
        Expr::Postfix { operand, .. } => {
            lemma_value_fails_by_zero_divisor(*operand);
        },
        Expr::Prefix { operand, .. } => {
            lemma_value_fails_by_zero_divisor(*operand);
        },
    }
}

} // verus!
