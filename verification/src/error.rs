//! The errors that an evaluation can end in.

use vstd::prelude::*;

verus! {

/// Why an input has no value. Offsets count characters from the start of the
/// input, beginning at zero.
#[derive(Clone, Copy, PartialEq, Eq, Debug, Structural)]
pub enum CalcError {
    /// The `len` characters that start at `offset` are no token: an
    /// unrecognised character, or the name of a variable that is not bound.
    UnknownToken { offset: usize, len: usize },
    /// The parentheses of the input do not match up.
    UnbalancedParenthesis,
    /// The division or remainder operator at `offset` has a zero divisor.
    DivideByZero { offset: usize },
    /// The input holds no operand at all.
    NoResult,
    /// The operator at `offset` lacks an operand.
    MissingOperand { offset: usize },
}

impl CalcError {
    /// The position that the error points at, for the kinds that have one.
    pub open spec fn position(self) -> Option<usize> {
        match self {
            CalcError::UnknownToken { offset, .. } => Some(offset),
            CalcError::UnbalancedParenthesis => None,
            CalcError::DivideByZero { offset } => Some(offset),
            CalcError::NoResult => None,
            CalcError::MissingOperand { offset } => Some(offset),
        }
    }

    pub fn offset(&self) -> (r: Option<usize>)
        ensures
            r == self.position(),
    {
        match self {
            CalcError::UnknownToken { offset, .. } => Some(*offset),
            CalcError::UnbalancedParenthesis => None,
            CalcError::DivideByZero { offset } => Some(*offset),
            CalcError::NoResult => None,
            CalcError::MissingOperand { offset } => Some(*offset),
        }
    }
}

} // verus!
