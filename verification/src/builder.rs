//! The tree builder: from postfix tokens to an expression tree.

use crate::error::CalcError;
use crate::operator::Operator;
use crate::token::Token;
use crate::tree::Expr;
use vstd::prelude::*;

verus! {

/// The operand stack after one more token, or the error that the token ends
/// in. The top of the stack is its last tree.
///
/// - An operand is pushed.
/// - A binary operator takes the two topmost trees: the topmost is its
///   right operand, the one below its left operand.
/// - A unary operator takes the topmost tree.
/// - An operator that finds too few trees fails at its own offset.
/// - A parenthesis changes nothing.
pub open spec fn push_token(stack: Seq<Expr>, token: Token) -> Result<Seq<Expr>, CalcError> {
    match token {
        Token::Number(n, _) => Ok(stack.push(Expr::Literal(n))),
        Token::Reference(tree, _) => Ok(stack.push(Expr::Reference(Box::new(tree)))),
        Token::LParen(_) => Ok(stack),
        Token::RParen(_) => Ok(stack),
        Token::Op(Operator::Binary(op), at) => if stack.len() < 2 {
            Err(CalcError::MissingOperand { offset: at })
        } else {
            Ok(
                stack.drop_last().drop_last().push(
                    Expr::Binary {
                        op,
                        offset: at,
                        left: Box::new(stack[stack.len() - 2]),
                        right: Box::new(stack[stack.len() - 1]),
                    },
                ),
            )
        },
        Token::Op(Operator::Postfix(op), at) => if stack.len() < 1 {
            Err(CalcError::MissingOperand { offset: at })
        } else {
            Ok(
                stack.drop_last().push(
                    Expr::Postfix { op, offset: at, operand: Box::new(stack.last()) },
                ),
            )
        },
        Token::Op(Operator::Prefix(op), at) => if stack.len() < 1 {
            Err(CalcError::MissingOperand { offset: at })
        } else {
            Ok(
                stack.drop_last().push(
                    Expr::Prefix { op, offset: at, operand: Box::new(stack.last()) },
                ),
            )
        },
    }
}

/// The operand stack after all of `tokens`, or the error of the first token
/// that fails.
pub open spec fn stack_after(tokens: Seq<Token>) -> Result<Seq<Expr>, CalcError>
    decreases tokens.len(),
{
    if tokens.len() == 0 {
        Ok(Seq::empty())
    } else {
        match stack_after(tokens.drop_last()) {
            Err(e) => Err(e),
            Ok(stack) => push_token(stack, tokens.last()),
        }
    }
}

/// The tree that the postfix sequence `tokens` describes: the top of the
/// operand stack after the last token. An empty stack is no result. Trees
/// below the top are left behind.
pub open spec fn build(tokens: Seq<Token>) -> Result<Expr, CalcError> {
    match stack_after(tokens) {
        Err(e) => Err(e),
        Ok(stack) => if stack.len() == 0 {
            Err(CalcError::NoResult)
        } else {
            Ok(stack.last())
        },
    }
}

/// Once a token has failed, the tokens after it change nothing.
pub proof fn lemma_failure_persists(tokens: Seq<Token>, k: int)
    requires
        0 <= k <= tokens.len(),
        stack_after(tokens.take(k)) is Err,
    ensures
        stack_after(tokens) == stack_after(tokens.take(k)),
    decreases tokens.len() - k,
{
    if k < tokens.len() {
        assert(tokens.take(k + 1).drop_last() =~= tokens.take(k));
        lemma_failure_persists(tokens, k + 1);
    } else {
        assert(tokens.take(k) =~= tokens);
    }
}

/// Assembles the expression tree of a postfix token sequence.
pub fn generate_ast(tokens: Vec<Token>) -> (r: Result<Expr, CalcError>)
    ensures
        r == build(tokens@),
{
    let ghost all = tokens@;
    let mut stack: Vec<Expr> = Vec::new();
    assert(all.take(0) =~= Seq::<Token>::empty());
    for token in it: tokens
        invariant
            it.seq() == all,
            stack_after(all.take(it.index() as int)) == Ok::<Seq<Expr>, CalcError>(stack@),
    {
        let ghost before = stack@;
        proof {
            let k = it.index() as int;
            assert(all.take(k + 1).drop_last() =~= all.take(k));
            assert(all.take(k + 1).last() == token);
            if push_token(before, token) is Err {
                lemma_failure_persists(all, k + 1);
            }
        }
        match token {
            Token::Number(n, _) => {
                stack.push(Expr::Literal(n));
            },
            Token::Reference(tree, _) => {
                stack.push(Expr::Reference(Box::new(tree)));
            },
            Token::LParen(_) => {},
            Token::RParen(_) => {},
            Token::Op(Operator::Binary(op), at) => {
                let right = match stack.pop() {
                    Some(v) => v,
                    None => {
                        return Err(CalcError::MissingOperand { offset: at });
                    },
                };
                let left = match stack.pop() {
                    Some(v) => v,
                    None => {
                        return Err(CalcError::MissingOperand { offset: at });
                    },
                };
                stack.push(
                    Expr::Binary { op, offset: at, left: Box::new(left), right: Box::new(right) },
                );
                assert(stack@ =~= push_token(before, token)->Ok_0);
            },
            Token::Op(Operator::Postfix(op), at) => {
                match stack.pop() {
                    Some(v) => {
                        stack.push(Expr::Postfix { op, offset: at, operand: Box::new(v) });
                    },
                    None => {
                        return Err(CalcError::MissingOperand { offset: at });
                    },
                }
            },
            Token::Op(Operator::Prefix(op), at) => {
                match stack.pop() {
                    Some(v) => {
                        stack.push(Expr::Prefix { op, offset: at, operand: Box::new(v) });
                    },
                    None => {
                        return Err(CalcError::MissingOperand { offset: at });
                    },
                }
            },
        }
    }
    assert(all.take(all.len() as int) =~= all);
    match stack.pop() {
        Some(v) => Ok(v),
        None => Err(CalcError::NoResult),
    }
}


/// Building fails in two ways only: an operator lacks an operand, or there
/// is no operand at all.
pub proof fn lemma_build_failures(tokens: Seq<Token>)
    ensures
        stack_after(tokens) matches Err(e) ==> e is MissingOperand,
        build(tokens) matches Err(e) ==> e is MissingOperand || e is NoResult,
    decreases tokens.len(),
{
    if tokens.len() > 0 {
        lemma_build_failures(tokens.drop_last());
    }
}

} // verus!
