//! The shunting-yard converter: from infix order to postfix order.

use crate::operator::{op_associative, op_precedence, Associativity, Operator};
use crate::token::Token;
use vstd::prelude::*;

verus! {

/// The converter's state: the operator stack, whose top is its last token,
/// and the output so far.
pub struct Yard {
    pub ops: Seq<Token>,
    pub out: Seq<Token>,
}

/// The state after a `)`: the operators above the nearest `(` go to the
/// output, top first, and that `(` is dropped. Without a `(` the whole stack
/// goes to the output.
pub open spec fn close_group(y: Yard) -> Yard
    decreases y.ops.len(),
{
    if y.ops.len() == 0 {
        y
    } else if y.ops.last() is LParen {
        Yard { ops: y.ops.drop_last(), out: y.out }
    } else {
        close_group(Yard { ops: y.ops.drop_last(), out: y.out.push(y.ops.last()) })
    }
}

/// The state once the stack has made way for `incoming`: operators leave
/// the top of the stack for the output as long as they yield to `incoming`.
/// A `(` on top stops them.
pub open spec fn make_way(y: Yard, incoming: Operator) -> Yard
    decreases y.ops.len(),
{
    if y.ops.len() > 0 && (y.ops.last() matches Token::Op(top, _) && top.yields_to(incoming)) {
        make_way(Yard { ops: y.ops.drop_last(), out: y.out.push(y.ops.last()) }, incoming)
    } else {
        y
    }
}

/// The state after one more token.
pub open spec fn step(y: Yard, token: Token) -> Yard {
    match token {
        Token::LParen(_) => Yard { ops: y.ops.push(token), out: y.out },
        Token::RParen(_) => close_group(y),
        Token::Number(_, _) => Yard { ops: y.ops, out: y.out.push(token) },
        Token::Reference(_, _) => Yard { ops: y.ops, out: y.out.push(token) },
        Token::Op(op, _) => {
            let z = make_way(y, op);
            Yard { ops: z.ops.push(token), out: z.out }
        },
    }
}

/// The state after all of `tokens`, starting with nothing.
pub open spec fn yard_after(tokens: Seq<Token>) -> Yard
    decreases tokens.len(),
{
    if tokens.len() == 0 {
        Yard { ops: Seq::empty(), out: Seq::empty() }
    } else {
        step(yard_after(tokens.drop_last()), tokens.last())
    }
}

/// The postfix form of `tokens`: the output after the last token, followed
/// by what is left on the stack, top first.
pub open spec fn shunting_yard(tokens: Seq<Token>) -> Seq<Token> {
    let y = yard_after(tokens);
    y.out + y.ops.reverse()
}

/// Tells whether the operator `top` leaves the stack when `incoming` arrives.
fn yields(top: Operator, incoming: Operator) -> (b: bool)
    ensures
        b == top.yields_to(incoming),
{
    let p_top: u32 = op_precedence(top);
    let p_in: u32 = op_precedence(incoming);
    p_top > p_in || (p_top == p_in && op_associative(incoming) == Associativity::Left)
}

/// Tells whether the top of the stack is an operator that yields to `incoming`.
fn top_yields(operators: &Vec<Token>, incoming: Operator) -> (b: bool)
    ensures
        b == (operators@.len() > 0 && (operators@.last() matches Token::Op(top, _)
            && top.yields_to(incoming))),
{
    let n: usize = operators.len();
    if n == 0 {
        false
    } else {
        match &operators[n - 1] {
            Token::Op(top, _) => yields(*top, incoming),
            _ => false,
        }
    }
}

/// Reorders an infix token sequence into postfix order. It never fails: what
/// is malformed shows when the tree is built.
pub fn shunting_yard_algorithm(tokens: Vec<Token>) -> (output: Vec<Token>)
    ensures
        output@ == shunting_yard(tokens@),
{
    let ghost all = tokens@;
    let mut output: Vec<Token> = Vec::new();
    let mut operators: Vec<Token> = Vec::new();
    assert(all.take(0) =~= Seq::<Token>::empty());
    for token in it: tokens
        invariant
            it.seq() == all,
            (Yard { ops: operators@, out: output@ }) == yard_after(all.take(it.index() as int)),
    {
        let ghost before = Yard { ops: operators@, out: output@ };
        proof {
            let k = it.index() as int;
            assert(all.take(k + 1).drop_last() =~= all.take(k));
            assert(all.take(k + 1).last() == token);
        }
        match token {
            Token::LParen(_) => {
                operators.push(token);
            },
            Token::RParen(_) => {
                let mut closed: bool = false;
                while !closed && operators.len() > 0
                    invariant
                        closed ==> (Yard { ops: operators@, out: output@ }) == close_group(before),
                        !closed ==> close_group(Yard { ops: operators@, out: output@ })
                            == close_group(before),
                    decreases operators@.len() + (if closed { 0int } else { 1int }),
                {
                    let top = operators.pop().unwrap();
                    match top {
                        Token::LParen(_) => {
                            closed = true;
                        },
                        _ => {
                            output.push(top);
                        },
                    }
                }
            },
            Token::Number(_, _) => {
                output.push(token);
            },
            Token::Reference(_, _) => {
                output.push(token);
            },
            Token::Op(op, _) => {
                while top_yields(&operators, op)
                    invariant
                        make_way(Yard { ops: operators@, out: output@ }, op) == make_way(
                            before,
                            op,
                        ),
                    decreases operators@.len(),
                {
                    let top = operators.pop().unwrap();
                    output.push(top);
                }
                operators.push(token);
            },
        }
    }
    assert(all.take(all.len() as int) =~= all);
    let ghost done = Yard { ops: operators@, out: output@ };
    assert(output@ + operators@.reverse() =~= done.out + done.ops.reverse());
    while operators.len() > 0
        invariant
            output@ + operators@.reverse() == done.out + done.ops.reverse(),
        decreases operators@.len(),
    {
        let ghost ops0 = operators@;
        let ghost out0 = output@;
        let top = operators.pop().unwrap();
        output.push(top);
        assert(output@ + operators@.reverse() =~= out0 + ops0.reverse());
    }
    assert(output@ + operators@.reverse() =~= output@);
    output
}

} // verus!
