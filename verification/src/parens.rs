//! The balance check: do the parentheses of a text match up?

use crate::text::to_chars;
use vstd::prelude::*;

verus! {

/// What a character adds to the nesting depth.
pub open spec fn depth_change(c: char) -> int {
    if c == '(' {
        1
    } else if c == ')' {
        -1
    } else {
        0
    }
}

/// The nesting depth after `s`: the number of `(` in it less the number of `)`.
pub open spec fn depth(s: Seq<char>) -> int
    decreases s.len(),
{
    if s.len() == 0 {
        0
    } else {
        depth(s.drop_last()) + depth_change(s.last())
    }
}

/// A text is balanced when the depth never falls below zero and is zero at
/// the end.
pub open spec fn parens_balanced(s: Seq<char>) -> bool {
    &&& depth(s) == 0
    &&& forall|k: int| 0 <= k <= s.len() ==> depth(#[trigger] s.take(k)) >= 0
}

/// Tells whether every `)` of `input` closes an earlier `(` and every `(` is
/// closed.
pub fn is_parens_correct(input: &str) -> (b: bool)
    ensures
        b == parens_balanced(input@),
{
    let chars = to_chars(input);
    let mut open: usize = 0;
    let mut i: usize = 0;
    assert(chars@.take(0) =~= Seq::<char>::empty());
    while i < chars.len()
        invariant
            i <= chars@.len(),
            chars@ == input@,
            open == depth(chars@.take(i as int)),
            open <= i,
            forall|k: int| 0 <= k <= i ==> depth(#[trigger] chars@.take(k)) >= 0,
        decreases chars@.len() - i,
    {
        let c = chars[i];
        assert(chars@.take(i + 1).drop_last() =~= chars@.take(i as int));
        if c == '(' {
            open = open + 1;
        } else if c == ')' {
            if open == 0 {
                assert(depth(chars@.take(i + 1)) < 0);
                return false;
            }
            open = open - 1;
        }
        i = i + 1;
    }
    assert(chars@.take(i as int) =~= chars@);
    open == 0
}

} // verus!
