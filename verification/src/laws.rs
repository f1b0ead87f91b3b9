//! What holds of every evaluation.

use crate::builder::{build, lemma_build_failures, stack_after};
use crate::evaluator::{expression, outcome, statement, Outcome, Statement};
use crate::error::CalcError;
use crate::lexer::{
    lemma_lex_failures, lemma_name_end_bounds, lemma_number_end_bounds, lex, number_end,
};
use crate::number::{wrap, CalcNumber};
use crate::operator::{BinaryOp, Operator};
use crate::parens::parens_balanced;
use crate::shunting::{close_group, make_way, shunting_yard, yard_after};
use crate::text::{digits_value, is_digit, is_letter, is_whitespace};
use crate::token::Token;
use crate::tree::{binary_value, lemma_value_fails_by_zero_divisor, Expr};
use crate::vars::{lemma_rebind, lookup, store_wf, Binding};
use vstd::arithmetic::power::pow;
use vstd::prelude::*;

verus! {

/// The tree of an expression fails to come about by an unknown token within
/// the text, by a missing operand, or for want of any operand.
pub proof fn lemma_expression_failures(store: Seq<Binding>, text: Seq<char>, start: int)
    requires
        0 <= start,
        text.len() <= usize::MAX,
    ensures
        expression(store, text, start) matches Err(e) ==> {
            ||| e is MissingOperand
            ||| e is NoResult
            ||| (e matches CalcError::UnknownToken { offset, len } && offset + len <= text.len())
        },
{
    lemma_lex_failures(text, start, store);
    match lex(text, start, store) {
        Err(_) => {},
        Ok(tokens) => {
            lemma_build_failures(shunting_yard(tokens));
        },
    }
}

/// An evaluation reports unbalanced parentheses exactly when the text's
/// parentheses are unbalanced, and an unknown token only where the text
/// holds it.
pub proof fn lemma_failures(store: Seq<Binding>, text: Seq<char>)
    requires
        text.len() <= usize::MAX,
    ensures
        outcome(store, text).result == Err::<CalcNumber, CalcError>(
            CalcError::UnbalancedParenthesis,
        ) <==> !parens_balanced(text),
        outcome(store, text).result matches Err(CalcError::UnknownToken { offset, len }) ==> offset
            + len <= text.len(),
{
    if parens_balanced(text) {
        match statement(text) {
            Statement::Read { name_end } => {
                lemma_name_end_bounds(text, 0);
            },
            Statement::Plain => {
                lemma_expression_failures(store, text, 0);
                if let Ok(tree) = expression(store, text, 0) {
                    lemma_value_fails_by_zero_divisor(tree);
                }
            },
            Statement::Assign { name_end, start } => {
                lemma_expression_failures(store, text, start as int);
                if let Ok(tree) = expression(store, text, start as int) {
                    lemma_value_fails_by_zero_divisor(tree);
                }
            },
        }
    }
}

/// The store changes only where an assignment succeeds: a failed evaluation
/// and the evaluation of anything but an assignment leave it as it was.
pub proof fn lemma_store_kept(store: Seq<Binding>, text: Seq<char>)
    ensures
        outcome(store, text).result is Err ==> outcome(store, text).store == store,
        !parens_balanced(text) || !(statement(text) is Assign) ==> outcome(store, text).store
            == store,
{
}

/// An evaluation leaves a well-formed store well formed.
pub proof fn lemma_store_stays_well_formed(store: Seq<Binding>, text: Seq<char>)
    requires
        store_wf(store),
    ensures
        store_wf(outcome(store, text).store),
{
    if parens_balanced(text) {
        if let Statement::Assign { name_end, start } = statement(text) {
            if let Ok(tree) = expression(store, text, start as int) {
                if let Ok(value) = tree.value() {
                    lemma_rebind(
                        store,
                        Binding {
                            name: text.subrange(0, name_end as int),
                            tree,
                            source_text: text.subrange(start as int, text.len() as int),
                            value,
                        },
                    );
                }
            }
        }
    }
}

/// After an assignment that succeeds, the variable stands for the tree of
/// the expression, for the expression's text and for the value that the
/// evaluation gave, which is the value of that tree. The binding of every
/// other variable is what it was, with the tree it had: a tree that was
/// captured from the variable before holds a copy and does not change.
pub proof fn lemma_assignment(store: Seq<Binding>, text: Seq<char>)
    requires
        store_wf(store),
        parens_balanced(text),
        statement(text) is Assign,
        outcome(store, text).result is Ok,
    ensures
        ({
            let name = text.subrange(0, statement(text)->Assign_name_end as int);
            let start = statement(text)->Assign_start as int;
            let after = outcome(store, text).store;
            let value = outcome(store, text).result->Ok_0;
            &&& lookup(after, name) matches Some(b)
            &&& b.value == value
            &&& b.tree.value() == Ok::<CalcNumber, CalcError>(value)
            &&& expression(store, text, start) == Ok::<Expr, CalcError>(b.tree)
            &&& b.source_text == text.subrange(start, text.len() as int)
            &&& forall|other: Seq<char>|
                other != name ==> #[trigger] lookup(after, other) == lookup(store, other)
        }),
{
    let name_end = statement(text)->Assign_name_end;
    let start = statement(text)->Assign_start;
    let tree = expression(store, text, start as int)->Ok_0;
    let value = tree.value()->Ok_0;
    lemma_rebind(
        store,
        Binding {
            name: text.subrange(0, name_end as int),
            tree,
            source_text: text.subrange(start as int, text.len() as int),
            value,
        },
    );
}

/// Reading a variable gives the value of the tree it is bound to.
pub proof fn lemma_read_gives_tree_value(store: Seq<Binding>, name: Seq<char>)
    requires
        store_wf(store),
    ensures
        lookup(store, name) matches Some(b) ==> b.name == name && b.tree.value() == Ok::<
            CalcNumber,
            CalcError,
        >(b.value),
{
}

/// Sums, differences, products and powers never fail: a result that does
/// not fit into 32 bits is reduced modulo 2^32.
pub proof fn lemma_wraparound(offset: usize, l: CalcNumber, r: CalcNumber)
    ensures
        binary_value(BinaryOp::Plus, offset, l, r) matches Ok(v) && v.0 == (l.0 + r.0)
            % 0x1_0000_0000,
        binary_value(BinaryOp::Minus, offset, l, r) matches Ok(v) && v.0 == (l.0 - r.0)
            % 0x1_0000_0000,
        binary_value(BinaryOp::Mul, offset, l, r) matches Ok(v) && v.0 == (l.0 * r.0)
            % 0x1_0000_0000,
        binary_value(BinaryOp::Pow, offset, l, r) matches Ok(v) && v.0 == pow(
            l.0 as int,
            r.0 as nat,
        ) % 0x1_0000_0000,
{
}


/// `(` and `)`.
pub open spec fn is_paren(c: char) -> bool {
    c == '(' || c == ')'
}

/// A text that writes one number: it holds digits, whitespace and
/// parentheses only, at least one digit, and no parenthesis between two
/// digits.
pub open spec fn writes_one_number(text: Seq<char>) -> bool {
    &&& forall|i: int|
        0 <= i < text.len() ==> is_digit(#[trigger] text[i]) || is_whitespace(text[i]) || is_paren(
            text[i],
        )
    &&& exists|i: int| 0 <= i < text.len() && is_digit(#[trigger] text[i])
    &&& forall|i: int, j: int, k: int|
        0 <= i < j < k < text.len() && is_digit(#[trigger] text[i]) && is_digit(#[trigger] text[k])
            ==> !is_paren(#[trigger] text[j])
}

/// A token that is a parenthesis.
spec fn is_paren_token(t: Token) -> bool {
    t is LParen || t is RParen
}

/// The token at `m` is the number `n`, and every other token is a parenthesis.
spec fn one_number_at(tokens: Seq<Token>, m: int, n: CalcNumber) -> bool {
    &&& 0 <= m < tokens.len()
    &&& tokens[m] matches Token::Number(v, _) && v == n
    &&& forall|i: int| 0 <= i < tokens.len() && i != m ==> is_paren_token(#[trigger] tokens[i])
}

/// Characters after the last digit add nothing to what the digits spell.
proof fn lemma_digits_then_others(s: Seq<char>, t: Seq<char>)
    requires
        forall|i: int| 0 <= i < t.len() ==> !is_digit(#[trigger] t[i]),
    ensures
        digits_value(s + t) == digits_value(s),
    decreases t.len(),
{
    if t.len() == 0 {
        assert(s + t =~= s);
    } else {
        assert((s + t).drop_last() =~= s + t.drop_last());
        assert((s + t).last() == t.last());
        lemma_digits_then_others(s, t.drop_last());
    }
}

/// Characters before the first digit add nothing to what the digits spell.
proof fn lemma_others_then_digits(s: Seq<char>, t: Seq<char>)
    requires
        forall|i: int| 0 <= i < s.len() ==> !is_digit(#[trigger] s[i]),
    ensures
        digits_value(s + t) == digits_value(t),
    decreases t.len(),
{
    if t.len() == 0 {
        assert(s + t =~= s);
        lemma_digits_then_others(Seq::empty(), s);
        assert(Seq::<char>::empty() + s =~= s);
    } else {
        assert((s + t).drop_last() =~= s + t.drop_last());
        assert((s + t).last() == t.last());
        lemma_others_then_digits(s, t.drop_last());
    }
}

/// A number runs over digits and whitespace and stops before anything else.
proof fn lemma_number_run(text: Seq<char>, pos: int)
    requires
        0 <= pos <= text.len(),
    ensures
        pos <= number_end(text, pos) <= text.len(),
        forall|i: int|
            pos <= i < number_end(text, pos) ==> is_digit(#[trigger] text[i]) || is_whitespace(
                text[i],
            ),
        number_end(text, pos) < text.len() ==> !is_digit(text[number_end(text, pos)])
            && !is_whitespace(text[number_end(text, pos)]),
    decreases text.len() - pos,
{
    if pos < text.len() && (is_digit(text[pos]) || is_whitespace(text[pos])) {
        lemma_number_run(text, pos + 1);
    }
}

/// Where only whitespace and parentheses follow, the tokens are parentheses.
proof fn lemma_lex_parens(text: Seq<char>, pos: int, store: Seq<Binding>)
    requires
        0 <= pos <= text.len(),
        forall|i: int| pos <= i < text.len() ==> is_whitespace(#[trigger] text[i]) || is_paren(text[i]),
    ensures
        lex(text, pos, store) matches Ok(tokens) && forall|i: int|
            0 <= i < tokens.len() ==> is_paren_token(#[trigger] tokens[i]),
    decreases text.len() - pos,
{
    if pos < text.len() {
        lemma_lex_parens(text, pos + 1, store);
    }
}

/// Where the text from `pos` on writes one number, its tokens are that
/// number among parentheses.
proof fn lemma_lex_one_number(text: Seq<char>, pos: int, store: Seq<Binding>) -> (m: int)
    requires
        0 <= pos <= text.len(),
        writes_one_number(text),
        exists|i: int| pos <= i < text.len() && is_digit(#[trigger] text[i]),
    ensures
        lex(text, pos, store) matches Ok(tokens) && one_number_at(
            tokens,
            m,
            wrap(digits_value(text.subrange(pos, text.len() as int)) as int),
        ),
    decreases text.len() - pos,
{
    let len = text.len() as int;
    let c = text[pos];
    if is_digit(c) {
        let end = number_end(text, pos);
        lemma_number_run(text, pos);
        lemma_number_end_bounds(text, pos);
        if end < len {
            assert(is_paren(text[end]));
        }
        assert forall|i: int| end <= i < len implies !is_digit(#[trigger] text[i]) by {
            if i > end && is_digit(text[i]) {
                assert(is_paren(text[end]));
                assert(is_digit(text[pos]));
                assert(false);
            }
        }
        lemma_lex_parens(text, end, store);
        let rest = lex(text, end, store)->Ok_0;
        let run = text.subrange(pos, end);
        let tail = text.subrange(end, len);
        assert(run + tail =~= text.subrange(pos, len));
        lemma_digits_then_others(run, tail);
        let tokens = lex(text, pos, store)->Ok_0;
        assert(tokens =~= seq![Token::Number(wrap(digits_value(run) as int), pos as usize)] + rest);
        0
    } else {
        let m = lemma_lex_one_number(text, pos + 1, store);
        let head = text.subrange(pos, pos + 1);
        let tail = text.subrange(pos + 1, len);
        assert(head + tail =~= text.subrange(pos, len));
        lemma_others_then_digits(head, tail);
        let rest = lex(text, pos + 1, store)->Ok_0;
        if is_whitespace(c) {
            m
        } else {
            assert(is_paren(c));
            let tokens = lex(text, pos, store)->Ok_0;
            assert(tokens.len() == rest.len() + 1);
            assert(forall|i: int| 0 < i < tokens.len() ==> tokens[i] == rest[i - 1]);
            assert(is_paren_token(tokens[0]));
            m + 1
        }
    }
}

/// Of one number among parentheses, the number alone reaches the output,
/// and the stack holds opening parentheses only.
proof fn lemma_yard_one_number(tokens: Seq<Token>, m: int, n: CalcNumber, k: int)
    requires
        one_number_at(tokens, m, n),
        0 <= k <= tokens.len(),
    ensures
        yard_after(tokens.take(k)).out == (if k <= m {
            Seq::<Token>::empty()
        } else {
            seq![tokens[m]]
        }),
        forall|i: int|
            0 <= i < yard_after(tokens.take(k)).ops.len() ==> (#[trigger] yard_after(
                tokens.take(k),
            ).ops[i]) is LParen,
    decreases k,
{
    if k > 0 {
        lemma_yard_one_number(tokens, m, n, k - 1);
        assert(tokens.take(k).drop_last() =~= tokens.take(k - 1));
        assert(tokens.take(k).last() == tokens[k - 1]);
        let y = yard_after(tokens.take(k - 1));
        let z = yard_after(tokens.take(k));
        if k - 1 == m {
            assert(z.out =~= seq![tokens[m]]);
        } else {
            assert(is_paren_token(tokens[k - 1]));
            if tokens[k - 1] is RParen {
                reveal_with_fuel(close_group, 2);
            }
        }
    }
}

/// A number followed by opening parentheses builds into the number's leaf.
proof fn lemma_stack_one_number(postfix: Seq<Token>, n: CalcNumber, k: int)
    requires
        postfix.len() > 0,
        postfix[0] matches Token::Number(v, _) && v == n,
        forall|i: int| 0 < i < postfix.len() ==> (#[trigger] postfix[i]) is LParen,
        1 <= k <= postfix.len(),
    ensures
        stack_after(postfix.take(k)) == Ok::<Seq<Expr>, CalcError>(seq![Expr::Literal(n)]),
    decreases k,
{
    assert(postfix.take(k).drop_last() =~= postfix.take(k - 1));
    assert(postfix.take(k).last() == postfix[k - 1]);
    if k == 1 {
        assert(postfix.take(0) =~= Seq::<Token>::empty());
        assert(stack_after(postfix.take(0)) == Ok::<Seq<Expr>, CalcError>(Seq::empty()));
        assert(Seq::<Expr>::empty().push(Expr::Literal(n)) =~= seq![Expr::Literal(n)]);
    } else {
        lemma_stack_one_number(postfix, n, k - 1);
    }
}

/// A text of digits, whitespace and balanced parentheses that writes one
/// number evaluates to that number: to what its digits spell when
/// whitespace and nesting are left out, reduced modulo 2^32. The store
/// stays as it was.
pub proof fn lemma_number_line(store: Seq<Binding>, text: Seq<char>)
    requires
        writes_one_number(text),
        parens_balanced(text),
    ensures
        outcome(store, text) == (Outcome {
            result: Ok(wrap(digits_value(text) as int)),
            store,
        }),
{
    let n = wrap(digits_value(text) as int);
    assert(text.subrange(0, text.len() as int) =~= text);
    let m = lemma_lex_one_number(text, 0, store);
    let tokens = lex(text, 0, store)->Ok_0;
    lemma_yard_one_number(tokens, m, n, tokens.len() as int);
    assert(tokens.take(tokens.len() as int) =~= tokens);
    let y = yard_after(tokens);
    let postfix = shunting_yard(tokens);
    assert(postfix[0] == tokens[m]);
    assert forall|i: int| 0 < i < postfix.len() implies (#[trigger] postfix[i]) is LParen by {
        assert(postfix[i] == y.ops.reverse()[i - 1]);
        assert(y.ops.reverse()[i - 1] == y.ops[y.ops.len() - 1 - (i - 1)]);
    }
    lemma_stack_one_number(postfix, n, postfix.len() as int);
    assert(postfix.take(postfix.len() as int) =~= postfix);
    assert(build(postfix) == Ok::<Expr, CalcError>(Expr::Literal(n)));
    assert(!is_letter(text[0]));
    assert(statement(text) == Statement::Plain);
}


/// The leaf that an operand token becomes in a tree.
pub open spec fn leaf(t: Token) -> Expr
    recommends
        t.is_operand(),
{
    match t {
        Token::Number(n, _) => Expr::Literal(n),
        Token::Reference(tree, _) => Expr::Reference(Box::new(tree)),
        _ => arbitrary(),
    }
}

/// The tree of `left op right`.
pub open spec fn binary(op: BinaryOp, offset: usize, left: Expr, right: Expr) -> Expr {
    Expr::Binary { op, offset, left: Box::new(left), right: Box::new(right) }
}

/// The token of a binary operator.
pub open spec fn binary_token(op: BinaryOp, offset: usize) -> Token {
    Token::Op(Operator::Binary(op), offset)
}

/// The postfix form of `a op b` is `a b op`.
proof fn lemma_postfix_of_two(a: Token, o: Token, b: Token)
    requires
        a.is_operand(),
        b.is_operand(),
        o is Op,
    ensures
        shunting_yard(seq![a, o, b]) == seq![a, b, o],
{
    let s0 = Seq::<Token>::empty();
    let s1 = seq![a];
    let s2 = seq![a, o];
    let s3 = seq![a, o, b];
    assert(s1.drop_last() =~= s0);
    assert(s2.drop_last() =~= s1);
    assert(s3.drop_last() =~= s2);
    reveal_with_fuel(make_way, 2);
    assert(yard_after(s0).out =~= s0 && yard_after(s0).ops =~= s0);
    let y1 = yard_after(s1);
    assert(s1.last() == a);
    assert(y1.out =~= seq![a] && y1.ops =~= s0);
    let y2 = yard_after(s2);
    assert(y2.out =~= seq![a] && y2.ops =~= seq![o]);
    let y3 = yard_after(s3);
    assert(y3.out =~= seq![a, b] && y3.ops =~= seq![o]);
    assert(y3.out + y3.ops.reverse() =~= seq![a, b, o]);
}

/// The postfix form of `a op1 b op2 c`: `a b op1 c op2` where `op1` yields
/// to `op2`, and `a b c op2 op1` where it does not.
proof fn lemma_postfix_of_three(a: Token, o1: Token, b: Token, o2: Token, c: Token)
    requires
        a.is_operand(),
        b.is_operand(),
        c.is_operand(),
        o1 is Op,
        o2 is Op,
    ensures
        shunting_yard(seq![a, o1, b, o2, c]) == (if o1->Op_0.yields_to(o2->Op_0) {
            seq![a, b, o1, c, o2]
        } else {
            seq![a, b, c, o2, o1]
        }),
{
    let s0 = Seq::<Token>::empty();
    let s1 = seq![a];
    let s2 = seq![a, o1];
    let s3 = seq![a, o1, b];
    let s4 = seq![a, o1, b, o2];
    let s5 = seq![a, o1, b, o2, c];
    assert(s1.drop_last() =~= s0);
    assert(s2.drop_last() =~= s1);
    assert(s3.drop_last() =~= s2);
    assert(s4.drop_last() =~= s3);
    assert(s5.drop_last() =~= s4);
    reveal_with_fuel(make_way, 3);
    assert(yard_after(s0).out =~= s0 && yard_after(s0).ops =~= s0);
    let y1 = yard_after(s1);
    assert(s1.last() == a);
    assert(y1.out =~= seq![a] && y1.ops =~= s0);
    let y2 = yard_after(s2);
    assert(y2.out =~= seq![a] && y2.ops =~= seq![o1]);
    let y3 = yard_after(s3);
    assert(y3.out =~= seq![a, b] && y3.ops =~= seq![o1]);
    let y4 = yard_after(s4);
    let y5 = yard_after(s5);
    if o1->Op_0.yields_to(o2->Op_0) {
        assert(y3.ops.drop_last() =~= s0);
        assert(y4.out =~= seq![a, b, o1] && y4.ops =~= seq![o2]);
        assert(y5.out =~= seq![a, b, o1, c] && y5.ops =~= seq![o2]);
        assert(y5.out + y5.ops.reverse() =~= seq![a, b, o1, c, o2]);
    } else {
        assert(y4.out =~= seq![a, b] && y4.ops =~= seq![o1, o2]);
        assert(y5.out =~= seq![a, b, c] && y5.ops =~= seq![o1, o2]);
        assert(y5.out + y5.ops.reverse() =~= seq![a, b, c, o2, o1]);
    }
}

/// Operand order: `a op b` builds the tree that has `a` on the left of `op`
/// and `b` on its right.
pub proof fn lemma_operand_order(a: Token, op: BinaryOp, at: usize, b: Token)
    requires
        a.is_operand(),
        b.is_operand(),
    ensures
        build(shunting_yard(seq![a, binary_token(op, at), b])) == Ok::<Expr, CalcError>(
            binary(op, at, leaf(a), leaf(b)),
        ),
{
    let o = binary_token(op, at);
    lemma_postfix_of_two(a, o, b);
    let p0 = Seq::<Token>::empty();
    let p1 = seq![a];
    let p2 = seq![a, b];
    let p3 = seq![a, b, o];
    assert(p1.drop_last() =~= p0);
    assert(p2.drop_last() =~= p1);
    assert(p3.drop_last() =~= p2);
    assert(stack_after(p0) == Ok::<Seq<Expr>, CalcError>(Seq::empty()));
    assert(p1.last() == a);
    assert(stack_after(p1) is Ok && stack_after(p1)->Ok_0 =~= seq![leaf(a)]);
    assert(stack_after(p2)->Ok_0 =~= seq![leaf(a), leaf(b)]);
    assert(stack_after(p3)->Ok_0 =~= seq![binary(op, at, leaf(a), leaf(b))]);
}

/// Precedence and associativity: in `a op1 b op2 c` the first operator
/// takes `a` and `b` where it binds tighter than the second, or as tightly
/// while the second groups to the left; else the second operator takes `b`
/// and `c`. So `a - b - c` is `(a - b) - c`, `a ** b ** c` is
/// `a ** (b ** c)`, and `a + b * c` is `a + (b * c)`.
pub proof fn lemma_grouping(
    a: Token,
    op1: BinaryOp,
    at1: usize,
    b: Token,
    op2: BinaryOp,
    at2: usize,
    c: Token,
)
    requires
        a.is_operand(),
        b.is_operand(),
        c.is_operand(),
    ensures
        build(
            shunting_yard(seq![a, binary_token(op1, at1), b, binary_token(op2, at2), c]),
        ) == Ok::<Expr, CalcError>(
            if Operator::Binary(op1).yields_to(Operator::Binary(op2)) {
                binary(op2, at2, binary(op1, at1, leaf(a), leaf(b)), leaf(c))
            } else {
                binary(op1, at1, leaf(a), binary(op2, at2, leaf(b), leaf(c)))
            },
        ),
{
    let o1 = binary_token(op1, at1);
    let o2 = binary_token(op2, at2);
    lemma_postfix_of_three(a, o1, b, o2, c);
    let p0 = Seq::<Token>::empty();
    let p1 = seq![a];
    let p2 = seq![a, b];
    assert(p1.drop_last() =~= p0);
    assert(p2.drop_last() =~= p1);
    assert(stack_after(p0) == Ok::<Seq<Expr>, CalcError>(Seq::empty()));
    assert(p1.last() == a);
    assert(stack_after(p1) is Ok && stack_after(p1)->Ok_0 =~= seq![leaf(a)]);
    assert(stack_after(p2)->Ok_0 =~= seq![leaf(a), leaf(b)]);
    if Operator::Binary(op1).yields_to(Operator::Binary(op2)) {
        let p3 = seq![a, b, o1];
        let p4 = seq![a, b, o1, c];
        let p5 = seq![a, b, o1, c, o2];
        assert(p3.drop_last() =~= p2);
        assert(p4.drop_last() =~= p3);
        assert(p5.drop_last() =~= p4);
        let first = binary(op1, at1, leaf(a), leaf(b));
        assert(stack_after(p3)->Ok_0 =~= seq![first]);
        assert(stack_after(p4)->Ok_0 =~= seq![first, leaf(c)]);
        assert(stack_after(p5)->Ok_0 =~= seq![binary(op2, at2, first, leaf(c))]);
    } else {
        let p3 = seq![a, b, c];
        let p4 = seq![a, b, c, o2];
        let p5 = seq![a, b, c, o2, o1];
        assert(p3.drop_last() =~= p2);
        assert(p4.drop_last() =~= p3);
        assert(p5.drop_last() =~= p4);
        let second = binary(op2, at2, leaf(b), leaf(c));
        assert(stack_after(p3)->Ok_0 =~= seq![leaf(a), leaf(b), leaf(c)]);
        assert(stack_after(p4)->Ok_0 =~= seq![leaf(a), second]);
        assert(stack_after(p5)->Ok_0 =~= seq![binary(op1, at1, leaf(a), second)]);
    }
}


/// Parentheses group: in `a op1 ( b op2 c )` the second operator takes `b`
/// and `c`, whatever the two operators are.
pub proof fn lemma_parentheses_group(
    a: Token,
    op1: BinaryOp,
    at1: usize,
    open: usize,
    b: Token,
    op2: BinaryOp,
    at2: usize,
    c: Token,
    close: usize,
)
    requires
        a.is_operand(),
        b.is_operand(),
        c.is_operand(),
    ensures
        build(
            shunting_yard(
                seq![
                    a,
                    binary_token(op1, at1),
                    Token::LParen(open),
                    b,
                    binary_token(op2, at2),
                    c,
                    Token::RParen(close),
                ],
            ),
        ) == Ok::<Expr, CalcError>(
            binary(op1, at1, leaf(a), binary(op2, at2, leaf(b), leaf(c))),
        ),
{
    let o1 = binary_token(op1, at1);
    let o2 = binary_token(op2, at2);
    let l = Token::LParen(open);
    let r = Token::RParen(close);
    let s0 = Seq::<Token>::empty();
    let s1 = seq![a];
    let s2 = seq![a, o1];
    let s3 = seq![a, o1, l];
    let s4 = seq![a, o1, l, b];
    let s5 = seq![a, o1, l, b, o2];
    let s6 = seq![a, o1, l, b, o2, c];
    let s7 = seq![a, o1, l, b, o2, c, r];
    assert(s1.drop_last() =~= s0);
    assert(s2.drop_last() =~= s1);
    assert(s3.drop_last() =~= s2);
    assert(s4.drop_last() =~= s3);
    assert(s5.drop_last() =~= s4);
    assert(s6.drop_last() =~= s5);
    assert(s7.drop_last() =~= s6);
    reveal_with_fuel(make_way, 2);
    reveal_with_fuel(close_group, 3);
    assert(yard_after(s0).out =~= s0 && yard_after(s0).ops =~= s0);
    assert(s1.last() == a);
    assert(yard_after(s1).out =~= seq![a] && yard_after(s1).ops =~= s0);
    assert(yard_after(s2).out =~= seq![a] && yard_after(s2).ops =~= seq![o1]);
    assert(yard_after(s3).out =~= seq![a] && yard_after(s3).ops =~= seq![o1, l]);
    assert(yard_after(s4).out =~= seq![a, b] && yard_after(s4).ops =~= seq![o1, l]);
    assert(yard_after(s5).out =~= seq![a, b] && yard_after(s5).ops =~= seq![o1, l, o2]);
    let y6 = yard_after(s6);
    assert(y6.out =~= seq![a, b, c] && y6.ops =~= seq![o1, l, o2]);
    let y7 = yard_after(s7);
    assert(y6.ops.drop_last() =~= seq![o1, l]);
    assert(seq![o1, l].drop_last() =~= seq![o1]);
    assert(y7.out =~= seq![a, b, c, o2] && y7.ops =~= seq![o1]);
    assert(y7.out + y7.ops.reverse() =~= seq![a, b, c, o2, o1]);
    let p0 = Seq::<Token>::empty();
    let p1 = seq![a];
    let p2 = seq![a, b];
    let p3 = seq![a, b, c];
    let p4 = seq![a, b, c, o2];
    let p5 = seq![a, b, c, o2, o1];
    assert(p1.drop_last() =~= p0);
    assert(p2.drop_last() =~= p1);
    assert(p3.drop_last() =~= p2);
    assert(p4.drop_last() =~= p3);
    assert(p5.drop_last() =~= p4);
    let second = binary(op2, at2, leaf(b), leaf(c));
    assert(stack_after(p0) == Ok::<Seq<Expr>, CalcError>(Seq::empty()));
    assert(p1.last() == a);
    assert(stack_after(p1) is Ok && stack_after(p1)->Ok_0 =~= seq![leaf(a)]);
    assert(stack_after(p2)->Ok_0 =~= seq![leaf(a), leaf(b)]);
    assert(stack_after(p3)->Ok_0 =~= seq![leaf(a), leaf(b), leaf(c)]);
    assert(stack_after(p4)->Ok_0 =~= seq![leaf(a), second]);
    assert(stack_after(p5)->Ok_0 =~= seq![binary(op1, at1, leaf(a), second)]);
}

} // verus!
