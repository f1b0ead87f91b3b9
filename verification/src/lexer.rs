//! The lexer: from text to tokens.

use crate::error::CalcError;
use crate::number::{wrap, CalcNumber};
use crate::operator::{BinaryOp, Operator, PostfixOp, PrefixOp};
use crate::text::{
    digit_value, digits_value, is_digit, is_digit_char, is_letter, is_letter_char, is_whitespace,
    is_whitespace_char, to_chars,
};
use crate::token::Token;
use crate::vars::{lookup, Binding, VarStore};
use vstd::arithmetic::div_mod::{lemma_add_mod_noop, lemma_mul_mod_noop_general, lemma_small_mod};
use vstd::prelude::*;

verus! {

/// A token that is written with one or two fixed characters.
#[derive(Clone, Copy, PartialEq, Eq, Debug, Structural)]
pub enum Symbol {
    Op(Operator),
    LParen,
    RParen,
}

impl Symbol {
    /// The token for the symbol found at offset `at`.
    pub open spec fn token(self, at: usize) -> Token {
        match self {
            Symbol::Op(op) => Token::Op(op, at),
            Symbol::LParen => Token::LParen(at),
            Symbol::RParen => Token::RParen(at),
        }
    }
}

/// Whether the character after position `pos` is `c`.
pub open spec fn followed_by(text: Seq<char>, pos: int, c: char) -> bool {
    pos + 1 < text.len() && text[pos + 1] == c
}

/// An infix operator as a symbol.
pub open spec fn infix(op: BinaryOp) -> Symbol {
    Symbol::Op(Operator::Binary(op))
}

/// The symbol that starts at `pos`, with the number of characters it takes.
/// Where two characters make a symbol, they are not read as two symbols of
/// one character. A `=` that is not followed by another is no symbol.
pub open spec fn symbol_at(text: Seq<char>, pos: int) -> Option<(Symbol, usize)>
    recommends
        0 <= pos < text.len(),
{
    let c = text[pos];
    if c == '+' {
        Some((infix(BinaryOp::Plus), 1))
    } else if c == '-' {
        Some((infix(BinaryOp::Minus), 1))
    } else if c == '*' {
        if followed_by(text, pos, '*') {
            Some((infix(BinaryOp::Pow), 2))
        } else {
            Some((infix(BinaryOp::Mul), 1))
        }
    } else if c == '/' {
        Some((infix(BinaryOp::Div), 1))
    } else if c == '%' {
        Some((infix(BinaryOp::Mod), 1))
    } else if c == '!' {
        Some((Symbol::Op(Operator::Postfix(PostfixOp::Factorial)), 1))
    } else if c == '@' {
        Some((Symbol::Op(Operator::Prefix(PrefixOp::Sqrt)), 1))
    } else if c == '(' {
        Some((Symbol::LParen, 1))
    } else if c == ')' {
        Some((Symbol::RParen, 1))
    } else if c == '|' {
        if followed_by(text, pos, '|') {
            Some((infix(BinaryOp::Or), 2))
        } else {
            Some((infix(BinaryOp::BitOr), 1))
        }
    } else if c == '&' {
        if followed_by(text, pos, '&') {
            Some((infix(BinaryOp::And), 2))
        } else {
            Some((infix(BinaryOp::BitAnd), 1))
        }
    } else if c == '^' {
        if followed_by(text, pos, '^') {
            Some((infix(BinaryOp::Xor), 2))
        } else {
            Some((infix(BinaryOp::BitXor), 1))
        }
    } else if c == '=' {
        if followed_by(text, pos, '=') {
            Some((infix(BinaryOp::Equal), 2))
        } else {
            None
        }
    } else if c == '~' {
        if followed_by(text, pos, '=') {
            Some((infix(BinaryOp::NotEqual), 2))
        } else {
            Some((Symbol::Op(Operator::Prefix(PrefixOp::Not)), 1))
        }
    } else if c == '>' {
        if followed_by(text, pos, '=') {
            Some((infix(BinaryOp::Ge), 2))
        } else {
            Some((infix(BinaryOp::Gt), 1))
        }
    } else if c == '<' {
        if followed_by(text, pos, '=') {
            Some((infix(BinaryOp::Le), 2))
        } else {
            Some((infix(BinaryOp::Lt), 1))
        }
    } else {
        None
    }
}

/// Where the number that starts at `pos` ends: at the first character from
/// `pos` on that is neither a digit nor whitespace, or at the end of the text.
pub open spec fn number_end(text: Seq<char>, pos: int) -> int
    decreases text.len() - pos,
{
    if 0 <= pos < text.len() && (is_digit(text[pos]) || is_whitespace(text[pos])) {
        number_end(text, pos + 1)
    } else {
        pos
    }
}

/// Where the name that starts at `pos` ends: at the first character from
/// `pos` on that is neither a letter nor a digit, or at the end of the text.
pub open spec fn name_end(text: Seq<char>, pos: int) -> int
    decreases text.len() - pos,
{
    if 0 <= pos < text.len() && (is_letter(text[pos]) || is_digit(text[pos])) {
        name_end(text, pos + 1)
    } else {
        pos
    }
}

/// What stands at `pos`: a token or whitespace, with the position of what
/// comes next; or the error that lexing ends in there.
///
/// - Whitespace gives no token.
/// - A digit starts a number, which runs over digits and whitespace alike;
///   its value is what its digits spell, reduced modulo 2^32.
/// - A letter starts a name, which runs over letters and digits. A bound
///   name gives a reference with the tree of its binding; one that is not
///   bound is an unknown token.
/// - Anything else is a symbol, or an unknown token of one character.
pub open spec fn scan(text: Seq<char>, pos: int, store: Seq<Binding>) -> Result<
    (Option<Token>, int),
    CalcError,
>
    recommends
        0 <= pos < text.len(),
{
    let c = text[pos];
    if is_whitespace(c) {
        Ok((None, pos + 1))
    } else if is_digit(c) {
        let end = number_end(text, pos);
        Ok(
            (
                Some(
                    Token::Number(wrap(digits_value(text.subrange(pos, end)) as int), pos as usize),
                ),
                end,
            ),
        )
    } else if is_letter(c) {
        let end = name_end(text, pos);
        match lookup(store, text.subrange(pos, end)) {
            Some(b) => Ok((Some(Token::Reference(b.tree, pos as usize)), end)),
            None => Err(CalcError::UnknownToken { offset: pos as usize, len: (end - pos) as usize }),
        }
    } else {
        match symbol_at(text, pos) {
            Some((symbol, width)) => Ok((Some(symbol.token(pos as usize)), pos + width)),
            None => Err(CalcError::UnknownToken { offset: pos as usize, len: 1 }),
        }
    }
}

/// `front` followed by the tokens of `rest`, or the error of `rest`.
pub open spec fn after(front: Seq<Token>, rest: Result<Seq<Token>, CalcError>) -> Result<
    Seq<Token>,
    CalcError,
> {
    match rest {
        Ok(tokens) => Ok(front + tokens),
        Err(e) => Err(e),
    }
}

/// The tokens of `text` from position `pos` on, in the order in which they
/// stand, or the error at the first place where no token can be read. Every
/// token carries the offset of its first character in `text`.
///
/// What is read at a position ends after it and within the text
/// (`lemma_scan_advances`), so the test on `next` never stops the lexer: it
/// is there to show that the definition ends.
pub open spec fn lex(text: Seq<char>, pos: int, store: Seq<Binding>) -> Result<
    Seq<Token>,
    CalcError,
>
    decreases text.len() - pos,
{
    if pos < 0 || pos >= text.len() {
        Ok(Seq::empty())
    } else {
        match scan(text, pos, store) {
            Err(e) => Err(e),
            Ok((token, next)) => if next <= pos || next > text.len() {
                Ok(Seq::empty())
            } else {
                match token {
                    Some(t) => after(seq![t], lex(text, next, store)),
                    None => lex(text, next, store),
                }
            },
        }
    }
}

/// A number ends at or after the place where it starts, and within the text.
pub proof fn lemma_number_end_bounds(text: Seq<char>, pos: int)
    requires
        0 <= pos <= text.len(),
    ensures
        pos <= number_end(text, pos) <= text.len(),
        pos < text.len() && is_digit(text[pos]) ==> pos < number_end(text, pos),
    decreases text.len() - pos,
{
    if pos < text.len() && (is_digit(text[pos]) || is_whitespace(text[pos])) {
        lemma_number_end_bounds(text, pos + 1);
    }
}

/// A name ends at or after the place where it starts, and within the text.
pub proof fn lemma_name_end_bounds(text: Seq<char>, pos: int)
    requires
        0 <= pos <= text.len(),
    ensures
        pos <= name_end(text, pos) <= text.len(),
        pos < text.len() && is_letter(text[pos]) ==> pos < name_end(text, pos),
    decreases text.len() - pos,
{
    if pos < text.len() && (is_letter(text[pos]) || is_digit(text[pos])) {
        lemma_name_end_bounds(text, pos + 1);
    }
}

/// Reads the symbol that starts at `pos`.
fn read_symbol(chars: &Vec<char>, pos: usize) -> (r: Option<(Symbol, usize)>)
    requires
        pos < chars@.len(),
    ensures
        r == symbol_at(chars@, pos as int),
{
    let c = chars[pos];
    let n: usize = chars.len();
    let d: Option<char> = if pos + 1 < n {
        Some(chars[pos + 1])
    } else {
        None
    };
    if c == '+' {
        Some((Symbol::Op(Operator::Binary(BinaryOp::Plus)), 1))
    } else if c == '-' {
        Some((Symbol::Op(Operator::Binary(BinaryOp::Minus)), 1))
    } else if c == '*' {
        if d == Some('*') {
            Some((Symbol::Op(Operator::Binary(BinaryOp::Pow)), 2))
        } else {
            Some((Symbol::Op(Operator::Binary(BinaryOp::Mul)), 1))
        }
    } else if c == '/' {
        Some((Symbol::Op(Operator::Binary(BinaryOp::Div)), 1))
    } else if c == '%' {
        Some((Symbol::Op(Operator::Binary(BinaryOp::Mod)), 1))
    } else if c == '!' {
        Some((Symbol::Op(Operator::Postfix(PostfixOp::Factorial)), 1))
    } else if c == '@' {
        Some((Symbol::Op(Operator::Prefix(PrefixOp::Sqrt)), 1))
    } else if c == '(' {
        Some((Symbol::LParen, 1))
    } else if c == ')' {
        Some((Symbol::RParen, 1))
    } else if c == '|' {
        if d == Some('|') {
            Some((Symbol::Op(Operator::Binary(BinaryOp::Or)), 2))
        } else {
            Some((Symbol::Op(Operator::Binary(BinaryOp::BitOr)), 1))
        }
    } else if c == '&' {
        if d == Some('&') {
            Some((Symbol::Op(Operator::Binary(BinaryOp::And)), 2))
        } else {
            Some((Symbol::Op(Operator::Binary(BinaryOp::BitAnd)), 1))
        }
    } else if c == '^' {
        if d == Some('^') {
            Some((Symbol::Op(Operator::Binary(BinaryOp::Xor)), 2))
        } else {
            Some((Symbol::Op(Operator::Binary(BinaryOp::BitXor)), 1))
        }
    } else if c == '=' {
        if d == Some('=') {
            Some((Symbol::Op(Operator::Binary(BinaryOp::Equal)), 2))
        } else {
            None
        }
    } else if c == '~' {
        if d == Some('=') {
            Some((Symbol::Op(Operator::Binary(BinaryOp::NotEqual)), 2))
        } else {
            Some((Symbol::Op(Operator::Prefix(PrefixOp::Not)), 1))
        }
    } else if c == '>' {
        if d == Some('=') {
            Some((Symbol::Op(Operator::Binary(BinaryOp::Ge)), 2))
        } else {
            Some((Symbol::Op(Operator::Binary(BinaryOp::Gt)), 1))
        }
    } else if c == '<' {
        if d == Some('=') {
            Some((Symbol::Op(Operator::Binary(BinaryOp::Le)), 2))
        } else {
            Some((Symbol::Op(Operator::Binary(BinaryOp::Lt)), 1))
        }
    } else {
        None
    }
}

/// Reads the number that starts at `pos`: its value and where it ends.
fn read_number(chars: &Vec<char>, pos: usize) -> (r: (CalcNumber, usize))
    requires
        pos < chars@.len(),
        is_digit(chars@[pos as int]),
    ensures
        r.1 == number_end(chars@, pos as int),
        pos < r.1 <= chars@.len(),
        r.0 == wrap(digits_value(chars@.subrange(pos as int, r.1 as int)) as int),
{
    let mut acc: u32 = 0;
    let mut j: usize = pos;
    proof {
        assert(chars@.subrange(pos as int, pos as int) =~= Seq::<char>::empty());
        lemma_small_mod(0, 0x1_0000_0000);
        lemma_number_end_bounds(chars@, pos as int);
    }
    while j < chars.len() && (is_digit_char(chars[j]) || is_whitespace_char(chars[j]))
        invariant
            pos <= j <= chars@.len(),
            number_end(chars@, pos as int) == number_end(chars@, j as int),
            acc as int == digits_value(chars@.subrange(pos as int, j as int)) as int
                % 0x1_0000_0000,
        decreases chars@.len() - j,
    {
        let c = chars[j];
        proof {
            let before = chars@.subrange(pos as int, j as int);
            let now = chars@.subrange(pos as int, j + 1);
            assert(now.drop_last() =~= before);
            assert(now.last() == c);
        }
        if is_digit_char(c) {
            let d: u32 = c as u32 - '0' as u32;
            proof {
                let m: int = 0x1_0000_0000;
                let x = digits_value(chars@.subrange(pos as int, j as int)) as int;
                lemma_mul_mod_noop_general(x, 10, m);
                lemma_small_mod(10, m as nat);
                lemma_add_mod_noop(x * 10, d as int, m);
                lemma_small_mod(d as nat, m as nat);
                assert(d as nat == digit_value(c));
            }
            acc = acc.wrapping_mul(10).wrapping_add(d);
        }
        j = j + 1;
    }
    (CalcNumber(acc), j)
}

/// Finds where the name that starts at `pos` ends.
fn read_name(chars: &Vec<char>, pos: usize) -> (end: usize)
    requires
        pos < chars@.len(),
        is_letter(chars@[pos as int]),
    ensures
        end == name_end(chars@, pos as int),
        pos < end <= chars@.len(),
{
    let mut j: usize = pos;
    proof {
        lemma_name_end_bounds(chars@, pos as int);
    }
    while j < chars.len() && (is_letter_char(chars[j]) || is_digit_char(chars[j]))
        invariant
            pos <= j <= chars@.len(),
            name_end(chars@, pos as int) == name_end(chars@, j as int),
        decreases chars@.len() - j,
    {
        j = j + 1;
    }
    j
}

/// Splits `input`, from the character at `start` on, into tokens. A name is
/// looked up in `vars`; the reference token it gives holds a copy of the
/// bound tree.
pub fn lexer(input: &str, start: usize, vars: &VarStore) -> (r: Result<Vec<Token>, CalcError>)
    requires
        vars.wf(),
    ensures
        match r {
            Ok(tokens) => lex(input@, start as int, vars@) == Ok::<Seq<Token>, CalcError>(tokens@),
            Err(e) => lex(input@, start as int, vars@) == Err::<Seq<Token>, CalcError>(e),
        },
{
    let chars = to_chars(input);
    let mut tokens: Vec<Token> = Vec::new();
    let mut i: usize = start;
    proof {
        let whole = lex(input@, start as int, vars@);
        if whole is Ok {
            assert(tokens@ + whole->Ok_0 =~= whole->Ok_0);
        }
    }
    while i < chars.len()
        invariant
            chars@ == input@,
            vars.wf(),
            lex(input@, start as int, vars@) == after(tokens@, lex(input@, i as int, vars@)),
        decreases chars@.len() - i,
    {
        let c = chars[i];
        let ghost before = tokens@;
        if is_whitespace_char(c) {
            i = i + 1;
        } else if is_digit_char(c) {
            let (n, end) = read_number(&chars, i);
            tokens.push(Token::Number(n, i));
            proof {
                let rest = lex(input@, end as int, vars@);
                if rest is Ok {
                    assert(before + (seq![Token::Number(n, i)] + rest->Ok_0) =~= tokens@
                        + rest->Ok_0);
                }
            }
            i = end;
        } else if is_letter_char(c) {
            let end = read_name(&chars, i);
            let name = input.substring_char(i, end);
            match vars.get_expr(name) {
                Some(tree) => {
                    tokens.push(Token::Reference(tree, i));
                    proof {
                        let rest = lex(input@, end as int, vars@);
                        if rest is Ok {
                            assert(before + (seq![Token::Reference(tree, i)] + rest->Ok_0)
                                =~= tokens@ + rest->Ok_0);
                        }
                    }
                    i = end;
                },
                None => {
                    return Err(CalcError::UnknownToken { offset: i, len: end - i });
                },
            }
        } else {
            match read_symbol(&chars, i) {
                Some((symbol, width)) => {
                    let token = match symbol {
                        Symbol::Op(op) => Token::Op(op, i),
                        Symbol::LParen => Token::LParen(i),
                        Symbol::RParen => Token::RParen(i),
                    };
                    tokens.push(token);
                    proof {
                        let rest = lex(input@, i + width, vars@);
                        if rest is Ok {
                            assert(before + (seq![token] + rest->Ok_0) =~= tokens@ + rest->Ok_0);
                        }
                    }
                    i = i + width;
                },
                None => {
                    return Err(CalcError::UnknownToken { offset: i, len: 1 });
                },
            }
        }
    }
    proof {
        assert(tokens@ + Seq::<Token>::empty() =~= tokens@);
    }
    Ok(tokens)
}


/// What is read at a position of the text ends after that position and
/// within the text.
pub proof fn lemma_scan_advances(text: Seq<char>, pos: int, store: Seq<Binding>)
    requires
        0 <= pos < text.len(),
    ensures
        scan(text, pos, store) matches Ok((_, next)) ==> pos < next <= text.len(),
{
    lemma_number_end_bounds(text, pos);
    lemma_name_end_bounds(text, pos);
}

/// Lexing fails in one way only: by an unknown token, which lies within the
/// text at or after the place where lexing began.
pub proof fn lemma_lex_failures(text: Seq<char>, pos: int, store: Seq<Binding>)
    requires
        0 <= pos,
        text.len() <= usize::MAX,
    ensures
        lex(text, pos, store) matches Err(e) ==> (e matches CalcError::UnknownToken { offset, len }
            && pos <= offset && 1 <= len && offset + len <= text.len()),
    decreases text.len() - pos,
{
    if pos < text.len() {
        lemma_scan_advances(text, pos, store);
        lemma_name_end_bounds(text, pos);
        match scan(text, pos, store) {
            Err(_) => {},
            Ok((_, next)) => {
                lemma_lex_failures(text, next, store);
            },
        }
    }
}


/// Every token carries the offset of its own first character: it is the
/// token that stands at its offset in the text. The offsets lie within the
/// text, at or after the place where lexing began, and grow from token to
/// token.
pub proof fn lemma_lex_positions(text: Seq<char>, pos: int, store: Seq<Binding>)
    requires
        0 <= pos,
        text.len() <= usize::MAX,
    ensures
        lex(text, pos, store) matches Ok(tokens) ==> {
            &&& forall|i: int|
                0 <= i < tokens.len() ==> {
                    &&& pos <= (#[trigger] tokens[i]).position() < text.len()
                    &&& scan(text, tokens[i].position() as int, store) matches Ok((Some(t), _))
                        && t == tokens[i]
                }
            &&& forall|i: int, j: int|
                0 <= i < j < tokens.len() ==> (#[trigger] tokens[i]).position()
                    < (#[trigger] tokens[j]).position()
        },
    decreases text.len() - pos,
{
    if pos < text.len() {
        lemma_scan_advances(text, pos, store);
        if let Ok((token, next)) = scan(text, pos, store) {
            lemma_lex_positions(text, next, store);
            if let Ok(rest) = lex(text, next, store) {
                let tokens = lex(text, pos, store)->Ok_0;
                if let Some(t) = token {
                    assert(t.position() == pos);
                    assert(tokens =~= seq![t] + rest);
                    assert(forall|i: int| 0 < i < tokens.len() ==> tokens[i] == rest[i - 1]);
                }
            }
        }
    }
}

} // verus!
