//! The evaluator: from a line of text to a number, or to an error.

use crate::builder::{build, generate_ast};
use crate::error::CalcError;
use crate::lexer::{followed_by, lemma_name_end_bounds, lex, lexer, name_end};
use crate::number::CalcNumber;
use crate::parens::{is_parens_correct, parens_balanced};
use crate::shunting::{shunting_yard, shunting_yard_algorithm};
use crate::text::{is_digit_char, is_letter, is_letter_char, is_whitespace, is_whitespace_char, to_chars};
use crate::tree::Expr;
use crate::vars::{lookup, rebind, Binding, VarStore};
use vstd::prelude::*;

verus! {

/// An error as it is shown: its message and, where it has one, its offset.
pub type ErrorMsg = (String, Option<usize>);

/// What kind of line a text is.
#[derive(Clone, Copy, PartialEq, Eq, Debug, Structural)]
pub enum Statement {
    /// A name and nothing else: the variable is read. The name ends at
    /// `name_end`.
    Read { name_end: usize },
    /// A name, ending at `name_end`, then `=`, then an expression that
    /// starts at `start`: the variable is bound.
    Assign { name_end: usize, start: usize },
    /// An expression.
    Plain,
}

/// Where the whitespace that starts at `pos` ends: at the first character
/// from `pos` on that is no whitespace, or at the end of the text.
pub open spec fn whitespace_end(text: Seq<char>, pos: int) -> int
    decreases text.len() - pos,
{
    if 0 <= pos < text.len() && is_whitespace(text[pos]) {
        whitespace_end(text, pos + 1)
    } else {
        pos
    }
}

/// The kind of line that `text` is. A text that starts with a name is a
/// read where only whitespace follows the name, and an assignment where,
/// after whitespace or none, a `=` follows that is not the first half of
/// `==`. Every other text is an expression.
pub open spec fn statement(text: Seq<char>) -> Statement {
    if text.len() > 0 && is_letter(text[0]) {
        let e = name_end(text, 0);
        let w = whitespace_end(text, e);
        if w >= text.len() {
            Statement::Read { name_end: e as usize }
        } else if text[w] == '=' && !followed_by(text, w, '=') {
            Statement::Assign { name_end: e as usize, start: (w + 1) as usize }
        } else {
            Statement::Plain
        }
    } else {
        Statement::Plain
    }
}

/// The tree of the expression that `text` holds from `start` on.
pub open spec fn expression(store: Seq<Binding>, text: Seq<char>, start: int) -> Result<
    Expr,
    CalcError,
> {
    match lex(text, start, store) {
        Err(e) => Err(e),
        Ok(tokens) => build(shunting_yard(tokens)),
    }
}

/// How an evaluation ends: with a number or an error, and with a store.
pub struct Outcome {
    pub result: Result<CalcNumber, CalcError>,
    pub store: Seq<Binding>,
}

/// How the evaluation of `text` with the bindings of `store` ends.
///
/// - A text with unbalanced parentheses fails before anything else is
///   looked at.
/// - A read gives the value that the variable was bound with; the name of an
///   unbound variable is an unknown token.
/// - An expression gives its value.
/// - An assignment gives the value of its expression, and binds the name to
///   the expression's tree, to its text and to that value.
/// - The store changes only where an assignment succeeds.
pub open spec fn outcome(store: Seq<Binding>, text: Seq<char>) -> Outcome {
    if !parens_balanced(text) {
        Outcome { result: Err(CalcError::UnbalancedParenthesis), store }
    } else {
        match statement(text) {
            Statement::Read { name_end } => match lookup(store, text.subrange(0, name_end as int)) {
                Some(b) => Outcome { result: Ok(b.value), store },
                None => Outcome {
                    result: Err(CalcError::UnknownToken { offset: 0, len: name_end }),
                    store,
                },
            },
            Statement::Plain => match expression(store, text, 0) {
                Err(e) => Outcome { result: Err(e), store },
                Ok(tree) => Outcome { result: tree.value(), store },
            },
            Statement::Assign { name_end, start } => match expression(store, text, start as int) {
                Err(e) => Outcome { result: Err(e), store },
                Ok(tree) => match tree.value() {
                    Err(e) => Outcome { result: Err(e), store },
                    Ok(value) => Outcome {
                        result: Ok(value),
                        store: rebind(
                            store,
                            Binding {
                                name: text.subrange(0, name_end as int),
                                tree,
                                source_text: text.subrange(start as int, text.len() as int),
                                value,
                            },
                        ),
                    },
                },
            },
        }
    }
}

/// The text of the token that an error names, where the text holds it.
pub open spec fn token_text(text: Seq<char>, offset: usize, len: usize) -> Seq<char> {
    if offset + len <= text.len() {
        text.subrange(offset as int, offset + len)
    } else {
        Seq::empty()
    }
}

/// The message for an error that the evaluation of `text` ended in.
pub open spec fn error_message(e: CalcError, text: Seq<char>) -> Seq<char> {
    match e {
        CalcError::UnknownToken { offset, len } => token_text(text, offset, len) + ": "@
            + "Token cannot be parsed"@,
        CalcError::UnbalancedParenthesis => "Wrong parenthesis found"@,
        CalcError::DivideByZero { .. } => "Divided by zero"@,
        CalcError::NoResult => "No Result"@,
        CalcError::MissingOperand { .. } => "Argumentum is missing"@,
    }
}

/// Finds where the whitespace that starts at `pos` ends.
fn skip_whitespace(chars: &Vec<char>, pos: usize) -> (end: usize)
    requires
        pos <= chars@.len(),
    ensures
        end == whitespace_end(chars@, pos as int),
        pos <= end <= chars@.len(),
{
    let mut j: usize = pos;
    while j < chars.len() && is_whitespace_char(chars[j])
        invariant
            pos <= j <= chars@.len(),
            whitespace_end(chars@, pos as int) == whitespace_end(chars@, j as int),
        decreases chars@.len() - j,
    {
        j = j + 1;
    }
    j
}

/// Finds where the name that starts at the front of the text ends.
fn leading_name_end(chars: &Vec<char>) -> (end: usize)
    requires
        chars@.len() > 0,
        is_letter(chars@[0]),
    ensures
        end == name_end(chars@, 0),
        0 < end <= chars@.len(),
{
    let mut j: usize = 0;
    proof {
        lemma_name_end_bounds(chars@, 0);
    }
    while j < chars.len() && (is_letter_char(chars[j]) || is_digit_char(chars[j]))
        invariant
            j <= chars@.len(),
            name_end(chars@, 0) == name_end(chars@, j as int),
        decreases chars@.len() - j,
    {
        j = j + 1;
    }
    j
}

/// Tells what kind of line the text is.
pub fn classify(input: &str) -> (s: Statement)
    ensures
        s == statement(input@),
        match s {
            Statement::Read { name_end } => 0 < name_end <= input@.len(),
            Statement::Assign { name_end, start } => 0 < name_end < start <= input@.len(),
            Statement::Plain => true,
        },
{
    let chars = to_chars(input);
    if chars.len() > 0 && is_letter_char(chars[0]) {
        let e = leading_name_end(&chars);
        let w = skip_whitespace(&chars, e);
        if w >= chars.len() {
            Statement::Read { name_end: e }
        } else if chars[w] == '=' && !(w + 1 < chars.len() && chars[w + 1] == '=') {
            Statement::Assign { name_end: e, start: w + 1 }
        } else {
            Statement::Plain
        }
    } else {
        Statement::Plain
    }
}

/// Builds the tree of the expression that `input` holds from `start` on.
fn parse(input: &str, start: usize, vars: &VarStore) -> (r: Result<Expr, CalcError>)
    requires
        vars.wf(),
    ensures
        r == expression(vars@, input@, start as int),
{
    match lexer(input, start, vars) {
        Err(e) => Err(e),
        Ok(tokens) => generate_ast(shunting_yard_algorithm(tokens)),
    }
}

/// Evaluates a line of text. An assignment that succeeds binds its variable
/// in `vars`; nothing else changes `vars`.
pub fn evaluate(vars: &mut VarStore, input: &str) -> (r: Result<CalcNumber, CalcError>)
    requires
        old(vars).wf(),
    ensures
        final(vars).wf(),
        r == outcome(old(vars)@, input@).result,
        final(vars)@ == outcome(old(vars)@, input@).store,
{
    if !is_parens_correct(input) {
        return Err(CalcError::UnbalancedParenthesis);
    }
    match classify(input) {
        Statement::Read { name_end } => {
            let name = input.substring_char(0, name_end);
            match vars.get_result(name) {
                Some(value) => Ok(value),
                None => Err(CalcError::UnknownToken { offset: 0, len: name_end }),
            }
        },
        Statement::Plain => {
            match parse(input, 0, vars) {
                Err(e) => Err(e),
                Ok(tree) => tree.eval(),
            }
        },
        Statement::Assign { name_end, start } => {
            match parse(input, start, vars) {
                Err(e) => Err(e),
                Ok(tree) => match tree.eval() {
                    Err(e) => Err(e),
                    Ok(value) => {
                        let name = input.substring_char(0, name_end).to_owned();
                        let source = input.substring_char(start, input.unicode_len()).to_owned();
                        vars.bind(name, tree, source, value);
                        Ok(value)
                    },
                },
            }
        },
    }
}

/// Writes the message for an error that the evaluation of `input` ended in.
pub fn describe(e: CalcError, input: &str) -> (msg: String)
    ensures
        msg@ == error_message(e, input@),
{
    match e {
        CalcError::UnknownToken { offset, len } => {
            let n: usize = input.unicode_len();
            let token: String = if offset <= n && len <= n - offset {
                input.substring_char(offset, offset + len).to_owned()
            } else {
                String::new()
            };
            token.concat(": ").concat("Token cannot be parsed")
        },
        CalcError::UnbalancedParenthesis => String::from_str("Wrong parenthesis found"),
        CalcError::DivideByZero { .. } => String::from_str("Divided by zero"),
        CalcError::NoResult => String::from_str("No Result"),
        CalcError::MissingOperand { .. } => String::from_str("Argumentum is missing"),
    }
}

/// Evaluates a line of text and, where that fails, says why in words. An
/// assignment that succeeds binds its variable in `vars`; nothing else
/// changes `vars`.
pub fn eval(vars: &mut VarStore, a: String) -> (r: Result<CalcNumber, ErrorMsg>)
    requires
        old(vars).wf(),
    ensures
        final(vars).wf(),
        final(vars)@ == outcome(old(vars)@, a@).store,
        match outcome(old(vars)@, a@).result {
            Ok(v) => r == Ok::<CalcNumber, ErrorMsg>(v),
            Err(e) => r matches Err(msg) && msg.0@ == error_message(e, a@) && msg.1
                == e.position(),
        },
{
    match evaluate(vars, a.as_str()) {
        Ok(v) => Ok(v),
        Err(e) => Err((describe(e, a.as_str()), e.offset())),
    }
}

} // verus!
