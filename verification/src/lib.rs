//! An arithmetic-and-logic expression evaluator over 32-bit wrapping numbers.
//!
//! A line of text is checked for balanced parentheses, split into tokens,
//! reordered into postfix form, assembled into an expression tree and reduced
//! to a number. A line of the form `name = expression` also binds the
//! expression to `name` in a [`VarStore`], from which later lines may use it.

pub mod builder;
pub mod error;
pub mod evaluator;
pub mod laws;
pub mod lexer;
pub mod number;
pub mod operator;
pub mod parallel;
pub mod parens;
pub mod shunting;
pub mod text;
pub mod token;
pub mod tree;
pub mod vars;

pub use builder::generate_ast;
pub use error::CalcError;
pub use evaluator::{eval, evaluate, ErrorMsg};
pub use lexer::lexer;
pub use number::CalcNumber;
pub use parens::is_parens_correct;
pub use shunting::shunting_yard_algorithm;
pub use token::Token;
pub use tree::Expr;
pub use vars::{get_vars, VarStore};
