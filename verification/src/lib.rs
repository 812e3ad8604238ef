//! A minimal S-expression language.
//!
//! [`parse`] reads the first expression of a text into a tree, [`eval_tree`]
//! reduces the calls in it over five built-in operations (`+`, `*`, `list`,
//! `first`, `tail`), and [`format_ast`] writes a tree down as text:
//!
//! ```text
//! (+ (* 2 3) (* 4 5))    evaluates to  26
//! (list 1 2 3)           evaluates to  ( 1 : ( 2 : ( 3 : [] ) ) )
//! (first (list 1 2 3))   evaluates to  1
//! ```
//!
//! Each stage takes its input by value and returns a new value or an error;
//! nothing is shared and nothing is kept between runs.
//!
//! Every executable function has a contract over mathematical models of its
//! data: [`ast::Tree`] stands for an expression tree and `Seq<char>` for a
//! text. The contracts say which result or which error is returned on every
//! input.

pub mod ast;
pub mod eval;
pub mod notation;
pub mod parser;
pub mod printer;
pub mod scanner;
pub mod text;

pub use ast::AST;
pub use eval::{eval_tree, EvalError};
pub use parser::{parse, SyntaxError};
pub use printer::format_ast;
