//! Parsing, evaluation, simplification and single-step solving of arithmetic
//! and single-variable algebraic formulas over 64-bit signed integers.
//!
//! A formula travels through three stages: [`lexer::analyze`] turns text into
//! tokens, [`parser::AstFactory`] turns tokens into an expression tree, and
//! [`interpreter::Interpreter`] evaluates, simplifies and rearranges that tree.

pub mod expression;
pub mod interpreter;
pub mod lexer;
pub mod parser;
pub mod text;
