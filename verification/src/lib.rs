//! Infix arithmetic expressions over decimal numbers, the four operators and
//! parentheses: their conversion to postfix notation, and the decisions of
//! postfix evaluation.
//!
//! - [`calculator`] converts an expression to its postfix tokens and to its
//!   postfix text.
//! - [`scan`] is the model of that conversion: a machine that reads an
//!   expression one character at a time.
//! - [`syntax`] holds well-formed expressions as trees, and the proof that
//!   the conversion of such an expression is the postfix form of its tree.
//! - [`laws`] states what holds of every conversion.
//! - [`evaluator`] decides, token by token, what an evaluation does with its
//!   stack of operands. The arithmetic itself is the caller's.
//! - [`session`] is the state of a calculator between two key presses.
//! - [`lexis`] and [`text`] hold the character classes and the handling of
//!   strings that the others share.

pub mod calculator;
pub mod evaluator;
pub mod laws;
pub mod lexis;
pub mod scan;
pub mod session;
pub mod syntax;
pub mod text;
