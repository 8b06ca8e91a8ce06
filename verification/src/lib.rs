//! Random propositional formulas and their truth tables.
//!
//! A formula is kept as a flat postfix sequence of [`Token`]s inside an
//! [`Expression`]. The generator appends a random formula of bounded height,
//! and the evaluator runs a stack machine over the sequence once for every
//! assignment of the variables.

pub mod expression;
pub mod formula;
pub mod generator;
pub mod rng;
pub mod semantics;
pub mod theorems;
pub mod token;

pub use expression::{Expression, ExpressionError, ExpressionView};
pub use token::{Token, TokenError, Type};
