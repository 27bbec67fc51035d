//! Integer arithmetic on text: a tokenizer and a precedence-driven evaluator
//! that collapses a token sequence one operation at a time.
//!
//! Arithmetic is 32-bit signed and wraps on overflow. Every condition that
//! leaves an expression without a value is reported as an
//! [`valid_types::EvalError`].

pub mod arith;
pub mod text;
pub mod valid_types;
pub mod expression;
pub mod laws;
pub mod precedence;
