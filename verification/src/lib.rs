//! A recursive-descent parser and evaluator for arithmetic expressions in
//! prefix notation: an operator precedes its two operands, non-negative
//! integer literals are maximal digit runs, and parentheses may group any
//! subexpression. Evaluation happens during parsing; no syntax tree is built.
//!
//! The grammar, the evaluation rules and the error conditions are stated as
//! specification functions in [`semantics`]; the executable parser in
//! [`parser`] is proved to return exactly what those functions describe, and
//! [`laws`] proves the parser correct against a structural notion of
//! well-formed prefix expressions.

pub mod laws;
pub mod parser;
pub mod semantics;
