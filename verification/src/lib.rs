//! A tree-walking interpreter for a small parenthesized, symbolic
//! expression language: a tokenizer, a recursive-descent parser with
//! literal atomization, a tagged value model, a chained-frame
//! environment, and an evaluator with special-form dispatch, function
//! application and a fixed library of native built-ins.
//!
//! The same tagged union (`Atom`) serves as both parsed syntax and
//! runtime value.  Numbers are signed 64-bit integers; numeric
//! literals in the language are unsigned-integer-shaped tokens.
//! Parsing is a pure function of the token sequence: every name is
//! kept as an unresolved `Symbol` and is looked up only at
//! evaluation time.  A user-defined function does not capture its
//! definition environment; the frame built for a call chains to the
//! caller's environment, and a test locks this behaviour in.
//! Evaluation carries an explicit depth budget and fails predictably
//! with `Error::DepthLimit` instead of exhausting the host stack.

pub mod atom;
pub mod env;
pub mod render;
pub mod token;
pub mod parse;
pub mod builtins;
pub mod evaluate;
pub mod laws;
