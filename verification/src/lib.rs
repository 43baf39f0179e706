//! Converge: a toolchain for a small declarative language describing spiking
//! neural networks.
//!
//! The crate lexes and parses Converge source text, validates the resulting
//! program, emits a canonical JSON intermediate representation, and builds a
//! fully resolved plan for the deterministic reference simulator.

pub mod ast;
pub mod diagnostic;
pub mod emit;
pub mod laws;
pub mod lexer;
pub mod number;
pub mod parser;
pub mod sim;
pub mod text;
pub mod units;
pub mod validate;
