//! A small interpreted language: a lexer, a Pratt parser that yields a
//! syntax tree, and an evaluator that walks the tree against an
//! environment of bindings.
//!
//! Every function is verified against a mathematical model: `lexer::scan`
//! for the lexer, the functions of `grammar` for the parser, `eval::run`
//! for the evaluator. `canonical` and `roundtrip` prove that the parser
//! reads the canonical rendering of a program back as that program, and
//! that the rendering of what it reads is a fixed point of reading and
//! rendering.

pub mod ast;
pub mod canonical;
pub mod eval;
pub mod grammar;
pub mod lexer;
pub mod object;
pub mod parser;
pub mod roundtrip;
pub mod text;
pub mod token;
