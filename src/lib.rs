//! The function-call core of a small query language for JSON-like data:
//! name resolution, pipe-context threading, builtin dispatch, scalar
//! rendering, and the parser and evaluator around them.

pub mod text;
pub mod function;
pub mod node;
pub mod value;
pub mod builtins;
pub mod eval;
pub mod parser;
