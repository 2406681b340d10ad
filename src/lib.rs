//! A small Lisp-family interpreter: a lexer, a reader, lexically chained
//! environments and an evaluator with special forms, closures and a
//! library of numeric primitives.
//!
//! Numbers are 64-bit signed integers: a numeral is an optional sign and
//! decimal digits whose value fits, and sums or differences that leave that
//! range fail with "number out of range".
pub mod env;
pub mod eval;
pub mod expr;
pub mod lexer;
pub mod prims;
pub mod reader;
pub mod roundtrip;
pub mod runtime;
pub mod text;

pub use env::{Binding, Environment};
pub use eval::{eval, eval_within, parse_list_of_symbol_strings, MAX_DEPTH};
pub use expr::{Error, Expression, Lambda, Primitive};
pub use lexer::tokenize;
pub use prims::{apply_primitive, parse_list_of_floats, parse_single_float};
pub use reader::{numeral_value, parse, parse_atom, read_seq};
pub use runtime::{default_environment, parse_eval};
