//! Front end of a small expression-oriented language: a numeric scanner,
//! a bracket-validating tree lexer, and a precedence-climbing parser that
//! produces a span-annotated syntax tree while aggregating every
//! independent syntax error instead of stopping at the first.

pub mod ascii;
pub mod bracket_laws;
pub mod error;
pub mod infix;
pub mod node;
pub mod node_type;
pub mod number;
pub mod parser;
pub mod prefix;
pub mod scanner;
pub mod span;
pub mod span_laws;
pub mod token;
pub mod tree_lexer;
