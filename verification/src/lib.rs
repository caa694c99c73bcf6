//! A compiler for a small declarative pattern-matching language over syntax
//! trees: pattern text is parsed into a `Query` tree, which is then applied
//! as a predicate to tree nodes, firing named capture callbacks on success.

pub mod ast;
pub mod laws;
pub mod lexer;
pub mod matcher;
pub mod parser;
pub mod printer;
pub mod roundtrip;
pub mod tree;
