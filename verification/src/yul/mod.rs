//! The Yul front end: syntax tree, lexer, parser, the names of the EVM
//! instructions that Yul code calls, and the rewrites that prepare the tree
//! for lowering to IR, with the proofs that lexing is unique and that the
//! parser accepts every text of a tree it can produce.

pub mod ast;
pub mod lexer;
pub mod parser;
pub mod instruction;
pub mod transform;
pub mod lex_unique;
pub mod parse_complete;
