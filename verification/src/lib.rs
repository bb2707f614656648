//! Kiln: the front end of the Kiln programming language.
//!
//! The lexer turns source text into tokens, the parser turns tokens into an
//! abstract syntax tree, and the interpreter renders expression statements.
//! Every function here carries a contract that Verus proves.

pub mod text;
pub mod token;
pub mod lexer;
pub mod ast;
pub mod parser;
pub mod interpreter;
pub mod codegen;
