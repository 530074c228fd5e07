//! A small front end for a toy language: a character-level lexer, a token
//! merging pass and a pass that splits the token stream into functions.
pub mod lexer;
pub mod parser;
