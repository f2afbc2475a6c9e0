//! A syntactic front end: a token stream is turned into a fully spanned
//! abstract syntax tree by a recursive-descent parser whose result is proved
//! equal to a mathematical description of the grammar.

pub mod parser;
pub mod tokenizer;
