//! A front end for a small SQL dialect: a tokenizer and a precedence-climbing
//! parser, with the tokens of every text and the syntax tree of every token
//! sequence stated as mathematical functions that the code is proved to
//! compute.

pub mod grammar;
pub mod grammar_laws;
pub mod parser;
pub mod sql;
pub mod text;
pub mod token;
pub mod tokenizer;
pub mod tokenizer_laws;

pub use parser::Parser;
pub use sql::{ASTNode, SQLColumnDef, SQLOperator, SQLType};
pub use token::{ParserError, Token};
pub use tokenizer::Tokenizer;
