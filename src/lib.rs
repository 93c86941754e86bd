//! A small parsing toolkit: an ordered-rule tokenizer and an ordered-choice
//! grammar engine that builds a caller-defined syntax tree.

pub mod lexer;
pub mod lexer_builder;
pub mod node;
pub mod parser;
pub mod parser_builder;
pub mod pattern;
pub mod rule;
pub mod text;
pub mod token;

pub use lexer::{Lexer, LexerError, LexerStream};
pub use lexer_builder::LexerBuilder;
pub use node::ASTNode;
pub use parser::{Parser, ParserError};
pub use parser_builder::ParserBuilder;
pub use pattern::{Pattern, PatternFunc};
pub use rule::Rule;
pub use token::{Location, Position, Token};
