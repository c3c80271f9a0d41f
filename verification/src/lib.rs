//! Front end of a small expression-oriented scripting language.
//!
//! Source text runs through a position-tracking lexer, a shunting-yard
//! parser that reorders each statement into postfix, and a postfix-to-tree
//! builder that produces one statement-shaped syntax tree per statement.

pub mod arith;
pub mod ast;
pub mod error;
pub mod lexer;
pub mod parser;
pub mod relex;
pub mod strutil;
pub mod token;
pub mod tree;
