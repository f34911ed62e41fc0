//! A lexer, parser and semantic core for the airyc toy language.

pub mod array;
pub mod ast;
pub mod checker;
pub mod codegen;
pub mod decimal;
pub mod decl;
pub mod error;
pub mod expr;
pub mod func;
pub mod grammar;
pub mod green;
pub mod header;
pub mod init;
pub mod lexer;
pub mod literal;
pub mod module;
pub mod ntype;
pub mod outline;
pub mod parser;
pub mod project;
pub mod syntax_kind;
pub mod text;
pub mod typenode;
pub mod types;
pub mod tytext;
pub mod value;
