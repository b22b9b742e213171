//! A small compiler from arithmetic expressions to stack-machine assembly:
//! lexer, recursive-descent parser, expression tree and code generator, each
//! with a machine-checked contract.

pub mod error;
pub mod text;
pub mod reader;
pub mod token;
pub mod lexing;
pub mod parse;
pub mod grammar;
pub mod codegen;
pub mod diag;
pub mod dot;
pub mod pipeline;
pub mod machine;

pub use error::CompileError;
pub use codegen::gen;
pub use diag::render_compile_error;
pub use parse::{parse_into_ast, Node, NodeKind, NodeRef};
pub use pipeline::compile;
pub use reader::InputReader;
pub use token::{consume, expect, expect_number, tokenize, Loc, Token, TokenCursor, TokenKind};
