//! A lossless syntax-tree toolkit: immutable green trees with a positioned red
//! view, an interning cache, typed builders, and a combinator parser runtime
//! over a mergeable, peekable lexer.
pub mod digest;
mod shared;
pub mod smol;
pub mod text;
pub mod green;
pub mod cache;
pub mod red;
pub mod input;
pub mod lexer;
pub mod token;
pub mod names;
pub mod context;
pub mod error;
pub mod parser;
pub mod result;
pub mod state;
pub mod builder;
pub mod parsers;
pub mod ast;
pub mod mutation;
pub mod render;

pub use ast::{AliasBuilder, Ast, AstBuilder, IntoBuilder, TokenBuilder};
pub use builder::{Builder, NodeBuilder};
pub use cache::{Cache, GreenBuilder};
pub use context::{Context, Trivia};
pub use error::Error;
pub use green::{Green, GreenData, GreenKind, Name, Node};
pub use input::Input;
pub use lexer::{Lexer, TokenKind};
pub use mutation::replace_green;
pub use parser::Parser;
pub use red::Red;
pub use result::ParseResult;
pub use smol_str::SmolStr;
pub use state::State;
pub use text::{TextRange, TextSize};
