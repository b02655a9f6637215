//! A small line-oriented markup parser with an HTML renderer.
pub mod ast;
pub mod block_parser;
pub mod block_tokenizer;
pub mod constants;
pub mod error;
pub mod html;
pub mod input;
pub mod strings;
pub mod tokens;

pub use block_parser::BlockParser;
