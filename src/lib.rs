//! Compiles a small HTML-like template into markup: the text is split into
//! tokens, the tokens form a tree, the tree's placeholders are bound from a
//! context, and the bound tree is written back out as HTML.

pub mod lexer;
pub mod context;
pub mod ast;
pub mod unparser;
pub mod tamper;
