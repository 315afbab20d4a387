//! Literal substring search over the lines of files, with every occurrence of
//! the pattern wrapped in terminal highlight markers.

pub mod args;
pub mod highlight;
pub mod output;
pub mod pattern;
pub mod scanner;
pub mod strip;
pub mod text;
pub mod traversal;
pub mod tree;
