//! Symbol extraction from source files.

pub mod syntax;
pub mod tree_sitter;
