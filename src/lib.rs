//! Extraction of flattened syntax graphs from source files.
//!
//! A source file is parsed with a tree-sitter grammar chosen by its
//! extension, the tree is read into a plain syntax tree, and the tree is
//! flattened into node records linked by `hasChild` relationships, ready
//! to be submitted to an indexing service.

pub mod grammar;
pub mod records;
pub mod tree;
pub mod flatten;
pub mod syntax;
pub mod pipeline;
