//! Python support: parsing with tree-sitter, symbols and references.
pub mod tree;
pub mod signature;
pub mod symbols;
pub mod scopes;
pub mod references;
