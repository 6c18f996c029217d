//! Tree-shaped documents: the contract every node type satisfies, a node type
//! for a small JSON dialect with its two text styles, a tree view that works
//! for any node type, and the palette by which a node is retyped.

pub mod ast;
pub mod text;
