//! A small text-template engine: templates are parsed into a syntax tree,
//! analyzed into per-file `Template` records (blocks, macros, inheritance
//! pointer, macro imports), linked across files by a `Registry` (inheritance
//! chains, merged block-override sequences, namespace maps), and rendered
//! against a caller-supplied `Context`.

pub mod errors;
pub mod escape;
pub mod eval;
pub mod nodes;
pub mod parser;
pub mod registry;
pub mod render;
pub mod template;
pub mod value;
