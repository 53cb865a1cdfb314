//! Cross-file symbol indexing and call resolution for multi-language
//! dependency graphs.
//!
//! The crate models source entities as typed graph nodes and edges, extracts
//! call sites from language-agnostic syntax trees, caches per-file parse
//! results keyed by file metadata, and resolves call sites to function
//! definitions through hashed name indexes with scored candidate selection
//! and an edit-distance fallback.

pub mod analysis;
pub mod cache;
pub mod extract;
pub mod format;
pub mod graph;
pub mod parse;
pub mod resolver;
pub mod strmap;
pub mod text;

pub use graph::{Edge, EdgeType, Node, NodeType};
