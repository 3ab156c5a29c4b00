//! Name resolution for RHDL sources: module file discovery, the resolution
//! graph of scopes, visibility, `use` tracing and the checks run over the graph.

pub mod ast;
pub mod error;
pub mod find_file;
pub mod ident;
pub mod primitives;
pub mod render;
pub mod report;
pub mod resolution;
pub mod resolve;
pub mod text;
pub mod tree;
pub mod type_checker;
