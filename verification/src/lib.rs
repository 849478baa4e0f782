//! A compiler for Runefiles: YAML documents describing ML inference
//! pipelines. The compiler parses a Runefile into a [`document::Document`],
//! lowers it to a graph-shaped intermediate representation, type-checks the
//! pipeline edges, and emits the source tree for the generated crate.

pub mod build_context;
pub mod codegen;
pub mod diagnostics;
pub mod document;
pub mod lowering;
pub mod manifest;
pub mod ordering;
pub mod path;
pub mod phases;
pub mod queries;
pub mod text;
pub mod type_check;
pub mod versions;
pub mod yaml;
