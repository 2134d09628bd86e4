//! The single-part score generator: a `[metadata]`/`[score]`/`[lyrics]` file is split
//! into sections, its metadata parsed, and its score events grouped into measures.
pub mod ast;
pub mod grouper;
pub mod layout;
pub mod parser;
pub mod renderer;
