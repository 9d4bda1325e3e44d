//! Backend-neutral markdown tree and the walkers that build it.
pub mod ast;
pub mod events;
pub mod forest;
pub mod incremental;
pub mod inline;
pub mod parser;
pub mod text_laws;
pub mod unparse;
pub mod walker;
