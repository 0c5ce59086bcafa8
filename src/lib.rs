pub mod ast;
pub mod builder;
pub mod context;
pub mod graph;
pub mod laws;
pub mod semantics;
pub mod store;
