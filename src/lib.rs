//! Detection of public functions and methods that nothing appears to use.
//!
//! The library works on a decoded cross-reference index ([`graph::SymbolGraph`])
//! and on the lines of the workspace's source text. It narrows a candidate set
//! in three passes and then locates and groups what survives.
pub mod graph;
pub mod model;
pub mod collect;
pub mod passes;
pub mod locate;
pub mod order;
pub mod report;
pub mod pipeline;
pub mod laws;
