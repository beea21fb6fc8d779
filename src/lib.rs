//! A tree of cancellation contexts: canceling a node cancels every node
//! below it, never one above or beside it, and value lookups walk upward
//! until they reach a root.

pub mod context;
pub mod laws;
pub mod signal;
pub mod tree;
