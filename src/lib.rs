//! Cross-module symbol resolution: a declaration store with per-module
//! import tables, a resolver that follows import chains, a registry of
//! trait implementations with static interface dispatch, and a builder
//! that resolves every reference of a program into a reference graph.
//! The `types` module holds the small set of sample items the resolver
//! is exercised on.

pub mod types;
pub mod search;
pub mod order;
pub mod resolver;
pub mod dispatch;
pub mod graph;
