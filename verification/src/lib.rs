//! Multi-criteria label-correcting (MLC) shortest-path search.
//!
//! The crate computes Pareto-optimal path costs over a weighted multigraph
//! whose edges carry a vector of objectives (for example travel time and
//! price) together with an auxiliary hidden-state vector (for example elapsed
//! seconds) that pricing rules may consult.  The pieces are:
//!
//! * [`graph_cache`] — the immutable graph store, its textual edge-weight
//!   parser, and a cache that shares one store across many searches;
//! * [`label`] — labels, the dominance relation, Pareto bags, and the named
//!   pricing (update) rules;
//! * [`model`] — the mathematical model of the search: a deterministic step
//!   function and its iteration, with the invariant lemmas proved about it;
//! * [`mlc`] — the executable engine, verified to follow the model exactly.

pub mod errors;
pub mod graph_cache;
pub mod label;
pub mod mlc;
pub mod model;
pub mod parse;
