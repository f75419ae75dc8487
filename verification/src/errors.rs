use vstd::prelude::*;

verus! {

/// Every failure the library can surface to a caller.  All of them are
/// recoverable: no verified function of this crate panics.
#[derive(Clone, Copy, Debug, PartialEq, Eq, Structural)]
pub enum MlcError {
    /// A read operation was called on a cache that holds no graph store.
    GraphNotSet,
    /// A node id at or beyond the store's node count was supplied.
    NodeOutOfRange,
    /// No edge between the two requested endpoints exists in the store.
    EdgeNotFound,
    /// A textual weight list could not be parsed as a bracketed
    /// comma-separated list of integers, or the lists of one edge set
    /// disagree on their dimension.
    MalformedWeight,
    /// An update-rule name that the registry does not know.
    UnknownUpdateRule,
    /// An engine was constructed over a store with zero nodes.
    EmptyGraph,
    /// `run` was invoked before any seeding call.
    NoSeed,
}

impl MlcError {
    /// A short human-readable description, for callers that report errors.
    pub fn message(&self) -> (r: &'static str) {
        match self {
            MlcError::GraphNotSet => "graph not set",
            MlcError::NodeOutOfRange => "node id is not in graph",
            MlcError::EdgeNotFound => "edge not found",
            MlcError::MalformedWeight => "malformed weight list",
            MlcError::UnknownUpdateRule => "unknown update rule",
            MlcError::EmptyGraph => "graph has no nodes",
            MlcError::NoSeed => "engine was not seeded",
        }
    }
}

} // verus!
