use vstd::prelude::*;

verus! {

/// Errors surfaced by collection and storage operations.
///
/// `InvalidDimension` is the only operational error on the write path; the
/// remaining variants report state mismatches or storage-layer failures.
#[derive(Debug, Clone, PartialEq, Eq)]
pub enum Error {
    CollectionNotFound(String),
    CollectionExists(String),
    InvalidDimension { expected: usize, actual: usize },
    PointNotFound(String),
    PointExists(String),
    Storage(String),
    Persistence(String),
    Io(String),
    Serialization(String),
    InvalidConfig(String),
}

} // verus!
