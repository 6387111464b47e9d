//! The kinds of failure that the cross-checker tells apart.

use vstd::prelude::*;

verus! {

/// What went wrong, by kind. The kind decides how far an error travels:
/// errors of one indexer stay inside the batch that asked it, the others
/// reach the caller.
#[derive(Debug, Clone, Copy, PartialEq, Eq, Structural)]
pub enum ErrorKind {
    /// The indexer could not be reached in time.
    Transport,
    /// The indexer answered with something malformed.
    Protocol,
    /// The indexer lacks the operation that was asked for.
    NotSupported,
    /// The storage backend failed.
    Storage,
    /// The data model was violated.
    Invariant,
    /// The caller gave up.
    Cancelled,
}

impl ErrorKind {
    /// Whether an error of this kind concerns one indexer only.
    pub open spec fn per_indexer(self) -> bool {
        self == ErrorKind::Transport || self == ErrorKind::Protocol || self
            == ErrorKind::NotSupported
    }

    /// Whether an error of this kind is absorbed by the batch operation in
    /// which it occurs, to be counted instead of returned.
    pub fn is_per_indexer(&self) -> (absorbed: bool)
        ensures
            absorbed == self.per_indexer(),
    {
        match self {
            ErrorKind::Transport | ErrorKind::Protocol | ErrorKind::NotSupported => true,
            _ => false,
        }
    }
}

} // verus!
