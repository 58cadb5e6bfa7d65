//! The failures that operations on the content graph report.

use vstd::prelude::*;

verus! {

/// One of the three hash fields of a node.
#[derive(Clone, Copy, Debug, PartialEq, Eq, Structural)]
pub enum HashField {
    /// The digest of the node's own fields.
    SelfHash,
    /// The digest of the content record.
    ChildHash,
    /// The digest that links a version to its predecessor.
    HashChain,
}

/// Why an operation did not succeed.
#[derive(Clone, Copy, Debug, PartialEq, Eq, Structural)]
pub enum Error {
    /// A node, content record or revision that was referred to is absent.
    NotFound,
    /// Another writer has advanced the node since it was read.
    Conflict,
    /// The operation does not fit the state the node or its content is in.
    InvalidState,
    /// A stored hash differs from the one recomputed for `version`.
    Integrity { version: i32, field: HashField },
    /// The store could not allocate an identity or a version number.
    Storage,
}

} // verus!
