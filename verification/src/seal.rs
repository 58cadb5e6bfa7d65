//! The hashes of a node.
//!
//! The self hash of a node is the digest of its canonical bytes, the child
//! hash that of the canonical bytes of its content record. The chain digest
//! is computed from both and from the chain digest of the version before.

use crate::codec::{content_bytes, node_bytes, serialize, serialize_node};
use crate::error::Error;
use crate::hash::{chain, chain_of, digest, digest_of, is_digest};
use crate::models::{Content, ContentView, Node, NodeView};
use vstd::prelude::*;

verus! {

/// The self hash that fits the fields of `n`.
pub open spec fn self_hash_of(n: NodeView) -> Seq<char> {
    digest_of(node_bytes(n))
}

/// The child hash that fits the content record `c`.
pub open spec fn child_hash_of(c: ContentView) -> Seq<char> {
    digest_of(content_bytes(c))
}

/// Computes the self hash that fits the fields of `node`. It depends on the
/// fields alone: the same fields give the same hash.
pub fn self_hash(node: &Node) -> (h: String)
    ensures
        h@ == self_hash_of(node@),
        is_digest(h@),
{
    let bytes = serialize_node(node);
    digest(bytes.as_slice())
}

/// Computes the child hash that fits `content`. It depends on the fields of
/// the record alone: the same fields give the same hash.
pub fn child_hash(content: &Content) -> (h: String)
    ensures
        h@ == child_hash_of(content@),
        is_digest(h@),
{
    let bytes = serialize(content);
    digest(bytes.as_slice())
}

/// A node with its three hashes set: the child hash as given, the self hash
/// computed from the node's fields, and the chain digest of both and of the
/// chain digest of the version before.
pub open spec fn sealed(n: NodeView, child_hash: Seq<char>, prev_chain: Seq<char>) -> NodeView {
    let self_hash = self_hash_of(n);
    NodeView {
        child_hash,
        self_hash,
        hash_chain: chain_of(self_hash, child_hash, prev_chain),
        ..n
    }
}

/// Sets the three hashes of `node`. Fails with `Error::InvalidState` where
/// `child_hash` or `prev_chain` is not a well-formed digest.
pub fn seal(node: Node, child_hash: String, prev_chain: &str) -> (r: Result<Node, Error>)
    ensures
        r is Ok <==> is_digest(child_hash@) && is_digest(prev_chain@),
        r matches Ok(n) ==> n@ == sealed(node@, child_hash@, prev_chain@),
        r matches Err(e) ==> e == Error::InvalidState,
{
    let self_hash = self_hash(&node);
    match chain(self_hash.as_str(), child_hash.as_str(), prev_chain) {
        Err(e) => Err(e),
        Ok(hash_chain) => Ok(
            Node {
                id: node.id,
                version: node.version,
                child_hash,
                self_hash,
                hash_chain,
                labels: node.labels,
                workflow: node.workflow,
                permissions: node.permissions,
                paths_to: node.paths_to,
                paths_from: node.paths_from,
                node_next: node.node_next,
                node_last: node.node_last,
                time: node.time,
                updated: node.updated,
                child: node.child,
            },
        ),
    }
}

/// The hashes of a node do not enter its canonical bytes: a sealed node has
/// the self hash of its own fields.
pub proof fn lemma_sealed_self_hash(n: NodeView, child_hash: Seq<char>, prev_chain: Seq<char>)
    ensures
        self_hash_of(sealed(n, child_hash, prev_chain)) == sealed(
            n,
            child_hash,
            prev_chain,
        ).self_hash,
{
    reveal(node_bytes);
}

} // verus!
