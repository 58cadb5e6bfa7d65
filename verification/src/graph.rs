//! Edges between nodes, sequence links and the workflow of a node.
//!
//! The edges and the workflow of a node enter its self hash, so an
//! operation that changes one of them computes the self hash and the chain
//! digest of the live version anew; the node stays at its version. The
//! sequence links do not enter any hash.

use crate::chain::{prev_chain, verify_spec};
use crate::consistency::{
    consistent, lemma_link_keeps_consistent, lemma_set_sequence_keeps_consistent,
    lemma_transition_keeps_consistent,
};
use crate::error::{Error, HashField};
use crate::hash::{is_digest, seed};
use crate::laws::{
    lemma_link_preserves_chain, lemma_set_sequence_preserves_chain,
    lemma_transition_preserves_chain,
};
use crate::models::{FullNode, FullNodeView, Node, NodeView};
use crate::node_store::node_result;
use crate::seal::{seal, sealed};
use crate::store::{
    find_node, get_current, get_node_revision, lemma_node_id, Store, StoreView,
};
use vstd::prelude::*;
use vstd::string::StringExecFns;

verus! {

/// The side of a node that an edge is recorded on.
#[derive(Clone, Copy, Debug, PartialEq, Eq, Structural)]
pub enum Direction {
    /// An edge from the node to the target, kept in `paths_to`.
    To,
    /// An edge from the target to the node, kept in `paths_from`.
    From,
}

/// What `get_full_node` returns.
pub open spec fn full_node_spec(s: StoreView, node_id: i32) -> Result<FullNodeView, Error> {
    match s.node(node_id) {
        None => Err(Error::NotFound),
        Some(n) => match n.child {
            None => Err(Error::InvalidState),
            Some(child) => match s.current(child) {
                None => Err(Error::NotFound),
                Some(c) => Ok(FullNodeView { node: n, content: c }),
            },
        },
    }
}

/// The view of a result that holds a node with its content.
pub open spec fn full_node_result(r: Result<FullNode, Error>) -> Result<FullNodeView, Error> {
    match r {
        Ok(f) => Ok(f@),
        Err(e) => Err(e),
    }
}

/// Reads a node together with its current content record. Fails with
/// `Error::NotFound` where the node or the record is absent and with
/// `Error::InvalidState` where the node has no content attached.
pub fn get_full_node(store: &Store, node_id: i32) -> (r: Result<FullNode, Error>)
    ensures
        full_node_result(r) == full_node_spec(store@, node_id),
{
    let at = match find_node(&store.nodes, node_id) {
        Some(i) => i,
        None => {
            return Err(Error::NotFound);
        },
    };
    let node = store.nodes[at].clone();
    let content = match &node.child {
        None => {
            return Err(Error::InvalidState);
        },
        Some(child) => match get_current(store, child) {
            Ok(c) => c,
            Err(e) => {
                return Err(e);
            },
        },
    };
    Ok(FullNode { node, content })
}

/// The node `n`, whose edges or workflow have been changed, as it is
/// stored: as it is while it has no content, else with its self hash and
/// chain digest computed anew. Fails with `Error::NotFound` where the
/// revision before is absent and with `Error::Integrity` where the child
/// hash or the chain digest of the revision before is malformed.
pub open spec fn resealed(s: StoreView, n: NodeView) -> Result<NodeView, Error> {
    if n.version < 1 {
        Ok(n)
    } else {
        match prev_chain(s, n, n.version) {
            None => Err(Error::NotFound),
            Some(prev) => if is_digest(n.child_hash) && is_digest(prev) {
                Ok(sealed(n, n.child_hash, prev))
            } else {
                Err(Error::Integrity { version: n.version, field: HashField::HashChain })
            },
        }
    }
}

fn reseal(store: &Store, node: Node) -> (r: Result<Node, Error>)
    ensures
        node_result(r) == resealed(store@, node@),
{
    if node.version < 1 {
        return Ok(node);
    }
    let version = node.version;
    let prev = if version == 1 {
        seed()
    } else {
        match get_node_revision(store, node.id, version - 1) {
            Ok(rev) => rev.hash_chain,
            Err(e) => {
                return Err(e);
            },
        }
    };
    let child_hash = node.child_hash.clone();
    match seal(node, child_hash, prev.as_str()) {
        Ok(n) => Ok(n),
        Err(_) => Err(Error::Integrity { version, field: HashField::HashChain }),
    }
}

/// The edges of `n` on the side `direction`.
pub open spec fn edges(n: NodeView, direction: Direction) -> Seq<i32> {
    match direction {
        Direction::To => n.paths_to,
        Direction::From => n.paths_from,
    }
}

/// The node `n` with one more edge on the side `direction`.
pub open spec fn with_edge(n: NodeView, target_id: i32, direction: Direction) -> NodeView {
    match direction {
        Direction::To => NodeView { paths_to: n.paths_to.push(target_id), ..n },
        Direction::From => NodeView { paths_from: n.paths_from.push(target_id), ..n },
    }
}

/// What `link` does to a store and what it returns.
pub open spec fn link_spec(s: StoreView, node_id: i32, target_id: i32, direction: Direction) -> (
    StoreView,
    Result<NodeView, Error>,
) {
    match s.node(node_id) {
        None => (s, Err(Error::NotFound)),
        Some(n) => if s.node(target_id) is None {
            (s, Err(Error::NotFound))
        } else if edges(n, direction).contains(target_id) {
            (s, Ok(n))
        } else {
            match resealed(s, with_edge(n, target_id, direction)) {
                Err(e) => (s, Err(e)),
                Ok(m) => (s.with_node(m), Ok(m)),
            }
        },
    }
}

fn has_id(ids: &Vec<i32>, id: i32) -> (r: bool)
    ensures
        r == ids@.contains(id),
{
    let mut i: usize = 0;
    while i < ids.len()
        invariant
            i <= ids.len(),
            forall|j: int| 0 <= j < i ==> ids@[j] != id,
        decreases ids.len() - i,
    {
        if ids[i] == id {
            return true;
        }
        i += 1;
    }
    false
}

/// Records an edge between node `node_id` and node `target_id` on the side
/// `direction` of node `node_id`. Where the edge is there already nothing
/// changes and the node is returned as it is. Fails, and changes nothing,
/// with `Error::NotFound` where one of the two nodes is absent, and as the
/// computing anew of the hashes does.
pub fn link(store: &mut Store, node_id: i32, target_id: i32, direction: Direction) -> (r: Result<
    Node,
    Error,
>)
    ensures
        (final(store)@, node_result(r)) == link_spec(old(store)@, node_id, target_id, direction),
        consistent(old(store)@) ==> consistent(final(store)@),
        verify_spec(old(store)@, node_id) is Ok && r is Ok ==> verify_spec(
            final(store)@,
            node_id,
        ) is Ok,
{
    proof {
        if verify_spec(store@, node_id) is Ok && link_spec(
            store@,
            node_id,
            target_id,
            direction,
        ).1 is Ok {
            lemma_link_preserves_chain(store@, node_id, target_id, direction);
        }
    }
    proof {
        if consistent(store@) {
            lemma_link_keeps_consistent(store@, node_id, target_id, direction);
        }
    }
    let at = match find_node(&store.nodes, node_id) {
        Some(i) => i,
        None => {
            return Err(Error::NotFound);
        },
    };
    if find_node(&store.nodes, target_id).is_none() {
        return Err(Error::NotFound);
    }
    let mut node = store.nodes[at].clone();
    proof {
        lemma_node_id(store@, node_id);
    }
    match direction {
        Direction::To => {
            if has_id(&node.paths_to, target_id) {
                return Ok(node);
            }
            node.paths_to.push(target_id);
        },
        Direction::From => {
            if has_id(&node.paths_from, target_id) {
                return Ok(node);
            }
            node.paths_from.push(target_id);
        },
    }
    match reseal(store, node) {
        Err(e) => Err(e),
        Ok(stored) => {
            let out = stored.clone();
            store.nodes.set(at, stored);
            assert(store@.nodes =~= old(store)@.nodes.update(at as int, out@));
            Ok(out)
        },
    }
}

/// What `set_sequence` does to a store and what it returns.
pub open spec fn set_sequence_spec(
    s: StoreView,
    node_id: i32,
    next: Option<i32>,
    last: Option<i32>,
) -> (StoreView, Result<NodeView, Error>) {
    match s.node(node_id) {
        None => (s, Err(Error::NotFound)),
        Some(n) => {
            let m = NodeView { node_next: next, node_last: last, ..n };
            (s.with_node(m), Ok(m))
        },
    }
}

/// Sets the links of node `node_id` to the nodes next to it in a sequence.
/// Fails with `Error::NotFound`, and changes nothing, where the node is
/// absent.
pub fn set_sequence(store: &mut Store, node_id: i32, next: Option<i32>, last: Option<i32>) -> (r:
    Result<Node, Error>)
    ensures
        (final(store)@, node_result(r)) == set_sequence_spec(old(store)@, node_id, next, last),
        consistent(old(store)@) ==> consistent(final(store)@),
        verify_spec(old(store)@, node_id) is Ok && r is Ok ==> verify_spec(
            final(store)@,
            node_id,
        ) is Ok,
{
    proof {
        if verify_spec(store@, node_id) is Ok && store@.node(node_id) is Some {
            lemma_set_sequence_preserves_chain(store@, node_id, next, last);
        }
    }
    proof {
        if consistent(store@) {
            lemma_set_sequence_keeps_consistent(store@, node_id, next, last);
        }
    }
    let at = match find_node(&store.nodes, node_id) {
        Some(i) => i,
        None => {
            return Err(Error::NotFound);
        },
    };
    let mut node = store.nodes[at].clone();
    proof {
        lemma_node_id(store@, node_id);
    }
    node.node_next = next;
    node.node_last = last;
    let out = node.clone();
    store.nodes.set(at, node);
    assert(store@.nodes =~= old(store)@.nodes.update(at as int, out@));
    Ok(out)
}

/// Whether the workflow of a node may go from `from` to `to`: from
/// `constructing` to `published` or `archived`, between `published` and
/// `archived`, and from each of these three to `deleted`. Nothing leads out
/// of `deleted`.
pub open spec fn can_transition(from: Seq<char>, to: Seq<char>) -> bool {
    ||| from == "constructing"@ && (to == "published"@ || to == "archived"@ || to == "deleted"@)
    ||| from == "published"@ && (to == "archived"@ || to == "deleted"@)
    ||| from == "archived"@ && (to == "published"@ || to == "deleted"@)
}

/// Whether the workflow of a node may go from `from` to `to`.
pub fn transition_allowed(from: &str, to: &str) -> (r: bool)
    ensures
        r == can_transition(from@, to@),
{
    let from = String::from_str(from);
    let to = String::from_str(to);
    let constructing = String::from_str("constructing");
    let published = String::from_str("published");
    let archived = String::from_str("archived");
    let deleted = String::from_str("deleted");
    if from == constructing {
        to == published || to == archived || to == deleted
    } else if from == published {
        to == archived || to == deleted
    } else if from == archived {
        to == published || to == deleted
    } else {
        false
    }
}

/// What `transition` does to a store and what it returns.
pub open spec fn transition_spec(s: StoreView, node_id: i32, to: Seq<char>) -> (
    StoreView,
    Result<NodeView, Error>,
) {
    match s.node(node_id) {
        None => (s, Err(Error::NotFound)),
        Some(n) => if !can_transition(n.workflow, to) {
            (s, Err(Error::InvalidState))
        } else {
            match resealed(s, NodeView { workflow: to, ..n }) {
                Err(e) => (s, Err(e)),
                Ok(m) => (s.with_node(m), Ok(m)),
            }
        },
    }
}

/// Moves the workflow of node `node_id` to `to`. Fails, and changes
/// nothing, with `Error::NotFound` where the node is absent, with
/// `Error::InvalidState` where the workflow may not go from where it is to
/// `to`, and as the computing anew of the hashes does.
pub fn transition(store: &mut Store, node_id: i32, to: &str) -> (r: Result<Node, Error>)
    ensures
        (final(store)@, node_result(r)) == transition_spec(old(store)@, node_id, to@),
        consistent(old(store)@) ==> consistent(final(store)@),
        verify_spec(old(store)@, node_id) is Ok && r is Ok ==> verify_spec(
            final(store)@,
            node_id,
        ) is Ok,
{
    proof {
        if verify_spec(store@, node_id) is Ok && transition_spec(store@, node_id, to@).1 is Ok {
            lemma_transition_preserves_chain(store@, node_id, to@);
        }
    }
    proof {
        if consistent(store@) {
            lemma_transition_keeps_consistent(store@, node_id, to@);
        }
    }
    let at = match find_node(&store.nodes, node_id) {
        Some(i) => i,
        None => {
            return Err(Error::NotFound);
        },
    };
    let mut node = store.nodes[at].clone();
    proof {
        lemma_node_id(store@, node_id);
    }
    if !transition_allowed(node.workflow.as_str(), to) {
        return Err(Error::InvalidState);
    }
    node.workflow = String::from_str(to);
    match reseal(store, node) {
        Err(e) => Err(e),
        Ok(stored) => {
            let out = stored.clone();
            store.nodes.set(at, stored);
            assert(store@.nodes =~= old(store)@.nodes.update(at as int, out@));
            Ok(out)
        },
    }
}

/// Deletes node `node_id`: moves its workflow to `deleted`, as `transition`
/// moves it. The node, its content and their revisions stay, so that the
/// history of the node can still be verified.
pub fn delete_node(store: &mut Store, node_id: i32) -> (r: Result<Node, Error>)
    ensures
        (final(store)@, node_result(r)) == transition_spec(old(store)@, node_id, "deleted"@),
        consistent(old(store)@) ==> consistent(final(store)@),
        verify_spec(old(store)@, node_id) is Ok && r is Ok ==> verify_spec(
            final(store)@,
            node_id,
        ) is Ok,
{
    transition(store, node_id, "deleted")
}

/// The workflow `deleted` is final: nothing leads out of it.
pub proof fn lemma_deleted_is_final(to: Seq<char>)
    ensures
        !can_transition("deleted"@, to),
{
    reveal_strlit("deleted");
    reveal_strlit("constructing");
    reveal_strlit("published");
    reveal_strlit("archived");
    assert("deleted"@.len() == 7);
    assert("constructing"@.len() == 12);
    assert("published"@.len() == 9);
    assert("archived"@.len() == 8);
}

} // verus!
