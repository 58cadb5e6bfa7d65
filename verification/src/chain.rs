//! The revision chain: committing a new version of a node's content, and
//! verifying a node's history.

use crate::consistency::{
    consistent, lemma_commit_keeps_consistent, lemma_update_keeps_consistent,
};
use crate::error::{Error, HashField};
use crate::hash::{chain, chain_of, is_digest, seed, seed_digest};
use crate::laws::lemma_commit_preserves_chain;
use crate::models::{
    ChildView, Content, ContentView, Link, LinkView, Node, NodeRevision, NodeView, Post, PostView,
    System, SystemView,
};
use crate::node_store::node_result;
use crate::seal::{child_hash, child_hash_of, seal, self_hash, self_hash_of, sealed};
use crate::store::{
    find_node, find_node_revision, get_current, get_node, get_node_revision, get_snapshot,
    has_snapshot, lemma_current_child, lemma_node_id, push_snapshot, replace_current, Store,
    StoreView,
};
use vstd::prelude::*;

verus! {

/// The next version of `current`: the texts of `new` (of a system entry its
/// data) under the identity, owner and creation time of `current`, one
/// version on, updated at `now`. Where the kinds differ it is `current`.
pub open spec fn revised(current: ContentView, new: ContentView, now: i64) -> ContentView {
    match (current, new) {
        (ContentView::PostContent(c), ContentView::PostContent(n)) => ContentView::PostContent(
            PostView {
                title: n.title,
                body: n.body,
                tags: n.tags,
                summary: n.summary,
                version: (c.version + 1) as i32,
                updated: now,
                ..c
            },
        ),
        (ContentView::LinkContent(c), ContentView::LinkContent(n)) => ContentView::LinkContent(
            LinkView {
                text: n.text,
                title: n.title,
                url: n.url,
                tags: n.tags,
                version: (c.version + 1) as i32,
                updated: now,
                ..c
            },
        ),
        (ContentView::SystemContent(c), ContentView::SystemContent(n)) => ContentView::SystemContent(
            SystemView { data: n.data, version: (c.version + 1) as i32, updated: now, ..c },
        ),
        _ => current,
    }
}

/// The next version of `current` with the texts of `new`.
pub(crate) fn revise(current: Content, new: Content, now: i64) -> (r: Content)
    requires
        current@.version() < i32::MAX,
    ensures
        r@ == revised(current@, new@, now),
{
    match (current, new) {
        (Content::PostContent(c), Content::PostContent(n)) => Content::PostContent(
            Post {
                id: c.id,
                title: n.title,
                body: n.body,
                time: c.time,
                tags: n.tags,
                summary: n.summary,
                version: c.version + 1,
                updated: now,
                parent: c.parent,
            },
        ),
        (Content::LinkContent(c), Content::LinkContent(n)) => Content::LinkContent(
            Link {
                id: c.id,
                text: n.text,
                title: n.title,
                url: n.url,
                tags: n.tags,
                time: c.time,
                version: c.version + 1,
                updated: now,
                parent: c.parent,
            },
        ),
        (Content::SystemContent(c), Content::SystemContent(n)) => Content::SystemContent(
            System {
                key: c.key,
                data: n.data,
                time: c.time,
                version: c.version + 1,
                updated: now,
                parent: c.parent,
            },
        ),
        (current, _) => current,
    }
}

/// What `commit_update_if_version` does to a store and what it returns.
pub open spec fn commit_spec(
    s: StoreView,
    node_id: i32,
    expected_version: i32,
    new: ContentView,
    now: i64,
) -> (StoreView, Result<NodeView, Error>) {
    match s.node(node_id) {
        None => (s, Err(Error::NotFound)),
        Some(n) => if n.version != expected_version {
            (s, Err(Error::Conflict))
        } else if n.version < 1 || n.child is None {
            (s, Err(Error::InvalidState))
        } else {
            match s.current(n.child->0) {
                None => (s, Err(Error::NotFound)),
                Some(c) => if c.kind() != new.kind() || c.version() != n.version {
                    (s, Err(Error::InvalidState))
                } else if s.node_revision(node_id, n.version) is Some || s.revision(
                    n.child->0,
                    n.version,
                ) is Some {
                    (s, Err(Error::Conflict))
                } else if n.version == i32::MAX {
                    (s, Err(Error::Storage))
                } else if !is_digest(n.hash_chain) {
                    (s, Err(Error::Integrity { version: n.version, field: HashField::HashChain }))
                } else {
                    let next = revised(c, new, now);
                    let advanced = sealed(
                        NodeView { version: (n.version + 1) as i32, updated: now, ..n },
                        child_hash_of(next),
                        n.hash_chain,
                    );
                    (
                        s.with_node_snapshot(n).with_snapshot(c).with_node(advanced).with_current(
                            next,
                        ),
                        Ok(advanced),
                    )
                },
            }
        },
    }
}

/// Commits a new version of the content of node `node_id`, on condition
/// that the node is still at `expected_version`, the version at which the
/// caller read it.
///
/// The live node and its content are added to their revision tables as they
/// stand. The content takes the texts of `new_content`, and node and content
/// move one version on, updated at `now`. The node's child hash is the
/// digest of the new content, its self hash that of its own fields, and its
/// chain digest is computed from both and from the chain digest it had.
///
/// Fails, and changes nothing, with
/// - `Error::NotFound` where the node or its content is absent,
/// - `Error::Conflict` where the node is not at `expected_version`, or a
///   revision of the node or of its content at that version exists already,
/// - `Error::InvalidState` where the node has no content attached, the new
///   content is of another kind, or the content is at another version than
///   the node,
/// - `Error::Storage` where the version numbers are used up,
/// - `Error::Integrity` where the chain digest of the node is malformed.
pub fn commit_update_if_version(
    store: &mut Store,
    node_id: i32,
    expected_version: i32,
    new_content: Content,
    now: i64,
) -> (r: Result<Node, Error>)
    ensures
        (final(store)@, node_result(r)) == commit_spec(
            old(store)@,
            node_id,
            expected_version,
            new_content@,
            now,
        ),
        consistent(old(store)@) ==> consistent(final(store)@),
        verify_spec(old(store)@, node_id) is Ok && r is Ok ==> verify_spec(
            final(store)@,
            node_id,
        ) is Ok,
{
    proof {
        let outcome = commit_spec(store@, node_id, expected_version, new_content@, now);
        if verify_spec(store@, node_id) is Ok && outcome.1 is Ok {
            lemma_commit_preserves_chain(store@, node_id, expected_version, new_content@, now);
        }
    }
    proof {
        if consistent(store@) {
            lemma_commit_keeps_consistent(store@, node_id, expected_version, new_content@, now);
        }
    }
    let ghost s = store@;
    let at = match find_node(&store.nodes, node_id) {
        Some(i) => i,
        None => {
            return Err(Error::NotFound);
        },
    };
    let node = store.nodes[at].clone();
    proof {
        lemma_node_id(s, node_id);
    }
    assert(s.node(node_id) == Some(node@));
    if node.version != expected_version {
        return Err(Error::Conflict);
    }
    if node.version < 1 {
        return Err(Error::InvalidState);
    }
    let child = match &node.child {
        Some(c) => c.clone(),
        None => {
            return Err(Error::InvalidState);
        },
    };
    assert(node@.child == Some(child@));
    let current = match get_current(store, &child) {
        Ok(c) => c,
        Err(e) => {
            return Err(e);
        },
    };
    proof {
        lemma_current_child(s, child@);
    }
    if current.kind() != new_content.kind() || current.version() != node.version {
        return Err(Error::InvalidState);
    }
    if find_node_revision(&store.node_revisions, node_id, node.version).is_some() || has_snapshot(
        store,
        &child,
        node.version,
    ) {
        return Err(Error::Conflict);
    }
    if node.version == i32::MAX {
        return Err(Error::Storage);
    }
    let old_version = node.version;
    let old_row = NodeRevision::of(&node);
    let old_content = current.clone();
    let next = revise(current, new_content, now);
    let next_hash = child_hash(&next);
    let prev_chain = node.hash_chain.clone();
    let unsealed = Node {
        id: node.id,
        version: node.version + 1,
        child_hash: node.child_hash,
        self_hash: node.self_hash,
        hash_chain: node.hash_chain,
        labels: node.labels,
        workflow: node.workflow,
        permissions: node.permissions,
        paths_to: node.paths_to,
        paths_from: node.paths_from,
        node_next: node.node_next,
        node_last: node.node_last,
        time: node.time,
        updated: now,
        child: node.child,
    };
    let advanced = match seal(unsealed, next_hash, prev_chain.as_str()) {
        Ok(n) => n,
        Err(_) => {
            return Err(Error::Integrity { version: old_version, field: HashField::HashChain });
        },
    };
    let out = advanced.clone();
    store.node_revisions.push(old_row);
    assert(store@.node_revisions =~= s.node_revisions.push(old_row@));
    push_snapshot(store, &old_content);
    let ghost snapped = store@;
    assert(snapped == s.with_node_snapshot(node@).with_snapshot(old_content@));
    store.nodes.set(at, advanced);
    assert(store@.nodes =~= snapped.nodes.update(at as int, out@));
    assert(store@ == snapped.with_node(out@));
    replace_current(store, next);
    Ok(out)
}

/// What `commit_update` does to a store and what it returns: what
/// `commit_update_if_version` does with the version that the node is at.
pub open spec fn update_spec(s: StoreView, node_id: i32, new: ContentView, now: i64) -> (
    StoreView,
    Result<NodeView, Error>,
) {
    match s.node(node_id) {
        None => (s, Err(Error::NotFound)),
        Some(n) => commit_spec(s, node_id, n.version, new, now),
    }
}

/// Commits a new version of the content of node `node_id`: reads the
/// version that the node is at and commits on condition of that version, as
/// `commit_update_if_version` does.
pub fn commit_update(store: &mut Store, node_id: i32, new_content: Content, now: i64) -> (r: Result<
    Node,
    Error,
>)
    ensures
        (final(store)@, node_result(r)) == update_spec(old(store)@, node_id, new_content@, now),
        consistent(old(store)@) ==> consistent(final(store)@),
        verify_spec(old(store)@, node_id) is Ok && r is Ok ==> verify_spec(
            final(store)@,
            node_id,
        ) is Ok,
{
    proof {
        if consistent(store@) {
            lemma_update_keeps_consistent(store@, node_id, new_content@, now);
        }
    }
    let version = match find_node(&store.nodes, node_id) {
        Some(i) => store.nodes[i].version,
        None => {
            return Err(Error::NotFound);
        },
    };
    commit_update_if_version(store, node_id, version, new_content, now)
}

/// The node row of version `v` in the history of the live node `live`: the
/// live row for its own version, else the revision.
pub open spec fn node_version(s: StoreView, live: NodeView, v: i32) -> Option<NodeView> {
    if v == live.version {
        Some(live)
    } else {
        s.node_revision(live.id, v)
    }
}

/// The content record of version `v` that `child` refers to: the live
/// record for the version of the live node, else the revision.
pub open spec fn content_version(s: StoreView, live: NodeView, child: ChildView, v: i32) -> Option<
    ContentView,
> {
    if v == live.version {
        s.current(child)
    } else {
        s.revision(child, v)
    }
}

/// The chain digest that version `v` builds on: the seed for version 1,
/// else the stored chain digest of the revision before.
pub open spec fn prev_chain(s: StoreView, live: NodeView, v: i32) -> Option<Seq<char>> {
    if v == 1 {
        Some(seed_digest())
    } else {
        match s.node_revision(live.id, (v - 1) as i32) {
            Some(r) => Some(r.hash_chain),
            None => None,
        }
    }
}

/// The check of one version: the self hash is recomputed from the stored
/// node fields, then the child hash from the stored content fields, then the
/// chain digest from the two stored hashes and the chain digest of the
/// version before; the first that differs from what is stored is reported.
/// A row that is missing is reported as `Error::NotFound`.
#[verifier::opaque]
pub open spec fn check_version(s: StoreView, live: NodeView, v: i32) -> Result<(), Error> {
    match node_version(s, live, v) {
        None => Err(Error::NotFound),
        Some(row) => if self_hash_of(row) != row.self_hash {
            Err(Error::Integrity { version: v, field: HashField::SelfHash })
        } else {
            match row.child {
                None => Err(Error::NotFound),
                Some(child) => match content_version(s, live, child, v) {
                    None => Err(Error::NotFound),
                    Some(c) => if child_hash_of(c) != row.child_hash {
                        Err(Error::Integrity { version: v, field: HashField::ChildHash })
                    } else {
                        match prev_chain(s, live, v) {
                            None => Err(Error::NotFound),
                            Some(prev) => if is_digest(prev) && chain_of(
                                row.self_hash,
                                row.child_hash,
                                prev,
                            ) == row.hash_chain {
                                Ok(())
                            } else {
                                Err(
                                    Error::Integrity { version: v, field: HashField::HashChain },
                                )
                            },
                        }
                    },
                },
            }
        },
    }
}

/// The outcome of checking the versions 1 to `n` in turn: the failure of the
/// first version that fails, if one does.
pub open spec fn verify_upto(s: StoreView, live: NodeView, n: int) -> Result<(), Error>
    decreases n,
{
    if n <= 0 {
        Ok(())
    } else {
        match verify_upto(s, live, n - 1) {
            Err(e) => Err(e),
            Ok(_) => check_version(s, live, n as i32),
        }
    }
}

/// What `verify_chain` returns.
pub open spec fn verify_spec(s: StoreView, node_id: i32) -> Result<(), Error> {
    match s.node(node_id) {
        None => Err(Error::NotFound),
        Some(live) => verify_upto(s, live, live.version as int),
    }
}

/// A failure at an early version is the outcome for every later bound.
pub proof fn lemma_verify_upto_failure(s: StoreView, live: NodeView, v: int, n: int)
    requires
        v <= n,
        verify_upto(s, live, v) is Err,
    ensures
        verify_upto(s, live, n) == verify_upto(s, live, v),
    decreases n - v,
{
    if v < n {
        lemma_verify_upto_failure(s, live, v, n - 1);
    }
}

/// Where the versions 1 to `n` pass, so does each of them and every shorter
/// run.
pub proof fn lemma_verify_upto_passes(s: StoreView, live: NodeView, v: int, n: int)
    requires
        1 <= v <= n,
        verify_upto(s, live, n) is Ok,
    ensures
        verify_upto(s, live, v) is Ok,
        verify_upto(s, live, v - 1) is Ok,
        check_version(s, live, v as i32) is Ok,
    decreases n - v,
{
    if v < n {
        lemma_verify_upto_passes(s, live, v + 1, n);
    }
}

/// Verifies the history of node `node_id`: walks its versions from 1 to the
/// live one and, at each, recomputes the self hash, the child hash and the
/// chain digest from the stored fields and compares them with the stored
/// hashes. The first mismatch is reported as `Error::Integrity` with its
/// version and the hash that differs; a node, revision or content record
/// that is missing as `Error::NotFound`.
pub fn verify_chain(store: &Store, node_id: i32) -> (r: Result<(), Error>)
    ensures
        r == verify_spec(store@, node_id),
{
    let ghost s = store@;
    let live = match get_node(store, node_id) {
        Ok(n) => n,
        Err(e) => {
            return Err(e);
        },
    };
    proof {
        lemma_node_id(s, node_id);
    }
    if live.version < 1 {
        return Ok(());
    }
    let mut prev = seed();
    let mut v: i32 = 1;
    loop
        invariant
            s == store@,
            s.node(node_id) == Some(live@),
            live@.id == node_id,
            1 <= v <= live.version,
            verify_upto(s, live@, v - 1) is Ok,
            prev_chain(s, live@, v) == Some(prev@),
        decreases live.version - v,
    {
        proof {
            reveal(check_version);
        }
        let at_live = v == live.version;
        let row = if at_live {
            live.clone()
        } else {
            match get_node_revision(store, node_id, v) {
                Ok(rev) => rev.to_node(),
                Err(e) => {
                    proof {
                        lemma_verify_upto_failure(s, live@, v as int, live@.version as int);
                    }
                    return Err(e);
                },
            }
        };
        assert(node_version(s, live@, v) == Some(row@));
        if self_hash(&row) != row.self_hash {
            proof {
                lemma_verify_upto_failure(s, live@, v as int, live@.version as int);
            }
            return Err(Error::Integrity { version: v, field: HashField::SelfHash });
        }
        let content = match &row.child {
            None => {
                proof {
                    lemma_verify_upto_failure(s, live@, v as int, live@.version as int);
                }
                return Err(Error::NotFound);
            },
            Some(child) => {
                let found = if at_live {
                    get_current(store, child)
                } else {
                    get_snapshot(store, child, v)
                };
                match found {
                    Ok(c) => c,
                    Err(e) => {
                        proof {
                            lemma_verify_upto_failure(s, live@, v as int, live@.version as int);
                        }
                        return Err(e);
                    },
                }
            },
        };
        if child_hash(&content) != row.child_hash {
            proof {
                lemma_verify_upto_failure(s, live@, v as int, live@.version as int);
            }
            return Err(Error::Integrity { version: v, field: HashField::ChildHash });
        }
        let linked = match chain(row.self_hash.as_str(), row.child_hash.as_str(), prev.as_str()) {
            Ok(d) => d == row.hash_chain,
            Err(_) => false,
        };
        if !linked {
            proof {
                lemma_verify_upto_failure(s, live@, v as int, live@.version as int);
            }
            return Err(Error::Integrity { version: v, field: HashField::HashChain });
        }
        assert(check_version(s, live@, v) is Ok);
        if at_live {
            return Ok(());
        }
        prev = row.hash_chain;
        v = v + 1;
    }
}

} // verus!
