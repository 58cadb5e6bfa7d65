//! What a store holds when it has been filled through the operations on
//! nodes and content alone, and that these operations keep it so.
//!
//! The rows of a store can be written from outside, and the primitives that
//! write one row (`insert_node`, `insert_content`, `put_current` and the like)
//! write what they are given, so no operation relies on consistency; it is
//! what the operations on nodes and content give in return for receiving it.

use crate::chain::{commit_spec, revised, update_spec};
use crate::content::{
    create_content_spec, delete_spec, owner, publish_spec, update_content_spec, without_current,
};
use crate::graph::{
    link_spec, resealed, set_sequence_spec, transition_spec, with_edge, Direction,
};
use crate::models::{ChildView, ContentView, LinkView, NodeView, PostView, SystemView};
use crate::node_store::{
    attach_content_spec, create_node_spec, first_version, fresh_node, insert_content_spec,
};
use crate::seal::{child_hash_of, sealed};
use crate::store::{
    lemma_current_child, lemma_inserted_lookup, lemma_node_id, lemma_with_current_lookup,
    link_at, node_at, post_at, system_at, StoreView,
};
use crate::table::{lemma_first_index, lemma_first_index_is, lemma_first_index_remove};
use vstd::prelude::*;

verus! {

/// Whether the live nodes stand in ascending order of identity, below the
/// identity that the next node gets.
pub open spec fn nodes_ordered(s: StoreView) -> bool {
    &&& forall|i: int, j: int|
        0 <= i < j < s.nodes.len() ==> (#[trigger] s.nodes[i]).id < (#[trigger] s.nodes[j]).id
    &&& forall|i: int| 0 <= i < s.nodes.len() ==> (#[trigger] s.nodes[i]).id < s.next_node_id
}

/// Whether the live articles stand in ascending order of identity, below
/// the identity that the next article gets.
pub open spec fn posts_ordered(s: StoreView) -> bool {
    &&& forall|i: int, j: int|
        0 <= i < j < s.posts.len() ==> (#[trigger] s.posts[i]).id < (#[trigger] s.posts[j]).id
    &&& forall|i: int| 0 <= i < s.posts.len() ==> (#[trigger] s.posts[i]).id < s.next_post_id
}

/// Whether the live links stand in ascending order of identity, below the
/// identity that the next link gets.
pub open spec fn links_ordered(s: StoreView) -> bool {
    &&& forall|i: int, j: int|
        0 <= i < j < s.links.len() ==> (#[trigger] s.links[i]).id < (#[trigger] s.links[j]).id
    &&& forall|i: int| 0 <= i < s.links.len() ==> (#[trigger] s.links[i]).id < s.next_link_id
}

/// Whether no two live system entries have the same key.
pub open spec fn system_keys_unique(s: StoreView) -> bool {
    forall|i: int, j: int|
        0 <= i < j < s.system.len() ==> (#[trigger] s.system[i]).key != (#[trigger] s.system[j]).key
}

/// Whether the child of the node `n` resolves: the record that it refers to
/// is live and names the node as its parent.
pub open spec fn child_resolves(s: StoreView, n: NodeView) -> bool {
    match n.child {
        Some(child) => s.current(child) is Some && s.current(child)->0.parent() == n.id,
        None => true,
    }
}

/// Whether the child of every live node resolves.
pub open spec fn children_resolve(s: StoreView) -> bool {
    forall|i: int| 0 <= i < s.nodes.len() ==> child_resolves(s, #[trigger] s.nodes[i])
}

/// Whether the edges of the node `n` are sets: neither side names a node
/// twice.
pub open spec fn edges_are_sets(n: NodeView) -> bool {
    n.paths_to.no_duplicates() && n.paths_from.no_duplicates()
}

/// Whether the edges of every live node are sets.
pub open spec fn all_edges_are_sets(s: StoreView) -> bool {
    forall|i: int| 0 <= i < s.nodes.len() ==> edges_are_sets(#[trigger] s.nodes[i])
}

/// Whether the store is consistent: the live nodes, articles and links
/// stand in ascending order of identity below the next identity of their
/// kind, no two live system entries have the same key, the child of every
/// node resolves to a live record that names the node as its parent, and
/// the edges of every node are sets.
pub open spec fn consistent(s: StoreView) -> bool {
    &&& nodes_ordered(s)
    &&& posts_ordered(s)
    &&& links_ordered(s)
    &&& system_keys_unique(s)
    &&& children_resolve(s)
    &&& all_edges_are_sets(s)
}

/// In a store with its nodes in order, a node is found at the place where
/// it stands.
pub proof fn lemma_node_found(s: StoreView, i: int)
    requires
        nodes_ordered(s),
        0 <= i < s.nodes.len(),
    ensures
        node_at(s.nodes, s.nodes[i].id) == Some(i),
        s.node(s.nodes[i].id) == Some(s.nodes[i]),
{
    let id = s.nodes[i].id;
    let hit = |r: NodeView| r.id == id;
    assert forall|j: int| 0 <= j < i implies !hit(#[trigger] s.nodes[j]) by {
        assert(s.nodes[j].id < s.nodes[i].id);
    }
    lemma_first_index_is(s.nodes, hit, i);
}

/// In a consistent store no content record is shared: two nodes that have
/// the same child are the same node.
pub proof fn lemma_children_are_unshared(s: StoreView, i: int, j: int)
    requires
        consistent(s),
        0 <= i < s.nodes.len(),
        0 <= j < s.nodes.len(),
        s.nodes[i].child is Some,
        s.nodes[i].child == s.nodes[j].child,
    ensures
        i == j,
{
    assert(child_resolves(s, s.nodes[i]));
    assert(child_resolves(s, s.nodes[j]));
    assert(s.nodes[i].id == s.nodes[j].id);
    if i < j {
        assert(s.nodes[i].id < s.nodes[j].id);
    }
    if j < i {
        assert(s.nodes[j].id < s.nodes[i].id);
    }
}

/// In a consistent store the record that the child of a node resolves to is
/// owned by that node.
pub proof fn lemma_owner_of_child(s: StoreView, i: int)
    requires
        consistent(s),
        0 <= i < s.nodes.len(),
        s.nodes[i].child is Some,
    ensures
        s.current(s.nodes[i].child->0) is Some,
        owner(s, s.current(s.nodes[i].child->0)->0) == Some(s.nodes[i]),
{
    let n = s.nodes[i];
    let child = n.child->0;
    assert(child_resolves(s, n));
    lemma_current_child(s, child);
    lemma_node_found(s, i);
}

/// An empty store is consistent.
pub proof fn lemma_empty_is_consistent(s: StoreView)
    requires
        s.nodes.len() == 0,
        s.posts.len() == 0,
        s.links.len() == 0,
        s.system.len() == 0,
    ensures
        consistent(s),
{
}

/// Whether two stores hold the same live rows and give out the same
/// identities next.
pub open spec fn same_live_rows(s: StoreView, t: StoreView) -> bool {
    &&& t.nodes == s.nodes
    &&& t.posts == s.posts
    &&& t.links == s.links
    &&& t.system == s.system
    &&& t.next_node_id == s.next_node_id
    &&& t.next_post_id == s.next_post_id
    &&& t.next_link_id == s.next_link_id
}

/// Consistency is a matter of the live rows alone.
pub proof fn lemma_same_live_rows(s: StoreView, t: StoreView)
    requires
        consistent(s),
        same_live_rows(s, t),
    ensures
        consistent(t),
{
    assert forall|i: int| 0 <= i < t.nodes.len() implies child_resolves(
        t,
        #[trigger] t.nodes[i],
    ) by {
        assert(child_resolves(s, s.nodes[i]));
        if let Some(child) = s.nodes[i].child {
            assert(t.current(child) == s.current(child));
        }
    }
}

/// In a consistent store the child of a node that is found resolves, and
/// its edges are sets.
pub proof fn lemma_found_node(s: StoreView, id: i32)
    requires
        consistent(s),
        s.node(id) is Some,
    ensures
        child_resolves(s, s.node(id)->0),
        edges_are_sets(s.node(id)->0),
{
    let at = node_at(s.nodes, id)->0;
    lemma_first_index(s.nodes, |r: NodeView| r.id == id);
    assert(child_resolves(s, s.nodes[at]));
    assert(edges_are_sets(s.nodes[at]));
}

/// A set of identities with one more that it did not hold is a set.
pub proof fn lemma_one_more_edge(ids: Seq<i32>, id: i32)
    requires
        ids.no_duplicates(),
        !ids.contains(id),
    ensures
        ids.push(id).no_duplicates(),
{
    let more = ids.push(id);
    assert forall|i: int, j: int|
        0 <= i < more.len() && 0 <= j < more.len() && i != j implies more[i] != more[j] by {
        if i < ids.len() && j < ids.len() {
            assert(ids[i] != ids[j]);
        } else if i < ids.len() {
            assert(ids.contains(ids[i]));
        } else {
            assert(ids.contains(ids[j]));
        }
    }
}

/// Replacing a live node by one of the same identity and the same child,
/// whose edges are sets, keeps a store consistent.
pub proof fn lemma_node_replaced(s: StoreView, m: NodeView)
    requires
        consistent(s),
        s.node(m.id) is Some,
        m.child == s.node(m.id)->0.child,
        edges_are_sets(m),
    ensures
        consistent(s.with_node(m)),
{
    let t = s.with_node(m);
    let at = node_at(s.nodes, m.id)->0;
    lemma_first_index(s.nodes, |r: NodeView| r.id == m.id);
    assert(t.nodes == s.nodes.update(at, m));
    assert(s.nodes[at].id == m.id);
    assert forall|i: int, j: int| 0 <= i < j < t.nodes.len() implies (#[trigger] t.nodes[i]).id < (
    #[trigger] t.nodes[j]).id by {
        assert(s.nodes[i].id < s.nodes[j].id);
    }
    assert forall|i: int| 0 <= i < t.nodes.len() implies (#[trigger] t.nodes[i]).id
        < t.next_node_id by {
        assert(s.nodes[i].id < s.next_node_id);
    }
    assert forall|i: int| 0 <= i < t.nodes.len() implies child_resolves(
        t,
        #[trigger] t.nodes[i],
    ) by {
        assert(child_resolves(s, s.nodes[i]));
        if let Some(child) = t.nodes[i].child {
            assert(t.current(child) == s.current(child));
        }
    }
    assert forall|i: int| 0 <= i < t.nodes.len() implies edges_are_sets(#[trigger] t.nodes[i]) by {
        assert(edges_are_sets(s.nodes[i]));
    }
}

/// Replacing a live content record by one of the same identity and the
/// same parent keeps a store consistent.
pub proof fn lemma_content_replaced(s: StoreView, c: ContentView)
    requires
        consistent(s),
        s.current(c.child()) is Some,
        c.parent() == s.current(c.child())->0.parent(),
    ensures
        consistent(s.with_current(c)),
{
    let t = s.with_current(c);
    lemma_current_child(s, c.child());
    match c {
        ContentView::PostContent(p) => {
            let at = post_at(s.posts, p.id)->0;
            lemma_first_index(s.posts, |r: PostView| r.id == p.id);
            assert(t.posts == s.posts.update(at, p));
            assert forall|i: int, j: int| 0 <= i < j < t.posts.len() implies (
            #[trigger] t.posts[i]).id < (#[trigger] t.posts[j]).id by {
                assert(s.posts[i].id < s.posts[j].id);
            }
            assert forall|i: int| 0 <= i < t.posts.len() implies (#[trigger] t.posts[i]).id
                < t.next_post_id by {
                assert(s.posts[i].id < s.next_post_id);
            }
        },
        ContentView::LinkContent(l) => {
            let at = link_at(s.links, l.id)->0;
            lemma_first_index(s.links, |r: LinkView| r.id == l.id);
            assert(t.links == s.links.update(at, l));
            assert forall|i: int, j: int| 0 <= i < j < t.links.len() implies (
            #[trigger] t.links[i]).id < (#[trigger] t.links[j]).id by {
                assert(s.links[i].id < s.links[j].id);
            }
            assert forall|i: int| 0 <= i < t.links.len() implies (#[trigger] t.links[i]).id
                < t.next_link_id by {
                assert(s.links[i].id < s.next_link_id);
            }
        },
        ContentView::SystemContent(e) => {
            let at = system_at(s.system, e.key)->0;
            lemma_first_index(s.system, |r: SystemView| r.key == e.key);
            assert(t.system == s.system.update(at, e));
            assert forall|i: int, j: int| 0 <= i < j < t.system.len() implies (
            #[trigger] t.system[i]).key != (#[trigger] t.system[j]).key by {
                assert(s.system[i].key != s.system[j].key);
            }
        },
    }
    assert(t.nodes == s.nodes);
    assert forall|i: int| 0 <= i < t.nodes.len() implies child_resolves(
        t,
        #[trigger] t.nodes[i],
    ) by {
        assert(child_resolves(s, s.nodes[i]));
        if let Some(child) = t.nodes[i].child {
            lemma_with_current_lookup(s, c, child);
        }
    }
}

/// Creating a node keeps a store consistent.
pub proof fn lemma_create_node_keeps_consistent(s: StoreView, now: i64)
    requires
        consistent(s),
    ensures
        consistent(create_node_spec(s, now).0),
{
    let t = create_node_spec(s, now).0;
    if create_node_spec(s, now).1 is Ok {
        let n = fresh_node(s.next_node_id, now);
        assert(t.nodes == s.nodes.push(n));
        assert forall|i: int, j: int| 0 <= i < j < t.nodes.len() implies (#[trigger] t.nodes[i]).id
            < (#[trigger] t.nodes[j]).id by {
            if j < s.nodes.len() {
                assert(s.nodes[i].id < s.nodes[j].id);
            } else {
                assert(s.nodes[i].id < s.next_node_id);
            }
        }
        assert forall|i: int| 0 <= i < t.nodes.len() implies (#[trigger] t.nodes[i]).id
            < t.next_node_id by {
            if i < s.nodes.len() {
                assert(s.nodes[i].id < s.next_node_id);
            }
        }
        assert forall|i: int| 0 <= i < t.nodes.len() implies child_resolves(
            t,
            #[trigger] t.nodes[i],
        ) by {
            if i < s.nodes.len() {
                assert(child_resolves(s, s.nodes[i]));
                if let Some(child) = t.nodes[i].child {
                    assert(t.current(child) == s.current(child));
                }
            }
        }
    }
}

/// Storing a new content record keeps a store consistent.
pub proof fn lemma_insert_content_keeps_consistent(
    s: StoreView,
    c: ContentView,
    parent: i32,
    now: i64,
)
    requires
        consistent(s),
    ensures
        consistent(insert_content_spec(s, c, parent, now).0),
{
    let t = insert_content_spec(s, c, parent, now).0;
    if insert_content_spec(s, c, parent, now).1 is Ok {
        let first = first_version(s, c, parent, now);
        match first {
            ContentView::PostContent(p) => {
                assert(t.posts == s.posts.push(p));
                assert forall|i: int, j: int| 0 <= i < j < t.posts.len() implies (
                #[trigger] t.posts[i]).id < (#[trigger] t.posts[j]).id by {
                    if j < s.posts.len() {
                        assert(s.posts[i].id < s.posts[j].id);
                    } else {
                        assert(s.posts[i].id < s.next_post_id);
                    }
                }
                assert forall|i: int| 0 <= i < t.posts.len() implies (#[trigger] t.posts[i]).id
                    < t.next_post_id by {
                    if i < s.posts.len() {
                        assert(s.posts[i].id < s.next_post_id);
                    }
                }
                assert(t.links == s.links && t.system == s.system);
            },
            ContentView::LinkContent(l) => {
                assert(t.links == s.links.push(l));
                assert forall|i: int, j: int| 0 <= i < j < t.links.len() implies (
                #[trigger] t.links[i]).id < (#[trigger] t.links[j]).id by {
                    if j < s.links.len() {
                        assert(s.links[i].id < s.links[j].id);
                    } else {
                        assert(s.links[i].id < s.next_link_id);
                    }
                }
                assert forall|i: int| 0 <= i < t.links.len() implies (#[trigger] t.links[i]).id
                    < t.next_link_id by {
                    if i < s.links.len() {
                        assert(s.links[i].id < s.next_link_id);
                    }
                }
                assert(t.posts == s.posts && t.system == s.system);
            },
            ContentView::SystemContent(e) => {
                assert(t.system == s.system.push(e));
                lemma_first_index(s.system, |r: SystemView| r.key == e.key);
                assert forall|i: int, j: int| 0 <= i < j < t.system.len() implies (
                #[trigger] t.system[i]).key != (#[trigger] t.system[j]).key by {
                    if j < s.system.len() {
                        assert(s.system[i].key != s.system[j].key);
                    } else {
                        assert(!(|r: SystemView| r.key == e.key)(s.system[i]));
                    }
                }
                assert(t.posts == s.posts && t.links == s.links);
            },
        }
        assert(t.nodes == s.nodes);
        let bumped = match c {
            ContentView::PostContent(_) => StoreView {
                next_post_id: (s.next_post_id + 1) as i32,
                ..s
            },
            ContentView::LinkContent(_) => StoreView {
                next_link_id: (s.next_link_id + 1) as i32,
                ..s
            },
            ContentView::SystemContent(_) => s,
        };
        assert(t == bumped.with_inserted(first));
        assert forall|i: int| 0 <= i < t.nodes.len() implies child_resolves(
            t,
            #[trigger] t.nodes[i],
        ) by {
            assert(child_resolves(s, s.nodes[i]));
            if let Some(child) = t.nodes[i].child {
                assert(bumped.current(child) == s.current(child));
                lemma_inserted_lookup(bumped, first, child);
            }
        }
    }
}

/// Attaching the first content to a node keeps a store consistent.
pub proof fn lemma_attach_content_keeps_consistent(
    s: StoreView,
    node_id: i32,
    c: ContentView,
    now: i64,
)
    requires
        consistent(s),
    ensures
        consistent(attach_content_spec(s, node_id, c, now).0),
{
    if attach_content_spec(s, node_id, c, now).1 is Ok {
        let n = s.node(node_id)->0;
        let (stored, inserted) = insert_content_spec(s, c, node_id, now);
        let first = inserted->Ok_0;
        let child = first.child();
        let attached = sealed(
            NodeView { version: 1, updated: now, child: Some(child), ..n },
            child_hash_of(first),
            crate::hash::seed_digest(),
        );
        let t = stored.with_node(attached);
        assert(attach_content_spec(s, node_id, c, now).0 == t);
        lemma_insert_content_keeps_consistent(s, c, node_id, now);
        lemma_node_id(s, node_id);
        let at = node_at(s.nodes, node_id)->0;
        lemma_first_index(s.nodes, |r: NodeView| r.id == node_id);
        assert(stored.nodes == s.nodes);
        assert(t.nodes == s.nodes.update(at, attached));
        assert(t.posts == stored.posts && t.links == stored.links && t.system == stored.system);
        let bumped = match c {
            ContentView::PostContent(_) => StoreView {
                next_post_id: (s.next_post_id + 1) as i32,
                ..s
            },
            ContentView::LinkContent(_) => StoreView {
                next_link_id: (s.next_link_id + 1) as i32,
                ..s
            },
            ContentView::SystemContent(_) => s,
        };
        assert(stored == bumped.with_inserted(first));
        assert(bumped.current(child) == s.current(child));
        lemma_inserted_lookup(bumped, first, child);
        assert(stored.current(child) == Some(first));
        assert forall|i: int, j: int| 0 <= i < j < t.nodes.len() implies (#[trigger] t.nodes[i]).id
            < (#[trigger] t.nodes[j]).id by {
            assert(s.nodes[i].id < s.nodes[j].id);
        }
        assert forall|i: int| 0 <= i < t.nodes.len() implies (#[trigger] t.nodes[i]).id
            < t.next_node_id by {
            assert(s.nodes[i].id < s.next_node_id);
        }
        assert forall|i: int| 0 <= i < t.nodes.len() implies child_resolves(
            t,
            #[trigger] t.nodes[i],
        ) by {
            if i == at {
                assert(t.current(child) == stored.current(child));
            } else {
                assert(child_resolves(stored, stored.nodes[i]));
                if let Some(other) = t.nodes[i].child {
                    assert(t.current(other) == stored.current(other));
                }
            }
        }
    }
}

/// Committing an update keeps a store consistent.
pub proof fn lemma_commit_keeps_consistent(
    s: StoreView,
    node_id: i32,
    expected_version: i32,
    new: ContentView,
    now: i64,
)
    requires
        consistent(s),
    ensures
        consistent(commit_spec(s, node_id, expected_version, new, now).0),
{
    if commit_spec(s, node_id, expected_version, new, now).1 is Ok {
        let n = s.node(node_id)->0;
        let child = n.child->0;
        let c = s.current(child)->0;
        let next = revised(c, new, now);
        let advanced = sealed(
            NodeView { version: (n.version + 1) as i32, updated: now, ..n },
            child_hash_of(next),
            n.hash_chain,
        );
        let s1 = s.with_node_snapshot(n);
        let s2 = s1.with_snapshot(c);
        let s3 = s2.with_node(advanced);
        let s4 = s3.with_current(next);
        assert(commit_spec(s, node_id, expected_version, new, now).0 == s4);
        lemma_node_id(s, node_id);
        lemma_current_child(s, child);
        assert(same_live_rows(s, s2));
        lemma_same_live_rows(s, s2);
        assert(s2.node(node_id) == s.node(node_id));
        lemma_found_node(s, node_id);
        lemma_node_replaced(s2, advanced);
        assert(s3.posts == s.posts && s3.links == s.links && s3.system == s.system);
        assert(s3.current(child) == s.current(child));
        lemma_content_replaced(s3, next);
    }
}

/// Committing an update at the version that the node is at keeps a store
/// consistent.
pub proof fn lemma_update_keeps_consistent(s: StoreView, node_id: i32, new: ContentView, now: i64)
    requires
        consistent(s),
    ensures
        consistent(update_spec(s, node_id, new, now).0),
{
    if s.node(node_id) is Some {
        lemma_commit_keeps_consistent(s, node_id, s.node(node_id)->0.version, new, now);
    }
}

/// Recording an edge keeps a store consistent.
pub proof fn lemma_link_keeps_consistent(
    s: StoreView,
    node_id: i32,
    target_id: i32,
    direction: Direction,
)
    requires
        consistent(s),
    ensures
        consistent(link_spec(s, node_id, target_id, direction).0),
{
    if link_spec(s, node_id, target_id, direction).0 != s {
        let n = s.node(node_id)->0;
        lemma_node_id(s, node_id);
        lemma_found_node(s, node_id);
        match direction {
            Direction::To => lemma_one_more_edge(n.paths_to, target_id),
            Direction::From => lemma_one_more_edge(n.paths_from, target_id),
        }
        let m = resealed(s, with_edge(n, target_id, direction))->Ok_0;
        lemma_node_replaced(s, m);
    }
}

/// Setting the sequence links of a node keeps a store consistent.
pub proof fn lemma_set_sequence_keeps_consistent(
    s: StoreView,
    node_id: i32,
    next: Option<i32>,
    last: Option<i32>,
)
    requires
        consistent(s),
    ensures
        consistent(set_sequence_spec(s, node_id, next, last).0),
{
    if s.node(node_id) is Some {
        let n = s.node(node_id)->0;
        lemma_node_id(s, node_id);
        lemma_found_node(s, node_id);
        lemma_node_replaced(s, NodeView { node_next: next, node_last: last, ..n });
    }
}

/// Moving the workflow of a node keeps a store consistent.
pub proof fn lemma_transition_keeps_consistent(s: StoreView, node_id: i32, to: Seq<char>)
    requires
        consistent(s),
    ensures
        consistent(transition_spec(s, node_id, to).0),
{
    if transition_spec(s, node_id, to).0 != s {
        let n = s.node(node_id)->0;
        lemma_node_id(s, node_id);
        lemma_found_node(s, node_id);
        let m = resealed(s, NodeView { workflow: to, ..n })->Ok_0;
        lemma_node_replaced(s, m);
    }
}

/// In a consistent store no node has a record without an owner as its
/// child.
pub proof fn lemma_unowned_is_unnamed(s: StoreView, child: ChildView, i: int)
    requires
        consistent(s),
        s.current(child) is Some,
        owner(s, s.current(child)->0) is None,
        0 <= i < s.nodes.len(),
    ensures
        s.nodes[i].child != Some(child),
{
    if s.nodes[i].child == Some(child) {
        lemma_owner_of_child(s, i);
    }
}

/// Deleting a content record keeps a store consistent.
pub proof fn lemma_delete_keeps_consistent(s: StoreView, child: ChildView)
    requires
        consistent(s),
    ensures
        consistent(delete_spec(s, child).0),
{
    if s.current(child) is Some {
        let c = s.current(child)->0;
        if owner(s, c) is Some {
            lemma_transition_keeps_consistent(s, c.parent(), "deleted"@);
        } else {
            let t = without_current(s, child);
            assert(delete_spec(s, child).0 == t);
            assert(t.nodes == s.nodes);
            lemma_current_child(s, child);
            match child {
                ChildView::Article(id) => {
                    let at = post_at(s.posts, id)->0;
                    lemma_first_index(s.posts, |r: PostView| r.id == id);
                    assert(t.posts == s.posts.remove(at));
                    assert forall|i: int, j: int| 0 <= i < j < t.posts.len() implies (
                    #[trigger] t.posts[i]).id < (#[trigger] t.posts[j]).id by {
                        let a = if i < at {
                            i
                        } else {
                            i + 1
                        };
                        let b = if j < at {
                            j
                        } else {
                            j + 1
                        };
                        assert(s.posts[a].id < s.posts[b].id);
                    }
                    assert forall|i: int| 0 <= i < t.posts.len() implies (
                    #[trigger] t.posts[i]).id < t.next_post_id by {
                        let a = if i < at {
                            i
                        } else {
                            i + 1
                        };
                        assert(s.posts[a].id < s.next_post_id);
                    }
                },
                ChildView::Link(id) => {
                    let at = link_at(s.links, id)->0;
                    lemma_first_index(s.links, |r: LinkView| r.id == id);
                    assert(t.links == s.links.remove(at));
                    assert forall|i: int, j: int| 0 <= i < j < t.links.len() implies (
                    #[trigger] t.links[i]).id < (#[trigger] t.links[j]).id by {
                        let a = if i < at {
                            i
                        } else {
                            i + 1
                        };
                        let b = if j < at {
                            j
                        } else {
                            j + 1
                        };
                        assert(s.links[a].id < s.links[b].id);
                    }
                    assert forall|i: int| 0 <= i < t.links.len() implies (
                    #[trigger] t.links[i]).id < t.next_link_id by {
                        let a = if i < at {
                            i
                        } else {
                            i + 1
                        };
                        assert(s.links[a].id < s.next_link_id);
                    }
                },
                ChildView::System(key) => {
                    let at = system_at(s.system, key)->0;
                    lemma_first_index(s.system, |r: SystemView| r.key == key);
                    assert(t.system == s.system.remove(at));
                    assert forall|i: int, j: int| 0 <= i < j < t.system.len() implies (
                    #[trigger] t.system[i]).key != (#[trigger] t.system[j]).key by {
                        let a = if i < at {
                            i
                        } else {
                            i + 1
                        };
                        let b = if j < at {
                            j
                        } else {
                            j + 1
                        };
                        assert(s.system[a].key != s.system[b].key);
                    }
                },
            }
            assert forall|i: int| 0 <= i < t.nodes.len() implies child_resolves(
                t,
                #[trigger] t.nodes[i],
            ) by {
                assert(child_resolves(s, s.nodes[i]));
                if let Some(other) = t.nodes[i].child {
                    lemma_unowned_is_unnamed(s, child, i);
                    lemma_removed_lookup(s, child, other);
                }
            }
        }
    }
}

/// After a live record is removed, every record of another identity is
/// found as before.
pub proof fn lemma_removed_lookup(s: StoreView, child: ChildView, other: ChildView)
    requires
        other != child,
    ensures
        without_current(s, child).current(other) == s.current(other),
{
    lemma_current_child(s, child);
    match child {
        ChildView::Article(id) => {
            lemma_first_index(s.posts, |r: PostView| r.id == id);
            if let ChildView::Article(o) = other {
                if post_at(s.posts, id) is Some {
                    let at = post_at(s.posts, id)->0;
                    lemma_first_index_remove(s.posts, |r: PostView| r.id == o, at);
                }
            }
        },
        ChildView::Link(id) => {
            lemma_first_index(s.links, |r: LinkView| r.id == id);
            if let ChildView::Link(o) = other {
                if link_at(s.links, id) is Some {
                    let at = link_at(s.links, id)->0;
                    lemma_first_index_remove(s.links, |r: LinkView| r.id == o, at);
                }
            }
        },
        ChildView::System(key) => {
            lemma_first_index(s.system, |r: SystemView| r.key == key);
            if let ChildView::System(o) = other {
                if system_at(s.system, key) is Some {
                    let at = system_at(s.system, key)->0;
                    lemma_first_index_remove(s.system, |r: SystemView| r.key == o, at);
                }
            }
        },
    }
}

/// Publishing the owner of a content record keeps a store consistent.
pub proof fn lemma_publish_keeps_consistent(s: StoreView, child: ChildView)
    requires
        consistent(s),
    ensures
        consistent(publish_spec(s, child).0),
{
    if s.current(child) is Some {
        let c = s.current(child)->0;
        if owner(s, c) is Some {
            lemma_transition_keeps_consistent(s, c.parent(), "published"@);
        }
    }
}

/// Committing an edit of a content record keeps a store consistent.
pub proof fn lemma_update_content_keeps_consistent(s: StoreView, new: ContentView, now: i64)
    requires
        consistent(s),
    ensures
        consistent(update_content_spec(s, new, now).0),
{
    if s.current(new.child()) is Some {
        let c = s.current(new.child())->0;
        lemma_commit_keeps_consistent(s, c.parent(), new.version(), new, now);
    }
}

/// Whether the rows of `a` stand at the front of `b`, in the same order.
pub open spec fn starts_with<T>(b: Seq<T>, a: Seq<T>) -> bool {
    a.len() <= b.len() && forall|i: int| 0 <= i < a.len() ==> a[i] == b[i]
}

/// Whether `t` holds every revision that `s` holds, unchanged and at the
/// same place of its table.
pub open spec fn revisions_kept(s: StoreView, t: StoreView) -> bool {
    &&& starts_with(t.node_revisions, s.node_revisions)
    &&& starts_with(t.post_revisions, s.post_revisions)
    &&& starts_with(t.link_revisions, s.link_revisions)
    &&& starts_with(t.system_revisions, s.system_revisions)
}

/// Revisions are append-only: creating a node, storing a new content
/// record and attaching content change or remove no revision that is
/// stored.
pub proof fn lemma_node_store_keeps_revisions(
    s: StoreView,
    node_id: i32,
    content: ContentView,
    now: i64,
)
    ensures
        revisions_kept(s, create_node_spec(s, now).0),
        revisions_kept(s, insert_content_spec(s, content, node_id, now).0),
        revisions_kept(s, attach_content_spec(s, node_id, content, now).0),
{
}

/// Revisions are append-only: committing an update changes or removes no
/// revision that is stored.
pub proof fn lemma_commit_keeps_revisions(
    s: StoreView,
    node_id: i32,
    version: i32,
    content: ContentView,
    now: i64,
)
    ensures
        revisions_kept(s, commit_spec(s, node_id, version, content, now).0),
        revisions_kept(s, update_spec(s, node_id, content, now).0),
{
    if s.node(node_id) is Some {
        let at = s.node(node_id)->0.version;
        assert(revisions_kept(s, commit_spec(s, node_id, at, content, now).0));
    }
}

/// Revisions are append-only: recording an edge, setting the sequence links
/// and moving the workflow change or remove no revision that is stored.
pub proof fn lemma_graph_keeps_revisions(
    s: StoreView,
    node_id: i32,
    target_id: i32,
    direction: Direction,
    next: Option<i32>,
    last: Option<i32>,
    to: Seq<char>,
)
    ensures
        revisions_kept(s, link_spec(s, node_id, target_id, direction).0),
        revisions_kept(s, set_sequence_spec(s, node_id, next, last).0),
        revisions_kept(s, transition_spec(s, node_id, to).0),
{
}

/// Revisions are append-only: deleting, publishing, creating and editing a
/// content record change or remove no revision that is stored.
pub proof fn lemma_content_keeps_revisions(
    s: StoreView,
    child: ChildView,
    content: ContentView,
    now: i64,
)
    ensures
        revisions_kept(s, delete_spec(s, child).0),
        revisions_kept(s, publish_spec(s, child).0),
        revisions_kept(s, update_content_spec(s, content, now).0),
        revisions_kept(s, create_content_spec(s, content, now).0),
{
    lemma_node_store_keeps_revisions(s, s.next_node_id, content, now);
    lemma_node_store_keeps_revisions(
        create_node_spec(s, now).0,
        s.next_node_id,
        content,
        now,
    );
    if s.current(child) is Some {
        let c = s.current(child)->0;
        lemma_graph_keeps_revisions(s, c.parent(), 0, Direction::To, None, None, "deleted"@);
        lemma_graph_keeps_revisions(s, c.parent(), 0, Direction::To, None, None, "published"@);
    }
    if s.current(content.child()) is Some {
        let c = s.current(content.child())->0;
        lemma_commit_keeps_revisions(s, c.parent(), content.version(), content, now);
    }
}

} // verus!
