//! That the writes which `changes` computes do what they are for.
//!
//! The tables are taken to answer a write as a store does: an added row
//! goes behind the others, a changed row takes the place of the row of the
//! same identity, and a removed row leaves. The law at the end says that
//! the writes, made in turn to tables that hold the one store, give tables
//! that answer every lookup as the other store does.

use crate::changes::{
    appends, changes_spec, content_deletes, content_upsert, content_upserts, live_contents,
    node_deletes, node_upsert, node_upserts, tail_writes, WriteView,
};
use crate::consistency::{consistent, lemma_removed_lookup, revisions_kept};
use crate::content::without_current;
use crate::models::{ChildView, ContentView, LinkView, NodeView, PostView, SystemView};
use crate::store::{
    lemma_current_child, lemma_inserted_lookup, lemma_with_current_lookup,
    lemma_with_node_lookup, link_at, node_at, post_at, system_at, StoreView,
};
use crate::table::{
    at_most_one, distinct_by, first_index, lemma_distinct_push, lemma_distinct_remove,
    lemma_distinct_update, lemma_first_index, lemma_first_index_none, lemma_first_index_push,
    lemma_first_index_remove, lemma_found_row_removed, lemma_only_row_is_found,
};
use vstd::prelude::*;

verus! {

/// The store without the live node `id`.
pub open spec fn without_node(s: StoreView, id: i32) -> StoreView {
    match node_at(s.nodes, id) {
        Some(i) => StoreView { nodes: s.nodes.remove(i), ..s },
        None => s,
    }
}

/// The tables after one write is made to them, for a write whose condition
/// is met.
pub open spec fn written(s: StoreView, w: WriteView) -> StoreView {
    match w {
        WriteView::AppendNodeRevision(n) => s.with_node_snapshot(n),
        WriteView::AppendRevision(c) => s.with_snapshot(c),
        WriteView::DeleteNode { id, expected_version } => without_node(s, id),
        WriteView::InsertNode(n) => s.with_node_inserted(n),
        WriteView::UpdateNode { expected_version, node } => s.with_node(node),
        WriteView::DeleteContent { child, expected_version } => without_current(s, child),
        WriteView::InsertContent(c) => s.with_inserted(c),
        WriteView::UpdateContent { expected_version, content } => s.with_current(content),
    }
}

/// The tables after the writes are made to them in turn.
pub open spec fn replayed(s: StoreView, writes: Seq<WriteView>) -> StoreView
    decreases writes.len(),
{
    if writes.len() == 0 {
        s
    } else {
        written(replayed(s, writes.drop_last()), writes.last())
    }
}

/// Making two runs of writes in turn is making the writes of both in turn.
pub proof fn lemma_replayed_in_turn(s: StoreView, first: Seq<WriteView>, second: Seq<WriteView>)
    ensures
        replayed(s, first + second) == replayed(replayed(s, first), second),
    decreases second.len(),
{
    if second.len() == 0 {
        assert(first + second =~= first);
    } else {
        lemma_replayed_in_turn(s, first, second.drop_last());
        assert((first + second).drop_last() =~= first + second.drop_last());
    }
}

/// Whether no two of the nodes have the same identity.
pub open spec fn nodes_distinct(rows: Seq<NodeView>) -> bool {
    forall|i: int, j: int|
        0 <= i < rows.len() && 0 <= j < rows.len() && (#[trigger] rows[i]).id == (
        #[trigger] rows[j]).id ==> i == j
}

proof fn lemma_node_hit_once(rows: Seq<NodeView>, id: i32)
    requires
        nodes_distinct(rows),
    ensures
        at_most_one(rows, |r: NodeView| r.id == id),
{
}

/// Among nodes of distinct identities a node is found under its identity.
pub proof fn lemma_distinct_node_found(s: StoreView, i: int)
    requires
        nodes_distinct(s.nodes),
        0 <= i < s.nodes.len(),
    ensures
        s.node(s.nodes[i].id) == Some(s.nodes[i]),
{
    let id = s.nodes[i].id;
    lemma_node_hit_once(s.nodes, id);
    lemma_only_row_is_found(s.nodes, |r: NodeView| r.id == id, i);
}

/// What the lookup of a node gives after one write to the nodes, among
/// nodes of distinct identities; and the identities stay distinct.
proof fn lemma_node_written(s: StoreView, w: WriteView, id: i32)
    requires
        nodes_distinct(s.nodes),
        w matches WriteView::InsertNode(n) ==> s.node(n.id) is None,
        w matches WriteView::UpdateNode { node, .. } ==> s.node(node.id) is Some,
    ensures
        nodes_distinct(written(s, w).nodes),
        written(s, w).node(id) == (match w {
            WriteView::DeleteNode { id: gone, .. } => if id == gone {
                None
            } else {
                s.node(id)
            },
            WriteView::InsertNode(n) => if id == n.id {
                Some(n)
            } else {
                s.node(id)
            },
            WriteView::UpdateNode { node, .. } => if id == node.id {
                Some(node)
            } else {
                s.node(id)
            },
            _ => s.node(id),
        }),
{
    let t = written(s, w);
    let hit = |r: NodeView| r.id == id;
    lemma_first_index(s.nodes, hit);
    match w {
        WriteView::DeleteNode { id: gone, .. } => {
            let gone_hit = |r: NodeView| r.id == gone;
            lemma_first_index(s.nodes, gone_hit);
            if node_at(s.nodes, gone) is Some {
                let at = node_at(s.nodes, gone)->0;
                assert(t.nodes == s.nodes.remove(at));
                assert forall|i: int, j: int|
                    0 <= i < t.nodes.len() && 0 <= j < t.nodes.len() && (#[trigger] t.nodes[i]).id
                        == (#[trigger] t.nodes[j]).id implies i == j by {
                    let a = if i < at {
                        i
                    } else {
                        i + 1
                    };
                    let b = if j < at {
                        j
                    } else {
                        j + 1
                    };
                    assert(s.nodes[a].id == s.nodes[b].id);
                }
                if id == gone {
                    lemma_node_hit_once(s.nodes, gone);
                    lemma_found_row_removed(s.nodes, gone_hit);
                } else {
                    lemma_first_index_remove(s.nodes, hit, at);
                }
            }
        },
        WriteView::InsertNode(n) => {
            lemma_first_index(s.nodes, |r: NodeView| r.id == n.id);
            lemma_first_index_push(s.nodes, hit, n);
            assert(t.nodes == s.nodes.push(n));
            assert forall|i: int, j: int|
                0 <= i < t.nodes.len() && 0 <= j < t.nodes.len() && (#[trigger] t.nodes[i]).id == (
                #[trigger] t.nodes[j]).id implies i == j by {
                if i < s.nodes.len() && j < s.nodes.len() {
                    assert(s.nodes[i].id == s.nodes[j].id);
                } else if i < s.nodes.len() {
                    assert(!(|r: NodeView| r.id == n.id)(s.nodes[i]));
                } else if j < s.nodes.len() {
                    assert(!(|r: NodeView| r.id == n.id)(s.nodes[j]));
                }
            }
        },
        WriteView::UpdateNode { node, .. } => {
            let at = node_at(s.nodes, node.id)->0;
            lemma_first_index(s.nodes, |r: NodeView| r.id == node.id);
            lemma_with_node_lookup(s, node, id);
            assert(t.nodes == s.nodes.update(at, node));
            assert forall|i: int, j: int|
                0 <= i < t.nodes.len() && 0 <= j < t.nodes.len() && (#[trigger] t.nodes[i]).id == (
                #[trigger] t.nodes[j]).id implies i == j by {
                assert(s.nodes[i].id == s.nodes[j].id);
            }
        },
        WriteView::AppendNodeRevision(n) => {},
        WriteView::AppendRevision(c) => {
            assert(t.nodes == s.nodes);
        },
        WriteView::DeleteContent { child, .. } => {
            assert(t.nodes == s.nodes);
        },
        WriteView::InsertContent(c) => {
            assert(t.nodes == s.nodes);
        },
        WriteView::UpdateContent { content, .. } => {
            assert(t.nodes == s.nodes);
        },
    }
}

/// Whether two stores hold the same content records and the same
/// revisions.
pub open spec fn same_but_nodes(s: StoreView, t: StoreView) -> bool {
    &&& t.posts == s.posts
    &&& t.links == s.links
    &&& t.system == s.system
    &&& t.node_revisions == s.node_revisions
    &&& t.post_revisions == s.post_revisions
    &&& t.link_revisions == s.link_revisions
    &&& t.system_revisions == s.system_revisions
}

proof fn lemma_node_deletes_replayed(s: StoreView, rows: Seq<NodeView>, after: StoreView, id: i32)
    requires
        nodes_distinct(s.nodes),
    ensures
        nodes_distinct(replayed(s, node_deletes(rows, after)).nodes),
        same_but_nodes(s, replayed(s, node_deletes(rows, after))),
        replayed(s, node_deletes(rows, after)).node(id) == (if after.node(id) is None && node_at(
            rows,
            id,
        ) is Some {
            None
        } else {
            s.node(id)
        }),
    decreases rows.len(),
{
    let hit = |r: NodeView| r.id == id;
    if rows.len() > 0 {
        let init = rows.drop_last();
        let row = rows.last();
        lemma_node_deletes_replayed(s, init, after, id);
        assert(init.push(row) =~= rows);
        lemma_first_index_push(init, hit, row);
        if after.node(row.id) is None {
            let t = replayed(s, node_deletes(init, after));
            let w = WriteView::DeleteNode { id: row.id, expected_version: row.version };
            assert(node_deletes(rows, after).drop_last() =~= node_deletes(init, after));
            lemma_node_written(t, w, id);
        }
    }
}

proof fn lemma_node_upserts_replayed(s: StoreView, before: StoreView, rows: Seq<NodeView>, id: i32)
    requires
        nodes_distinct(s.nodes),
        nodes_distinct(rows),
        forall|i: int|
            0 <= i < rows.len() ==> s.node((#[trigger] rows[i]).id) == before.node(rows[i].id),
    ensures
        nodes_distinct(replayed(s, node_upserts(before, rows)).nodes),
        same_but_nodes(s, replayed(s, node_upserts(before, rows))),
        replayed(s, node_upserts(before, rows)).node(id) == (match node_at(rows, id) {
            Some(i) => Some(rows[i]),
            None => s.node(id),
        }),
    decreases rows.len(),
{
    let hit = |r: NodeView| r.id == id;
    if rows.len() > 0 {
        let init = rows.drop_last();
        let row = rows.last();
        assert(init.push(row) =~= rows);
        assert forall|i: int, j: int|
            0 <= i < init.len() && 0 <= j < init.len() && (#[trigger] init[i]).id == (
            #[trigger] init[j]).id implies i == j by {
            assert(rows[i].id == rows[j].id);
        }
        assert forall|i: int| 0 <= i < init.len() implies s.node((#[trigger] init[i]).id)
            == before.node(init[i].id) by {
            assert(init[i] == rows[i]);
        }
        lemma_node_upserts_replayed(s, before, init, id);
        lemma_node_upserts_replayed(s, before, init, row.id);
        lemma_first_index_push(init, hit, row);
        let t = replayed(s, node_upserts(before, init));
        // The last row is not among those before it.
        let row_hit = |r: NodeView| r.id == row.id;
        assert forall|j: int| 0 <= j < init.len() implies !row_hit(#[trigger] init[j]) by {
            if init[j].id == row.id {
                assert(rows[j].id == rows[rows.len() - 1].id);
            }
        }
        lemma_first_index_none(init, row_hit);
        assert(rows[rows.len() - 1] == row);
        assert(t.node(row.id) == before.node(row.id));
        lemma_first_index(init, hit);
        match node_upsert(before, row) {
            Some(w) => {
                assert(node_upserts(before, rows).drop_last() =~= node_upserts(before, init));
                lemma_node_written(t, w, id);
            },
            None => {},
        }
        if node_at(init, id) is Some && id == row.id {
            assert(row_hit(init[node_at(init, id)->0]));
        }
    }
}

/// Replaying the writes for the nodes on tables that hold the nodes of
/// `before` gives tables in which every node is found as it is in `after`.
pub proof fn lemma_node_writes_replayed(s: StoreView, before: StoreView, after: StoreView, id: i32)
    requires
        nodes_distinct(before.nodes),
        nodes_distinct(after.nodes),
        s.nodes == before.nodes,
    ensures
        ({
            let t = replayed(
                s,
                node_deletes(before.nodes, after) + node_upserts(before, after.nodes),
            );
            &&& t.node(id) == after.node(id)
            &&& same_but_nodes(s, t)
        }),
{
    let deletes = node_deletes(before.nodes, after);
    let upserts = node_upserts(before, after.nodes);
    let s1 = replayed(s, deletes);
    lemma_replayed_in_turn(s, deletes, upserts);
    lemma_node_deletes_replayed(s, before.nodes, after, id);
    assert(s.node(id) == before.node(id));
    assert forall|i: int| 0 <= i < after.nodes.len() implies s1.node(
        (#[trigger] after.nodes[i]).id,
    ) == before.node(after.nodes[i].id) by {
        lemma_node_deletes_replayed(s, before.nodes, after, after.nodes[i].id);
        lemma_distinct_node_found(after, i);
        assert(s.node(after.nodes[i].id) == before.node(after.nodes[i].id));
    }
    lemma_node_upserts_replayed(s1, before, after.nodes, id);
    lemma_first_index(after.nodes, |r: NodeView| r.id == id);
}

/// Whether no two live content records of a kind have the same identity.
pub open spec fn contents_distinct(s: StoreView) -> bool {
    &&& distinct_by(s.posts, |p: PostView| p.id)
    &&& distinct_by(s.links, |l: LinkView| l.id)
    &&& distinct_by(s.system, |e: SystemView| e.key)
}

/// Whether two stores hold the same nodes and the same revisions.
pub open spec fn same_but_contents(s: StoreView, t: StoreView) -> bool {
    &&& t.nodes == s.nodes
    &&& t.node_revisions == s.node_revisions
    &&& t.post_revisions == s.post_revisions
    &&& t.link_revisions == s.link_revisions
    &&& t.system_revisions == s.system_revisions
}

proof fn lemma_content_hit_once(s: StoreView, child: ChildView)
    requires
        contents_distinct(s),
    ensures
        child matches ChildView::Article(id) ==> at_most_one(s.posts, |r: PostView| r.id == id),
        child matches ChildView::Link(id) ==> at_most_one(s.links, |r: LinkView| r.id == id),
        child matches ChildView::System(key) ==> at_most_one(
            s.system,
            |r: SystemView| r.key == key,
        ),
{
    match child {
        ChildView::Article(id) => {
            let key = |p: PostView| p.id;
            assert forall|i: int, j: int|
                0 <= i < s.posts.len() && 0 <= j < s.posts.len() && (#[trigger] s.posts[i]).id
                    == id && (#[trigger] s.posts[j]).id == id implies i == j by {
                assert(key(s.posts[i]) == key(s.posts[j]));
            }
        },
        ChildView::Link(id) => {
            let key = |l: LinkView| l.id;
            assert forall|i: int, j: int|
                0 <= i < s.links.len() && 0 <= j < s.links.len() && (#[trigger] s.links[i]).id
                    == id && (#[trigger] s.links[j]).id == id implies i == j by {
                assert(key(s.links[i]) == key(s.links[j]));
            }
        },
        ChildView::System(k) => {
            let key = |e: SystemView| e.key;
            assert forall|i: int, j: int|
                0 <= i < s.system.len() && 0 <= j < s.system.len() && (#[trigger] s.system[i]).key
                    == k && (#[trigger] s.system[j]).key == k implies i == j by {
                assert(key(s.system[i]) == key(s.system[j]));
            }
        },
    }
}

/// What the lookup of a content record gives after a record is removed,
/// among records of distinct identities; and the identities stay distinct.
proof fn lemma_content_deleted(s: StoreView, gone: ChildView, child: ChildView)
    requires
        contents_distinct(s),
    ensures
        contents_distinct(without_current(s, gone)),
        same_but_contents(s, without_current(s, gone)),
        without_current(s, gone).current(child) == (if child == gone {
            None
        } else {
            s.current(child)
        }),
{
    let t = without_current(s, gone);
    lemma_content_hit_once(s, gone);
    if child != gone {
        lemma_removed_lookup(s, gone, child);
    }
    match gone {
        ChildView::Article(id) => {
            let hit = |r: PostView| r.id == id;
            lemma_first_index(s.posts, hit);
            if post_at(s.posts, id) is Some {
                lemma_distinct_remove(s.posts, |p: PostView| p.id, post_at(s.posts, id)->0);
                lemma_found_row_removed(s.posts, hit);
            }
        },
        ChildView::Link(id) => {
            let hit = |r: LinkView| r.id == id;
            lemma_first_index(s.links, hit);
            if link_at(s.links, id) is Some {
                lemma_distinct_remove(s.links, |l: LinkView| l.id, link_at(s.links, id)->0);
                lemma_found_row_removed(s.links, hit);
            }
        },
        ChildView::System(key) => {
            let hit = |r: SystemView| r.key == key;
            lemma_first_index(s.system, hit);
            if system_at(s.system, key) is Some {
                lemma_distinct_remove(
                    s.system,
                    |e: SystemView| e.key,
                    system_at(s.system, key)->0,
                );
                lemma_found_row_removed(s.system, hit);
            }
        },
    }
}

/// What the lookup of a content record gives after a record is added whose
/// identity no record has; and the identities stay distinct.
proof fn lemma_content_inserted(s: StoreView, c: ContentView, child: ChildView)
    requires
        contents_distinct(s),
        s.current(c.child()) is None,
    ensures
        contents_distinct(s.with_inserted(c)),
        same_but_contents(s, s.with_inserted(c)),
        s.with_inserted(c).current(child) == (if child == c.child() {
            Some(c)
        } else {
            s.current(child)
        }),
{
    lemma_inserted_lookup(s, c, child);
    match c {
        ContentView::PostContent(p) => {
            let hit = |r: PostView| r.id == p.id;
            lemma_first_index(s.posts, hit);
            assert forall|i: int| 0 <= i < s.posts.len() implies (|x: PostView| x.id)(
                #[trigger] s.posts[i],
            ) != (|x: PostView| x.id)(p) by {
                assert(!hit(s.posts[i]));
            }
            lemma_distinct_push(s.posts, |x: PostView| x.id, p);
        },
        ContentView::LinkContent(l) => {
            let hit = |r: LinkView| r.id == l.id;
            lemma_first_index(s.links, hit);
            assert forall|i: int| 0 <= i < s.links.len() implies (|x: LinkView| x.id)(
                #[trigger] s.links[i],
            ) != (|x: LinkView| x.id)(l) by {
                assert(!hit(s.links[i]));
            }
            lemma_distinct_push(s.links, |x: LinkView| x.id, l);
        },
        ContentView::SystemContent(e) => {
            let hit = |r: SystemView| r.key == e.key;
            lemma_first_index(s.system, hit);
            assert forall|i: int| 0 <= i < s.system.len() implies (|x: SystemView| x.key)(
                #[trigger] s.system[i],
            ) != (|x: SystemView| x.key)(e) by {
                assert(!hit(s.system[i]));
            }
            lemma_distinct_push(s.system, |x: SystemView| x.key, e);
        },
    }
}

/// What the lookup of a content record gives after a record is replaced;
/// and the identities stay distinct.
proof fn lemma_content_updated(s: StoreView, c: ContentView, child: ChildView)
    requires
        contents_distinct(s),
        s.current(c.child()) is Some,
    ensures
        contents_distinct(s.with_current(c)),
        same_but_contents(s, s.with_current(c)),
        s.with_current(c).current(child) == (if child == c.child() {
            Some(c)
        } else {
            s.current(child)
        }),
{
    lemma_with_current_lookup(s, c, child);
    match c {
        ContentView::PostContent(p) => {
            let hit = |r: PostView| r.id == p.id;
            lemma_first_index(s.posts, hit);
            lemma_distinct_update(s.posts, |x: PostView| x.id, post_at(s.posts, p.id)->0, p);
        },
        ContentView::LinkContent(l) => {
            let hit = |r: LinkView| r.id == l.id;
            lemma_first_index(s.links, hit);
            lemma_distinct_update(s.links, |x: LinkView| x.id, link_at(s.links, l.id)->0, l);
        },
        ContentView::SystemContent(e) => {
            let hit = |r: SystemView| r.key == e.key;
            lemma_first_index(s.system, hit);
            lemma_distinct_update(
                s.system,
                |x: SystemView| x.key,
                system_at(s.system, e.key)->0,
                e,
            );
        },
    }
}

/// The position of the first of the records `rows` that has the identity
/// `child`.
pub open spec fn content_at(rows: Seq<ContentView>, child: ChildView) -> Option<int> {
    first_index(rows, |c: ContentView| c.child() == child)
}

/// Whether no two of the records have the same identity.
pub open spec fn children_distinct(rows: Seq<ContentView>) -> bool {
    forall|i: int, j: int|
        0 <= i < rows.len() && 0 <= j < rows.len() && (#[trigger] rows[i]).child() == (
        #[trigger] rows[j]).child() ==> i == j
}

/// Among content records of distinct identities each live record is found
/// under its identity.
pub proof fn lemma_live_content_found(s: StoreView, i: int)
    requires
        contents_distinct(s),
        0 <= i < live_contents(s).len(),
    ensures
        s.current(live_contents(s)[i].child()) == Some(live_contents(s)[i]),
{
    let row = live_contents(s)[i];
    lemma_content_hit_once(s, row.child());
    if i < s.posts.len() {
        let p = s.posts[i];
        assert(row == ContentView::PostContent(p));
        lemma_only_row_is_found(s.posts, |r: PostView| r.id == p.id, i);
    } else if i < s.posts.len() + s.links.len() {
        let k = i - s.posts.len();
        let l = s.links[k];
        assert(row == ContentView::LinkContent(l));
        lemma_only_row_is_found(s.links, |r: LinkView| r.id == l.id, k);
    } else {
        let k = i - s.posts.len() - s.links.len();
        let e = s.system[k];
        assert(row == ContentView::SystemContent(e));
        lemma_only_row_is_found(s.system, |r: SystemView| r.key == e.key, k);
    }
}

/// Among content records of distinct identities the live records, one kind
/// after the other, have distinct identities, and a record is among them
/// where it is found.
pub proof fn lemma_live_contents(s: StoreView, child: ChildView)
    requires
        contents_distinct(s),
    ensures
        children_distinct(live_contents(s)),
        content_at(live_contents(s), child) is Some <==> s.current(child) is Some,
        content_at(live_contents(s), child) matches Some(i) ==> s.current(child) == Some(
            live_contents(s)[i],
        ),
{
    let rows = live_contents(s);
    let hit = |c: ContentView| c.child() == child;
    assert forall|i: int, j: int|
        0 <= i < rows.len() && 0 <= j < rows.len() && (#[trigger] rows[i]).child() == (
        #[trigger] rows[j]).child() implies i == j by {
        lemma_live_content_found(s, i);
        lemma_live_content_found(s, j);
        let shared = rows[i].child();
        lemma_content_hit_once(s, shared);
        match shared {
            ChildView::Article(id) => {
                assert(i < s.posts.len() && j < s.posts.len());
                assert(s.posts[i].id == id && s.posts[j].id == id);
            },
            ChildView::Link(id) => {
                let a = i - s.posts.len();
                let b = j - s.posts.len();
                assert(0 <= a < s.links.len() && 0 <= b < s.links.len());
                assert(s.links[a].id == id && s.links[b].id == id);
            },
            ChildView::System(key) => {
                let a = i - s.posts.len() - s.links.len();
                let b = j - s.posts.len() - s.links.len();
                assert(0 <= a < s.system.len() && 0 <= b < s.system.len());
                assert(s.system[a].key == key && s.system[b].key == key);
            },
        }
    }
    lemma_first_index(rows, hit);
    if content_at(rows, child) is Some {
        lemma_live_content_found(s, content_at(rows, child)->0);
    }
    if s.current(child) is Some {
        lemma_current_child(s, child);
        match child {
            ChildView::Article(id) => {
                lemma_first_index(s.posts, |r: PostView| r.id == id);
                let at = post_at(s.posts, id)->0;
                assert(hit(rows[at]));
            },
            ChildView::Link(id) => {
                lemma_first_index(s.links, |r: LinkView| r.id == id);
                let at = link_at(s.links, id)->0;
                assert(hit(rows[s.posts.len() + at]));
            },
            ChildView::System(key) => {
                lemma_first_index(s.system, |r: SystemView| r.key == key);
                let at = system_at(s.system, key)->0;
                assert(hit(rows[s.posts.len() + s.links.len() + at]));
            },
        }
    }
}

proof fn lemma_content_deletes_replayed(
    s: StoreView,
    rows: Seq<ContentView>,
    after: StoreView,
    child: ChildView,
)
    requires
        contents_distinct(s),
    ensures
        contents_distinct(replayed(s, content_deletes(rows, after))),
        same_but_contents(s, replayed(s, content_deletes(rows, after))),
        replayed(s, content_deletes(rows, after)).current(child) == (if after.current(child)
            is None && content_at(rows, child) is Some {
            None
        } else {
            s.current(child)
        }),
    decreases rows.len(),
{
    let hit = |c: ContentView| c.child() == child;
    if rows.len() > 0 {
        let init = rows.drop_last();
        let row = rows.last();
        lemma_content_deletes_replayed(s, init, after, child);
        assert(init.push(row) =~= rows);
        lemma_first_index_push(init, hit, row);
        if after.current(row.child()) is None {
            let t = replayed(s, content_deletes(init, after));
            assert(content_deletes(rows, after).drop_last() =~= content_deletes(init, after));
            lemma_content_deleted(t, row.child(), child);
        }
    }
}

proof fn lemma_content_upserts_replayed(
    s: StoreView,
    before: StoreView,
    rows: Seq<ContentView>,
    child: ChildView,
)
    requires
        contents_distinct(s),
        children_distinct(rows),
        forall|i: int|
            0 <= i < rows.len() ==> s.current((#[trigger] rows[i]).child()) == before.current(
                rows[i].child(),
            ),
    ensures
        contents_distinct(replayed(s, content_upserts(before, rows))),
        same_but_contents(s, replayed(s, content_upserts(before, rows))),
        replayed(s, content_upserts(before, rows)).current(child) == (match content_at(
            rows,
            child,
        ) {
            Some(i) => Some(rows[i]),
            None => s.current(child),
        }),
    decreases rows.len(),
{
    let hit = |c: ContentView| c.child() == child;
    if rows.len() > 0 {
        let init = rows.drop_last();
        let row = rows.last();
        assert(init.push(row) =~= rows);
        assert forall|i: int, j: int|
            0 <= i < init.len() && 0 <= j < init.len() && (#[trigger] init[i]).child() == (
            #[trigger] init[j]).child() implies i == j by {
            assert(rows[i].child() == rows[j].child());
        }
        assert forall|i: int| 0 <= i < init.len() implies s.current((#[trigger] init[i]).child())
            == before.current(init[i].child()) by {
            assert(init[i] == rows[i]);
        }
        lemma_content_upserts_replayed(s, before, init, child);
        lemma_content_upserts_replayed(s, before, init, row.child());
        lemma_first_index_push(init, hit, row);
        let t = replayed(s, content_upserts(before, init));
        // The last record is not among those before it.
        let row_hit = |c: ContentView| c.child() == row.child();
        assert forall|j: int| 0 <= j < init.len() implies !row_hit(#[trigger] init[j]) by {
            if init[j].child() == row.child() {
                assert(rows[j].child() == rows[rows.len() - 1].child());
            }
        }
        lemma_first_index_none(init, row_hit);
        assert(rows[rows.len() - 1] == row);
        assert(t.current(row.child()) == before.current(row.child()));
        lemma_first_index(init, hit);
        match content_upsert(before, row) {
            Some(WriteView::InsertContent(c)) => {
                assert(content_upserts(before, rows).drop_last() =~= content_upserts(
                    before,
                    init,
                ));
                lemma_content_inserted(t, c, child);
            },
            Some(WriteView::UpdateContent { content, .. }) => {
                assert(content_upserts(before, rows).drop_last() =~= content_upserts(
                    before,
                    init,
                ));
                lemma_content_updated(t, content, child);
            },
            _ => {},
        }
        if content_at(init, child) is Some && child == row.child() {
            assert(row_hit(init[content_at(init, child)->0]));
        }
    }
}

/// Replaying the writes for the content records on tables that hold
/// `before` gives tables in which every content record is found as it is in
/// `after`.
pub proof fn lemma_content_writes_replayed(
    s: StoreView,
    before: StoreView,
    after: StoreView,
    child: ChildView,
)
    requires
        contents_distinct(before),
        contents_distinct(after),
        s.posts == before.posts,
        s.links == before.links,
        s.system == before.system,
    ensures
        ({
            let t = replayed(
                s,
                content_deletes(live_contents(before), after) + content_upserts(
                    before,
                    live_contents(after),
                ),
            );
            &&& t.current(child) == after.current(child)
            &&& same_but_contents(s, t)
        }),
{
    let deletes = content_deletes(live_contents(before), after);
    let upserts = content_upserts(before, live_contents(after));
    let rows = live_contents(after);
    let s1 = replayed(s, deletes);
    lemma_replayed_in_turn(s, deletes, upserts);
    lemma_content_deletes_replayed(s, live_contents(before), after, child);
    lemma_live_contents(before, child);
    lemma_live_contents(after, child);
    assert(s.current(child) == before.current(child));
    assert forall|i: int| 0 <= i < rows.len() implies s1.current((#[trigger] rows[i]).child())
        == before.current(rows[i].child()) by {
        lemma_content_deletes_replayed(s, live_contents(before), after, rows[i].child());
        lemma_live_content_found(after, i);
        assert(s.current(rows[i].child()) == before.current(rows[i].child()));
    }
    lemma_content_upserts_replayed(s1, before, rows, child);
}

proof fn lemma_node_appends_replayed(s: StoreView, rows: Seq<NodeView>, from: int)
    requires
        0 <= from <= rows.len(),
    ensures
        replayed(
            s,
            tail_writes(rows, from, |n: NodeView| WriteView::AppendNodeRevision(n)),
        ) == (StoreView { node_revisions: s.node_revisions + rows.skip(from), ..s }),
    decreases rows.len(),
{
    let wrap = |n: NodeView| WriteView::AppendNodeRevision(n);
    if rows.len() <= from {
        assert(s.node_revisions + rows.skip(from) =~= s.node_revisions);
    } else {
        let init = rows.drop_last();
        lemma_node_appends_replayed(s, init, from);
        assert(tail_writes(rows, from, wrap).drop_last() =~= tail_writes(init, from, wrap));
        assert((s.node_revisions + init.skip(from)).push(rows.last()) =~= s.node_revisions
            + rows.skip(from));
    }
}

proof fn lemma_post_appends_replayed(s: StoreView, rows: Seq<PostView>, from: int)
    requires
        0 <= from <= rows.len(),
    ensures
        replayed(
            s,
            tail_writes(
                rows,
                from,
                |p: PostView| WriteView::AppendRevision(ContentView::PostContent(p)),
            ),
        ) == (StoreView { post_revisions: s.post_revisions + rows.skip(from), ..s }),
    decreases rows.len(),
{
    let wrap = |p: PostView| WriteView::AppendRevision(ContentView::PostContent(p));
    if rows.len() <= from {
        assert(s.post_revisions + rows.skip(from) =~= s.post_revisions);
    } else {
        let init = rows.drop_last();
        lemma_post_appends_replayed(s, init, from);
        assert(tail_writes(rows, from, wrap).drop_last() =~= tail_writes(init, from, wrap));
        assert((s.post_revisions + init.skip(from)).push(rows.last()) =~= s.post_revisions
            + rows.skip(from));
    }
}

proof fn lemma_link_appends_replayed(s: StoreView, rows: Seq<LinkView>, from: int)
    requires
        0 <= from <= rows.len(),
    ensures
        replayed(
            s,
            tail_writes(
                rows,
                from,
                |l: LinkView| WriteView::AppendRevision(ContentView::LinkContent(l)),
            ),
        ) == (StoreView { link_revisions: s.link_revisions + rows.skip(from), ..s }),
    decreases rows.len(),
{
    let wrap = |l: LinkView| WriteView::AppendRevision(ContentView::LinkContent(l));
    if rows.len() <= from {
        assert(s.link_revisions + rows.skip(from) =~= s.link_revisions);
    } else {
        let init = rows.drop_last();
        lemma_link_appends_replayed(s, init, from);
        assert(tail_writes(rows, from, wrap).drop_last() =~= tail_writes(init, from, wrap));
        assert((s.link_revisions + init.skip(from)).push(rows.last()) =~= s.link_revisions
            + rows.skip(from));
    }
}

proof fn lemma_system_appends_replayed(s: StoreView, rows: Seq<SystemView>, from: int)
    requires
        0 <= from <= rows.len(),
    ensures
        replayed(
            s,
            tail_writes(
                rows,
                from,
                |e: SystemView| WriteView::AppendRevision(ContentView::SystemContent(e)),
            ),
        ) == (StoreView { system_revisions: s.system_revisions + rows.skip(from), ..s }),
    decreases rows.len(),
{
    let wrap = |e: SystemView| WriteView::AppendRevision(ContentView::SystemContent(e));
    if rows.len() <= from {
        assert(s.system_revisions + rows.skip(from) =~= s.system_revisions);
    } else {
        let init = rows.drop_last();
        lemma_system_appends_replayed(s, init, from);
        assert(tail_writes(rows, from, wrap).drop_last() =~= tail_writes(init, from, wrap));
        assert((s.system_revisions + init.skip(from)).push(rows.last()) =~= s.system_revisions
            + rows.skip(from));
    }
}

/// Replaying the writes that add revisions on tables that hold `before`
/// gives tables that hold the revisions of `after`, where `after` has kept
/// those of `before`; the live rows stay as they are.
pub proof fn lemma_appends_replayed(before: StoreView, after: StoreView)
    requires
        revisions_kept(before, after),
    ensures
        ({
            let t = replayed(before, appends(before, after));
            &&& t.node_revisions == after.node_revisions
            &&& t.post_revisions == after.post_revisions
            &&& t.link_revisions == after.link_revisions
            &&& t.system_revisions == after.system_revisions
            &&& t.nodes == before.nodes
            &&& t.posts == before.posts
            &&& t.links == before.links
            &&& t.system == before.system
        }),
{
    let a1 = tail_writes(
        after.node_revisions,
        before.node_revisions.len() as int,
        |n: NodeView| WriteView::AppendNodeRevision(n),
    );
    let a2 = tail_writes(
        after.post_revisions,
        before.post_revisions.len() as int,
        |p: PostView| WriteView::AppendRevision(ContentView::PostContent(p)),
    );
    let a3 = tail_writes(
        after.link_revisions,
        before.link_revisions.len() as int,
        |l: LinkView| WriteView::AppendRevision(ContentView::LinkContent(l)),
    );
    let a4 = tail_writes(
        after.system_revisions,
        before.system_revisions.len() as int,
        |e: SystemView| WriteView::AppendRevision(ContentView::SystemContent(e)),
    );
    let t1 = replayed(before, a1);
    let t2 = replayed(t1, a2);
    let t3 = replayed(t2, a3);
    lemma_replayed_in_turn(before, a1, a2);
    lemma_replayed_in_turn(before, a1 + a2, a3);
    lemma_replayed_in_turn(before, a1 + a2 + a3, a4);
    lemma_node_appends_replayed(before, after.node_revisions, before.node_revisions.len() as int);
    lemma_post_appends_replayed(t1, after.post_revisions, before.post_revisions.len() as int);
    lemma_link_appends_replayed(t2, after.link_revisions, before.link_revisions.len() as int);
    lemma_system_appends_replayed(
        t3,
        after.system_revisions,
        before.system_revisions.len() as int,
    );
    assert(before.node_revisions + after.node_revisions.skip(before.node_revisions.len() as int)
        =~= after.node_revisions);
    assert(before.post_revisions + after.post_revisions.skip(before.post_revisions.len() as int)
        =~= after.post_revisions);
    assert(before.link_revisions + after.link_revisions.skip(before.link_revisions.len() as int)
        =~= after.link_revisions);
    assert(before.system_revisions + after.system_revisions.skip(
        before.system_revisions.len() as int,
    ) =~= after.system_revisions);
}

/// The writes that `changes` computes do what they are for: made in turn
/// to tables that hold `before`, they give tables that hold the revisions of
/// `after` and in which every node and every content record is found as it
/// is in `after`. This holds where neither store has two live rows of the
/// same identity and `after` has kept the revisions of `before`, as it has
/// after operations on a consistent store.
pub proof fn lemma_changes_replayed(
    before: StoreView,
    after: StoreView,
    id: i32,
    child: ChildView,
)
    requires
        nodes_distinct(before.nodes),
        nodes_distinct(after.nodes),
        contents_distinct(before),
        contents_distinct(after),
        revisions_kept(before, after),
    ensures
        ({
            let t = replayed(before, changes_spec(before, after));
            &&& t.node(id) == after.node(id)
            &&& t.current(child) == after.current(child)
            &&& t.node_revisions == after.node_revisions
            &&& t.post_revisions == after.post_revisions
            &&& t.link_revisions == after.link_revisions
            &&& t.system_revisions == after.system_revisions
        }),
{
    let a = appends(before, after);
    let n = node_deletes(before.nodes, after) + node_upserts(before, after.nodes);
    let c = content_deletes(live_contents(before), after) + content_upserts(
        before,
        live_contents(after),
    );
    assert(changes_spec(before, after) =~= a + n + c);
    let t1 = replayed(before, a);
    let t2 = replayed(t1, n);
    lemma_replayed_in_turn(before, a, n);
    lemma_replayed_in_turn(before, a + n, c);
    lemma_appends_replayed(before, after);
    lemma_node_writes_replayed(t1, before, after, id);
    lemma_content_writes_replayed(t2, before, after, child);
    let t3 = replayed(t2, c);
    assert(t3.node(id) == t2.node(id));
}

/// A consistent store has no two live rows of the same identity.
pub proof fn lemma_consistent_is_distinct(s: StoreView)
    requires
        consistent(s),
    ensures
        nodes_distinct(s.nodes),
        contents_distinct(s),
{
    assert forall|i: int, j: int|
        0 <= i < s.nodes.len() && 0 <= j < s.nodes.len() && (#[trigger] s.nodes[i]).id == (
        #[trigger] s.nodes[j]).id implies i == j by {
        if i < j {
            assert(s.nodes[i].id < s.nodes[j].id);
        }
        if j < i {
            assert(s.nodes[j].id < s.nodes[i].id);
        }
    }
    let post_key = |p: PostView| p.id;
    assert forall|i: int, j: int|
        0 <= i < s.posts.len() && 0 <= j < s.posts.len() && post_key(#[trigger] s.posts[i])
            == post_key(#[trigger] s.posts[j]) implies i == j by {
        if i < j {
            assert(s.posts[i].id < s.posts[j].id);
        }
        if j < i {
            assert(s.posts[j].id < s.posts[i].id);
        }
    }
    let link_key = |l: LinkView| l.id;
    assert forall|i: int, j: int|
        0 <= i < s.links.len() && 0 <= j < s.links.len() && link_key(#[trigger] s.links[i])
            == link_key(#[trigger] s.links[j]) implies i == j by {
        if i < j {
            assert(s.links[i].id < s.links[j].id);
        }
        if j < i {
            assert(s.links[j].id < s.links[i].id);
        }
    }
    let system_key = |e: SystemView| e.key;
    assert forall|i: int, j: int|
        0 <= i < s.system.len() && 0 <= j < s.system.len() && system_key(#[trigger] s.system[i])
            == system_key(#[trigger] s.system[j]) implies i == j by {
        if i < j {
            assert(s.system[i].key != s.system[j].key);
        }
        if j < i {
            assert(s.system[j].key != s.system[i].key);
        }
    }
}

} // verus!
