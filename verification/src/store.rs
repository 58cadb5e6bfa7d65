//! The tables of the content graph, held in memory.
//!
//! A store holds the rows as a relational store would: one table of live
//! rows and one of revisions for nodes and for each kind of content. Its
//! fields are public, so a store can be filled from rows that were read
//! elsewhere, and no operation relies on what it holds being consistent.

use crate::consistency::{consistent, lemma_empty_is_consistent};
use crate::error::Error;
use crate::models::{
    Child, ChildView, Content, ContentView, Link, LinkRevision, LinkView, Node, NodeRevision,
    NodeView, Post, PostRevision, PostView, System, SystemRevision, SystemView,
};
use crate::table::{
    first_index, lemma_first_index, lemma_first_index_is, lemma_first_index_none,
    lemma_first_index_push, lemma_first_index_update,
};
use vstd::prelude::*;

verus! {

/// The tables of the content graph and the identities that are given out
/// next.
#[derive(Debug, PartialEq, Eq)]
pub struct Store {
    pub nodes: Vec<Node>,
    pub node_revisions: Vec<NodeRevision>,
    pub posts: Vec<Post>,
    pub post_revisions: Vec<PostRevision>,
    pub links: Vec<Link>,
    pub link_revisions: Vec<LinkRevision>,
    pub system: Vec<System>,
    pub system_revisions: Vec<SystemRevision>,
    /// The identity that the next node gets.
    pub next_node_id: i32,
    /// The identity that the next article gets.
    pub next_post_id: i32,
    /// The identity that the next link gets.
    pub next_link_id: i32,
}

/// The view of a [`Store`]: each table as the sequence of the views of its
/// rows.
pub struct StoreView {
    pub nodes: Seq<NodeView>,
    pub node_revisions: Seq<NodeView>,
    pub posts: Seq<PostView>,
    pub post_revisions: Seq<PostView>,
    pub links: Seq<LinkView>,
    pub link_revisions: Seq<LinkView>,
    pub system: Seq<SystemView>,
    pub system_revisions: Seq<SystemView>,
    pub next_node_id: i32,
    pub next_post_id: i32,
    pub next_link_id: i32,
}

/// The views of the rows of a table.
pub open spec fn views<T: View>(rows: Seq<T>) -> Seq<T::V> {
    Seq::new(rows.len(), |i: int| rows[i]@)
}

impl View for Store {
    type V = StoreView;

    open spec fn view(&self) -> StoreView {
        StoreView {
            nodes: views(self.nodes@),
            node_revisions: views(self.node_revisions@),
            posts: views(self.posts@),
            post_revisions: views(self.post_revisions@),
            links: views(self.links@),
            link_revisions: views(self.link_revisions@),
            system: views(self.system@),
            system_revisions: views(self.system_revisions@),
            next_node_id: self.next_node_id,
            next_post_id: self.next_post_id,
            next_link_id: self.next_link_id,
        }
    }
}

/// The position of the first row of node `id`.
pub open spec fn node_at(rows: Seq<NodeView>, id: i32) -> Option<int> {
    first_index(rows, |r: NodeView| r.id == id)
}

/// The position of the live node `id` in `rows`.
pub fn find_node(rows: &Vec<Node>, id: i32) -> (r: Option<usize>)
    ensures
        match r {
            Some(i) => i < rows.len() && node_at(views(rows@), id) == Some(i as int),
            None => node_at(views(rows@), id) is None,
        },
{
    let ghost table = views(rows@);
    let ghost hit = |r: NodeView| r.id == id;
    let mut i: usize = 0;
    while i < rows.len()
        invariant
            i <= rows.len(),
            table == views(rows@),
            hit == (|r: NodeView| r.id == id),
            forall|j: int| 0 <= j < i ==> !hit(#[trigger] table[j]),
        decreases rows.len() - i,
    {
        if rows[i].id == id {
            proof {
                lemma_first_index_is(table, hit, i as int);
            }
            return Some(i);
        }
        i += 1;
    }
    proof {
        lemma_first_index_none(table, hit);
    }
    None
}

/// The position of the revision `version` of node `id`.
pub open spec fn node_revision_at(rows: Seq<NodeView>, id: i32, version: i32) -> Option<int> {
    first_index(rows, |r: NodeView| r.id == id && r.version == version)
}

/// The position of the revision `version` of node `id` in `rows`.
pub fn find_node_revision(rows: &Vec<NodeRevision>, id: i32, version: i32) -> (r: Option<usize>)
    ensures
        match r {
            Some(i) => i < rows.len()
                && node_revision_at(views(rows@), id, version) == Some(i as int),
            None => node_revision_at(views(rows@), id, version) is None,
        },
{
    let ghost table = views(rows@);
    let ghost hit = |r: NodeView| r.id == id && r.version == version;
    let mut i: usize = 0;
    while i < rows.len()
        invariant
            i <= rows.len(),
            table == views(rows@),
            hit == (|r: NodeView| r.id == id && r.version == version),
            forall|j: int| 0 <= j < i ==> !hit(#[trigger] table[j]),
        decreases rows.len() - i,
    {
        if rows[i].id == id && rows[i].version == version {
            proof {
                lemma_first_index_is(table, hit, i as int);
            }
            return Some(i);
        }
        i += 1;
    }
    proof {
        lemma_first_index_none(table, hit);
    }
    None
}

/// The position of the first row of article `id`.
pub open spec fn post_at(rows: Seq<PostView>, id: i32) -> Option<int> {
    first_index(rows, |r: PostView| r.id == id)
}

/// The position of the live article `id` in `rows`.
pub fn find_post(rows: &Vec<Post>, id: i32) -> (r: Option<usize>)
    ensures
        match r {
            Some(i) => i < rows.len() && post_at(views(rows@), id) == Some(i as int),
            None => post_at(views(rows@), id) is None,
        },
{
    let ghost table = views(rows@);
    let ghost hit = |r: PostView| r.id == id;
    let mut i: usize = 0;
    while i < rows.len()
        invariant
            i <= rows.len(),
            table == views(rows@),
            hit == (|r: PostView| r.id == id),
            forall|j: int| 0 <= j < i ==> !hit(#[trigger] table[j]),
        decreases rows.len() - i,
    {
        if rows[i].id == id {
            proof {
                lemma_first_index_is(table, hit, i as int);
            }
            return Some(i);
        }
        i += 1;
    }
    proof {
        lemma_first_index_none(table, hit);
    }
    None
}

/// The position of the revision `version` of article `id`.
pub open spec fn post_revision_at(rows: Seq<PostView>, id: i32, version: i32) -> Option<int> {
    first_index(rows, |r: PostView| r.id == id && r.version == version)
}

/// The position of the revision `version` of article `id` in `rows`.
pub fn find_post_revision(rows: &Vec<PostRevision>, id: i32, version: i32) -> (r: Option<usize>)
    ensures
        match r {
            Some(i) => i < rows.len()
                && post_revision_at(views(rows@), id, version) == Some(i as int),
            None => post_revision_at(views(rows@), id, version) is None,
        },
{
    let ghost table = views(rows@);
    let ghost hit = |r: PostView| r.id == id && r.version == version;
    let mut i: usize = 0;
    while i < rows.len()
        invariant
            i <= rows.len(),
            table == views(rows@),
            hit == (|r: PostView| r.id == id && r.version == version),
            forall|j: int| 0 <= j < i ==> !hit(#[trigger] table[j]),
        decreases rows.len() - i,
    {
        if rows[i].id == id && rows[i].version == version {
            proof {
                lemma_first_index_is(table, hit, i as int);
            }
            return Some(i);
        }
        i += 1;
    }
    proof {
        lemma_first_index_none(table, hit);
    }
    None
}

/// The position of the first row of link `id`.
pub open spec fn link_at(rows: Seq<LinkView>, id: i32) -> Option<int> {
    first_index(rows, |r: LinkView| r.id == id)
}

/// The position of the live link `id` in `rows`.
pub fn find_link(rows: &Vec<Link>, id: i32) -> (r: Option<usize>)
    ensures
        match r {
            Some(i) => i < rows.len() && link_at(views(rows@), id) == Some(i as int),
            None => link_at(views(rows@), id) is None,
        },
{
    let ghost table = views(rows@);
    let ghost hit = |r: LinkView| r.id == id;
    let mut i: usize = 0;
    while i < rows.len()
        invariant
            i <= rows.len(),
            table == views(rows@),
            hit == (|r: LinkView| r.id == id),
            forall|j: int| 0 <= j < i ==> !hit(#[trigger] table[j]),
        decreases rows.len() - i,
    {
        if rows[i].id == id {
            proof {
                lemma_first_index_is(table, hit, i as int);
            }
            return Some(i);
        }
        i += 1;
    }
    proof {
        lemma_first_index_none(table, hit);
    }
    None
}

/// The position of the revision `version` of link `id`.
pub open spec fn link_revision_at(rows: Seq<LinkView>, id: i32, version: i32) -> Option<int> {
    first_index(rows, |r: LinkView| r.id == id && r.version == version)
}

/// The position of the revision `version` of link `id` in `rows`.
pub fn find_link_revision(rows: &Vec<LinkRevision>, id: i32, version: i32) -> (r: Option<usize>)
    ensures
        match r {
            Some(i) => i < rows.len()
                && link_revision_at(views(rows@), id, version) == Some(i as int),
            None => link_revision_at(views(rows@), id, version) is None,
        },
{
    let ghost table = views(rows@);
    let ghost hit = |r: LinkView| r.id == id && r.version == version;
    let mut i: usize = 0;
    while i < rows.len()
        invariant
            i <= rows.len(),
            table == views(rows@),
            hit == (|r: LinkView| r.id == id && r.version == version),
            forall|j: int| 0 <= j < i ==> !hit(#[trigger] table[j]),
        decreases rows.len() - i,
    {
        if rows[i].id == id && rows[i].version == version {
            proof {
                lemma_first_index_is(table, hit, i as int);
            }
            return Some(i);
        }
        i += 1;
    }
    proof {
        lemma_first_index_none(table, hit);
    }
    None
}

/// The position of the first row of system entry `key`.
pub open spec fn system_at(rows: Seq<SystemView>, key: Seq<char>) -> Option<int> {
    first_index(rows, |r: SystemView| r.key == key)
}

/// The position of the live system entry `key` in `rows`.
pub fn find_system(rows: &Vec<System>, key: &String) -> (r: Option<usize>)
    ensures
        match r {
            Some(i) => i < rows.len() && system_at(views(rows@), key@) == Some(i as int),
            None => system_at(views(rows@), key@) is None,
        },
{
    let ghost table = views(rows@);
    let ghost hit = |r: SystemView| r.key == key@;
    let mut i: usize = 0;
    while i < rows.len()
        invariant
            i <= rows.len(),
            table == views(rows@),
            hit == (|r: SystemView| r.key == key@),
            forall|j: int| 0 <= j < i ==> !hit(#[trigger] table[j]),
        decreases rows.len() - i,
    {
        if rows[i].key == *key {
            proof {
                lemma_first_index_is(table, hit, i as int);
            }
            return Some(i);
        }
        i += 1;
    }
    proof {
        lemma_first_index_none(table, hit);
    }
    None
}

/// The position of the revision `version` of system entry `key`.
pub open spec fn system_revision_at(rows: Seq<SystemView>, key: Seq<char>, version: i32) -> Option<
    int,
> {
    first_index(rows, |r: SystemView| r.key == key && r.version == version)
}

/// The position of the revision `version` of system entry `key` in `rows`.
pub fn find_system_revision(rows: &Vec<SystemRevision>, key: &String, version: i32) -> (r: Option<
    usize,
>)
    ensures
        match r {
            Some(i) => i < rows.len()
                && system_revision_at(views(rows@), key@, version) == Some(i as int),
            None => system_revision_at(views(rows@), key@, version) is None,
        },
{
    let ghost table = views(rows@);
    let ghost hit = |r: SystemView| r.key == key@ && r.version == version;
    let mut i: usize = 0;
    while i < rows.len()
        invariant
            i <= rows.len(),
            table == views(rows@),
            hit == (|r: SystemView| r.key == key@ && r.version == version),
            forall|j: int| 0 <= j < i ==> !hit(#[trigger] table[j]),
        decreases rows.len() - i,
    {
        if rows[i].key == *key && rows[i].version == version {
            proof {
                lemma_first_index_is(table, hit, i as int);
            }
            return Some(i);
        }
        i += 1;
    }
    proof {
        lemma_first_index_none(table, hit);
    }
    None
}

/// The position of the first revision of node `id` in `rows`, whatever its
/// version.
pub fn find_node_history(rows: &Vec<NodeRevision>, id: i32) -> (r: Option<usize>)
    ensures
        match r {
            Some(i) => i < rows.len() && node_at(views(rows@), id) == Some(i as int),
            None => node_at(views(rows@), id) is None,
        },
{
    let ghost table = views(rows@);
    let ghost hit = |r: NodeView| r.id == id;
    let mut i: usize = 0;
    while i < rows.len()
        invariant
            i <= rows.len(),
            table == views(rows@),
            hit == (|r: NodeView| r.id == id),
            forall|j: int| 0 <= j < i ==> !hit(#[trigger] table[j]),
        decreases rows.len() - i,
    {
        if rows[i].id == id {
            proof {
                lemma_first_index_is(table, hit, i as int);
            }
            return Some(i);
        }
        i += 1;
    }
    proof {
        lemma_first_index_none(table, hit);
    }
    None
}

/// The position of the first revision of article `id` in `rows`, whatever its
/// version.
pub fn find_post_history(rows: &Vec<PostRevision>, id: i32) -> (r: Option<usize>)
    ensures
        match r {
            Some(i) => i < rows.len() && post_at(views(rows@), id) == Some(i as int),
            None => post_at(views(rows@), id) is None,
        },
{
    let ghost table = views(rows@);
    let ghost hit = |r: PostView| r.id == id;
    let mut i: usize = 0;
    while i < rows.len()
        invariant
            i <= rows.len(),
            table == views(rows@),
            hit == (|r: PostView| r.id == id),
            forall|j: int| 0 <= j < i ==> !hit(#[trigger] table[j]),
        decreases rows.len() - i,
    {
        if rows[i].id == id {
            proof {
                lemma_first_index_is(table, hit, i as int);
            }
            return Some(i);
        }
        i += 1;
    }
    proof {
        lemma_first_index_none(table, hit);
    }
    None
}

/// The position of the first revision of link `id` in `rows`, whatever its
/// version.
pub fn find_link_history(rows: &Vec<LinkRevision>, id: i32) -> (r: Option<usize>)
    ensures
        match r {
            Some(i) => i < rows.len() && link_at(views(rows@), id) == Some(i as int),
            None => link_at(views(rows@), id) is None,
        },
{
    let ghost table = views(rows@);
    let ghost hit = |r: LinkView| r.id == id;
    let mut i: usize = 0;
    while i < rows.len()
        invariant
            i <= rows.len(),
            table == views(rows@),
            hit == (|r: LinkView| r.id == id),
            forall|j: int| 0 <= j < i ==> !hit(#[trigger] table[j]),
        decreases rows.len() - i,
    {
        if rows[i].id == id {
            proof {
                lemma_first_index_is(table, hit, i as int);
            }
            return Some(i);
        }
        i += 1;
    }
    proof {
        lemma_first_index_none(table, hit);
    }
    None
}

/// The position of the first revision of system entry `key` in `rows`,
/// whatever its version.
pub fn find_system_history(rows: &Vec<SystemRevision>, key: &String) -> (r: Option<usize>)
    ensures
        match r {
            Some(i) => i < rows.len() && system_at(views(rows@), key@) == Some(i as int),
            None => system_at(views(rows@), key@) is None,
        },
{
    let ghost table = views(rows@);
    let ghost hit = |r: SystemView| r.key == key@;
    let mut i: usize = 0;
    while i < rows.len()
        invariant
            i <= rows.len(),
            table == views(rows@),
            hit == (|r: SystemView| r.key == key@),
            forall|j: int| 0 <= j < i ==> !hit(#[trigger] table[j]),
        decreases rows.len() - i,
    {
        if rows[i].key == *key {
            proof {
                lemma_first_index_is(table, hit, i as int);
            }
            return Some(i);
        }
        i += 1;
    }
    proof {
        lemma_first_index_none(table, hit);
    }
    None
}

impl StoreView {
    /// The live node `id`.
    pub open spec fn node(self, id: i32) -> Option<NodeView> {
        match node_at(self.nodes, id) {
            Some(i) => Some(self.nodes[i]),
            None => None,
        }
    }

    /// The revision `version` of node `id`.
    pub open spec fn node_revision(self, id: i32, version: i32) -> Option<NodeView> {
        match node_revision_at(self.node_revisions, id, version) {
            Some(i) => Some(self.node_revisions[i]),
            None => None,
        }
    }

    /// The live content record that `child` refers to.
    pub open spec fn current(self, child: ChildView) -> Option<ContentView> {
        match child {
            ChildView::Article(id) => match post_at(self.posts, id) {
                Some(i) => Some(ContentView::PostContent(self.posts[i])),
                None => None,
            },
            ChildView::Link(id) => match link_at(self.links, id) {
                Some(i) => Some(ContentView::LinkContent(self.links[i])),
                None => None,
            },
            ChildView::System(key) => match system_at(self.system, key) {
                Some(i) => Some(ContentView::SystemContent(self.system[i])),
                None => None,
            },
        }
    }

    /// The revision `version` of the content record that `child` refers to.
    pub open spec fn revision(self, child: ChildView, version: i32) -> Option<ContentView> {
        match child {
            ChildView::Article(id) => match post_revision_at(self.post_revisions, id, version) {
                Some(i) => Some(ContentView::PostContent(self.post_revisions[i])),
                None => None,
            },
            ChildView::Link(id) => match link_revision_at(self.link_revisions, id, version) {
                Some(i) => Some(ContentView::LinkContent(self.link_revisions[i])),
                None => None,
            },
            ChildView::System(key) => match system_revision_at(
                self.system_revisions,
                key,
                version,
            ) {
                Some(i) => Some(ContentView::SystemContent(self.system_revisions[i])),
                None => None,
            },
        }
    }

    /// Whether a live row or a revision carries the identity `child`.
    pub open spec fn in_use(self, child: ChildView) -> bool {
        match child {
            ChildView::Article(id) => post_at(self.posts, id) is Some || post_at(
                self.post_revisions,
                id,
            ) is Some,
            ChildView::Link(id) => link_at(self.links, id) is Some || link_at(
                self.link_revisions,
                id,
            ) is Some,
            ChildView::System(key) => system_at(self.system, key) is Some || system_at(
                self.system_revisions,
                key,
            ) is Some,
        }
    }

    /// Whether a live node or a node revision carries the identity `id`.
    pub open spec fn node_in_use(self, id: i32) -> bool {
        node_at(self.nodes, id) is Some || node_at(self.node_revisions, id) is Some
    }

    /// The store with `c` in place of the live record of the same identity;
    /// the store itself where there is none.
    pub open spec fn with_current(self, c: ContentView) -> StoreView {
        match c {
            ContentView::PostContent(p) => match post_at(self.posts, p.id) {
                Some(i) => StoreView { posts: self.posts.update(i, p), ..self },
                None => self,
            },
            ContentView::LinkContent(l) => match link_at(self.links, l.id) {
                Some(i) => StoreView { links: self.links.update(i, l), ..self },
                None => self,
            },
            ContentView::SystemContent(e) => match system_at(self.system, e.key) {
                Some(i) => StoreView { system: self.system.update(i, e), ..self },
                None => self,
            },
        }
    }

    /// The store with `c` added to the live records of its kind.
    pub open spec fn with_inserted(self, c: ContentView) -> StoreView {
        match c {
            ContentView::PostContent(p) => StoreView { posts: self.posts.push(p), ..self },
            ContentView::LinkContent(l) => StoreView { links: self.links.push(l), ..self },
            ContentView::SystemContent(e) => StoreView { system: self.system.push(e), ..self },
        }
    }

    /// The store with `c` added to the revisions of its kind.
    pub open spec fn with_snapshot(self, c: ContentView) -> StoreView {
        match c {
            ContentView::PostContent(p) => StoreView {
                post_revisions: self.post_revisions.push(p),
                ..self
            },
            ContentView::LinkContent(l) => StoreView {
                link_revisions: self.link_revisions.push(l),
                ..self
            },
            ContentView::SystemContent(e) => StoreView {
                system_revisions: self.system_revisions.push(e),
                ..self
            },
        }
    }

    /// The store with `n` in place of the live node of the same identity;
    /// the store itself where there is none.
    pub open spec fn with_node(self, n: NodeView) -> StoreView {
        match node_at(self.nodes, n.id) {
            Some(i) => StoreView { nodes: self.nodes.update(i, n), ..self },
            None => self,
        }
    }

    /// The store with `n` in place of the node revision of the same identity
    /// and version; the store itself where there is none. No operation does
    /// this: it describes a revision that was changed behind the store's
    /// back.
    pub open spec fn with_node_revision(self, n: NodeView) -> StoreView {
        match node_revision_at(self.node_revisions, n.id, n.version) {
            Some(i) => StoreView { node_revisions: self.node_revisions.update(i, n), ..self },
            None => self,
        }
    }

    /// The store with `c` in place of the content revision of the same
    /// identity and version; the store itself where there is none. No
    /// operation does this: it describes a revision that was changed behind
    /// the store's back.
    pub open spec fn with_revision(self, c: ContentView) -> StoreView {
        match c {
            ContentView::PostContent(p) => match post_revision_at(
                self.post_revisions,
                p.id,
                p.version,
            ) {
                Some(i) => StoreView { post_revisions: self.post_revisions.update(i, p), ..self },
                None => self,
            },
            ContentView::LinkContent(l) => match link_revision_at(
                self.link_revisions,
                l.id,
                l.version,
            ) {
                Some(i) => StoreView { link_revisions: self.link_revisions.update(i, l), ..self },
                None => self,
            },
            ContentView::SystemContent(e) => match system_revision_at(
                self.system_revisions,
                e.key,
                e.version,
            ) {
                Some(i) => StoreView {
                    system_revisions: self.system_revisions.update(i, e),
                    ..self
                },
                None => self,
            },
        }
    }

    /// The store with `n` added to the live nodes.
    pub open spec fn with_node_inserted(self, n: NodeView) -> StoreView {
        StoreView { nodes: self.nodes.push(n), ..self }
    }

    /// The store with `n` added to the node revisions.
    pub open spec fn with_node_snapshot(self, n: NodeView) -> StoreView {
        StoreView { node_revisions: self.node_revisions.push(n), ..self }
    }
}

/// The identity that comes next after those of `ids`: one more than the
/// highest of them, 1 where none of them is positive, and the highest
/// number there is where they reach it.
pub open spec fn next_after(ids: Seq<i32>) -> i32
    decreases ids.len(),
{
    if ids.len() == 0 {
        1
    } else if ids.last() == i32::MAX {
        i32::MAX
    } else if ids.last() >= next_after(ids.drop_last()) {
        (ids.last() + 1) as i32
    } else {
        next_after(ids.drop_last())
    }
}

/// The identity that comes next is positive.
pub proof fn lemma_next_after_positive(ids: Seq<i32>)
    ensures
        next_after(ids) >= 1,
    decreases ids.len(),
{
    if ids.len() > 0 {
        lemma_next_after_positive(ids.drop_last());
    }
}

/// The identity that comes next is above every identity that is given,
/// unless the identities are used up.
pub proof fn lemma_next_after(ids: Seq<i32>, i: int)
    requires
        0 <= i < ids.len(),
    ensures
        ids[i] < next_after(ids) || next_after(ids) == i32::MAX,
    decreases ids.len(),
{
    let init = ids.drop_last();
    lemma_next_after_positive(init);
    if i < init.len() {
        lemma_next_after(init, i);
        assert(init[i] == ids[i]);
    }
}

fn later(next: i32, id: i32) -> (r: i32)
    ensures
        r == (if id == i32::MAX {
            i32::MAX
        } else if id >= next {
            (id + 1) as i32
        } else {
            next
        }),
{
    if id == i32::MAX {
        i32::MAX
    } else if id >= next {
        id + 1
    } else {
        next
    }
}

/// The identities of nodes and of their revisions, those of the live rows
/// first.
pub open spec fn node_ids(nodes: Seq<NodeView>, revisions: Seq<NodeView>) -> Seq<i32> {
    Seq::new(nodes.len(), |i: int| nodes[i].id) + Seq::new(
        revisions.len(),
        |i: int| revisions[i].id,
    )
}

/// The identities of articles and of their revisions, those of the live
/// rows first.
pub open spec fn post_ids(posts: Seq<PostView>, revisions: Seq<PostView>) -> Seq<i32> {
    Seq::new(posts.len(), |i: int| posts[i].id) + Seq::new(
        revisions.len(),
        |i: int| revisions[i].id,
    )
}

/// The identities of links and of their revisions, those of the live rows
/// first.
pub open spec fn link_ids(links: Seq<LinkView>, revisions: Seq<LinkView>) -> Seq<i32> {
    Seq::new(links.len(), |i: int| links[i].id) + Seq::new(
        revisions.len(),
        |i: int| revisions[i].id,
    )
}

fn next_node_id(nodes: &Vec<Node>, revisions: &Vec<NodeRevision>) -> (r: i32)
    ensures
        r == next_after(node_ids(views(nodes@), views(revisions@))),
{
    let ghost ids = node_ids(views(nodes@), views(revisions@));
    let mut next: i32 = 1;
    let mut i: usize = 0;
    assert(ids.take(0) =~= Seq::<i32>::empty());
    while i < nodes.len()
        invariant
            i <= nodes.len(),
            ids == node_ids(views(nodes@), views(revisions@)),
            next == next_after(ids.take(i as int)),
        decreases nodes.len() - i,
    {
        assert(ids.take(i + 1).drop_last() =~= ids.take(i as int));
        next = later(next, nodes[i].id);
        i += 1;
    }
    let mut j: usize = 0;
    while j < revisions.len()
        invariant
            j <= revisions.len(),
            ids == node_ids(views(nodes@), views(revisions@)),
            next == next_after(ids.take(nodes.len() + j)),
        decreases revisions.len() - j,
    {
        assert(ids.take(nodes.len() + j + 1).drop_last() =~= ids.take(nodes.len() + j));
        next = later(next, revisions[j].id);
        j += 1;
    }
    assert(ids.take(nodes.len() + revisions.len()) =~= ids);
    next
}

fn next_post_id(posts: &Vec<Post>, revisions: &Vec<PostRevision>) -> (r: i32)
    ensures
        r == next_after(post_ids(views(posts@), views(revisions@))),
{
    let ghost ids = post_ids(views(posts@), views(revisions@));
    let mut next: i32 = 1;
    let mut i: usize = 0;
    assert(ids.take(0) =~= Seq::<i32>::empty());
    while i < posts.len()
        invariant
            i <= posts.len(),
            ids == post_ids(views(posts@), views(revisions@)),
            next == next_after(ids.take(i as int)),
        decreases posts.len() - i,
    {
        assert(ids.take(i + 1).drop_last() =~= ids.take(i as int));
        next = later(next, posts[i].id);
        i += 1;
    }
    let mut j: usize = 0;
    while j < revisions.len()
        invariant
            j <= revisions.len(),
            ids == post_ids(views(posts@), views(revisions@)),
            next == next_after(ids.take(posts.len() + j)),
        decreases revisions.len() - j,
    {
        assert(ids.take(posts.len() + j + 1).drop_last() =~= ids.take(posts.len() + j));
        next = later(next, revisions[j].id);
        j += 1;
    }
    assert(ids.take(posts.len() + revisions.len()) =~= ids);
    next
}

fn next_link_id(links: &Vec<Link>, revisions: &Vec<LinkRevision>) -> (r: i32)
    ensures
        r == next_after(link_ids(views(links@), views(revisions@))),
{
    let ghost ids = link_ids(views(links@), views(revisions@));
    let mut next: i32 = 1;
    let mut i: usize = 0;
    assert(ids.take(0) =~= Seq::<i32>::empty());
    while i < links.len()
        invariant
            i <= links.len(),
            ids == link_ids(views(links@), views(revisions@)),
            next == next_after(ids.take(i as int)),
        decreases links.len() - i,
    {
        assert(ids.take(i + 1).drop_last() =~= ids.take(i as int));
        next = later(next, links[i].id);
        i += 1;
    }
    let mut j: usize = 0;
    while j < revisions.len()
        invariant
            j <= revisions.len(),
            ids == link_ids(views(links@), views(revisions@)),
            next == next_after(ids.take(links.len() + j)),
        decreases revisions.len() - j,
    {
        assert(ids.take(links.len() + j + 1).drop_last() =~= ids.take(links.len() + j));
        next = later(next, revisions[j].id);
        j += 1;
    }
    assert(ids.take(links.len() + revisions.len()) =~= ids);
    next
}

fn clone_rows<T: Clone>(rows: &Vec<T>) -> (r: Vec<T>)
    ensures
        r.len() == rows.len(),
        forall|i: int| 0 <= i < rows.len() ==> cloned::<T>(#[trigger] rows[i], r[i]),
{
    rows.clone()
}

impl Clone for Store {
    fn clone(&self) -> (r: Self)
        ensures
            r@ == self@,
    {
        let r = Store {
            nodes: clone_rows(&self.nodes),
            node_revisions: clone_rows(&self.node_revisions),
            posts: clone_rows(&self.posts),
            post_revisions: clone_rows(&self.post_revisions),
            links: clone_rows(&self.links),
            link_revisions: clone_rows(&self.link_revisions),
            system: clone_rows(&self.system),
            system_revisions: clone_rows(&self.system_revisions),
            next_node_id: self.next_node_id,
            next_post_id: self.next_post_id,
            next_link_id: self.next_link_id,
        };
        assert(r@.nodes =~= self@.nodes);
        assert(r@.node_revisions =~= self@.node_revisions);
        assert(r@.posts =~= self@.posts);
        assert(r@.post_revisions =~= self@.post_revisions);
        assert(r@.links =~= self@.links);
        assert(r@.link_revisions =~= self@.link_revisions);
        assert(r@.system =~= self@.system);
        assert(r@.system_revisions =~= self@.system_revisions);
        r
    }
}

impl Store {
    /// A store of tables that were read elsewhere. The identities that are
    /// given out next are those that come next after the identities which
    /// the live rows and the revisions carry.
    pub fn from_tables(
        nodes: Vec<Node>,
        node_revisions: Vec<NodeRevision>,
        posts: Vec<Post>,
        post_revisions: Vec<PostRevision>,
        links: Vec<Link>,
        link_revisions: Vec<LinkRevision>,
        system: Vec<System>,
        system_revisions: Vec<SystemRevision>,
    ) -> (s: Store)
        ensures
            s@.nodes == views(nodes@),
            s@.node_revisions == views(node_revisions@),
            s@.posts == views(posts@),
            s@.post_revisions == views(post_revisions@),
            s@.links == views(links@),
            s@.link_revisions == views(link_revisions@),
            s@.system == views(system@),
            s@.system_revisions == views(system_revisions@),
            s@.next_node_id == next_after(node_ids(s@.nodes, s@.node_revisions)),
            s@.next_post_id == next_after(post_ids(s@.posts, s@.post_revisions)),
            s@.next_link_id == next_after(link_ids(s@.links, s@.link_revisions)),
    {
        let next_node_id = next_node_id(&nodes, &node_revisions);
        let next_post_id = next_post_id(&posts, &post_revisions);
        let next_link_id = next_link_id(&links, &link_revisions);
        Store {
            nodes,
            node_revisions,
            posts,
            post_revisions,
            links,
            link_revisions,
            system,
            system_revisions,
            next_node_id,
            next_post_id,
            next_link_id,
        }
    }

    /// A store without rows, in which identities start at one.
    pub fn new() -> (s: Store)
        ensures
            s@.nodes.len() == 0,
            s@.node_revisions.len() == 0,
            s@.posts.len() == 0,
            s@.post_revisions.len() == 0,
            s@.links.len() == 0,
            s@.link_revisions.len() == 0,
            s@.system.len() == 0,
            s@.system_revisions.len() == 0,
            s@.next_node_id == 1,
            s@.next_post_id == 1,
            s@.next_link_id == 1,
            consistent(s@),
    {
        let s = Store {
            nodes: Vec::new(),
            node_revisions: Vec::new(),
            posts: Vec::new(),
            post_revisions: Vec::new(),
            links: Vec::new(),
            link_revisions: Vec::new(),
            system: Vec::new(),
            system_revisions: Vec::new(),
            next_node_id: 1,
            next_post_id: 1,
            next_link_id: 1,
        };
        proof {
            lemma_empty_is_consistent(s@);
        }
        s
    }
}

/// Reads the live node `id`.
pub fn get_node(store: &Store, id: i32) -> (r: Result<Node, Error>)
    ensures
        match r {
            Ok(n) => store@.node(id) == Some(n@),
            Err(e) => e == Error::NotFound && store@.node(id) is None,
        },
{
    match find_node(&store.nodes, id) {
        Some(i) => Ok(store.nodes[i].clone()),
        None => Err(Error::NotFound),
    }
}

/// Reads the revision `version` of node `id`.
pub fn get_node_revision(store: &Store, id: i32, version: i32) -> (r: Result<NodeRevision, Error>)
    ensures
        match r {
            Ok(n) => store@.node_revision(id, version) == Some(n@),
            Err(e) => e == Error::NotFound && store@.node_revision(id, version) is None,
        },
{
    match find_node_revision(&store.node_revisions, id, version) {
        Some(i) => Ok(store.node_revisions[i].clone()),
        None => Err(Error::NotFound),
    }
}

/// The revisions of node `id`, in the order of the table.
pub open spec fn revisions_of(rows: Seq<NodeView>, id: i32) -> Seq<NodeView>
    decreases rows.len(),
{
    if rows.len() == 0 {
        Seq::empty()
    } else if rows.last().id == id {
        revisions_of(rows.drop_last(), id).push(rows.last())
    } else {
        revisions_of(rows.drop_last(), id)
    }
}

/// Reads the revisions of node `id`, in the order of the table.
pub fn get_node_revisions(store: &Store, id: i32) -> (r: Vec<NodeRevision>)
    ensures
        views(r@) == revisions_of(store@.node_revisions, id),
{
    let ghost rows = store@.node_revisions;
    let mut out: Vec<NodeRevision> = Vec::new();
    let mut i: usize = 0;
    proof {
        assert(views(out@) =~= revisions_of(rows.take(0), id));
    }
    while i < store.node_revisions.len()
        invariant
            i <= store.node_revisions.len(),
            rows == store@.node_revisions,
            views(out@) == revisions_of(rows.take(i as int), id),
        decreases store.node_revisions.len() - i,
    {
        proof {
            assert(rows.take(i + 1).drop_last() =~= rows.take(i as int));
        }
        if store.node_revisions[i].id == id {
            let ghost before = views(out@);
            let row = store.node_revisions[i].clone();
            out.push(row);
            assert(views(out@) =~= before.push(rows[i as int]));
        }
        i += 1;
    }
    proof {
        assert(rows.take(i as int) =~= rows);
    }
    out
}

/// A record that is found under a reference is the one that the reference
/// names.
pub proof fn lemma_current_child(s: StoreView, child: ChildView)
    ensures
        s.current(child) matches Some(c) ==> c.child() == child,
{
    match child {
        ChildView::Article(id) => {
            lemma_first_index(s.posts, |r: PostView| r.id == id);
        },
        ChildView::Link(id) => {
            lemma_first_index(s.links, |r: LinkView| r.id == id);
        },
        ChildView::System(key) => {
            lemma_first_index(s.system, |r: SystemView| r.key == key);
        },
    }
}

/// A node that is found under an identity carries it.
pub proof fn lemma_node_id(s: StoreView, id: i32)
    ensures
        s.node(id) matches Some(n) ==> n.id == id,
{
    lemma_first_index(s.nodes, |r: NodeView| r.id == id);
}

/// Reads the live content record that `child` refers to.
pub fn get_current(store: &Store, child: &Child) -> (r: Result<Content, Error>)
    ensures
        match r {
            Ok(c) => store@.current(child@) == Some(c@),
            Err(e) => e == Error::NotFound && store@.current(child@) is None,
        },
{
    match child {
        Child::Article(id) => match find_post(&store.posts, *id) {
            Some(i) => Ok(Content::PostContent(store.posts[i].clone())),
            None => Err(Error::NotFound),
        },
        Child::Link(id) => match find_link(&store.links, *id) {
            Some(i) => Ok(Content::LinkContent(store.links[i].clone())),
            None => Err(Error::NotFound),
        },
        Child::System(key) => match find_system(&store.system, key) {
            Some(i) => Ok(Content::SystemContent(store.system[i].clone())),
            None => Err(Error::NotFound),
        },
    }
}

/// Reads the revision `version` of the content record that `child` refers
/// to.
pub fn get_snapshot(store: &Store, child: &Child, version: i32) -> (r: Result<Content, Error>)
    ensures
        match r {
            Ok(c) => store@.revision(child@, version) == Some(c@),
            Err(e) => e == Error::NotFound && store@.revision(child@, version) is None,
        },
{
    match child {
        Child::Article(id) => match find_post_revision(&store.post_revisions, *id, version) {
            Some(i) => Ok(Content::PostContent(store.post_revisions[i].to_post())),
            None => Err(Error::NotFound),
        },
        Child::Link(id) => match find_link_revision(&store.link_revisions, *id, version) {
            Some(i) => Ok(Content::LinkContent(store.link_revisions[i].to_link())),
            None => Err(Error::NotFound),
        },
        Child::System(key) => match find_system_revision(&store.system_revisions, key, version) {
            Some(i) => Ok(Content::SystemContent(store.system_revisions[i].to_system())),
            None => Err(Error::NotFound),
        },
    }
}

/// Adds a node to the live nodes: the append of a new row. Fails with
/// `Error::Conflict`, and changes nothing, where a live node has its identity.
pub fn insert_node(store: &mut Store, node: Node) -> (r: Result<(), Error>)
    ensures
        match r {
            Ok(_) => old(store)@.node(node@.id) is None
                && final(store)@ == old(store)@.with_node_inserted(node@),
            Err(e) => e == Error::Conflict && old(store)@.node(node@.id) is Some && final(store)@
                == old(store)@,
        },
{
    match find_node(&store.nodes, node.id) {
        Some(_) => Err(Error::Conflict),
        None => {
            store.nodes.push(node);
            assert(store@.nodes =~= old(store)@.nodes.push(node@));
            Ok(())
        },
    }
}

/// Puts `node` in place of the live node of the same identity if that one
/// is at `expected_version`: the conditional write. Fails with
/// `Error::NotFound` where there is no such node and with `Error::Conflict`
/// where it is at another version, and then changes nothing.
pub fn put_node_if_version(store: &mut Store, node: Node, expected_version: i32) -> (r: Result<
    (),
    Error,
>)
    ensures
        match old(store)@.node(node@.id) {
            None => r == Err::<(), Error>(Error::NotFound) && final(store)@ == old(store)@,
            Some(live) => if live.version == expected_version {
                r is Ok && final(store)@ == old(store)@.with_node(node@)
            } else {
                r == Err::<(), Error>(Error::Conflict) && final(store)@ == old(store)@
            },
        },
{
    match find_node(&store.nodes, node.id) {
        None => Err(Error::NotFound),
        Some(i) => {
            if store.nodes[i].version != expected_version {
                return Err(Error::Conflict);
            }
            store.nodes.set(i, node);
            assert(store@.nodes =~= old(store)@.nodes.update(i as int, node@));
            Ok(())
        },
    }
}

/// Adds a snapshot of a node to the node revisions: the append-only write.
/// Fails with `Error::Conflict`, and changes nothing, where a revision with
/// its identity and version is there already.
pub fn snapshot_node(store: &mut Store, node: &Node) -> (r: Result<(), Error>)
    ensures
        match r {
            Ok(_) => old(store)@.node_revision(node@.id, node@.version) is None && final(store)@
                == old(store)@.with_node_snapshot(node@),
            Err(e) => e == Error::Conflict && old(store)@.node_revision(
                node@.id,
                node@.version,
            ) is Some && final(store)@ == old(store)@,
        },
{
    match find_node_revision(&store.node_revisions, node.id, node.version) {
        Some(_) => Err(Error::Conflict),
        None => {
            let rev = NodeRevision::of(node);
            store.node_revisions.push(rev);
            assert(store@.node_revisions =~= old(store)@.node_revisions.push(node@));
            Ok(())
        },
    }
}

/// Adds a content record to the live records of its kind. Fails with
/// `Error::Conflict`, and changes nothing, where a live record has its
/// identity.
pub fn insert_current(store: &mut Store, content: Content) -> (r: Result<(), Error>)
    ensures
        match r {
            Ok(_) => old(store)@.current(content@.child()) is None
                && final(store)@ == old(store)@.with_inserted(content@),
            Err(e) => e == Error::Conflict && old(store)@.current(content@.child()) is Some
                && final(store)@ == old(store)@,
        },
{
    match content {
        Content::PostContent(p) => match find_post(&store.posts, p.id) {
            Some(_) => Err(Error::Conflict),
            None => {
                store.posts.push(p);
                assert(store@.posts =~= old(store)@.posts.push(p@));
                Ok(())
            },
        },
        Content::LinkContent(l) => match find_link(&store.links, l.id) {
            Some(_) => Err(Error::Conflict),
            None => {
                store.links.push(l);
                assert(store@.links =~= old(store)@.links.push(l@));
                Ok(())
            },
        },
        Content::SystemContent(e) => match find_system(&store.system, &e.key) {
            Some(_) => Err(Error::Conflict),
            None => {
                store.system.push(e);
                assert(store@.system =~= old(store)@.system.push(e@));
                Ok(())
            },
        },
    }
}

/// Puts a content record in place of the live record of the same identity,
/// if there is one.
pub(crate) fn replace_current(store: &mut Store, content: Content)
    ensures
        final(store)@ == old(store)@.with_current(content@),
{
    match content {
        Content::PostContent(p) => match find_post(&store.posts, p.id) {
            None => {},
            Some(i) => {
                store.posts.set(i, p);
                assert(store@.posts =~= old(store)@.posts.update(i as int, p@));
            },
        },
        Content::LinkContent(l) => match find_link(&store.links, l.id) {
            None => {},
            Some(i) => {
                store.links.set(i, l);
                assert(store@.links =~= old(store)@.links.update(i as int, l@));
            },
        },
        Content::SystemContent(e) => match find_system(&store.system, &e.key) {
            None => {},
            Some(i) => {
                store.system.set(i, e);
                assert(store@.system =~= old(store)@.system.update(i as int, e@));
            },
        },
    }
}

/// Whether a live record has the identity `child`.
pub fn has_current(store: &Store, child: &Child) -> (r: bool)
    ensures
        r == store@.current(child@) is Some,
{
    match child {
        Child::Article(id) => find_post(&store.posts, *id).is_some(),
        Child::Link(id) => find_link(&store.links, *id).is_some(),
        Child::System(key) => find_system(&store.system, key).is_some(),
    }
}

/// Puts a content record in place of the live record of the same identity.
/// Fails with `Error::NotFound`, and changes nothing, where there is none.
pub fn put_current(store: &mut Store, content: Content) -> (r: Result<(), Error>)
    ensures
        match r {
            Ok(_) => old(store)@.current(content@.child()) is Some
                && final(store)@ == old(store)@.with_current(content@),
            Err(e) => e == Error::NotFound && old(store)@.current(content@.child()) is None
                && final(store)@ == old(store)@,
        },
{
    let child = content.child();
    if !has_current(store, &child) {
        return Err(Error::NotFound);
    }
    replace_current(store, content);
    Ok(())
}

/// Adds a snapshot of a content record to the revisions of its kind.
pub(crate) fn push_snapshot(store: &mut Store, content: &Content)
    ensures
        final(store)@ == old(store)@.with_snapshot(content@),
{
    match content {
        Content::PostContent(p) => {
            store.post_revisions.push(PostRevision::of(p));
            assert(store@.post_revisions =~= old(store)@.post_revisions.push(p@));
        },
        Content::LinkContent(l) => {
            store.link_revisions.push(LinkRevision::of(l));
            assert(store@.link_revisions =~= old(store)@.link_revisions.push(l@));
        },
        Content::SystemContent(e) => {
            store.system_revisions.push(SystemRevision::of(e));
            assert(store@.system_revisions =~= old(store)@.system_revisions.push(e@));
        },
    }
}

/// Whether the revisions of the kind of `child` hold one of it at `version`.
pub fn has_snapshot(store: &Store, child: &Child, version: i32) -> (r: bool)
    ensures
        r == store@.revision(child@, version) is Some,
{
    match child {
        Child::Article(id) => find_post_revision(&store.post_revisions, *id, version).is_some(),
        Child::Link(id) => find_link_revision(&store.link_revisions, *id, version).is_some(),
        Child::System(key) => find_system_revision(
            &store.system_revisions,
            key,
            version,
        ).is_some(),
    }
}

/// Adds a snapshot of a content record to the revisions of its kind, under
/// its identity and the version it carries: the append-only write. Fails
/// with `Error::Conflict`, and changes nothing, where such a revision is
/// there already.
pub fn snapshot(store: &mut Store, content: &Content) -> (r: Result<(), Error>)
    ensures
        match r {
            Ok(_) => old(store)@.revision(content@.child(), content@.version()) is None
                && final(store)@ == old(store)@.with_snapshot(content@),
            Err(e) => e == Error::Conflict && old(store)@.revision(
                content@.child(),
                content@.version(),
            ) is Some && final(store)@ == old(store)@,
        },
{
    let child = content.child();
    if has_snapshot(store, &child, content.version()) {
        return Err(Error::Conflict);
    }
    push_snapshot(store, content);
    Ok(())
}

/// After a node snapshot is added, a node revision that was found is found
/// as before, and the snapshot is found where none was under its identity
/// and version.
pub proof fn lemma_node_snapshot_lookup(s: StoreView, n: NodeView, id: i32, version: i32)
    ensures
        s.with_node_snapshot(n).node_revision(id, version) == (match s.node_revision(id, version) {
            Some(r) => Some(r),
            None => if n.id == id && n.version == version {
                Some(n)
            } else {
                None
            },
        }),
{
    let hit = |r: NodeView| r.id == id && r.version == version;
    lemma_first_index(s.node_revisions, hit);
    lemma_first_index_push(s.node_revisions, hit, n);
}

/// After a content snapshot is added, a content revision that was found is
/// found as before, and the snapshot is found where none was under its
/// identity and version.
pub proof fn lemma_snapshot_lookup(s: StoreView, c: ContentView, child: ChildView, version: i32)
    ensures
        s.with_snapshot(c).revision(child, version) == (match s.revision(child, version) {
            Some(r) => Some(r),
            None => if c.child() == child && c.version() == version {
                Some(c)
            } else {
                None
            },
        }),
{
    match child {
        ChildView::Article(id) => {
            let hit = |r: PostView| r.id == id && r.version == version;
            lemma_first_index(s.post_revisions, hit);
            if let ContentView::PostContent(p) = c {
                lemma_first_index_push(s.post_revisions, hit, p);
            }
        },
        ChildView::Link(id) => {
            let hit = |r: LinkView| r.id == id && r.version == version;
            lemma_first_index(s.link_revisions, hit);
            if let ContentView::LinkContent(l) = c {
                lemma_first_index_push(s.link_revisions, hit, l);
            }
        },
        ChildView::System(key) => {
            let hit = |r: SystemView| r.key == key && r.version == version;
            lemma_first_index(s.system_revisions, hit);
            if let ContentView::SystemContent(e) = c {
                lemma_first_index_push(s.system_revisions, hit, e);
            }
        },
    }
}

/// After a live node is replaced, it is found under its identity, and every
/// other node as before.
pub proof fn lemma_with_node_lookup(s: StoreView, n: NodeView, id: i32)
    requires
        s.node(n.id) is Some,
    ensures
        s.with_node(n).node(id) == (if id == n.id {
            Some(n)
        } else {
            s.node(id)
        }),
{
    let at = node_at(s.nodes, n.id)->0;
    lemma_first_index(s.nodes, |r: NodeView| r.id == n.id);
    let hit = |r: NodeView| r.id == id;
    lemma_first_index(s.nodes, hit);
    lemma_first_index_update(s.nodes, hit, at, n);
}

/// After a live content record is replaced, it is found under its identity,
/// and every other record as before.
pub proof fn lemma_with_current_lookup(s: StoreView, c: ContentView, child: ChildView)
    requires
        s.current(c.child()) is Some,
    ensures
        s.with_current(c).current(child) == (if child == c.child() {
            Some(c)
        } else {
            s.current(child)
        }),
{
    match c {
        ContentView::PostContent(p) => {
            let at = post_at(s.posts, p.id)->0;
            lemma_first_index(s.posts, |r: PostView| r.id == p.id);
            if let ChildView::Article(id) = child {
                let hit = |r: PostView| r.id == id;
                lemma_first_index(s.posts, hit);
                lemma_first_index_update(s.posts, hit, at, p);
            }
        },
        ContentView::LinkContent(l) => {
            let at = link_at(s.links, l.id)->0;
            lemma_first_index(s.links, |r: LinkView| r.id == l.id);
            if let ChildView::Link(id) = child {
                let hit = |r: LinkView| r.id == id;
                lemma_first_index(s.links, hit);
                lemma_first_index_update(s.links, hit, at, l);
            }
        },
        ContentView::SystemContent(e) => {
            let at = system_at(s.system, e.key)->0;
            lemma_first_index(s.system, |r: SystemView| r.key == e.key);
            if let ChildView::System(key) = child {
                let hit = |r: SystemView| r.key == key;
                lemma_first_index(s.system, hit);
                lemma_first_index_update(s.system, hit, at, e);
            }
        },
    }
}

/// After a content record is added to the live records, a record that was
/// found is found as before, and the new one is found where none was under
/// its identity.
pub proof fn lemma_inserted_lookup(s: StoreView, c: ContentView, child: ChildView)
    ensures
        s.with_inserted(c).current(child) == (match s.current(child) {
            Some(r) => Some(r),
            None => if c.child() == child {
                Some(c)
            } else {
                None
            },
        }),
{
    match child {
        ChildView::Article(id) => {
            let hit = |r: PostView| r.id == id;
            lemma_first_index(s.posts, hit);
            if let ContentView::PostContent(p) = c {
                lemma_first_index_push(s.posts, hit, p);
            }
        },
        ChildView::Link(id) => {
            let hit = |r: LinkView| r.id == id;
            lemma_first_index(s.links, hit);
            if let ContentView::LinkContent(l) = c {
                lemma_first_index_push(s.links, hit, l);
            }
        },
        ChildView::System(key) => {
            let hit = |r: SystemView| r.key == key;
            lemma_first_index(s.system, hit);
            if let ContentView::SystemContent(e) = c {
                lemma_first_index_push(s.system, hit, e);
            }
        },
    }
}

/// After a node revision is replaced, it is found under its identity and
/// version, and every other node revision as before.
pub proof fn lemma_with_node_revision_lookup(s: StoreView, n: NodeView, id: i32, version: i32)
    requires
        s.node_revision(n.id, n.version) is Some,
    ensures
        s.with_node_revision(n).node_revision(id, version) == (if id == n.id && version
            == n.version {
            Some(n)
        } else {
            s.node_revision(id, version)
        }),
{
    let at = node_revision_at(s.node_revisions, n.id, n.version)->0;
    lemma_first_index(s.node_revisions, |r: NodeView| r.id == n.id && r.version == n.version);
    let hit = |r: NodeView| r.id == id && r.version == version;
    lemma_first_index(s.node_revisions, hit);
    lemma_first_index_update(s.node_revisions, hit, at, n);
}

/// After a content revision is replaced, it is found under its identity and
/// version, and every other content revision as before.
pub proof fn lemma_with_revision_lookup(
    s: StoreView,
    c: ContentView,
    child: ChildView,
    version: i32,
)
    requires
        s.revision(c.child(), c.version()) is Some,
    ensures
        s.with_revision(c).revision(child, version) == (if child == c.child() && version
            == c.version() {
            Some(c)
        } else {
            s.revision(child, version)
        }),
{
    match c {
        ContentView::PostContent(p) => {
            let at = post_revision_at(s.post_revisions, p.id, p.version)->0;
            lemma_first_index(
                s.post_revisions,
                |r: PostView| r.id == p.id && r.version == p.version,
            );
            if let ChildView::Article(id) = child {
                let hit = |r: PostView| r.id == id && r.version == version;
                lemma_first_index(s.post_revisions, hit);
                lemma_first_index_update(s.post_revisions, hit, at, p);
            }
        },
        ContentView::LinkContent(l) => {
            let at = link_revision_at(s.link_revisions, l.id, l.version)->0;
            lemma_first_index(
                s.link_revisions,
                |r: LinkView| r.id == l.id && r.version == l.version,
            );
            if let ChildView::Link(id) = child {
                let hit = |r: LinkView| r.id == id && r.version == version;
                lemma_first_index(s.link_revisions, hit);
                lemma_first_index_update(s.link_revisions, hit, at, l);
            }
        },
        ContentView::SystemContent(e) => {
            let at = system_revision_at(s.system_revisions, e.key, e.version)->0;
            lemma_first_index(
                s.system_revisions,
                |r: SystemView| r.key == e.key && r.version == e.version,
            );
            if let ChildView::System(key) = child {
                let hit = |r: SystemView| r.key == key && r.version == version;
                lemma_first_index(s.system_revisions, hit);
                lemma_first_index_update(s.system_revisions, hit, at, e);
            }
        },
    }
}

} // verus!
