//! The node store: creating nodes and attaching their first content.

use crate::chain::verify_spec;
use crate::consistency::{
    consistent, lemma_attach_content_keeps_consistent, lemma_create_node_keeps_consistent,
    lemma_insert_content_keeps_consistent,
};
use crate::error::Error;
use crate::hash::{seed, seed_digest};
use crate::laws::lemma_attach_starts_chain;
use crate::models::{
    ChildView, Content, ContentView, Link, LinkView, NewNode, Node, NodeView, Post, PostView,
    System, SystemView,
};
use crate::seal::{child_hash, child_hash_of, seal, sealed};
use crate::store::{
    find_link, find_link_history, find_node, find_node_history, find_post, find_post_history,
    find_system, find_system_history, lemma_node_id, Store, StoreView,
};
use vstd::prelude::*;
use vstd::string::StringExecFns;

verus! {

/// The view of a result that holds a node.
pub open spec fn node_result(r: Result<Node, Error>) -> Result<NodeView, Error> {
    match r {
        Ok(n) => Ok(n@),
        Err(e) => Err(e),
    }
}

/// A node as it is created: at version 0, under construction, without
/// content, hashes or edges.
pub open spec fn fresh_node(id: i32, now: i64) -> NodeView {
    NodeView {
        id,
        version: 0,
        child_hash: Seq::empty(),
        self_hash: Seq::empty(),
        hash_chain: Seq::empty(),
        labels: Seq::empty(),
        workflow: "constructing"@,
        permissions: "pre"@,
        paths_to: Seq::empty(),
        paths_from: Seq::empty(),
        node_next: None,
        node_last: None,
        time: now,
        updated: now,
        child: None,
    }
}

/// What `create_node` does to a store and what it returns.
pub open spec fn create_node_spec(s: StoreView, now: i64) -> (StoreView, Result<NodeView, Error>) {
    let id = s.next_node_id;
    if id == i32::MAX || s.node_in_use(id) {
        (s, Err(Error::Storage))
    } else {
        let n = fresh_node(id, now);
        (StoreView { next_node_id: (id + 1) as i32, ..s.with_node_inserted(n) }, Ok(n))
    }
}

/// Creates a node: allocates the next identity and adds the node at version
/// 0 with workflow `constructing`, permissions `pre`, no edges and no
/// content. Fails with `Error::Storage`, and changes nothing, where the
/// identities are used up or the next one is carried by a row already.
pub fn create_node(store: &mut Store, now: i64) -> (r: Result<Node, Error>)
    ensures
        (final(store)@, node_result(r)) == create_node_spec(old(store)@, now),
        consistent(old(store)@) ==> consistent(final(store)@),
{
    proof {
        if consistent(store@) {
            lemma_create_node_keeps_consistent(store@, now);
        }
    }
    let id = store.next_node_id;
    if id == i32::MAX {
        return Err(Error::Storage);
    }
    if find_node(&store.nodes, id).is_some() || find_node_history(
        &store.node_revisions,
        id,
    ).is_some() {
        return Err(Error::Storage);
    }
    let tags = NewNode::new();
    let node = Node {
        id,
        version: 0,
        child_hash: String::new(),
        self_hash: String::new(),
        hash_chain: String::new(),
        labels: String::new(),
        workflow: String::from_str(tags.workflow),
        permissions: String::from_str(tags.permissions),
        paths_to: Vec::new(),
        paths_from: Vec::new(),
        node_next: None,
        node_last: None,
        time: now,
        updated: now,
        child: None,
    };
    let out = node.clone();
    assert(node@ == fresh_node(id, now));
    store.nodes.push(node);
    store.next_node_id = id + 1;
    assert(store@.nodes =~= old(store)@.nodes.push(out@));
    Ok(out)
}

/// Why no identity can be given to a new record like `c`, if none can: the
/// identities of its kind are used up or the next one is carried by a row
/// already (`Error::Storage`), or, for a system entry, its key is taken
/// (`Error::Conflict`).
pub open spec fn allocation_error(s: StoreView, c: ContentView) -> Option<Error> {
    match c {
        ContentView::PostContent(_) => if s.next_post_id == i32::MAX || s.in_use(
            ChildView::Article(s.next_post_id),
        ) {
            Some(Error::Storage)
        } else {
            None
        },
        ContentView::LinkContent(_) => if s.next_link_id == i32::MAX || s.in_use(
            ChildView::Link(s.next_link_id),
        ) {
            Some(Error::Storage)
        } else {
            None
        },
        ContentView::SystemContent(e) => if s.in_use(ChildView::System(e.key)) {
            Some(Error::Conflict)
        } else {
            None
        },
    }
}

/// The record `c` as it is first stored: under the next identity of its
/// kind (a system entry under its own key), at version 1, owned by `parent`,
/// created and updated at `now`.
pub open spec fn first_version(s: StoreView, c: ContentView, parent: i32, now: i64) -> ContentView {
    match c {
        ContentView::PostContent(p) => ContentView::PostContent(
            PostView { id: s.next_post_id, version: 1, parent, time: now, updated: now, ..p },
        ),
        ContentView::LinkContent(l) => ContentView::LinkContent(
            LinkView { id: s.next_link_id, version: 1, parent, time: now, updated: now, ..l },
        ),
        ContentView::SystemContent(e) => ContentView::SystemContent(
            SystemView { version: 1, parent, time: now, updated: now, ..e },
        ),
    }
}

/// What `insert_content` does to a store and what it returns.
pub open spec fn insert_content_spec(s: StoreView, c: ContentView, parent: i32, now: i64) -> (
    StoreView,
    Result<ContentView, Error>,
) {
    match allocation_error(s, c) {
        Some(e) => (s, Err(e)),
        None => {
            let first = first_version(s, c, parent, now);
            let bumped = match c {
                ContentView::PostContent(_) => StoreView {
                    next_post_id: (s.next_post_id + 1) as i32,
                    ..s
                },
                ContentView::LinkContent(_) => StoreView {
                    next_link_id: (s.next_link_id + 1) as i32,
                    ..s
                },
                ContentView::SystemContent(_) => s,
            };
            (bumped.with_inserted(first), Ok(first))
        },
    }
}

/// The view of a result that holds a content record.
pub open spec fn content_result(r: Result<Content, Error>) -> Result<ContentView, Error> {
    match r {
        Ok(c) => Ok(c@),
        Err(e) => Err(e),
    }
}

/// Stores a new article with `parent` as its owner, as `insert_content`
/// does.
fn insert_post(store: &mut Store, p: Post, parent: i32, now: i64) -> (r: Result<Post, Error>)
    ensures
        (final(store)@, match r {
            Ok(first) => Ok(ContentView::PostContent(first@)),
            Err(e) => Err(e),
        }) == insert_content_spec(old(store)@, ContentView::PostContent(p@), parent, now),
        consistent(old(store)@) ==> consistent(final(store)@),
{
    proof {
        if consistent(store@) {
            lemma_insert_content_keeps_consistent(
                store@,
                ContentView::PostContent(p@),
                parent,
                now,
            );
        }
    }
    let id = store.next_post_id;
    if id == i32::MAX || find_post(&store.posts, id).is_some() || find_post_history(
        &store.post_revisions,
        id,
    ).is_some() {
        return Err(Error::Storage);
    }
    let first = Post {
        id,
        title: p.title,
        body: p.body,
        time: now,
        tags: p.tags,
        summary: p.summary,
        version: 1,
        updated: now,
        parent,
    };
    let out = first.clone();
    store.posts.push(first);
    store.next_post_id = id + 1;
    assert(store@.posts =~= old(store)@.posts.push(out@));
    Ok(out)
}

/// Stores a new link with `parent` as its owner, as `insert_content` does.
fn insert_link(store: &mut Store, l: Link, parent: i32, now: i64) -> (r: Result<Link, Error>)
    ensures
        (final(store)@, match r {
            Ok(first) => Ok(ContentView::LinkContent(first@)),
            Err(e) => Err(e),
        }) == insert_content_spec(old(store)@, ContentView::LinkContent(l@), parent, now),
        consistent(old(store)@) ==> consistent(final(store)@),
{
    proof {
        if consistent(store@) {
            lemma_insert_content_keeps_consistent(
                store@,
                ContentView::LinkContent(l@),
                parent,
                now,
            );
        }
    }
    let id = store.next_link_id;
    if id == i32::MAX || find_link(&store.links, id).is_some() || find_link_history(
        &store.link_revisions,
        id,
    ).is_some() {
        return Err(Error::Storage);
    }
    let first = Link {
        id,
        text: l.text,
        title: l.title,
        url: l.url,
        tags: l.tags,
        time: now,
        version: 1,
        updated: now,
        parent,
    };
    let out = first.clone();
    store.links.push(first);
    store.next_link_id = id + 1;
    assert(store@.links =~= old(store)@.links.push(out@));
    Ok(out)
}

/// Stores a new system entry with `parent` as its owner, as
/// `insert_content` does.
fn insert_system(store: &mut Store, e: System, parent: i32, now: i64) -> (r: Result<
    System,
    Error,
>)
    ensures
        (final(store)@, match r {
            Ok(first) => Ok(ContentView::SystemContent(first@)),
            Err(e) => Err(e),
        }) == insert_content_spec(old(store)@, ContentView::SystemContent(e@), parent, now),
        consistent(old(store)@) ==> consistent(final(store)@),
{
    proof {
        if consistent(store@) {
            lemma_insert_content_keeps_consistent(
                store@,
                ContentView::SystemContent(e@),
                parent,
                now,
            );
        }
    }
    if find_system(&store.system, &e.key).is_some() || find_system_history(
        &store.system_revisions,
        &e.key,
    ).is_some() {
        return Err(Error::Conflict);
    }
    let first = System { key: e.key, data: e.data, time: now, version: 1, updated: now, parent };
    let out = first.clone();
    store.system.push(first);
    assert(store@.system =~= old(store)@.system.push(out@));
    Ok(out)
}

/// Stores a new content record with `parent` as its owner: gives it the
/// next identity of its kind, version 1 and the time `now`. Of `content`
/// only the texts are taken (and the key of a system entry). Fails, and
/// changes nothing, with `Error::Storage` where no identity can be given and
/// with `Error::Conflict` where the key of a system entry is taken.
pub fn insert_content(store: &mut Store, content: Content, parent: i32, now: i64) -> (r: Result<
    Content,
    Error,
>)
    ensures
        (final(store)@, content_result(r)) == insert_content_spec(
            old(store)@,
            content@,
            parent,
            now,
        ),
        consistent(old(store)@) ==> consistent(final(store)@),
{
    proof {
        if consistent(store@) {
            lemma_insert_content_keeps_consistent(store@, content@, parent, now);
        }
    }
    match content {
        Content::PostContent(p) => match insert_post(store, p, parent, now) {
            Ok(first) => Ok(Content::PostContent(first)),
            Err(e) => Err(e),
        },
        Content::LinkContent(l) => match insert_link(store, l, parent, now) {
            Ok(first) => Ok(Content::LinkContent(first)),
            Err(e) => Err(e),
        },
        Content::SystemContent(e) => match insert_system(store, e, parent, now) {
            Ok(first) => Ok(Content::SystemContent(first)),
            Err(e) => Err(e),
        },
    }
}

/// What `attach_content` does to a store and what it returns.
pub open spec fn attach_content_spec(s: StoreView, node_id: i32, c: ContentView, now: i64) -> (
    StoreView,
    Result<NodeView, Error>,
) {
    match s.node(node_id) {
        None => (s, Err(Error::NotFound)),
        Some(n) => if n.child is Some || n.version != 0 {
            (s, Err(Error::InvalidState))
        } else {
            match insert_content_spec(s, c, node_id, now) {
                (_, Err(e)) => (s, Err(e)),
                (stored, Ok(first)) => {
                    let attached = sealed(
                        NodeView { version: 1, updated: now, child: Some(first.child()), ..n },
                        child_hash_of(first),
                        seed_digest(),
                    );
                    (stored.with_node(attached), Ok(attached))
                },
            }
        },
    }
}

/// Attaches the first content to a node: stores the record as
/// `insert_content` does, with the node as its owner, and puts the node at
/// version 1 with its three hashes, the chain digest computed from the seed.
/// Fails with `Error::NotFound` where the node is absent, with
/// `Error::InvalidState` where it has content already, and as
/// `insert_content` does; a failure changes nothing.
pub fn attach_content(store: &mut Store, node_id: i32, content: Content, now: i64) -> (r: Result<
    Node,
    Error,
>)
    ensures
        (final(store)@, node_result(r)) == attach_content_spec(
            old(store)@,
            node_id,
            content@,
            now,
        ),
        consistent(old(store)@) ==> consistent(final(store)@),
        r is Ok ==> verify_spec(final(store)@, node_id) is Ok,
{
    proof {
        if attach_content_spec(store@, node_id, content@, now).1 is Ok {
            lemma_attach_starts_chain(store@, node_id, content@, now);
        }
    }
    proof {
        if consistent(store@) {
            lemma_attach_content_keeps_consistent(store@, node_id, content@, now);
        }
    }
    let at = match find_node(&store.nodes, node_id) {
        Some(i) => i,
        None => {
            return Err(Error::NotFound);
        },
    };
    let node = store.nodes[at].clone();
    proof {
        lemma_node_id(old(store)@, node_id);
    }
    assert(old(store)@.node(node_id) == Some(node@));
    if node.child.is_some() || node.version != 0 {
        return Err(Error::InvalidState);
    }
    let first = match insert_content(store, content, node_id, now) {
        Ok(c) => c,
        Err(e) => {
            return Err(e);
        },
    };
    let first_hash = child_hash(&first);
    let unsealed = Node {
        id: node.id,
        version: 1,
        child_hash: node.child_hash,
        self_hash: node.self_hash,
        hash_chain: node.hash_chain,
        labels: node.labels,
        workflow: node.workflow,
        permissions: node.permissions,
        paths_to: node.paths_to,
        paths_from: node.paths_from,
        node_next: node.node_next,
        node_last: node.node_last,
        time: node.time,
        updated: now,
        child: Some(first.child()),
    };
    let start = seed();
    let ghost stored = store@;
    assert(stored.nodes == old(store)@.nodes);
    match seal(unsealed, first_hash, start.as_str()) {
        Err(e) => Err(e),
        Ok(attached) => {
            let out = attached.clone();
            store.nodes.set(at, attached);
            assert(store@.nodes =~= stored.nodes.update(at as int, out@));
            assert(store@ == stored.with_node(out@));
            Ok(out)
        },
    }
}

} // verus!
