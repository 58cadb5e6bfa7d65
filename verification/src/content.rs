//! The content store: creating, reading, editing, publishing and deleting
//! the content records of each kind.
//!
//! A record lives under a node. Creating a record creates its node and
//! attaches the record to it as the first content; editing a record commits
//! a new version to the node, on condition of the version at which the
//! record was read; publishing and deleting move the workflow of the node.
//! Reading gives the live records in order of identity.

use crate::chain::{commit_spec, commit_update_if_version, revise, revised, verify_spec};
use crate::consistency::{
    consistent, lemma_attach_content_keeps_consistent, lemma_create_node_keeps_consistent,
    lemma_delete_keeps_consistent, lemma_publish_keeps_consistent,
    lemma_update_content_keeps_consistent, links_ordered, posts_ordered,
};
use crate::error::Error;
use crate::graph::{transition, transition_spec};
use crate::models::{
    Child, ChildView, Content, ContentView, Link, LinkView, NewLink, NewPost, NewSystem, Node,
    NodeView, Post, PostView, System, SystemView,
};
use crate::laws::{lemma_attach_starts_chain, lemma_edit_preserves_chain};
use crate::node_store::{
    attach_content, attach_content_spec, content_result, create_node, create_node_spec,
    first_version, node_result,
};
use crate::order::{arranged, lemma_order_of_ascending, lemma_order_upto, order_of, sorted_order};
use crate::pattern::{chars_of, filter_pattern, like, like_chars, pattern_of_filter};
use crate::store::{
    find_link, find_node, find_post, find_system, get_current, has_snapshot,
    lemma_current_child, link_at, post_at, system_at, views, Store, StoreView,
};
use vstd::prelude::*;
use vstd::string::StringExecFns;

verus! {

/// The article that `content` describes, before it is stored.
pub open spec fn new_post_view(content: NewPost) -> PostView {
    PostView {
        id: 0,
        title: content.title@,
        body: content.body@,
        time: 0,
        tags: content.tags@,
        summary: content.summary@,
        version: 0,
        updated: 0,
        parent: 0,
    }
}

/// The link that `content` describes, before it is stored.
pub open spec fn new_link_view(content: NewLink) -> LinkView {
    LinkView {
        id: 0,
        text: content.text@,
        title: content.title@,
        url: content.url@,
        tags: content.tags@,
        time: 0,
        version: 0,
        updated: 0,
        parent: 0,
    }
}

/// The system entry that `content` describes, before it is stored.
pub open spec fn new_system_view(content: NewSystem) -> SystemView {
    SystemView {
        key: content.key@,
        data: content.data@,
        time: 0,
        version: 0,
        updated: 0,
        parent: 0,
    }
}

/// What creating a content record does to a store and what it returns: a
/// node is created and the record attached to it; where the record cannot
/// be attached, nothing changes.
pub open spec fn create_content_spec(s: StoreView, c: ContentView, now: i64) -> (
    StoreView,
    Result<ContentView, Error>,
) {
    match create_node_spec(s, now) {
        (_, Err(e)) => (s, Err(e)),
        (with_node, Ok(n)) => match attach_content_spec(with_node, n.id, c, now) {
            (_, Err(e)) => (s, Err(e)),
            (attached, Ok(_)) => (attached, Ok(first_version(with_node, c, n.id, now))),
        },
    }
}

/// Creating a content record keeps a store consistent, and the history of
/// the node that it creates verifies; the record is found under its
/// identity.
pub proof fn lemma_create_content(s: StoreView, c: ContentView, now: i64)
    ensures
        consistent(s) ==> consistent(create_content_spec(s, c, now).0),
        create_content_spec(s, c, now).1 matches Ok(first) ==> {
            let t = create_content_spec(s, c, now).0;
            &&& first.parent() == s.next_node_id
            &&& first.version() == 1
            &&& verify_spec(t, first.parent()) is Ok
            &&& t.current(first.child()) == Some(first)
            &&& t.node(first.parent()) is Some
            &&& t.node(first.parent())->0.version == 1
            &&& t.node(first.parent())->0.child == Some(first.child())
            &&& t.node_revisions == s.node_revisions
        },
{
    let (with_node, created) = create_node_spec(s, now);
    if created is Ok {
        let n = created->Ok_0;
        if consistent(s) {
            lemma_create_node_keeps_consistent(s, now);
            lemma_attach_content_keeps_consistent(with_node, n.id, c, now);
        }
        if attach_content_spec(with_node, n.id, c, now).1 is Ok {
            lemma_attach_starts_chain(with_node, n.id, c, now);
        }
    }
}

/// Creates an article: creates a node, as `create_node` does, and attaches
/// the record to it as its first content, as `attach_content` does. The
/// record is returned as it is stored: at version 1, owned by the new node.
/// Fails, and changes nothing, with `Error::Storage` where no identity can
/// be given to the node or to the article.
pub fn create_post(store: &mut Store, content: &NewPost, now: i64) -> (r: Result<Post, Error>)
    ensures
        (final(store)@, match r {
            Ok(first) => Ok(ContentView::PostContent(first@)),
            Err(e) => Err(e),
        }) == create_content_spec(
            old(store)@,
            ContentView::PostContent(new_post_view(*content)),
            now,
        ),
        consistent(old(store)@) ==> consistent(final(store)@),
        r matches Ok(first) ==> verify_spec(final(store)@, first.parent) is Ok,
{
    proof {
        lemma_create_content(store@, ContentView::PostContent(new_post_view(*content)), now);
    }
    let node = match create_node(store, now) {
        Ok(n) => n,
        Err(e) => {
            return Err(e);
        },
    };
    let record = Post {
        id: 0,
        title: String::from_str(content.title),
        body: String::from_str(content.body),
        time: 0,
        tags: String::from_str(content.tags),
        summary: String::from_str(content.summary),
        version: 0,
        updated: 0,
        parent: 0,
    };
    let id = store.next_post_id;
    match attach_content(store, node.id, Content::PostContent(record), now) {
        Err(e) => {
            let ghost with_node = store@.nodes;
            assert(with_node == old(store)@.nodes.push(node@));
            store.nodes.pop();
            store.next_node_id = node.id;
            assert(store@.nodes =~= with_node.drop_last());
            assert(with_node.drop_last() =~= old(store)@.nodes);
            Err(e)
        },
        Ok(_) => read_post(store, id),
    }
}

/// Creates a link: creates a node, as `create_node` does, and attaches
/// the record to it as its first content, as `attach_content` does. The
/// record is returned as it is stored: at version 1, owned by the new node.
/// Fails, and changes nothing, with `Error::Storage` where no identity can
/// be given to the node or to the link.
pub fn create_link(store: &mut Store, content: &NewLink, now: i64) -> (r: Result<Link, Error>)
    ensures
        (final(store)@, match r {
            Ok(first) => Ok(ContentView::LinkContent(first@)),
            Err(e) => Err(e),
        }) == create_content_spec(
            old(store)@,
            ContentView::LinkContent(new_link_view(*content)),
            now,
        ),
        consistent(old(store)@) ==> consistent(final(store)@),
        r matches Ok(first) ==> verify_spec(final(store)@, first.parent) is Ok,
{
    proof {
        lemma_create_content(store@, ContentView::LinkContent(new_link_view(*content)), now);
    }
    let node = match create_node(store, now) {
        Ok(n) => n,
        Err(e) => {
            return Err(e);
        },
    };
    let record = Link {
        id: 0,
        text: String::from_str(content.text),
        title: String::from_str(content.title),
        url: String::from_str(content.url),
        tags: String::from_str(content.tags),
        time: 0,
        version: 0,
        updated: 0,
        parent: 0,
    };
    let id = store.next_link_id;
    match attach_content(store, node.id, Content::LinkContent(record), now) {
        Err(e) => {
            let ghost with_node = store@.nodes;
            assert(with_node == old(store)@.nodes.push(node@));
            store.nodes.pop();
            store.next_node_id = node.id;
            assert(store@.nodes =~= with_node.drop_last());
            assert(with_node.drop_last() =~= old(store)@.nodes);
            Err(e)
        },
        Ok(_) => read_link(store, id),
    }
}

/// Creates a system entry: creates a node, as `create_node` does, and attaches
/// the record to it as its first content, as `attach_content` does. The
/// record is returned as it is stored: at version 1, owned by the new node.
/// Fails, and changes nothing, with `Error::Storage` where no identity can
/// be given to the node and with `Error::Conflict` where a live entry or a
/// revision carries the key.
pub fn create_system(store: &mut Store, content: &NewSystem, now: i64) -> (r: Result<System, Error>)
    ensures
        (final(store)@, match r {
            Ok(first) => Ok(ContentView::SystemContent(first@)),
            Err(e) => Err(e),
        }) == create_content_spec(
            old(store)@,
            ContentView::SystemContent(new_system_view(*content)),
            now,
        ),
        consistent(old(store)@) ==> consistent(final(store)@),
        r matches Ok(first) ==> verify_spec(final(store)@, first.parent) is Ok,
{
    proof {
        lemma_create_content(store@, ContentView::SystemContent(new_system_view(*content)), now);
    }
    let node = match create_node(store, now) {
        Ok(n) => n,
        Err(e) => {
            return Err(e);
        },
    };
    let record = System {
        key: String::from_str(content.key),
        data: String::from_str(content.data),
        time: 0,
        version: 0,
        updated: 0,
        parent: 0,
    };
    match attach_content(store, node.id, Content::SystemContent(record), now) {
        Err(e) => {
            let ghost with_node = store@.nodes;
            assert(with_node == old(store)@.nodes.push(node@));
            store.nodes.pop();
            store.next_node_id = node.id;
            assert(store@.nodes =~= with_node.drop_last());
            assert(with_node.drop_last() =~= old(store)@.nodes);
            Err(e)
        },
        Ok(_) => read_system(store, String::from_str(content.key)),
    }
}

/// Reads the live article `post_id`.
pub fn read_post(store: &Store, post_id: i32) -> (r: Result<Post, Error>)
    ensures
        match r {
            Ok(p) => store@.current(ChildView::Article(post_id)) == Some(
                ContentView::PostContent(p@),
            ),
            Err(e) => e == Error::NotFound && store@.current(ChildView::Article(post_id)) is None,
        },
{
    match find_post(&store.posts, post_id) {
        Some(i) => Ok(store.posts[i].clone()),
        None => Err(Error::NotFound),
    }
}

/// Reads the live link `link_id`.
pub fn read_link(store: &Store, link_id: i32) -> (r: Result<Link, Error>)
    ensures
        match r {
            Ok(l) => store@.current(ChildView::Link(link_id)) == Some(
                ContentView::LinkContent(l@),
            ),
            Err(e) => e == Error::NotFound && store@.current(ChildView::Link(link_id)) is None,
        },
{
    match find_link(&store.links, link_id) {
        Some(i) => Ok(store.links[i].clone()),
        None => Err(Error::NotFound),
    }
}

/// Reads the live system entry with the key `system_key`.
pub fn read_system(store: &Store, system_key: String) -> (r: Result<System, Error>)
    ensures
        match r {
            Ok(e) => store@.current(ChildView::System(system_key@)) == Some(
                ContentView::SystemContent(e@),
            ),
            Err(e) => e == Error::NotFound && store@.current(ChildView::System(system_key@))
                is None,
        },
{
    match find_system(&store.system, &system_key) {
        Some(i) => Ok(store.system[i].clone()),
        None => Err(Error::NotFound),
    }
}

/// Commits an edit of the article: what `update_content` does, with the
/// version that `content` carries as the version at which it was read.
/// Returns the number of live articles written, which is one.
pub fn update_post(store: &mut Store, content: &Post, now: i64) -> (r: Result<usize, Error>)
    ensures
        final(store)@ == update_content_spec(
            old(store)@,
            ContentView::PostContent(content@),
            now,
        ).0,
        r == (match update_content_spec(
            old(store)@,
            ContentView::PostContent(content@),
            now,
        ).1 {
            Ok(_) => Ok::<usize, Error>(1),
            Err(e) => Err::<usize, Error>(e),
        }),
        consistent(old(store)@) ==> consistent(final(store)@),
        r is Ok ==> edit_keeps_chain(
            old(store)@,
            final(store)@,
            ContentView::PostContent(content@),
        ),
{
    match update_content(store, Content::PostContent(content.clone()), now) {
        Ok(_) => Ok(1),
        Err(e) => Err(e),
    }
}

/// Commits an edit of the link: what `update_content` does, with the
/// version that `content` carries as the version at which it was read.
/// Returns the number of live links written, which is one.
pub fn update_link(store: &mut Store, content: &Link, now: i64) -> (r: Result<usize, Error>)
    ensures
        final(store)@ == update_content_spec(
            old(store)@,
            ContentView::LinkContent(content@),
            now,
        ).0,
        r == (match update_content_spec(
            old(store)@,
            ContentView::LinkContent(content@),
            now,
        ).1 {
            Ok(_) => Ok::<usize, Error>(1),
            Err(e) => Err::<usize, Error>(e),
        }),
        consistent(old(store)@) ==> consistent(final(store)@),
        r is Ok ==> edit_keeps_chain(
            old(store)@,
            final(store)@,
            ContentView::LinkContent(content@),
        ),
{
    match update_content(store, Content::LinkContent(content.clone()), now) {
        Ok(_) => Ok(1),
        Err(e) => Err(e),
    }
}

/// Commits an edit of the system entry: what `update_content` does, with the
/// version that `content` carries as the version at which it was read.
/// Returns the number of live system entrys written, which is one.
pub fn update_system(store: &mut Store, content: &System, now: i64) -> (r: Result<usize, Error>)
    ensures
        final(store)@ == update_content_spec(
            old(store)@,
            ContentView::SystemContent(content@),
            now,
        ).0,
        r == (match update_content_spec(
            old(store)@,
            ContentView::SystemContent(content@),
            now,
        ).1 {
            Ok(_) => Ok::<usize, Error>(1),
            Err(e) => Err::<usize, Error>(e),
        }),
        consistent(old(store)@) ==> consistent(final(store)@),
        r is Ok ==> edit_keeps_chain(
            old(store)@,
            final(store)@,
            ContentView::SystemContent(content@),
        ),
{
    match update_content(store, Content::SystemContent(content.clone()), now) {
        Ok(_) => Ok(1),
        Err(e) => Err(e),
    }
}

/// The identities of the articles, as they stand in the table.
pub open spec fn ids_of_posts(rows: Seq<PostView>) -> Seq<i32> {
    Seq::new(rows.len(), |i: int| rows[i].id)
}

/// The articles in ascending order of identity; of two with the same identity
/// the one that stands first in the table comes first.
pub open spec fn posts_by_identity(rows: Seq<PostView>) -> Seq<PostView> {
    arranged(rows, order_of(ids_of_posts(rows)))
}

/// Reads all live articles, in ascending order of identity.
pub fn read_all_posts(store: &Store) -> (r: Vec<Post>)
    ensures
        views(r@) == posts_by_identity(store@.posts),
        r.len() == store.posts.len(),
        forall|i: int, j: int|
            0 <= i < j < r.len() ==> (#[trigger] r[i]).id <= (#[trigger] r[j]).id,
        posts_ordered(store@) ==> views(r@) == store@.posts,
{
    let ghost rows = store@.posts;
    let mut ids: Vec<i32> = Vec::new();
    let mut i: usize = 0;
    while i < store.posts.len()
        invariant
            i <= store.posts.len(),
            ids@ == ids_of_posts(store@.posts).take(i as int),
        decreases store.posts.len() - i,
    {
        ids.push(store.posts[i].id);
        assert(ids@ =~= ids_of_posts(store@.posts).take(i + 1));
        i += 1;
    }
    assert(ids@ =~= ids_of_posts(rows));
    let order = sorted_order(&ids);
    let mut out: Vec<Post> = Vec::new();
    let mut k: usize = 0;
    while k < order.len()
        invariant
            k <= order.len(),
            order.len() == store.posts.len(),
            forall|x: int| 0 <= x < order.len() ==> (#[trigger] order[x]) < store.posts.len(),
            rows == store@.posts,
            views(out@) == arranged(rows, order@).take(k as int),
        decreases order.len() - k,
    {
        let ghost so_far = views(out@);
        out.push(store.posts[order[k]].clone());
        assert(views(out@) =~= so_far.push(rows[order[k as int] as int]));
        assert(arranged(rows, order@).take(k + 1) =~= so_far.push(rows[order[k as int] as int]));
        k += 1;
    }
    proof {
        assert(arranged(rows, order@).take(k as int) =~= arranged(rows, order@));
        lemma_order_upto(ids@, ids@.len() as int);
        assert forall|a: int, b: int| 0 <= a < b < out.len() implies (#[trigger] out[a]).id <= (
        #[trigger] out[b]).id by {
            assert(views(out@)[a] == rows[order[a] as int]);
            assert(views(out@)[b] == rows[order[b] as int]);
            assert(ids@[order[a] as int] <= ids@[order[b] as int]);
        }
        if posts_ordered(store@) {
            assert forall|a: int, b: int| 0 <= a < b < ids@.len() implies ids@[a] <= ids@[b] by {
                assert(rows[a].id < rows[b].id);
            }
            lemma_order_of_ascending(ids@, ids@.len() as int);
            assert(views(out@) =~= rows);
        }
    }
    out
}

/// The identities of the links, as they stand in the table.
pub open spec fn ids_of_links(rows: Seq<LinkView>) -> Seq<i32> {
    Seq::new(rows.len(), |i: int| rows[i].id)
}

/// The links in ascending order of identity; of two with the same identity
/// the one that stands first in the table comes first.
pub open spec fn links_by_identity(rows: Seq<LinkView>) -> Seq<LinkView> {
    arranged(rows, order_of(ids_of_links(rows)))
}

/// Reads all live links, in ascending order of identity.
pub fn read_all_links(store: &Store) -> (r: Vec<Link>)
    ensures
        views(r@) == links_by_identity(store@.links),
        r.len() == store.links.len(),
        forall|i: int, j: int|
            0 <= i < j < r.len() ==> (#[trigger] r[i]).id <= (#[trigger] r[j]).id,
        links_ordered(store@) ==> views(r@) == store@.links,
{
    let ghost rows = store@.links;
    let mut ids: Vec<i32> = Vec::new();
    let mut i: usize = 0;
    while i < store.links.len()
        invariant
            i <= store.links.len(),
            ids@ == ids_of_links(store@.links).take(i as int),
        decreases store.links.len() - i,
    {
        ids.push(store.links[i].id);
        assert(ids@ =~= ids_of_links(store@.links).take(i + 1));
        i += 1;
    }
    assert(ids@ =~= ids_of_links(rows));
    let order = sorted_order(&ids);
    let mut out: Vec<Link> = Vec::new();
    let mut k: usize = 0;
    while k < order.len()
        invariant
            k <= order.len(),
            order.len() == store.links.len(),
            forall|x: int| 0 <= x < order.len() ==> (#[trigger] order[x]) < store.links.len(),
            rows == store@.links,
            views(out@) == arranged(rows, order@).take(k as int),
        decreases order.len() - k,
    {
        let ghost so_far = views(out@);
        out.push(store.links[order[k]].clone());
        assert(views(out@) =~= so_far.push(rows[order[k as int] as int]));
        assert(arranged(rows, order@).take(k + 1) =~= so_far.push(rows[order[k as int] as int]));
        k += 1;
    }
    proof {
        assert(arranged(rows, order@).take(k as int) =~= arranged(rows, order@));
        lemma_order_upto(ids@, ids@.len() as int);
        assert forall|a: int, b: int| 0 <= a < b < out.len() implies (#[trigger] out[a]).id <= (
        #[trigger] out[b]).id by {
            assert(views(out@)[a] == rows[order[a] as int]);
            assert(views(out@)[b] == rows[order[b] as int]);
            assert(ids@[order[a] as int] <= ids@[order[b] as int]);
        }
        if links_ordered(store@) {
            assert forall|a: int, b: int| 0 <= a < b < ids@.len() implies ids@[a] <= ids@[b] by {
                assert(rows[a].id < rows[b].id);
            }
            lemma_order_of_ascending(ids@, ids@.len() as int);
            assert(views(out@) =~= rows);
        }
    }
    out
}

/// Reads all live system entries, in the order of the table.
pub fn read_all_system(store: &Store) -> (r: Vec<System>)
    ensures
        views(r@) == store@.system,
{
    let r = store.system.clone();
    assert(views(r@) =~= store@.system);
    r
}

/// The rows that `keep` holds of, from the last of `rows` to the first, as
/// far as `limit` allows.
pub open spec fn newest_kept<T>(rows: Seq<T>, keep: spec_fn(T) -> bool, limit: int) -> Seq<T>
    decreases rows.len(),
{
    if rows.len() == 0 || limit <= 0 {
        Seq::empty()
    } else if keep(rows.last()) {
        seq![rows.last()] + newest_kept(rows.drop_last(), keep, limit - 1)
    } else {
        newest_kept(rows.drop_last(), keep, limit)
    }
}

/// What `newest_kept` gives: rows that `keep` holds of, no more than
/// `limit` of them, and, where `rows` stand in ascending order of `rank`, in
/// descending order of it.
pub proof fn lemma_newest_kept<T>(
    rows: Seq<T>,
    keep: spec_fn(T) -> bool,
    limit: int,
    rank: spec_fn(T) -> int,
)
    requires
        forall|i: int, j: int|
            0 <= i < j < rows.len() ==> rank(#[trigger] rows[i]) <= rank(#[trigger] rows[j]),
    ensures
        limit >= 0 ==> newest_kept(rows, keep, limit).len() <= limit,
        limit < 0 ==> newest_kept(rows, keep, limit).len() == 0,
        forall|a: int|
            0 <= a < newest_kept(rows, keep, limit).len() ==> keep(
                #[trigger] newest_kept(rows, keep, limit)[a],
            ) && rows.contains(newest_kept(rows, keep, limit)[a]),
        forall|a: int, b: int|
            0 <= a < b < newest_kept(rows, keep, limit).len() ==> rank(
                #[trigger] newest_kept(rows, keep, limit)[a],
            ) >= rank(#[trigger] newest_kept(rows, keep, limit)[b]),
    decreases rows.len(),
{
    let r = newest_kept(rows, keep, limit);
    if rows.len() > 0 && limit > 0 {
        let init = rows.drop_last();
        let last = rows.last();
        assert forall|i: int, j: int| 0 <= i < j < init.len() implies rank(#[trigger] init[i])
            <= rank(#[trigger] init[j]) by {
            assert(init[i] == rows[i] && init[j] == rows[j]);
        }
        let rest = if keep(last) {
            newest_kept(init, keep, limit - 1)
        } else {
            newest_kept(init, keep, limit)
        };
        lemma_newest_kept(init, keep, limit - 1, rank);
        lemma_newest_kept(init, keep, limit, rank);
        assert forall|a: int| 0 <= a < rest.len() implies rows.contains(#[trigger] rest[a]) && rank(
            rest[a],
        ) <= rank(last) by {
            assert(init.contains(rest[a]));
            let k = choose|k: int| 0 <= k < init.len() && init[k] == rest[a];
            assert(rows[k] == rest[a]);
            assert(rank(rows[k]) <= rank(rows[rows.len() - 1]));
        }
        if keep(last) {
            assert(r == seq![last] + rest);
            assert(r[0] == last);
            assert(rows[rows.len() - 1] == last);
            assert forall|a: int| 0 <= a < r.len() implies keep(#[trigger] r[a]) && rows.contains(
                r[a],
            ) by {
                if a > 0 {
                    assert(r[a] == rest[a - 1]);
                }
            }
            assert forall|a: int, b: int| 0 <= a < b < r.len() implies rank(#[trigger] r[a])
                >= rank(#[trigger] r[b]) by {
                assert(r[b] == rest[b - 1]);
                if a > 0 {
                    assert(r[a] == rest[a - 1]);
                }
            }
        }
    }
}

proof fn lemma_newest_kept_step<T>(rows: Seq<T>, keep: spec_fn(T) -> bool, limit: int, i: int)
    requires
        0 <= i < rows.len(),
        limit > 0,
    ensures
        newest_kept(rows.take(i + 1), keep, limit) == (if keep(rows[i]) {
            seq![rows[i]] + newest_kept(rows.take(i), keep, limit - 1)
        } else {
            newest_kept(rows.take(i), keep, limit)
        }),
{
    assert(rows.take(i + 1).drop_last() =~= rows.take(i));
    assert(rows.take(i + 1).last() == rows[i]);
}

/// Reads the newest live articles: in descending order of identity, at most
/// `limit_value` of them, none where that is not positive.
pub fn read_some_posts(store: &Store, limit_value: i64) -> (r: Vec<Post>)
    ensures
        views(r@) == newest_kept(
            posts_by_identity(store@.posts),
            |p: PostView| true,
            limit_value as int,
        ),
        forall|a: int, b: int|
            0 <= a < b < r.len() ==> (#[trigger] r[a]).id >= (#[trigger] r[b]).id,
{
    let sorted = read_all_posts(store);
    let ghost rows = posts_by_identity(store@.posts);
    let ghost keep = |p: PostView| true;
    let mut out: Vec<Post> = Vec::new();
    let mut left = limit_value;
    let mut i = sorted.len();
    proof {
        assert(rows.take(i as int) =~= rows);
        assert(views(out@) =~= Seq::<PostView>::empty());
    }
    while i > 0 && left > 0
        invariant
            i <= sorted.len(),
            rows == views(sorted@),
            keep == (|p: PostView| true),
            views(out@) + newest_kept(rows.take(i as int), keep, left as int) == newest_kept(
                rows,
                keep,
                limit_value as int,
            ),
        decreases i,
    {
        i -= 1;
        proof {
            lemma_newest_kept_step(rows, keep, left as int, i as int);
        }
        if left > 0 {
            let ghost before = views(out@);
            let row = sorted[i].clone();
            out.push(row);
            left -= 1;
            proof {
                assert(views(out@) =~= before + seq![rows[i as int]]);
                assert(views(out@) + newest_kept(rows.take(i as int), keep, left as int)
                    =~= before + (seq![rows[i as int]] + newest_kept(
                    rows.take(i as int),
                    keep,
                    left as int,
                )));
            }
        }
    }
    proof {
        assert(newest_kept(rows.take(i as int), keep, left as int) =~= Seq::<PostView>::empty());
        assert(views(out@) + Seq::<PostView>::empty() =~= views(out@));
        let rank = |x: PostView| x.id as int;
        assert forall|a: int, b: int| 0 <= a < b < rows.len() implies rank(#[trigger] rows[a])
            <= rank(#[trigger] rows[b]) by {
            assert(rows[a] == sorted[a]@ && rows[b] == sorted[b]@);
        }
        lemma_newest_kept(rows, keep, limit_value as int, rank);
        let kept = newest_kept(rows, keep, limit_value as int);
        assert forall|a: int, b: int| 0 <= a < b < out.len() implies (#[trigger] out[a]).id >= (
        #[trigger] out[b]).id by {
            assert(views(out@)[a] == kept[a] && views(out@)[b] == kept[b]);
            assert(rank(kept[a]) >= rank(kept[b]));
        }
    }
    out
}

/// Reads the newest live articles whose tags match `filter_value`
/// somewhere: the tags are matched against the filter with `%%` before and
/// behind it, as the `LIKE` of SQL matches, and the articles come in
/// descending order of identity, at most `limit_value` of them.
pub fn read_posts_by_filter_limit(store: &Store, filter_value: String, limit_value: i64) -> (r: Vec<Post>)
    ensures
        views(r@) == newest_kept(
            posts_by_identity(store@.posts),
            |p: PostView| like(p.tags, filter_pattern(filter_value@)),
            limit_value as int,
        ),
        forall|a: int, b: int|
            0 <= a < b < r.len() ==> (#[trigger] r[a]).id >= (#[trigger] r[b]).id,
{
    let pattern_text = pattern_of_filter(filter_value.as_str());
    let pattern = chars_of(pattern_text.as_str());
    let sorted = read_all_posts(store);
    let ghost rows = posts_by_identity(store@.posts);
    let ghost keep = |p: PostView| like(p.tags, filter_pattern(filter_value@));
    let mut out: Vec<Post> = Vec::new();
    let mut left = limit_value;
    let mut i = sorted.len();
    proof {
        assert(rows.take(i as int) =~= rows);
        assert(views(out@) =~= Seq::<PostView>::empty());
    }
    while i > 0 && left > 0
        invariant
            i <= sorted.len(),
            rows == views(sorted@),
            pattern@ == filter_pattern(filter_value@),
            keep == (|p: PostView| like(p.tags, filter_pattern(filter_value@))),
            views(out@) + newest_kept(rows.take(i as int), keep, left as int) == newest_kept(
                rows,
                keep,
                limit_value as int,
            ),
        decreases i,
    {
        i -= 1;
        proof {
            lemma_newest_kept_step(rows, keep, left as int, i as int);
        }
        let tags = chars_of(sorted[i].tags.as_str());
        if like_chars(&tags, &pattern) {
            let ghost before = views(out@);
            let row = sorted[i].clone();
            out.push(row);
            left -= 1;
            proof {
                assert(views(out@) =~= before + seq![rows[i as int]]);
                assert(views(out@) + newest_kept(rows.take(i as int), keep, left as int)
                    =~= before + (seq![rows[i as int]] + newest_kept(
                    rows.take(i as int),
                    keep,
                    left as int,
                )));
            }
        }
    }
    proof {
        assert(newest_kept(rows.take(i as int), keep, left as int) =~= Seq::<PostView>::empty());
        assert(views(out@) + Seq::<PostView>::empty() =~= views(out@));
        let rank = |x: PostView| x.id as int;
        assert forall|a: int, b: int| 0 <= a < b < rows.len() implies rank(#[trigger] rows[a])
            <= rank(#[trigger] rows[b]) by {
            assert(rows[a] == sorted[a]@ && rows[b] == sorted[b]@);
        }
        lemma_newest_kept(rows, keep, limit_value as int, rank);
        let kept = newest_kept(rows, keep, limit_value as int);
        assert forall|a: int, b: int| 0 <= a < b < out.len() implies (#[trigger] out[a]).id >= (
        #[trigger] out[b]).id by {
            assert(views(out@)[a] == kept[a] && views(out@)[b] == kept[b]);
            assert(rank(kept[a]) >= rank(kept[b]));
        }
    }
    out
}

/// Reads the newest live links whose tags match `filter_value` somewhere:
/// the tags are matched against the filter with `%%` before and behind it,
/// as the `LIKE` of SQL matches, and the links come in descending order of
/// identity, at most `limit_value` of them.
pub fn read_links_by_filter_limit(store: &Store, filter_value: String, limit_value: i64) -> (r: Vec<Link>)
    ensures
        views(r@) == newest_kept(
            links_by_identity(store@.links),
            |l: LinkView| like(l.tags, filter_pattern(filter_value@)),
            limit_value as int,
        ),
        forall|a: int, b: int|
            0 <= a < b < r.len() ==> (#[trigger] r[a]).id >= (#[trigger] r[b]).id,
{
    let pattern_text = pattern_of_filter(filter_value.as_str());
    let pattern = chars_of(pattern_text.as_str());
    let sorted = read_all_links(store);
    let ghost rows = links_by_identity(store@.links);
    let ghost keep = |l: LinkView| like(l.tags, filter_pattern(filter_value@));
    let mut out: Vec<Link> = Vec::new();
    let mut left = limit_value;
    let mut i = sorted.len();
    proof {
        assert(rows.take(i as int) =~= rows);
        assert(views(out@) =~= Seq::<LinkView>::empty());
    }
    while i > 0 && left > 0
        invariant
            i <= sorted.len(),
            rows == views(sorted@),
            pattern@ == filter_pattern(filter_value@),
            keep == (|l: LinkView| like(l.tags, filter_pattern(filter_value@))),
            views(out@) + newest_kept(rows.take(i as int), keep, left as int) == newest_kept(
                rows,
                keep,
                limit_value as int,
            ),
        decreases i,
    {
        i -= 1;
        proof {
            lemma_newest_kept_step(rows, keep, left as int, i as int);
        }
        let tags = chars_of(sorted[i].tags.as_str());
        if like_chars(&tags, &pattern) {
            let ghost before = views(out@);
            let row = sorted[i].clone();
            out.push(row);
            left -= 1;
            proof {
                assert(views(out@) =~= before + seq![rows[i as int]]);
                assert(views(out@) + newest_kept(rows.take(i as int), keep, left as int)
                    =~= before + (seq![rows[i as int]] + newest_kept(
                    rows.take(i as int),
                    keep,
                    left as int,
                )));
            }
        }
    }
    proof {
        assert(newest_kept(rows.take(i as int), keep, left as int) =~= Seq::<LinkView>::empty());
        assert(views(out@) + Seq::<LinkView>::empty() =~= views(out@));
        let rank = |x: LinkView| x.id as int;
        assert forall|a: int, b: int| 0 <= a < b < rows.len() implies rank(#[trigger] rows[a])
            <= rank(#[trigger] rows[b]) by {
            assert(rows[a] == sorted[a]@ && rows[b] == sorted[b]@);
        }
        lemma_newest_kept(rows, keep, limit_value as int, rank);
        let kept = newest_kept(rows, keep, limit_value as int);
        assert forall|a: int, b: int| 0 <= a < b < out.len() implies (#[trigger] out[a]).id >= (
        #[trigger] out[b]).id by {
            assert(views(out@)[a] == kept[a] && views(out@)[b] == kept[b]);
            assert(rank(kept[a]) >= rank(kept[b]));
        }
    }
    out
}

/// The node that owns the record `c`: the live node that the record names
/// as its parent, if that node names the record as its child.
pub open spec fn owner(s: StoreView, c: ContentView) -> Option<NodeView> {
    match s.node(c.parent()) {
        Some(n) => if n.child == Some(c.child()) {
            Some(n)
        } else {
            None
        },
        None => None,
    }
}

/// The store without the live record that `child` refers to.
pub open spec fn without_current(s: StoreView, child: ChildView) -> StoreView {
    match child {
        ChildView::Article(id) => match post_at(s.posts, id) {
            Some(i) => StoreView { posts: s.posts.remove(i), ..s },
            None => s,
        },
        ChildView::Link(id) => match link_at(s.links, id) {
            Some(i) => StoreView { links: s.links.remove(i), ..s },
            None => s,
        },
        ChildView::System(key) => match system_at(s.system, key) {
            Some(i) => StoreView { system: s.system.remove(i), ..s },
            None => s,
        },
    }
}

/// What `delete_content` does to a store and what it returns.
pub open spec fn delete_spec(s: StoreView, child: ChildView) -> (StoreView, Result<(), Error>) {
    match s.current(child) {
        None => (s, Err(Error::NotFound)),
        Some(c) => match owner(s, c) {
            Some(n) => match transition_spec(s, c.parent(), "deleted"@) {
                (t, Ok(_)) => (t, Ok(())),
                (_, Err(e)) => (s, Err(e)),
            },
            None => (without_current(s, child), Ok(())),
        },
    }
}

/// What `publish_content` does to a store and what it returns.
pub open spec fn publish_spec(s: StoreView, child: ChildView) -> (
    StoreView,
    Result<NodeView, Error>,
) {
    match s.current(child) {
        None => (s, Err(Error::NotFound)),
        Some(c) => match owner(s, c) {
            Some(n) => transition_spec(s, c.parent(), "published"@),
            None => (s, Err(Error::InvalidState)),
        },
    }
}

fn names_child(node: &Node, child: &Child) -> (r: bool)
    ensures
        r == (node@.child == Some(child@)),
{
    match &node.child {
        Some(named) => named.same(child),
        None => false,
    }
}

fn owned(store: &Store, content: &Content) -> (r: bool)
    ensures
        r == owner(store@, content@) is Some,
{
    match find_node(&store.nodes, content.parent()) {
        Some(i) => {
            let child = content.child();
            names_child(&store.nodes[i], &child)
        },
        None => false,
    }
}

/// Removes the live record that `child` refers to, if there is one.
/// Revisions stay.
pub fn remove_current(store: &mut Store, child: &Child)
    ensures
        final(store)@ == without_current(old(store)@, child@),
{
    match child {
        Child::Article(id) => match find_post(&store.posts, *id) {
            Some(i) => {
                store.posts.remove(i);
                assert(store@.posts =~= old(store)@.posts.remove(i as int));
            },
            None => {},
        },
        Child::Link(id) => match find_link(&store.links, *id) {
            Some(i) => {
                store.links.remove(i);
                assert(store@.links =~= old(store)@.links.remove(i as int));
            },
            None => {},
        },
        Child::System(key) => match find_system(&store.system, key) {
            Some(i) => {
                store.system.remove(i);
                assert(store@.system =~= old(store)@.system.remove(i as int));
            },
            None => {},
        },
    }
}

/// Deletes the content record that `child` refers to. Where a node owns the
/// record, the record stays and the workflow of the node moves to
/// `deleted`, as `transition` moves it; else the live record is removed.
/// Revisions stay in either case. Fails, and changes nothing, with
/// `Error::NotFound` where there is no such record, and as `transition`
/// does.
pub fn delete_content(store: &mut Store, child: &Child) -> (r: Result<(), Error>)
    ensures
        (final(store)@, r) == delete_spec(old(store)@, child@),
        consistent(old(store)@) ==> consistent(final(store)@),
{
    proof {
        if consistent(store@) {
            lemma_delete_keeps_consistent(store@, child@);
        }
    }
    let content = match get_current(store, child) {
        Ok(c) => c,
        Err(e) => {
            return Err(e);
        },
    };
    if owned(store, &content) {
        return match transition(store, content.parent(), "deleted") {
            Ok(_) => Ok(()),
            Err(e) => Err(e),
        };
    }
    remove_current(store, child);
    Ok(())
}

/// Publishes the node that owns the content record that `child` refers to:
/// moves its workflow to `published`, as `transition` moves it. Fails, and
/// changes nothing, with `Error::NotFound` where there is no such record,
/// with `Error::InvalidState` where no node owns it, and as `transition`
/// does.
pub fn publish_content(store: &mut Store, child: &Child) -> (r: Result<Node, Error>)
    ensures
        (final(store)@, node_result(r)) == publish_spec(old(store)@, child@),
        consistent(old(store)@) ==> consistent(final(store)@),
{
    proof {
        if consistent(store@) {
            lemma_publish_keeps_consistent(store@, child@);
        }
    }
    let content = match get_current(store, child) {
        Ok(c) => c,
        Err(e) => {
            return Err(e);
        },
    };
    if !owned(store, &content) {
        return Err(Error::InvalidState);
    }
    transition(store, content.parent(), "published")
}

/// Deletes the article `post_id`, as `delete_content` does.
pub fn delete_post(store: &mut Store, post_id: i32) -> (r: Result<(), Error>)
    ensures
        (final(store)@, r) == delete_spec(old(store)@, ChildView::Article(post_id)),
        consistent(old(store)@) ==> consistent(final(store)@),
{
    proof {
        if consistent(store@) {
            lemma_delete_keeps_consistent(store@, ChildView::Article(post_id));
        }
    }
    delete_content(store, &Child::Article(post_id))
}

/// Deletes the link `link_id`, as `delete_content` does.
pub fn delete_link(store: &mut Store, link_id: i32) -> (r: Result<(), Error>)
    ensures
        (final(store)@, r) == delete_spec(old(store)@, ChildView::Link(link_id)),
        consistent(old(store)@) ==> consistent(final(store)@),
{
    proof {
        if consistent(store@) {
            lemma_delete_keeps_consistent(store@, ChildView::Link(link_id));
        }
    }
    delete_content(store, &Child::Link(link_id))
}

/// Deletes the system entry with the key `system_key`, as `delete_content`
/// does.
pub fn delete_system(store: &mut Store, system_key: &str) -> (r: Result<(), Error>)
    ensures
        (final(store)@, r) == delete_spec(old(store)@, ChildView::System(system_key@)),
        consistent(old(store)@) ==> consistent(final(store)@),
{
    proof {
        if consistent(store@) {
            lemma_delete_keeps_consistent(store@, ChildView::System(system_key@));
        }
    }
    delete_content(store, &Child::System(String::from_str(system_key)))
}

/// Publishes the node that owns the article `post_id`, as `publish_content`
/// does, and returns the article.
pub fn publish_post(store: &mut Store, post_id: i32) -> (r: Result<Post, Error>)
    ensures
        final(store)@ == publish_spec(old(store)@, ChildView::Article(post_id)).0,
        match r {
            Ok(p) => publish_spec(old(store)@, ChildView::Article(post_id)).1 is Ok
                && old(store)@.current(ChildView::Article(post_id)) == Some(
                ContentView::PostContent(p@),
            ),
            Err(e) => publish_spec(old(store)@, ChildView::Article(post_id)).1 == Err::<
                NodeView,
                Error,
            >(e),
        },
        consistent(old(store)@) ==> consistent(final(store)@),
{
    proof {
        if consistent(store@) {
            lemma_publish_keeps_consistent(store@, ChildView::Article(post_id));
        }
    }
    let post = match read_post(store, post_id) {
        Ok(p) => p,
        Err(e) => {
            return Err(e);
        },
    };
    match publish_content(store, &Child::Article(post_id)) {
        Ok(_) => Ok(post),
        Err(e) => Err(e),
    }
}

/// Publishes the node that owns the link `link_id`, as `publish_content`
/// does, and returns the link.
pub fn publish_link(store: &mut Store, link_id: i32) -> (r: Result<Link, Error>)
    ensures
        final(store)@ == publish_spec(old(store)@, ChildView::Link(link_id)).0,
        match r {
            Ok(l) => publish_spec(old(store)@, ChildView::Link(link_id)).1 is Ok
                && old(store)@.current(ChildView::Link(link_id)) == Some(
                ContentView::LinkContent(l@),
            ),
            Err(e) => publish_spec(old(store)@, ChildView::Link(link_id)).1 == Err::<
                NodeView,
                Error,
            >(e),
        },
        consistent(old(store)@) ==> consistent(final(store)@),
{
    proof {
        if consistent(store@) {
            lemma_publish_keeps_consistent(store@, ChildView::Link(link_id));
        }
    }
    let link = match read_link(store, link_id) {
        Ok(l) => l,
        Err(e) => {
            return Err(e);
        },
    };
    match publish_content(store, &Child::Link(link_id)) {
        Ok(_) => Ok(link),
        Err(e) => Err(e),
    }
}

/// What `update_content` does to a store and what it returns.
pub open spec fn update_content_spec(s: StoreView, new: ContentView, now: i64) -> (
    StoreView,
    Result<ContentView, Error>,
) {
    match s.current(new.child()) {
        None => (s, Err(Error::NotFound)),
        Some(c) => if c.version() != new.version() || s.revision(new.child(), new.version())
            is Some {
            (s, Err(Error::Conflict))
        } else if owner(s, c) is None {
            (s, Err(Error::InvalidState))
        } else {
            match commit_spec(s, c.parent(), new.version(), new, now) {
                (t, Ok(_)) => (t, Ok(revised(c, new, now))),
                (_, Err(e)) => (s, Err(e)),
            }
        },
    }
}

/// Whether the edit of the record that `new` names has left a history that
/// verifies, where the history of the node that owns the record verified
/// before.
pub open spec fn edit_keeps_chain(s: StoreView, t: StoreView, new: ContentView) -> bool {
    let node_id = s.current(new.child())->0.parent();
    verify_spec(s, node_id) is Ok ==> verify_spec(t, node_id) is Ok
}

/// Commits an edit of a content record. `content` names the record by the
/// identity it carries and the version at which the caller read it by the
/// version it carries. The edit is committed to the node that owns the
/// record as `commit_update_if_version` commits it, on condition of that
/// version: node and record are added to their revision tables as they
/// stand, the record takes the texts of `content`, and both move one version
/// on. The record is returned as it is stored.
///
/// Fails, and changes nothing, with
/// - `Error::NotFound` where there is no live record of that identity,
/// - `Error::Conflict` where the live record is at another version than
///   `content` carries, or a revision of the record at that version exists
///   already,
/// - `Error::InvalidState` where no node owns the record,
/// - and as `commit_update_if_version` does.
pub fn update_content(store: &mut Store, content: Content, now: i64) -> (r: Result<Content, Error>)
    ensures
        (final(store)@, content_result(r)) == update_content_spec(old(store)@, content@, now),
        consistent(old(store)@) ==> consistent(final(store)@),
        r is Ok ==> edit_keeps_chain(old(store)@, final(store)@, content@),
{
    proof {
        if consistent(store@) {
            lemma_update_content_keeps_consistent(store@, content@, now);
        }
        if update_content_spec(store@, content@, now).1 is Ok {
            lemma_edit_preserves_chain(store@, content@, now);
        }
    }
    let child = content.child();
    let current = match get_current(store, &child) {
        Ok(c) => c,
        Err(e) => {
            return Err(e);
        },
    };
    proof {
        lemma_current_child(store@, child@);
    }
    let expected = content.version();
    if current.version() != expected || has_snapshot(store, &child, expected) {
        return Err(Error::Conflict);
    }
    if !owned(store, &current) {
        return Err(Error::InvalidState);
    }
    let parent = current.parent();
    let texts = content.clone();
    match commit_update_if_version(store, parent, expected, content, now) {
        Err(e) => Err(e),
        Ok(_) => Ok(revise(current, texts, now)),
    }
}

} // verus!
