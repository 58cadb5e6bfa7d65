//! What has to be written to bring stored tables from one state of a store
//! to another.
//!
//! The operations of the library work on a store in memory. Where the
//! tables are kept elsewhere, the difference between the store as it was
//! read and the store as the operations left it is a list of writes: the
//! revisions that were added, and for every live row that was added,
//! changed or removed one write. A write that changes or removes a live row
//! names the version at which the row was read, so that it can be made on
//! condition that the row is still at that version.

use crate::models::{
    Child, ChildView, Content, ContentView, LinkRevision, LinkView, Node, NodeRevision, NodeView,
    PostRevision, PostView, SystemRevision, SystemView,
};
use crate::store::{find_node, get_current, has_current, views, Store, StoreView};
use vstd::prelude::*;

verus! {

/// One write to the tables.
#[derive(Debug, PartialEq, Eq)]
pub enum Write {
    /// Add a revision of a node.
    AppendNodeRevision(NodeRevision),
    /// Add a revision of a content record, under the identity and version
    /// that the record carries.
    AppendRevision(Content),
    /// Remove the live node `id`, on condition that it is at
    /// `expected_version`.
    DeleteNode { id: i32, expected_version: i32 },
    /// Add a live node.
    InsertNode(Node),
    /// Put `node` in place of the live node of the same identity, on
    /// condition that that one is at `expected_version`.
    UpdateNode { expected_version: i32, node: Node },
    /// Remove the live content record `child`, on condition that it is at
    /// `expected_version`.
    DeleteContent { child: Child, expected_version: i32 },
    /// Add a live content record.
    InsertContent(Content),
    /// Put `content` in place of the live record of the same identity, on
    /// condition that that one is at `expected_version`.
    UpdateContent { expected_version: i32, content: Content },
}

/// The view of a [`Write`].
pub enum WriteView {
    AppendNodeRevision(NodeView),
    AppendRevision(ContentView),
    DeleteNode { id: i32, expected_version: i32 },
    InsertNode(NodeView),
    UpdateNode { expected_version: i32, node: NodeView },
    DeleteContent { child: ChildView, expected_version: i32 },
    InsertContent(ContentView),
    UpdateContent { expected_version: i32, content: ContentView },
}

impl View for Write {
    type V = WriteView;

    open spec fn view(&self) -> WriteView {
        match self {
            Write::AppendNodeRevision(n) => WriteView::AppendNodeRevision(n@),
            Write::AppendRevision(c) => WriteView::AppendRevision(c@),
            Write::DeleteNode { id, expected_version } => WriteView::DeleteNode {
                id: *id,
                expected_version: *expected_version,
            },
            Write::InsertNode(n) => WriteView::InsertNode(n@),
            Write::UpdateNode { expected_version, node } => WriteView::UpdateNode {
                expected_version: *expected_version,
                node: node@,
            },
            Write::DeleteContent { child, expected_version } => WriteView::DeleteContent {
                child: child@,
                expected_version: *expected_version,
            },
            Write::InsertContent(c) => WriteView::InsertContent(c@),
            Write::UpdateContent { expected_version, content } => WriteView::UpdateContent {
                expected_version: *expected_version,
                content: content@,
            },
        }
    }
}

/// The live content records of a store, one kind after the other.
pub open spec fn live_contents(s: StoreView) -> Seq<ContentView> {
    Seq::new(s.posts.len(), |i: int| ContentView::PostContent(s.posts[i])) + Seq::new(
        s.links.len(),
        |i: int| ContentView::LinkContent(s.links[i]),
    ) + Seq::new(s.system.len(), |i: int| ContentView::SystemContent(s.system[i]))
}

/// One write, made by `wrap`, for each of the rows from position `from`
/// on.
pub open spec fn tail_writes<T>(rows: Seq<T>, from: int, wrap: spec_fn(T) -> WriteView) -> Seq<
    WriteView,
>
    decreases rows.len(),
{
    if rows.len() <= from || rows.len() == 0 {
        Seq::empty()
    } else {
        tail_writes(rows.drop_last(), from, wrap).push(wrap(rows.last()))
    }
}

/// The writes that add revisions: one for each row that a revision table
/// of `after` holds behind those that the table of `before` holds, the
/// node revisions first, then the revisions of articles, of links and of
/// system entries.
pub open spec fn appends(before: StoreView, after: StoreView) -> Seq<WriteView> {
    tail_writes(
        after.node_revisions,
        before.node_revisions.len() as int,
        |n: NodeView| WriteView::AppendNodeRevision(n),
    ) + tail_writes(
        after.post_revisions,
        before.post_revisions.len() as int,
        |p: PostView| WriteView::AppendRevision(ContentView::PostContent(p)),
    ) + tail_writes(
        after.link_revisions,
        before.link_revisions.len() as int,
        |l: LinkView| WriteView::AppendRevision(ContentView::LinkContent(l)),
    ) + tail_writes(
        after.system_revisions,
        before.system_revisions.len() as int,
        |e: SystemView| WriteView::AppendRevision(ContentView::SystemContent(e)),
    )
}

/// The writes that remove the nodes among `rows` that `after` does not
/// hold.
pub open spec fn node_deletes(rows: Seq<NodeView>, after: StoreView) -> Seq<WriteView>
    decreases rows.len(),
{
    if rows.len() == 0 {
        Seq::empty()
    } else if after.node(rows.last().id) is None {
        node_deletes(rows.drop_last(), after).push(
            WriteView::DeleteNode { id: rows.last().id, expected_version: rows.last().version },
        )
    } else {
        node_deletes(rows.drop_last(), after)
    }
}

/// The write that brings the node `row` into tables that hold `before`:
/// none where `before` holds the same row.
pub open spec fn node_upsert(before: StoreView, row: NodeView) -> Option<WriteView> {
    match before.node(row.id) {
        None => Some(WriteView::InsertNode(row)),
        Some(old) => if old == row {
            None
        } else {
            Some(WriteView::UpdateNode { expected_version: old.version, node: row })
        },
    }
}

/// The writes that bring the nodes `rows` into tables that hold `before`.
pub open spec fn node_upserts(before: StoreView, rows: Seq<NodeView>) -> Seq<WriteView>
    decreases rows.len(),
{
    if rows.len() == 0 {
        Seq::empty()
    } else {
        match node_upsert(before, rows.last()) {
            Some(w) => node_upserts(before, rows.drop_last()).push(w),
            None => node_upserts(before, rows.drop_last()),
        }
    }
}

/// The writes that remove the content records among `rows` that `after`
/// does not hold.
pub open spec fn content_deletes(rows: Seq<ContentView>, after: StoreView) -> Seq<WriteView>
    decreases rows.len(),
{
    if rows.len() == 0 {
        Seq::empty()
    } else if after.current(rows.last().child()) is None {
        content_deletes(rows.drop_last(), after).push(
            WriteView::DeleteContent {
                child: rows.last().child(),
                expected_version: rows.last().version(),
            },
        )
    } else {
        content_deletes(rows.drop_last(), after)
    }
}

/// The write that brings the content record `row` into tables that hold
/// `before`: none where `before` holds the same record.
pub open spec fn content_upsert(before: StoreView, row: ContentView) -> Option<WriteView> {
    match before.current(row.child()) {
        None => Some(WriteView::InsertContent(row)),
        Some(old) => if old == row {
            None
        } else {
            Some(WriteView::UpdateContent { expected_version: old.version(), content: row })
        },
    }
}

/// The writes that bring the content records `rows` into tables that hold
/// `before`.
pub open spec fn content_upserts(before: StoreView, rows: Seq<ContentView>) -> Seq<WriteView>
    decreases rows.len(),
{
    if rows.len() == 0 {
        Seq::empty()
    } else {
        match content_upsert(before, rows.last()) {
            Some(w) => content_upserts(before, rows.drop_last()).push(w),
            None => content_upserts(before, rows.drop_last()),
        }
    }
}

/// What `changes` returns: the revisions that `after` has more than
/// `before`, then the nodes to remove, the nodes to add or change, the
/// content records to remove and the content records to add or change.
pub open spec fn changes_spec(before: StoreView, after: StoreView) -> Seq<WriteView> {
    appends(before, after) + node_deletes(before.nodes, after) + node_upserts(before, after.nodes)
        + content_deletes(live_contents(before), after) + content_upserts(
        before,
        live_contents(after),
    )
}

/// The live content records of a store, one kind after the other.
pub fn contents_of(store: &Store) -> (r: Vec<Content>)
    ensures
        views(r@) == live_contents(store@),
{
    let mut out: Vec<Content> = Vec::new();
    let ghost posts = Seq::new(
        store@.posts.len(),
        |k: int| ContentView::PostContent(store@.posts[k]),
    );
    let ghost links = Seq::new(
        store@.links.len(),
        |k: int| ContentView::LinkContent(store@.links[k]),
    );
    let ghost system = Seq::new(
        store@.system.len(),
        |k: int| ContentView::SystemContent(store@.system[k]),
    );
    let mut i: usize = 0;
    assert(views(out@) =~= posts.take(0));
    while i < store.posts.len()
        invariant
            i <= store.posts.len(),
            posts.len() == store.posts.len(),
            forall|k: int|
                0 <= k < posts.len() ==> posts[k] == ContentView::PostContent(store@.posts[k]),
            views(out@) == posts.take(i as int),
        decreases store.posts.len() - i,
    {
        let ghost so_far = views(out@);
        out.push(Content::PostContent(store.posts[i].clone()));
        assert(views(out@) =~= so_far.push(posts[i as int]));
        assert(posts.take(i + 1) =~= so_far.push(posts[i as int]));
        i += 1;
    }
    assert(posts.take(i as int) =~= posts);
    let mut i: usize = 0;
    assert(views(out@) =~= posts + links.take(0));
    while i < store.links.len()
        invariant
            i <= store.links.len(),
            links.len() == store.links.len(),
            forall|k: int|
                0 <= k < links.len() ==> links[k] == ContentView::LinkContent(store@.links[k]),
            views(out@) == posts + links.take(i as int),
        decreases store.links.len() - i,
    {
        let ghost so_far = views(out@);
        out.push(Content::LinkContent(store.links[i].clone()));
        assert(views(out@) =~= so_far.push(links[i as int]));
        assert(posts + links.take(i + 1) =~= so_far.push(links[i as int]));
        i += 1;
    }
    assert(links.take(i as int) =~= links);
    let mut i: usize = 0;
    assert(views(out@) =~= posts + links + system.take(0));
    while i < store.system.len()
        invariant
            i <= store.system.len(),
            system.len() == store.system.len(),
            forall|k: int|
                0 <= k < system.len() ==> system[k] == ContentView::SystemContent(
                    store@.system[k],
                ),
            views(out@) == posts + links + system.take(i as int),
        decreases store.system.len() - i,
    {
        let ghost so_far = views(out@);
        out.push(Content::SystemContent(store.system[i].clone()));
        assert(views(out@) =~= so_far.push(system[i as int]));
        assert(posts + links + system.take(i + 1) =~= so_far.push(system[i as int]));
        i += 1;
    }
    assert(system.take(i as int) =~= system);
    out
}

proof fn lemma_tail_writes_step<T>(rows: Seq<T>, from: int, wrap: spec_fn(T) -> WriteView, i: int)
    requires
        0 <= from <= i < rows.len(),
    ensures
        tail_writes(rows.take(i + 1), from, wrap) == tail_writes(rows.take(i), from, wrap).push(
            wrap(rows[i]),
        ),
{
    assert(rows.take(i + 1).drop_last() =~= rows.take(i));
}

proof fn lemma_tail_writes_start<T>(rows: Seq<T>, from: int, wrap: spec_fn(T) -> WriteView)
    requires
        0 <= from,
    ensures
        from <= rows.len() ==> tail_writes(rows.take(from), from, wrap) == Seq::<
            WriteView,
        >::empty(),
        from > rows.len() ==> tail_writes(rows, from, wrap) == Seq::<WriteView>::empty(),
{
}

fn push_node_appends(out: &mut Vec<Write>, rows: &Vec<NodeRevision>, from: usize)
    ensures
        views(final(out)@) == views(old(out)@) + tail_writes(
            views(rows@),
            from as int,
            |n: NodeView| WriteView::AppendNodeRevision(n),
        ),
{
    let ghost start = views(out@);
    let ghost table = views(rows@);
    let ghost wrap = |n: NodeView| WriteView::AppendNodeRevision(n);
    proof {
        lemma_tail_writes_start(table, from as int, wrap);
        assert(views(out@) =~= start + Seq::<WriteView>::empty());
    }
    if from > rows.len() {
        return;
    }
    let mut i: usize = from;
    while i < rows.len()
        invariant
            from <= i <= rows.len(),
            table == views(rows@),
            wrap == (|n: NodeView| WriteView::AppendNodeRevision(n)),
            views(out@) == start + tail_writes(table.take(i as int), from as int, wrap),
        decreases rows.len() - i,
    {
        proof {
            lemma_tail_writes_step(table, from as int, wrap, i as int);
        }
        let ghost so_far = views(out@);
        out.push(Write::AppendNodeRevision(rows[i].clone()));
        assert(views(out@) =~= so_far.push(wrap(table[i as int])));
        i += 1;
    }
    proof {
        assert(table.take(i as int) =~= table);
    }
}

fn push_post_appends(out: &mut Vec<Write>, rows: &Vec<PostRevision>, from: usize)
    ensures
        views(final(out)@) == views(old(out)@) + tail_writes(
            views(rows@),
            from as int,
            |p: PostView| WriteView::AppendRevision(ContentView::PostContent(p)),
        ),
{
    let ghost start = views(out@);
    let ghost table = views(rows@);
    let ghost wrap = |p: PostView| WriteView::AppendRevision(ContentView::PostContent(p));
    proof {
        lemma_tail_writes_start(table, from as int, wrap);
        assert(views(out@) =~= start + Seq::<WriteView>::empty());
    }
    if from > rows.len() {
        return;
    }
    let mut i: usize = from;
    while i < rows.len()
        invariant
            from <= i <= rows.len(),
            table == views(rows@),
            wrap == (|p: PostView| WriteView::AppendRevision(ContentView::PostContent(p))),
            views(out@) == start + tail_writes(table.take(i as int), from as int, wrap),
        decreases rows.len() - i,
    {
        proof {
            lemma_tail_writes_step(table, from as int, wrap, i as int);
        }
        let ghost so_far = views(out@);
        out.push(Write::AppendRevision(Content::PostContent(rows[i].to_post())));
        assert(views(out@) =~= so_far.push(wrap(table[i as int])));
        i += 1;
    }
    proof {
        assert(table.take(i as int) =~= table);
    }
}

fn push_link_appends(out: &mut Vec<Write>, rows: &Vec<LinkRevision>, from: usize)
    ensures
        views(final(out)@) == views(old(out)@) + tail_writes(
            views(rows@),
            from as int,
            |l: LinkView| WriteView::AppendRevision(ContentView::LinkContent(l)),
        ),
{
    let ghost start = views(out@);
    let ghost table = views(rows@);
    let ghost wrap = |l: LinkView| WriteView::AppendRevision(ContentView::LinkContent(l));
    proof {
        lemma_tail_writes_start(table, from as int, wrap);
        assert(views(out@) =~= start + Seq::<WriteView>::empty());
    }
    if from > rows.len() {
        return;
    }
    let mut i: usize = from;
    while i < rows.len()
        invariant
            from <= i <= rows.len(),
            table == views(rows@),
            wrap == (|l: LinkView| WriteView::AppendRevision(ContentView::LinkContent(l))),
            views(out@) == start + tail_writes(table.take(i as int), from as int, wrap),
        decreases rows.len() - i,
    {
        proof {
            lemma_tail_writes_step(table, from as int, wrap, i as int);
        }
        let ghost so_far = views(out@);
        out.push(Write::AppendRevision(Content::LinkContent(rows[i].to_link())));
        assert(views(out@) =~= so_far.push(wrap(table[i as int])));
        i += 1;
    }
    proof {
        assert(table.take(i as int) =~= table);
    }
}

fn push_system_appends(out: &mut Vec<Write>, rows: &Vec<SystemRevision>, from: usize)
    ensures
        views(final(out)@) == views(old(out)@) + tail_writes(
            views(rows@),
            from as int,
            |e: SystemView| WriteView::AppendRevision(ContentView::SystemContent(e)),
        ),
{
    let ghost start = views(out@);
    let ghost table = views(rows@);
    let ghost wrap = |e: SystemView| WriteView::AppendRevision(ContentView::SystemContent(e));
    proof {
        lemma_tail_writes_start(table, from as int, wrap);
        assert(views(out@) =~= start + Seq::<WriteView>::empty());
    }
    if from > rows.len() {
        return;
    }
    let mut i: usize = from;
    while i < rows.len()
        invariant
            from <= i <= rows.len(),
            table == views(rows@),
            wrap == (|e: SystemView| WriteView::AppendRevision(ContentView::SystemContent(e))),
            views(out@) == start + tail_writes(table.take(i as int), from as int, wrap),
        decreases rows.len() - i,
    {
        proof {
            lemma_tail_writes_step(table, from as int, wrap, i as int);
        }
        let ghost so_far = views(out@);
        out.push(Write::AppendRevision(Content::SystemContent(rows[i].to_system())));
        assert(views(out@) =~= so_far.push(wrap(table[i as int])));
        i += 1;
    }
    proof {
        assert(table.take(i as int) =~= table);
    }
}

fn push_appends(out: &mut Vec<Write>, before: &Store, after: &Store)
    ensures
        views(final(out)@) == views(old(out)@) + appends(before@, after@),
{
    let ghost start = views(out@);
    push_node_appends(out, &after.node_revisions, before.node_revisions.len());
    push_post_appends(out, &after.post_revisions, before.post_revisions.len());
    push_link_appends(out, &after.link_revisions, before.link_revisions.len());
    push_system_appends(out, &after.system_revisions, before.system_revisions.len());
    assert(views(out@) =~= start + appends(before@, after@));
}

fn push_node_changes(out: &mut Vec<Write>, before: &Store, after: &Store)
    ensures
        views(final(out)@) == views(old(out)@) + node_deletes(before@.nodes, after@)
            + node_upserts(before@, after@.nodes),
{
    let ghost start = views(out@);
    let mut i: usize = 0;
    proof {
        assert(before@.nodes.take(0) =~= Seq::<NodeView>::empty());
        assert(views(out@) =~= start + node_deletes(before@.nodes.take(0), after@));
    }
    while i < before.nodes.len()
        invariant
            i <= before.nodes.len(),
            views(out@) == start + node_deletes(before@.nodes.take(i as int), after@),
        decreases before.nodes.len() - i,
    {
        proof {
            assert(before@.nodes.take(i + 1).drop_last() =~= before@.nodes.take(i as int));
        }
        if find_node(&after.nodes, before.nodes[i].id).is_none() {
            let ghost so_far = views(out@);
            out.push(
                Write::DeleteNode {
                    id: before.nodes[i].id,
                    expected_version: before.nodes[i].version,
                },
            );
            assert(views(out@) =~= so_far.push(
                WriteView::DeleteNode {
                    id: before@.nodes[i as int].id,
                    expected_version: before@.nodes[i as int].version,
                },
            ));
        }
        i += 1;
    }
    proof {
        assert(before@.nodes.take(i as int) =~= before@.nodes);
        assert(after@.nodes.take(0) =~= Seq::<NodeView>::empty());
    }
    let ghost first = views(out@);
    let mut i: usize = 0;
    proof {
        assert(views(out@) =~= first + node_upserts(before@, after@.nodes.take(0)));
    }
    while i < after.nodes.len()
        invariant
            i <= after.nodes.len(),
            views(out@) == first + node_upserts(before@, after@.nodes.take(i as int)),
        decreases after.nodes.len() - i,
    {
        proof {
            assert(after@.nodes.take(i + 1).drop_last() =~= after@.nodes.take(i as int));
        }
        let ghost so_far = views(out@);
        match find_node(&before.nodes, after.nodes[i].id) {
            None => {
                out.push(Write::InsertNode(after.nodes[i].clone()));
                assert(views(out@) =~= so_far.push(WriteView::InsertNode(after@.nodes[i as int])));
            },
            Some(at) => {
                if !before.nodes[at].same(&after.nodes[i]) {
                    out.push(
                        Write::UpdateNode {
                            expected_version: before.nodes[at].version,
                            node: after.nodes[i].clone(),
                        },
                    );
                    assert(views(out@) =~= so_far.push(
                        WriteView::UpdateNode {
                            expected_version: before@.nodes[at as int].version,
                            node: after@.nodes[i as int],
                        },
                    ));
                }
            },
        }
        i += 1;
    }
    proof {
        assert(after@.nodes.take(i as int) =~= after@.nodes);
    }
}

fn push_content_changes(out: &mut Vec<Write>, before: &Store, after: &Store)
    ensures
        views(final(out)@) == views(old(out)@) + content_deletes(live_contents(before@), after@)
            + content_upserts(before@, live_contents(after@)),
{
    let ghost start = views(out@);
    let gone = contents_of(before);
    let ghost rows = live_contents(before@);
    let mut i: usize = 0;
    proof {
        assert(rows.take(0) =~= Seq::<ContentView>::empty());
        assert(views(out@) =~= start + content_deletes(rows.take(0), after@));
    }
    while i < gone.len()
        invariant
            i <= gone.len(),
            views(gone@) == rows,
            views(out@) == start + content_deletes(rows.take(i as int), after@),
        decreases gone.len() - i,
    {
        proof {
            assert(rows.take(i + 1).drop_last() =~= rows.take(i as int));
            assert(rows[i as int] == gone[i as int]@);
        }
        let child = gone[i].child();
        if !has_current(after, &child) {
            let ghost so_far = views(out@);
            let expected_version = gone[i].version();
            out.push(Write::DeleteContent { child, expected_version });
            assert(views(out@) =~= so_far.push(
                WriteView::DeleteContent {
                    child: rows[i as int].child(),
                    expected_version: rows[i as int].version(),
                },
            ));
        }
        i += 1;
    }
    proof {
        assert(rows.take(i as int) =~= rows);
    }
    let ghost first = views(out@);
    let new = contents_of(after);
    let ghost rows = live_contents(after@);
    let mut i: usize = 0;
    proof {
        assert(rows.take(0) =~= Seq::<ContentView>::empty());
        assert(views(out@) =~= first + content_upserts(before@, rows.take(0)));
    }
    while i < new.len()
        invariant
            i <= new.len(),
            views(new@) == rows,
            views(out@) == first + content_upserts(before@, rows.take(i as int)),
        decreases new.len() - i,
    {
        proof {
            assert(rows.take(i + 1).drop_last() =~= rows.take(i as int));
            assert(rows[i as int] == new[i as int]@);
        }
        let ghost so_far = views(out@);
        let child = new[i].child();
        match get_current(before, &child) {
            Err(_) => {
                out.push(Write::InsertContent(new[i].clone()));
                assert(views(out@) =~= so_far.push(WriteView::InsertContent(rows[i as int])));
            },
            Ok(old) => {
                if !old.same(&new[i]) {
                    out.push(
                        Write::UpdateContent {
                            expected_version: old.version(),
                            content: new[i].clone(),
                        },
                    );
                    assert(views(out@) =~= so_far.push(
                        WriteView::UpdateContent {
                            expected_version: old@.version(),
                            content: rows[i as int],
                        },
                    ));
                }
            },
        }
        i += 1;
    }
    proof {
        assert(rows.take(i as int) =~= rows);
    }
}

/// The writes that bring tables that hold `before` to hold `after`: one
/// for every revision that `after` has more than `before`, and one for
/// every live row that was added, changed or removed.
pub fn changes(before: &Store, after: &Store) -> (r: Vec<Write>)
    ensures
        views(r@) == changes_spec(before@, after@),
{
    let mut out: Vec<Write> = Vec::new();
    assert(views(out@) =~= Seq::<WriteView>::empty());
    push_appends(&mut out, before, after);
    push_node_changes(&mut out, before, after);
    push_content_changes(&mut out, before, after);
    assert(views(out@) =~= changes_spec(before@, after@));
    out
}

} // verus!
