//! What holds of every store and every node, proved from the definitions of
//! the operations.

use crate::chain::{
    check_version, commit_spec, content_version, lemma_verify_upto_failure,
    lemma_verify_upto_passes, node_version, prev_chain, revised, update_spec, verify_spec,
    verify_upto,
};
use crate::codec::{
    content_bytes, content_fits, lemma_content_bytes_injective, lemma_node_bytes_injective,
    node_bytes, node_fits, same_hashed_fields,
};
use crate::content::{
    create_content_spec, edit_keeps_chain, lemma_create_content, owner, update_content_spec,
};
use crate::error::{Error, HashField};
use crate::graph::{
    edges, link_spec, resealed, set_sequence_spec, transition_spec, with_edge, Direction,
};
use crate::hash::{chain_of, digest_of, is_digest, lemma_seed_is_digest, seed_digest};
use crate::hex::lemma_hex_round_trip;
use crate::models::{ChildView, ContentView, NodeView};
use crate::node_store::{
    attach_content_spec, create_node_spec, first_version, insert_content_spec,
};
use crate::seal::{child_hash_of, lemma_sealed_self_hash, self_hash_of, sealed};
use crate::sha256::sha256;
use crate::store::{
    lemma_current_child, lemma_inserted_lookup, lemma_node_id, lemma_node_snapshot_lookup,
    lemma_snapshot_lookup, lemma_with_current_lookup, lemma_with_node_lookup,
    lemma_with_node_revision_lookup, lemma_with_revision_lookup, node_at, revisions_of,
    StoreView,
};
use crate::table::{lemma_first_index, lemma_first_index_none};
use vstd::prelude::*;

verus! {

/// Where each of the versions 1 to `n` passes its check, the run passes.
pub proof fn lemma_verify_upto_all(s: StoreView, live: NodeView, n: int)
    requires
        n <= i32::MAX,
        forall|w: i32| 1 <= w <= n ==> #[trigger] check_version(s, live, w) is Ok,
    ensures
        verify_upto(s, live, n) is Ok,
    decreases n,
{
    if n > 0 {
        lemma_verify_upto_all(s, live, n - 1);
    }
}

/// A commit that succeeds on a node whose history verifies leaves a history
/// that verifies.
pub proof fn lemma_commit_preserves_chain(
    s: StoreView,
    node_id: i32,
    expected_version: i32,
    new: ContentView,
    now: i64,
)
    requires
        commit_spec(s, node_id, expected_version, new, now).1 is Ok,
        verify_spec(s, node_id) is Ok,
    ensures
        verify_spec(commit_spec(s, node_id, expected_version, new, now).0, node_id) is Ok,
{
    let n = s.node(node_id)->0;
    let child = n.child->0;
    let c = s.current(child)->0;
    let v = n.version;
    let next = revised(c, new, now);
    let unsealed = NodeView { version: (v + 1) as i32, updated: now, ..n };
    let n2 = sealed(unsealed, child_hash_of(next), n.hash_chain);
    let s1 = s.with_node_snapshot(n);
    let s2 = s1.with_snapshot(c);
    let s3 = s2.with_node(n2);
    let s4 = s3.with_current(next);
    assert(commit_spec(s, node_id, expected_version, new, now) == (s4, Ok::<NodeView, Error>(n2)));
    lemma_node_id(s, node_id);
    lemma_current_child(s, child);
    assert(n2.id == node_id && n2.version == v + 1 && n2.child == Some(child));
    assert(next.child() == child);
    // The tables that each step leaves alone.
    assert(s2.nodes == s.nodes && s2.node_revisions == s1.node_revisions);
    assert(s2.posts == s.posts && s2.links == s.links && s2.system == s.system);
    lemma_with_node_lookup(s2, n2, node_id);
    assert(s3.node(node_id) == Some(n2));
    assert(s3.node_revisions == s1.node_revisions);
    assert(s3.posts == s.posts && s3.links == s.links && s3.system == s.system);
    assert(s3.post_revisions == s2.post_revisions && s3.link_revisions == s2.link_revisions
        && s3.system_revisions == s2.system_revisions);
    assert(s3.current(child) == s.current(child));
    lemma_with_current_lookup(s3, next, child);
    assert(s4.current(child) == Some(next));
    assert(s4.nodes == s3.nodes && s4.node_revisions == s1.node_revisions);
    assert(s4.post_revisions == s2.post_revisions && s4.link_revisions == s2.link_revisions
        && s4.system_revisions == s2.system_revisions);
    assert(s4.node(node_id) == Some(n2));
    assert forall|wv: i32| 1 <= wv <= v + 1 implies #[trigger] check_version(s4, n2, wv) is Ok by {
        reveal(check_version);
        let w = wv as int;
        if w <= v {
            lemma_verify_upto_passes(s, n, w, v as int);
            let row = node_version(s, n, wv)->0;
            lemma_node_snapshot_lookup(s, n, node_id, wv);
            assert(s4.node_revision(node_id, wv) == s1.node_revision(node_id, wv));
            assert(node_version(s4, n2, wv) == Some(row));
            let row_child = row.child->0;
            let content = content_version(s, n, row_child, wv)->0;
            lemma_snapshot_lookup(s1, c, row_child, wv);
            assert(s1.revision(row_child, wv) == s.revision(row_child, wv));
            assert(s4.revision(row_child, wv) == s2.revision(row_child, wv));
            assert(content_version(s4, n2, row_child, wv) == Some(content));
            if w > 1 {
                lemma_node_snapshot_lookup(s, n, node_id, (w - 1) as i32);
                assert(s4.node_revision(node_id, (w - 1) as i32) == s1.node_revision(
                    node_id,
                    (w - 1) as i32,
                ));
            }
            assert(prev_chain(s4, n2, wv) == prev_chain(s, n, wv));
        } else {
            lemma_sealed_self_hash(unsealed, child_hash_of(next), n.hash_chain);
            lemma_node_snapshot_lookup(s, n, node_id, v);
            assert(s4.node_revision(node_id, v) == s1.node_revision(node_id, v));
            assert(prev_chain(s4, n2, wv) == Some(n.hash_chain));
        }
    }
    lemma_verify_upto_all(s4, n2, v + 1);
}

/// Attaching the first content to a node leaves a history that verifies.
pub proof fn lemma_attach_starts_chain(s: StoreView, node_id: i32, c: ContentView, now: i64)
    requires
        attach_content_spec(s, node_id, c, now).1 is Ok,
    ensures
        verify_spec(attach_content_spec(s, node_id, c, now).0, node_id) is Ok,
        attach_content_spec(s, node_id, c, now).0.node(node_id) == Some(
            attach_content_spec(s, node_id, c, now).1->Ok_0,
        ),
        attach_content_spec(s, node_id, c, now).1->Ok_0.version == 1,
        attach_content_spec(s, node_id, c, now).1->Ok_0.child == Some(
            first_version(s, c, node_id, now).child(),
        ),
        attach_content_spec(s, node_id, c, now).0.node_revisions == s.node_revisions,
        attach_content_spec(s, node_id, c, now).0.current(
            first_version(s, c, node_id, now).child(),
        ) == Some(first_version(s, c, node_id, now)),
{
    let n = s.node(node_id)->0;
    let (stored, inserted) = insert_content_spec(s, c, node_id, now);
    let first = inserted->Ok_0;
    let child = first.child();
    let unsealed = NodeView { version: 1, updated: now, child: Some(child), ..n };
    let attached = sealed(unsealed, child_hash_of(first), seed_digest());
    let after = stored.with_node(attached);
    assert(attach_content_spec(s, node_id, c, now) == (after, Ok::<NodeView, Error>(attached)));
    lemma_node_id(s, node_id);
    assert(stored.nodes == s.nodes);
    lemma_with_node_lookup(stored, attached, node_id);
    assert(after.node(node_id) == Some(attached));
    let bumped = match c {
        ContentView::PostContent(_) => StoreView { next_post_id: (s.next_post_id + 1) as i32, ..s },
        ContentView::LinkContent(_) => StoreView { next_link_id: (s.next_link_id + 1) as i32, ..s },
        ContentView::SystemContent(_) => s,
    };
    assert(stored == bumped.with_inserted(first));
    assert(bumped.current(child) == s.current(child));
    assert(s.current(child) is None);
    lemma_inserted_lookup(bumped, first, child);
    assert(stored.current(child) == Some(first));
    assert(after.posts == stored.posts && after.links == stored.links && after.system
        == stored.system);
    assert(after.current(child) == Some(first));
    lemma_sealed_self_hash(unsealed, child_hash_of(first), seed_digest());
    lemma_seed_is_digest();
    assert(check_version(after, attached, 1) is Ok) by {
        reveal(check_version);
    }
    assert(verify_upto(after, attached, 0) is Ok);
    assert(verify_upto(after, attached, 1) is Ok);
}

/// The store after the updates, each a content record and a time, are
/// committed to node `node_id` in turn as `commit_update` does; `None` where
/// one of them fails.
pub open spec fn after_updates(s: StoreView, node_id: i32, updates: Seq<(ContentView, i64)>) -> Option<
    StoreView,
>
    decreases updates.len(),
{
    if updates.len() == 0 {
        Some(s)
    } else {
        match after_updates(s, node_id, updates.drop_last()) {
            None => None,
            Some(t) => {
                let (u, r) = update_spec(t, node_id, updates.last().0, updates.last().1);
                if r is Ok {
                    Some(u)
                } else {
                    None
                }
            },
        }
    }
}

/// Chain determinism: whatever updates are committed to a node whose
/// history verifies, the history verifies afterwards.
pub proof fn lemma_chain_determinism(s: StoreView, node_id: i32, updates: Seq<(ContentView, i64)>)
    requires
        verify_spec(s, node_id) is Ok,
        after_updates(s, node_id, updates) is Some,
    ensures
        verify_spec(after_updates(s, node_id, updates)->0, node_id) is Ok,
    decreases updates.len(),
{
    if updates.len() > 0 {
        let t = after_updates(s, node_id, updates.drop_last())->0;
        lemma_chain_determinism(s, node_id, updates.drop_last());
        let n = t.node(node_id)->0;
        lemma_commit_preserves_chain(t, node_id, n.version, updates.last().0, updates.last().1);
    }
}

/// The versions of the revisions of node `id`, in the order of the table.
pub open spec fn revision_versions(rows: Seq<NodeView>, id: i32) -> Seq<i32> {
    Seq::new(revisions_of(rows, id).len(), |i: int| revisions_of(rows, id)[i].version)
}

/// A revision that is added at the end is the last revision of its node
/// and no revision of another.
pub proof fn lemma_revision_versions_push(rows: Seq<NodeView>, row: NodeView, id: i32)
    ensures
        revision_versions(rows.push(row), id) == (if row.id == id {
            revision_versions(rows, id).push(row.version)
        } else {
            revision_versions(rows, id)
        }),
{
    assert(rows.push(row).drop_last() =~= rows);
    if row.id == id {
        assert(revision_versions(rows.push(row), id) =~= revision_versions(rows, id).push(
            row.version,
        ));
    }
}

/// The `count` numbers from `from` on.
pub open spec fn count_up(from: int, count: nat) -> Seq<i32> {
    Seq::new(count, |i: int| (from + i) as i32)
}

/// A commit that succeeds puts the node one version on and adds the node as
/// it was, and nothing else, to the node revisions.
pub proof fn lemma_commit_advances(
    s: StoreView,
    node_id: i32,
    expected_version: i32,
    new: ContentView,
    now: i64,
)
    requires
        commit_spec(s, node_id, expected_version, new, now).1 is Ok,
    ensures
        ({
            let (t, r) = commit_spec(s, node_id, expected_version, new, now);
            let n = s.node(node_id)->0;
            &&& s.node(node_id) is Some
            &&& n.id == node_id
            &&& n.version == expected_version
            &&& expected_version < i32::MAX
            &&& t.node(node_id) == Some(r->Ok_0)
            &&& r->Ok_0.version == expected_version + 1
            &&& t.node_revisions == s.node_revisions.push(n)
        }),
{
    let n = s.node(node_id)->0;
    let child = n.child->0;
    let c = s.current(child)->0;
    let next = revised(c, new, now);
    let unsealed = NodeView { version: (n.version + 1) as i32, updated: now, ..n };
    let n2 = sealed(unsealed, child_hash_of(next), n.hash_chain);
    let s1 = s.with_node_snapshot(n);
    let s2 = s1.with_snapshot(c);
    let s3 = s2.with_node(n2);
    let s4 = s3.with_current(next);
    assert(commit_spec(s, node_id, expected_version, new, now) == (s4, Ok::<NodeView, Error>(n2)));
    lemma_node_id(s, node_id);
    assert(s2.nodes == s.nodes && s2.node_revisions == s1.node_revisions);
    lemma_with_node_lookup(s2, n2, node_id);
    assert(s3.node_revisions == s1.node_revisions);
    assert(s4.nodes == s3.nodes && s4.node_revisions == s1.node_revisions);
}

/// Monotonic versioning: after updates are committed to a node, the node
/// is as many versions on as there were updates, and the node revisions
/// hold, after those they held, one for each version that the node has
/// left behind, in order.
pub proof fn lemma_monotonic_versioning(
    s: StoreView,
    node_id: i32,
    updates: Seq<(ContentView, i64)>,
)
    requires
        s.node(node_id) is Some,
        after_updates(s, node_id, updates) is Some,
    ensures
        ({
            let t = after_updates(s, node_id, updates)->0;
            let from = s.node(node_id)->0.version;
            &&& t.node(node_id) is Some
            &&& t.node(node_id)->0.version == from + updates.len()
            &&& revision_versions(t.node_revisions, node_id) == revision_versions(
                s.node_revisions,
                node_id,
            ) + count_up(from as int, updates.len())
        }),
    decreases updates.len(),
{
    let from = s.node(node_id)->0.version;
    if updates.len() == 0 {
        assert(revision_versions(s.node_revisions, node_id) + count_up(from as int, 0)
            =~= revision_versions(s.node_revisions, node_id));
    } else {
        let before = updates.drop_last();
        let t = after_updates(s, node_id, before)->0;
        lemma_monotonic_versioning(s, node_id, before);
        let n = t.node(node_id)->0;
        lemma_commit_advances(t, node_id, n.version, updates.last().0, updates.last().1);
        let u = after_updates(s, node_id, updates)->0;
        lemma_revision_versions_push(t.node_revisions, n, node_id);
        assert(count_up(from as int, updates.len()) =~= count_up(from as int, before.len()).push(
            n.version,
        ));
        assert(revision_versions(u.node_revisions, node_id) =~= revision_versions(
            s.node_revisions,
            node_id,
        ) + count_up(from as int, updates.len()));
    }
}

/// Concurrent write rejection: of two commits that were both prepared
/// against version `version` of a node, the second is rejected with
/// `Error::Conflict` and changes nothing once the first has succeeded, so the
/// node ends one version on, not two.
pub proof fn lemma_concurrent_commit_rejected(
    s: StoreView,
    node_id: i32,
    version: i32,
    first: ContentView,
    first_now: i64,
    second: ContentView,
    second_now: i64,
)
    requires
        commit_spec(s, node_id, version, first, first_now).1 is Ok,
    ensures
        ({
            let t = commit_spec(s, node_id, version, first, first_now).0;
            &&& commit_spec(t, node_id, version, second, second_now) == (
                t,
                Err::<NodeView, Error>(Error::Conflict),
            )
            &&& t.node(node_id) is Some
            &&& t.node(node_id)->0.version == version + 1
        }),
{
    lemma_commit_advances(s, node_id, version, first, first_now);
}

/// Where no revision carries the identity `id`, the node has no revision
/// versions.
pub proof fn lemma_unused_id_has_no_revisions(rows: Seq<NodeView>, id: i32)
    requires
        node_at(rows, id) is None,
    ensures
        revisions_of(rows, id) == Seq::<NodeView>::empty(),
        revision_versions(rows, id) == Seq::<i32>::empty(),
    decreases rows.len(),
{
    let hit = |r: NodeView| r.id == id;
    lemma_first_index(rows, hit);
    if rows.len() > 0 {
        let init = rows.drop_last();
        assert(forall|j: int| 0 <= j < init.len() ==> init[j] == rows[j]);
        lemma_first_index_none(init, hit);
        lemma_unused_id_has_no_revisions(init, id);
        assert(!hit(rows[rows.len() - 1]));
    }
    assert(revision_versions(rows, id) =~= Seq::<i32>::empty());
}

/// The history of a node from its creation on: after the node is created,
/// its first content attached and any number of updates committed, the
/// history verifies, the node is at version one plus the number of updates,
/// and the node revisions hold exactly one revision of it for each of the
/// versions from 1 to the number of updates, in order.
pub proof fn lemma_history_from_creation(
    s: StoreView,
    created_at: i64,
    first: ContentView,
    attached_at: i64,
    updates: Seq<(ContentView, i64)>,
)
    requires
        create_node_spec(s, created_at).1 is Ok,
        attach_content_spec(
            create_node_spec(s, created_at).0,
            create_node_spec(s, created_at).1->Ok_0.id,
            first,
            attached_at,
        ).1 is Ok,
        after_updates(
            attach_content_spec(
                create_node_spec(s, created_at).0,
                create_node_spec(s, created_at).1->Ok_0.id,
                first,
                attached_at,
            ).0,
            create_node_spec(s, created_at).1->Ok_0.id,
            updates,
        ) is Some,
    ensures
        ({
            let id = create_node_spec(s, created_at).1->Ok_0.id;
            let t = after_updates(
                attach_content_spec(create_node_spec(s, created_at).0, id, first, attached_at).0,
                id,
                updates,
            )->0;
            &&& verify_spec(t, id) is Ok
            &&& t.node(id) is Some
            &&& t.node(id)->0.version == 1 + updates.len()
            &&& revision_versions(t.node_revisions, id) == count_up(1, updates.len())
        }),
{
    let (s1, created) = create_node_spec(s, created_at);
    let id = created->Ok_0.id;
    let (s2, attached) = attach_content_spec(s1, id, first, attached_at);
    assert(s1.node_revisions == s.node_revisions);
    lemma_unused_id_has_no_revisions(s.node_revisions, id);
    lemma_attach_starts_chain(s1, id, first, attached_at);
    lemma_chain_determinism(s2, id, updates);
    lemma_monotonic_versioning(s2, id, updates);
    assert(Seq::<i32>::empty() + count_up(1, updates.len()) =~= count_up(1, updates.len()));
}

/// Tamper detection for content: where the history of a node verifies and
/// the stored content revision of one of its past versions is replaced by a
/// record of the same identity and version whose canonical bytes have
/// another digest, verification fails at exactly that version and names the
/// child hash.
pub proof fn lemma_content_tamper_detected(
    s: StoreView,
    node_id: i32,
    version: i32,
    forged: ContentView,
)
    requires
        verify_spec(s, node_id) is Ok,
        1 <= version < s.node(node_id)->0.version,
        forged.version() == version,
        Some(forged.child()) == s.node_revision(node_id, version)->0.child,
        child_hash_of(forged) != child_hash_of(s.revision(forged.child(), version)->0),
    ensures
        verify_spec(s.with_revision(forged), node_id) == Err::<(), Error>(
            Error::Integrity { version, field: HashField::ChildHash },
        ),
{
    let live = s.node(node_id)->0;
    let t = s.with_revision(forged);
    let child = forged.child();
    lemma_node_id(s, node_id);
    lemma_verify_upto_passes(s, live, version as int, live.version as int);
    assert(t.nodes == s.nodes && t.node_revisions == s.node_revisions);
    assert(t.posts == s.posts && t.links == s.links && t.system == s.system);
    assert(t.node(node_id) == Some(live));
    let row = s.node_revision(node_id, version)->0;
    assert(node_version(s, live, version) == Some(row)) by {
        reveal(check_version);
    }
    assert(s.revision(child, version) is Some
        && child_hash_of(s.revision(child, version)->0) == row.child_hash) by {
        reveal(check_version);
    }
    assert forall|w: i32| 1 <= w < version implies #[trigger] check_version(t, live, w) is Ok by {
        reveal(check_version);
        lemma_verify_upto_passes(s, live, w as int, live.version as int);
        let past = node_version(s, live, w)->0;
        assert(node_version(t, live, w) == Some(past));
        lemma_with_revision_lookup(s, forged, past.child->0, w);
        assert(prev_chain(t, live, w) == prev_chain(s, live, w));
    }
    lemma_verify_upto_all(t, live, version - 1);
    assert(check_version(t, live, version) == Err::<(), Error>(
        Error::Integrity { version, field: HashField::ChildHash },
    )) by {
        reveal(check_version);
        lemma_with_revision_lookup(s, forged, child, version);
        assert(node_version(t, live, version) == Some(row));
    }
    assert(verify_upto(t, live, version as int) == Err::<(), Error>(
        Error::Integrity { version, field: HashField::ChildHash },
    ));
    lemma_verify_upto_failure(t, live, version as int, live.version as int);
}

/// Tamper detection for node fields: where the history of a node verifies
/// and the stored revision of one of its past versions is replaced by a row
/// of the same identity, version and self hash whose canonical bytes have
/// another digest, verification fails at exactly that version and names the
/// self hash.
pub proof fn lemma_node_tamper_detected(s: StoreView, node_id: i32, version: i32, forged: NodeView)
    requires
        verify_spec(s, node_id) is Ok,
        1 <= version < s.node(node_id)->0.version,
        forged.id == node_id,
        forged.version == version,
        forged.self_hash == s.node_revision(node_id, version)->0.self_hash,
        self_hash_of(forged) != self_hash_of(s.node_revision(node_id, version)->0),
    ensures
        verify_spec(s.with_node_revision(forged), node_id) == Err::<(), Error>(
            Error::Integrity { version, field: HashField::SelfHash },
        ),
{
    let live = s.node(node_id)->0;
    let t = s.with_node_revision(forged);
    lemma_node_id(s, node_id);
    lemma_verify_upto_passes(s, live, version as int, live.version as int);
    assert(t.nodes == s.nodes);
    assert(t.posts == s.posts && t.links == s.links && t.system == s.system);
    assert(t.post_revisions == s.post_revisions && t.link_revisions == s.link_revisions
        && t.system_revisions == s.system_revisions);
    assert(t.node(node_id) == Some(live));
    let row = s.node_revision(node_id, version)->0;
    assert(node_version(s, live, version) == Some(row) && self_hash_of(row)
        == row.self_hash) by {
        reveal(check_version);
    }
    assert forall|w: i32| 1 <= w < version implies #[trigger] check_version(t, live, w) is Ok by {
        reveal(check_version);
        lemma_verify_upto_passes(s, live, w as int, live.version as int);
        lemma_with_node_revision_lookup(s, forged, node_id, w);
        if w > 1 {
            lemma_with_node_revision_lookup(s, forged, node_id, (w - 1) as i32);
        }
        let past = node_version(s, live, w)->0;
        assert(node_version(t, live, w) == Some(past));
        assert(content_version(t, live, past.child->0, w) == content_version(
            s,
            live,
            past.child->0,
            w,
        ));
        assert(prev_chain(t, live, w) == prev_chain(s, live, w));
    }
    lemma_verify_upto_all(t, live, version - 1);
    assert(check_version(t, live, version) == Err::<(), Error>(
        Error::Integrity { version, field: HashField::SelfHash },
    )) by {
        reveal(check_version);
        lemma_with_node_revision_lookup(s, forged, node_id, version);
        assert(node_version(t, live, version) == Some(forged));
    }
    assert(verify_upto(t, live, version as int) == Err::<(), Error>(
        Error::Integrity { version, field: HashField::SelfHash },
    ));
    lemma_verify_upto_failure(t, live, version as int, live.version as int);
}

/// Where the history of a node verifies and its live row is replaced by a
/// row of the same identity, version, child and child hash whose self hash
/// and chain digest are those of its own fields, the history verifies
/// afterwards.
pub proof fn lemma_replacement_preserves_chain(s: StoreView, node_id: i32, m: NodeView)
    requires
        verify_spec(s, node_id) is Ok,
        m.id == node_id,
        m.version == s.node(node_id)->0.version,
        m.child == s.node(node_id)->0.child,
        m.child_hash == s.node(node_id)->0.child_hash,
        self_hash_of(m) == m.self_hash,
        m.version >= 1 ==> prev_chain(s, m, m.version) is Some && is_digest(
            prev_chain(s, m, m.version)->0,
        ) && chain_of(m.self_hash, m.child_hash, prev_chain(s, m, m.version)->0) == m.hash_chain,
    ensures
        verify_spec(s.with_node(m), node_id) is Ok,
{
    let n = s.node(node_id)->0;
    let t = s.with_node(m);
    let v = n.version;
    lemma_node_id(s, node_id);
    lemma_with_node_lookup(s, m, node_id);
    assert(t.node(node_id) == Some(m));
    assert(t.node_revisions == s.node_revisions);
    assert(t.posts == s.posts && t.links == s.links && t.system == s.system);
    assert(t.post_revisions == s.post_revisions && t.link_revisions == s.link_revisions
        && t.system_revisions == s.system_revisions);
    assert forall|w: i32| 1 <= w <= v implies #[trigger] check_version(t, m, w) is Ok by {
        reveal(check_version);
        lemma_verify_upto_passes(s, n, w as int, v as int);
        assert(prev_chain(t, m, w) == prev_chain(s, n, w));
        if w < v {
            let past = node_version(s, n, w)->0;
            assert(node_version(t, m, w) == Some(past));
            assert(content_version(t, m, past.child->0, w) == content_version(
                s,
                n,
                past.child->0,
                w,
            ));
        } else {
            assert(node_version(t, m, w) == Some(m));
            assert(content_version(t, m, m.child->0, w) == content_version(s, n, n.child->0, w));
        }
    }
    if v >= 1 {
        lemma_verify_upto_all(t, m, v as int);
    }
}

/// Recording an edge on a node whose history verifies leaves a history that
/// verifies.
pub proof fn lemma_link_preserves_chain(
    s: StoreView,
    node_id: i32,
    target_id: i32,
    direction: Direction,
)
    requires
        verify_spec(s, node_id) is Ok,
        link_spec(s, node_id, target_id, direction).1 is Ok,
    ensures
        verify_spec(link_spec(s, node_id, target_id, direction).0, node_id) is Ok,
{
    let n = s.node(node_id)->0;
    lemma_node_id(s, node_id);
    if !edges(n, direction).contains(target_id) {
        let changed = with_edge(n, target_id, direction);
        let m = resealed(s, changed)->Ok_0;
        if changed.version >= 1 {
            lemma_sealed_self_hash(
                changed,
                changed.child_hash,
                prev_chain(s, changed, changed.version)->0,
            );
        } else {
            assert(verify_upto(s.with_node(m), m, m.version as int) is Ok);
            lemma_with_node_lookup(s, m, node_id);
        }
        if changed.version >= 1 {
            lemma_replacement_preserves_chain(s, node_id, m);
        }
    }
}

/// Moving the workflow of a node whose history verifies leaves a history
/// that verifies.
pub proof fn lemma_transition_preserves_chain(s: StoreView, node_id: i32, to: Seq<char>)
    requires
        verify_spec(s, node_id) is Ok,
        transition_spec(s, node_id, to).1 is Ok,
    ensures
        verify_spec(transition_spec(s, node_id, to).0, node_id) is Ok,
{
    let n = s.node(node_id)->0;
    lemma_node_id(s, node_id);
    let changed = NodeView { workflow: to, ..n };
    let m = resealed(s, changed)->Ok_0;
    if changed.version >= 1 {
        lemma_sealed_self_hash(
            changed,
            changed.child_hash,
            prev_chain(s, changed, changed.version)->0,
        );
        lemma_replacement_preserves_chain(s, node_id, m);
    } else {
        assert(verify_upto(s.with_node(m), m, m.version as int) is Ok);
        lemma_with_node_lookup(s, m, node_id);
    }
}

/// Setting the sequence links of a node whose history verifies leaves a
/// history that verifies: the links enter no hash.
pub proof fn lemma_set_sequence_preserves_chain(
    s: StoreView,
    node_id: i32,
    next: Option<i32>,
    last: Option<i32>,
)
    requires
        verify_spec(s, node_id) is Ok,
        s.node(node_id) is Some,
    ensures
        verify_spec(set_sequence_spec(s, node_id, next, last).0, node_id) is Ok,
{
    let n = s.node(node_id)->0;
    lemma_node_id(s, node_id);
    let m = NodeView { node_next: next, node_last: last, ..n };
    assert(self_hash_of(m) == self_hash_of(n)) by {
        reveal(node_bytes);
    }
    if n.version >= 1 {
        lemma_verify_upto_passes(s, n, n.version as int, n.version as int);
        assert(check_version(s, n, n.version) is Ok);
        assert(self_hash_of(n) == n.self_hash && prev_chain(s, n, n.version) is Some
            && is_digest(prev_chain(s, n, n.version)->0) && chain_of(
            n.self_hash,
            n.child_hash,
            prev_chain(s, n, n.version)->0,
        ) == n.hash_chain) by {
            reveal(check_version);
        }
        assert(prev_chain(s, m, m.version) == prev_chain(s, n, n.version));
        lemma_replacement_preserves_chain(s, node_id, m);
    } else {
        assert(verify_upto(s.with_node(m), m, m.version as int) is Ok);
        lemma_with_node_lookup(s, m, node_id);
    }
}

/// After a commit to a node, the live record of the node is the revised
/// one, and the node names the same record as before.
pub proof fn lemma_commit_stores_revised(
    s: StoreView,
    node_id: i32,
    expected_version: i32,
    new: ContentView,
    now: i64,
)
    requires
        commit_spec(s, node_id, expected_version, new, now).1 is Ok,
    ensures
        ({
            let child = s.node(node_id)->0.child->0;
            let (t, r) = commit_spec(s, node_id, expected_version, new, now);
            &&& s.node(node_id) is Some
            &&& s.node(node_id)->0.child is Some
            &&& s.current(child) is Some
            &&& s.current(child)->0.version() == expected_version
            &&& s.current(child)->0.kind() == new.kind()
            &&& t.current(child) == Some(revised(s.current(child)->0, new, now))
            &&& r->Ok_0.child == Some(child)
        }),
{
    let n = s.node(node_id)->0;
    let child = n.child->0;
    let c = s.current(child)->0;
    let next = revised(c, new, now);
    let advanced = sealed(
        NodeView { version: (n.version + 1) as i32, updated: now, ..n },
        child_hash_of(next),
        n.hash_chain,
    );
    let s1 = s.with_node_snapshot(n);
    let s2 = s1.with_snapshot(c);
    let s3 = s2.with_node(advanced);
    lemma_current_child(s, child);
    assert(s2.posts == s.posts && s2.links == s.links && s2.system == s.system);
    assert(s3.posts == s.posts && s3.links == s.links && s3.system == s.system);
    assert(s3.current(child) == s.current(child));
    lemma_with_current_lookup(s3, next, child);
}

/// What an edit that succeeds is: the commit to the node that owns the
/// record, on condition of the version that the edit carries.
pub proof fn lemma_edit_is_commit(s: StoreView, new: ContentView, now: i64)
    requires
        update_content_spec(s, new, now).1 is Ok,
    ensures
        ({
            let c = s.current(new.child())->0;
            let node_id = c.parent();
            &&& s.current(new.child()) is Some
            &&& c.version() == new.version()
            &&& owner(s, c) is Some
            &&& s.node(node_id) is Some
            &&& s.node(node_id)->0.child == Some(new.child())
            &&& commit_spec(s, node_id, new.version(), new, now).1 is Ok
            &&& update_content_spec(s, new, now).0 == commit_spec(
                s,
                node_id,
                new.version(),
                new,
                now,
            ).0
            &&& update_content_spec(s, new, now).1 == Ok::<ContentView, Error>(
                revised(c, new, now),
            )
        }),
{
    lemma_current_child(s, new.child());
}

/// An edit of a record of a node whose history verifies leaves a history
/// that verifies.
pub proof fn lemma_edit_preserves_chain(s: StoreView, new: ContentView, now: i64)
    requires
        update_content_spec(s, new, now).1 is Ok,
    ensures
        edit_keeps_chain(s, update_content_spec(s, new, now).0, new),
{
    lemma_edit_is_commit(s, new, now);
    let node_id = s.current(new.child())->0.parent();
    if verify_spec(s, node_id) is Ok {
        lemma_commit_preserves_chain(s, node_id, new.version(), new, now);
    }
}

/// Concurrent write rejection for edits: of two edits of a record that both
/// carry the version at which the record was read, the second is rejected
/// with `Error::Conflict` and changes nothing once the first has succeeded,
/// so the record ends one version on, not two.
pub proof fn lemma_concurrent_edit_rejected(
    s: StoreView,
    first: ContentView,
    first_now: i64,
    second: ContentView,
    second_now: i64,
)
    requires
        update_content_spec(s, first, first_now).1 is Ok,
        second.child() == first.child(),
        second.version() == first.version(),
    ensures
        ({
            let t = update_content_spec(s, first, first_now).0;
            &&& update_content_spec(t, second, second_now) == (
                t,
                Err::<ContentView, Error>(Error::Conflict),
            )
            &&& t.current(first.child()) is Some
            &&& t.current(first.child())->0.version() == first.version() + 1
        }),
{
    lemma_edit_is_commit(s, first, first_now);
    let node_id = s.current(first.child())->0.parent();
    lemma_commit_stores_revised(s, node_id, first.version(), first, first_now);
    lemma_commit_advances(s, node_id, first.version(), first, first_now);
}

/// The store after the edits, each a content record and a time, are
/// committed in turn as `update_content` commits them, to the record
/// `child` and each with the version that the record is at; `None` where
/// one of them fails.
pub open spec fn after_edits(s: StoreView, child: ChildView, edits: Seq<(ContentView, i64)>) -> Option<
    StoreView,
>
    decreases edits.len(),
{
    if edits.len() == 0 {
        Some(s)
    } else {
        match after_edits(s, child, edits.drop_last()) {
            None => None,
            Some(t) => {
                let (u, r) = update_content_spec(t, edits.last().0, edits.last().1);
                if r is Ok && edits.last().0.child() == child {
                    Some(u)
                } else {
                    None
                }
            },
        }
    }
}

/// Whether `child` is the live record of node `node_id`, at the version of
/// the node.
pub open spec fn is_record_of(s: StoreView, child: ChildView, node_id: i32) -> bool {
    &&& s.node(node_id) is Some
    &&& s.node(node_id)->0.child == Some(child)
    &&& s.current(child) is Some
    &&& s.current(child)->0.parent() == node_id
    &&& s.current(child)->0.version() == s.node(node_id)->0.version
}

/// The history of a record under edits: after edits are committed to the
/// record of a node, node and record are as many versions on as there were
/// edits, the node revisions hold, after those they held, one for each
/// version that the node has left behind, in order, and where the history
/// of the node verified before it verifies afterwards.
pub proof fn lemma_edits_history(
    s: StoreView,
    child: ChildView,
    node_id: i32,
    edits: Seq<(ContentView, i64)>,
)
    requires
        is_record_of(s, child, node_id),
        after_edits(s, child, edits) is Some,
    ensures
        ({
            let t = after_edits(s, child, edits)->0;
            let from = s.node(node_id)->0.version;
            &&& is_record_of(t, child, node_id)
            &&& t.node(node_id)->0.version == from + edits.len()
            &&& revision_versions(t.node_revisions, node_id) == revision_versions(
                s.node_revisions,
                node_id,
            ) + count_up(from as int, edits.len())
            &&& verify_spec(s, node_id) is Ok ==> verify_spec(t, node_id) is Ok
        }),
    decreases edits.len(),
{
    let from = s.node(node_id)->0.version;
    if edits.len() == 0 {
        assert(revision_versions(s.node_revisions, node_id) + count_up(from as int, 0)
            =~= revision_versions(s.node_revisions, node_id));
    } else {
        let before = edits.drop_last();
        let t = after_edits(s, child, before)->0;
        lemma_edits_history(s, child, node_id, before);
        let (new, now) = edits.last();
        let n = t.node(node_id)->0;
        let u = update_content_spec(t, new, now).0;
        lemma_edit_is_commit(t, new, now);
        lemma_commit_advances(t, node_id, new.version(), new, now);
        lemma_commit_stores_revised(t, node_id, new.version(), new, now);
        if verify_spec(t, node_id) is Ok {
            lemma_commit_preserves_chain(t, node_id, new.version(), new, now);
        }
        lemma_revision_versions_push(t.node_revisions, n, node_id);
        assert(count_up(from as int, edits.len()) =~= count_up(from as int, before.len()).push(
            n.version,
        ));
        assert(revision_versions(u.node_revisions, node_id) =~= revision_versions(
            s.node_revisions,
            node_id,
        ) + count_up(from as int, edits.len()));
    }
}

/// The history of a record from its creation on: after a record is created
/// and any number of edits committed to it, the history of its node
/// verifies, node and record are at version one plus the number of edits,
/// and the node revisions hold exactly one revision of the node for each of
/// the versions from 1 to the number of edits, in order.
pub proof fn lemma_created_history(
    s: StoreView,
    c: ContentView,
    created_at: i64,
    edits: Seq<(ContentView, i64)>,
)
    requires
        create_content_spec(s, c, created_at).1 is Ok,
        after_edits(
            create_content_spec(s, c, created_at).0,
            create_content_spec(s, c, created_at).1->Ok_0.child(),
            edits,
        ) is Some,
    ensures
        ({
            let first = create_content_spec(s, c, created_at).1->Ok_0;
            let node_id = first.parent();
            let t = after_edits(create_content_spec(s, c, created_at).0, first.child(), edits)->0;
            &&& verify_spec(t, node_id) is Ok
            &&& is_record_of(t, first.child(), node_id)
            &&& t.node(node_id)->0.version == 1 + edits.len()
            &&& revision_versions(t.node_revisions, node_id) == count_up(1, edits.len())
        }),
{
    let (created, r) = create_content_spec(s, c, created_at);
    let first = r->Ok_0;
    let node_id = first.parent();
    lemma_create_content(s, c, created_at);
    assert(!s.node_in_use(node_id));
    lemma_unused_id_has_no_revisions(s.node_revisions, node_id);
    lemma_edits_history(created, first.child(), node_id, edits);
    assert(Seq::<i32>::empty() + count_up(1, edits.len()) =~= count_up(1, edits.len()));
}

/// Tamper detection for content, in terms of the hash function: where the
/// history of a node verifies and the stored content revision of one of its
/// past versions is replaced by another record of the same identity and
/// version, then verification fails at exactly that version and names the
/// child hash, or else the two records are a collision of SHA-256: their
/// canonical bytes differ and have the same hash value.
pub proof fn lemma_content_tamper_or_collision(
    s: StoreView,
    node_id: i32,
    version: i32,
    forged: ContentView,
)
    requires
        verify_spec(s, node_id) is Ok,
        1 <= version < s.node(node_id)->0.version,
        forged.version() == version,
        Some(forged.child()) == s.node_revision(node_id, version)->0.child,
        forged != s.revision(forged.child(), version)->0,
        content_fits(forged),
        content_fits(s.revision(forged.child(), version)->0),
    ensures
        ({
            let stored = s.revision(forged.child(), version)->0;
            ||| verify_spec(s.with_revision(forged), node_id) == Err::<(), Error>(
                Error::Integrity { version, field: HashField::ChildHash },
            )
            ||| content_bytes(forged) != content_bytes(stored) && sha256(content_bytes(forged))
                == sha256(content_bytes(stored))
        }),
{
    let stored = s.revision(forged.child(), version)->0;
    if content_bytes(forged) == content_bytes(stored) {
        lemma_content_bytes_injective(forged, stored);
    }
    if child_hash_of(forged) != child_hash_of(stored) {
        lemma_content_tamper_detected(s, node_id, version, forged);
    } else {
        reveal(digest_of);
        lemma_hex_round_trip(sha256(content_bytes(forged)));
        lemma_hex_round_trip(sha256(content_bytes(stored)));
    }
}

/// Tamper detection for node fields, in terms of the hash function: where
/// the history of a node verifies and the stored revision of one of its past
/// versions is replaced by a row of the same identity, version and self
/// hash that differs from it in a field other than the hashes and the
/// sequence links, then verification fails at exactly that version and
/// names the self hash, or else the two rows are a collision of SHA-256:
/// their canonical bytes differ and have the same hash value.
pub proof fn lemma_node_tamper_or_collision(
    s: StoreView,
    node_id: i32,
    version: i32,
    forged: NodeView,
)
    requires
        verify_spec(s, node_id) is Ok,
        1 <= version < s.node(node_id)->0.version,
        forged.id == node_id,
        forged.version == version,
        forged.self_hash == s.node_revision(node_id, version)->0.self_hash,
        !same_hashed_fields(forged, s.node_revision(node_id, version)->0),
        node_fits(forged),
        node_fits(s.node_revision(node_id, version)->0),
    ensures
        ({
            let stored = s.node_revision(node_id, version)->0;
            ||| verify_spec(s.with_node_revision(forged), node_id) == Err::<(), Error>(
                Error::Integrity { version, field: HashField::SelfHash },
            )
            ||| node_bytes(forged) != node_bytes(stored) && sha256(node_bytes(forged)) == sha256(
                node_bytes(stored),
            )
        }),
{
    let stored = s.node_revision(node_id, version)->0;
    if node_bytes(forged) == node_bytes(stored) {
        lemma_node_bytes_injective(forged, stored);
    }
    if self_hash_of(forged) != self_hash_of(stored) {
        lemma_node_tamper_detected(s, node_id, version, forged);
    } else {
        reveal(digest_of);
        lemma_hex_round_trip(sha256(node_bytes(forged)));
        lemma_hex_round_trip(sha256(node_bytes(stored)));
    }
}

} // verus!
