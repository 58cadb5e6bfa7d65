//! The canonical byte form of content records and of nodes.
//!
//! A record is written field by field in a fixed order. A 32-bit integer is
//! four bytes and a 64-bit integer eight, least significant byte first, in
//! two's complement. A text is the number of bytes of its UTF-8 form as a
//! 64-bit integer, followed by those bytes. A content record starts with one
//! byte that tells its kind: 1 for an article, 2 for a link, 3 for a system
//! entry.

use crate::models::{
    child_view, Child, ChildView, Content, ContentView, Link, LinkView, Node, NodeView, Post,
    PostView, System, SystemView,
};
use vstd::bytes::{
    lemma_auto_spec_u32_to_from_le_bytes, lemma_auto_spec_u64_to_from_le_bytes,
    spec_u32_from_le_bytes, spec_u32_to_le_bytes, spec_u64_from_le_bytes, spec_u64_to_le_bytes,
    u32_from_le_bytes, u32_to_le_bytes, u64_from_le_bytes, u64_to_le_bytes,
};
use vstd::prelude::*;
use vstd::slice::{slice_subrange, slice_to_vec};
use vstd::utf8::{
    decode_utf8, encode_utf8, encode_utf8_decode_utf8, encode_utf8_valid_utf8, valid_utf8,
};

verus! {

/// The kind byte of an article.
pub const TAG_ARTICLE: u8 = 1;

/// The kind byte of a link.
pub const TAG_LINK: u8 = 2;

/// The kind byte of a system entry.
pub const TAG_SYSTEM: u8 = 3;

/// The four bytes of a 32-bit integer.
pub open spec fn i32_bytes(x: i32) -> Seq<u8> {
    spec_u32_to_le_bytes(x as u32)
}

/// The eight bytes of a 64-bit integer.
pub open spec fn i64_bytes(x: i64) -> Seq<u8> {
    spec_u64_to_le_bytes(x as u64)
}

/// The bytes of a text: the length of its UTF-8 form, then that form.
pub open spec fn text_bytes(t: Seq<char>) -> Seq<u8> {
    spec_u64_to_le_bytes(encode_utf8(t).len() as u64) + encode_utf8(t)
}

/// Whether the length of the UTF-8 form of `t` fits the length field.
pub open spec fn text_fits(t: Seq<char>) -> bool {
    encode_utf8(t).len() <= u64::MAX
}

/// The canonical bytes of an article.
#[verifier::opaque]
pub open spec fn post_bytes(p: PostView) -> Seq<u8> {
    seq![TAG_ARTICLE] + (i32_bytes(p.id) + (i32_bytes(p.version) + (i32_bytes(p.parent) + (
    i64_bytes(p.time) + (i64_bytes(p.updated) + (text_bytes(p.title) + (text_bytes(p.body) + (
    text_bytes(p.tags) + text_bytes(p.summary)))))))))
}

/// The canonical bytes of a link.
#[verifier::opaque]
pub open spec fn link_bytes(l: LinkView) -> Seq<u8> {
    seq![TAG_LINK] + (i32_bytes(l.id) + (i32_bytes(l.version) + (i32_bytes(l.parent) + (
    i64_bytes(l.time) + (i64_bytes(l.updated) + (text_bytes(l.text) + (text_bytes(l.title) + (
    text_bytes(l.url) + text_bytes(l.tags)))))))))
}

/// The canonical bytes of a system entry.
#[verifier::opaque]
pub open spec fn system_bytes(s: SystemView) -> Seq<u8> {
    seq![TAG_SYSTEM] + (i32_bytes(s.version) + (i32_bytes(s.parent) + (i64_bytes(s.time) + (
    i64_bytes(s.updated) + (text_bytes(s.key) + text_bytes(s.data))))))
}

/// The canonical bytes of a content record: what its child hash is the
/// digest of.
pub open spec fn content_bytes(c: ContentView) -> Seq<u8> {
    match c {
        ContentView::PostContent(p) => post_bytes(p),
        ContentView::LinkContent(l) => link_bytes(l),
        ContentView::SystemContent(s) => system_bytes(s),
    }
}

/// Whether every text of the record fits its length field. This holds of
/// the view of every record in memory.
pub open spec fn content_fits(c: ContentView) -> bool {
    match c {
        ContentView::PostContent(p) => text_fits(p.title) && text_fits(p.body) && text_fits(p.tags)
            && text_fits(p.summary),
        ContentView::LinkContent(l) => text_fits(l.text) && text_fits(l.title) && text_fits(l.url)
            && text_fits(l.tags),
        ContentView::SystemContent(s) => text_fits(s.key) && text_fits(s.data),
    }
}

/// Whether `s` starts with a 32-bit integer.
pub open spec fn has_i32(s: Seq<u8>) -> bool {
    s.len() >= 4
}

/// The 32-bit integer that `s` starts with.
pub open spec fn i32_at(s: Seq<u8>) -> i32 {
    spec_u32_from_le_bytes(s.take(4)) as i32
}

/// Whether `s` starts with a 64-bit integer.
pub open spec fn has_i64(s: Seq<u8>) -> bool {
    s.len() >= 8
}

/// The 64-bit integer that `s` starts with.
pub open spec fn i64_at(s: Seq<u8>) -> i64 {
    spec_u64_from_le_bytes(s.take(8)) as i64
}

/// The length field that `s` starts with.
pub open spec fn text_len(s: Seq<u8>) -> u64 {
    spec_u64_from_le_bytes(s.take(8))
}

/// The bytes that the length field at the start of `s` announces.
pub open spec fn text_raw(s: Seq<u8>) -> Seq<u8> {
    s.subrange(8, 8 + text_len(s))
}

/// Whether `s` starts with a text.
pub open spec fn has_text(s: Seq<u8>) -> bool {
    s.len() >= 8 && s.len() - 8 >= text_len(s) && valid_utf8(text_raw(s))
}

/// The text that `s` starts with.
pub open spec fn text_at(s: Seq<u8>) -> Seq<char> {
    decode_utf8(text_raw(s))
}

/// What follows the text that `s` starts with.
pub open spec fn after_text(s: Seq<u8>) -> Seq<u8> {
    s.skip(8 + text_len(s))
}

/// The article that `s`, the bytes after the kind byte, stands for.
pub open spec fn parse_post(s: Seq<u8>) -> Option<PostView> {
    let s1 = s.skip(4);
    let s2 = s1.skip(4);
    let s3 = s2.skip(4);
    let s4 = s3.skip(8);
    let s5 = s4.skip(8);
    let s6 = after_text(s5);
    let s7 = after_text(s6);
    let s8 = after_text(s7);
    let s9 = after_text(s8);
    if has_i32(s) && has_i32(s1) && has_i32(s2) && has_i64(s3) && has_i64(s4) && has_text(s5)
        && has_text(s6) && has_text(s7) && has_text(s8) && s9.len() == 0 {
        Some(
            PostView {
                id: i32_at(s),
                version: i32_at(s1),
                parent: i32_at(s2),
                time: i64_at(s3),
                updated: i64_at(s4),
                title: text_at(s5),
                body: text_at(s6),
                tags: text_at(s7),
                summary: text_at(s8),
            },
        )
    } else {
        None
    }
}

/// The link that `s`, the bytes after the kind byte, stands for.
pub open spec fn parse_link(s: Seq<u8>) -> Option<LinkView> {
    let s1 = s.skip(4);
    let s2 = s1.skip(4);
    let s3 = s2.skip(4);
    let s4 = s3.skip(8);
    let s5 = s4.skip(8);
    let s6 = after_text(s5);
    let s7 = after_text(s6);
    let s8 = after_text(s7);
    let s9 = after_text(s8);
    if has_i32(s) && has_i32(s1) && has_i32(s2) && has_i64(s3) && has_i64(s4) && has_text(s5)
        && has_text(s6) && has_text(s7) && has_text(s8) && s9.len() == 0 {
        Some(
            LinkView {
                id: i32_at(s),
                version: i32_at(s1),
                parent: i32_at(s2),
                time: i64_at(s3),
                updated: i64_at(s4),
                text: text_at(s5),
                title: text_at(s6),
                url: text_at(s7),
                tags: text_at(s8),
            },
        )
    } else {
        None
    }
}

/// The system entry that `s`, the bytes after the kind byte, stands for.
pub open spec fn parse_system(s: Seq<u8>) -> Option<SystemView> {
    let s1 = s.skip(4);
    let s2 = s1.skip(4);
    let s3 = s2.skip(8);
    let s4 = s3.skip(8);
    let s5 = after_text(s4);
    let s6 = after_text(s5);
    if has_i32(s) && has_i32(s1) && has_i64(s2) && has_i64(s3) && has_text(s4) && has_text(s5)
        && s6.len() == 0 {
        Some(
            SystemView {
                version: i32_at(s),
                parent: i32_at(s1),
                time: i64_at(s2),
                updated: i64_at(s3),
                key: text_at(s4),
                data: text_at(s5),
            },
        )
    } else {
        None
    }
}

/// The content record that `bytes` stands for, if it is the canonical form
/// of one.
pub open spec fn parse_content(bytes: Seq<u8>) -> Option<ContentView> {
    if bytes.len() == 0 {
        None
    } else if bytes[0] == TAG_ARTICLE {
        match parse_post(bytes.skip(1)) {
            Some(p) => Some(ContentView::PostContent(p)),
            None => None,
        }
    } else if bytes[0] == TAG_LINK {
        match parse_link(bytes.skip(1)) {
            Some(l) => Some(ContentView::LinkContent(l)),
            None => None,
        }
    } else if bytes[0] == TAG_SYSTEM {
        match parse_system(bytes.skip(1)) {
            Some(s) => Some(ContentView::SystemContent(s)),
            None => None,
        }
    } else {
        None
    }
}

proof fn lemma_i32_first(x: i32, rest: Seq<u8>)
    ensures
        has_i32(i32_bytes(x) + rest),
        i32_at(i32_bytes(x) + rest) == x,
        (i32_bytes(x) + rest).skip(4) == rest,
{
    lemma_auto_spec_u32_to_from_le_bytes();
    let e = i32_bytes(x);
    assert((e + rest).take(4) =~= e);
    assert((e + rest).skip(4) =~= rest);
    assert((x as u32) as i32 == x) by (bit_vector);
}

proof fn lemma_i64_first(x: i64, rest: Seq<u8>)
    ensures
        has_i64(i64_bytes(x) + rest),
        i64_at(i64_bytes(x) + rest) == x,
        (i64_bytes(x) + rest).skip(8) == rest,
{
    lemma_auto_spec_u64_to_from_le_bytes();
    let e = i64_bytes(x);
    assert((e + rest).take(8) =~= e);
    assert((e + rest).skip(8) =~= rest);
    assert((x as u64) as i64 == x) by (bit_vector);
}

proof fn lemma_text_first(t: Seq<char>, rest: Seq<u8>)
    requires
        text_fits(t),
    ensures
        has_text(text_bytes(t) + rest),
        text_at(text_bytes(t) + rest) == t,
        after_text(text_bytes(t) + rest) == rest,
{
    lemma_auto_spec_u64_to_from_le_bytes();
    let raw = encode_utf8(t);
    let n = raw.len() as u64;
    let head = spec_u64_to_le_bytes(n);
    let s = text_bytes(t) + rest;
    assert(s.take(8) =~= head);
    assert(text_len(s) == n);
    assert(s.subrange(8, 8 + n) =~= raw);
    assert(s.skip(8 + n) =~= rest);
    encode_utf8_valid_utf8(t);
    encode_utf8_decode_utf8(t);
}

proof fn lemma_post_round_trip(p: PostView)
    requires
        content_fits(ContentView::PostContent(p)),
    ensures
        parse_post(post_bytes(p).skip(1)) == Some(p),
{
    reveal(post_bytes);
    let r9 = Seq::<u8>::empty();
    let r8 = text_bytes(p.summary);
    let r7 = text_bytes(p.tags) + r8;
    let r6 = text_bytes(p.body) + r7;
    let r5 = text_bytes(p.title) + r6;
    let r4 = i64_bytes(p.updated) + r5;
    let r3 = i64_bytes(p.time) + r4;
    let r2 = i32_bytes(p.parent) + r3;
    let r1 = i32_bytes(p.version) + r2;
    let r0 = i32_bytes(p.id) + r1;
    assert(post_bytes(p).skip(1) =~= r0);
    assert(text_bytes(p.summary) + r9 =~= r8);
    lemma_i32_first(p.id, r1);
    lemma_i32_first(p.version, r2);
    lemma_i32_first(p.parent, r3);
    lemma_i64_first(p.time, r4);
    lemma_i64_first(p.updated, r5);
    lemma_text_first(p.title, r6);
    lemma_text_first(p.body, r7);
    lemma_text_first(p.tags, r8);
    lemma_text_first(p.summary, r9);
}

proof fn lemma_link_round_trip(l: LinkView)
    requires
        content_fits(ContentView::LinkContent(l)),
    ensures
        parse_link(link_bytes(l).skip(1)) == Some(l),
{
    reveal(link_bytes);
    let r9 = Seq::<u8>::empty();
    let r8 = text_bytes(l.tags);
    let r7 = text_bytes(l.url) + r8;
    let r6 = text_bytes(l.title) + r7;
    let r5 = text_bytes(l.text) + r6;
    let r4 = i64_bytes(l.updated) + r5;
    let r3 = i64_bytes(l.time) + r4;
    let r2 = i32_bytes(l.parent) + r3;
    let r1 = i32_bytes(l.version) + r2;
    let r0 = i32_bytes(l.id) + r1;
    assert(link_bytes(l).skip(1) =~= r0);
    assert(text_bytes(l.tags) + r9 =~= r8);
    lemma_i32_first(l.id, r1);
    lemma_i32_first(l.version, r2);
    lemma_i32_first(l.parent, r3);
    lemma_i64_first(l.time, r4);
    lemma_i64_first(l.updated, r5);
    lemma_text_first(l.text, r6);
    lemma_text_first(l.title, r7);
    lemma_text_first(l.url, r8);
    lemma_text_first(l.tags, r9);
}

proof fn lemma_system_round_trip(s: SystemView)
    requires
        content_fits(ContentView::SystemContent(s)),
    ensures
        parse_system(system_bytes(s).skip(1)) == Some(s),
{
    reveal(system_bytes);
    let r6 = Seq::<u8>::empty();
    let r5 = text_bytes(s.data);
    let r4 = text_bytes(s.key) + r5;
    let r3 = i64_bytes(s.updated) + r4;
    let r2 = i64_bytes(s.time) + r3;
    let r1 = i32_bytes(s.parent) + r2;
    let r0 = i32_bytes(s.version) + r1;
    assert(system_bytes(s).skip(1) =~= r0);
    assert(text_bytes(s.data) + r6 =~= r5);
    lemma_i32_first(s.version, r1);
    lemma_i32_first(s.parent, r2);
    lemma_i64_first(s.time, r3);
    lemma_i64_first(s.updated, r4);
    lemma_text_first(s.key, r5);
    lemma_text_first(s.data, r6);
}

/// Reading the canonical bytes of a record yields the record: the canonical
/// form loses nothing, for every kind of content.
pub proof fn lemma_content_round_trip(c: ContentView)
    requires
        content_fits(c),
    ensures
        parse_content(content_bytes(c)) == Some(c),
{
    match c {
        ContentView::PostContent(p) => {
            reveal(post_bytes);
            lemma_post_round_trip(p);
        },
        ContentView::LinkContent(l) => {
            reveal(link_bytes);
            lemma_link_round_trip(l);
        },
        ContentView::SystemContent(s) => {
            reveal(system_bytes);
            lemma_system_round_trip(s);
        },
    }
}

/// Two records with the same canonical bytes are the same record.
pub proof fn lemma_content_bytes_injective(a: ContentView, b: ContentView)
    requires
        content_fits(a),
        content_fits(b),
        content_bytes(a) == content_bytes(b),
    ensures
        a == b,
{
    lemma_content_round_trip(a);
    lemma_content_round_trip(b);
}

/// The bytes of a list of node identities without its length field.
pub open spec fn ids_body(ids: Seq<i32>) -> Seq<u8>
    decreases ids.len(),
{
    if ids.len() == 0 {
        Seq::empty()
    } else {
        ids_body(ids.drop_last()) + i32_bytes(ids.last())
    }
}

/// The bytes of a list of node identities: their number as a 64-bit
/// integer, then each of them.
pub open spec fn ids_bytes(ids: Seq<i32>) -> Seq<u8> {
    spec_u64_to_le_bytes(ids.len() as u64) + ids_body(ids)
}

/// The bytes of a node's reference to its content: the byte 0 where there is
/// none, else the kind byte and the identity of the record.
pub open spec fn child_bytes(child: Option<ChildView>) -> Seq<u8> {
    match child {
        None => seq![0u8],
        Some(ChildView::Article(id)) => seq![TAG_ARTICLE] + i32_bytes(id),
        Some(ChildView::Link(id)) => seq![TAG_LINK] + i32_bytes(id),
        Some(ChildView::System(key)) => seq![TAG_SYSTEM] + text_bytes(key),
    }
}

/// The canonical bytes of a node: what its self hash is the digest of. They
/// hold every field but the three hashes and the two sequence links.
#[verifier::opaque]
pub open spec fn node_bytes(n: NodeView) -> Seq<u8> {
    i32_bytes(n.id) + (i32_bytes(n.version) + (i64_bytes(n.time) + (i64_bytes(n.updated) + (
    text_bytes(n.labels) + (text_bytes(n.workflow) + (text_bytes(n.permissions) + (ids_bytes(
        n.paths_to,
    ) + (ids_bytes(n.paths_from) + child_bytes(n.child)))))))))
}

/// Whether two nodes agree in every field that enters the canonical bytes:
/// in all but the three hashes and the two sequence links.
pub open spec fn same_hashed_fields(a: NodeView, b: NodeView) -> bool {
    &&& a.id == b.id
    &&& a.version == b.version
    &&& a.time == b.time
    &&& a.updated == b.updated
    &&& a.labels == b.labels
    &&& a.workflow == b.workflow
    &&& a.permissions == b.permissions
    &&& a.paths_to == b.paths_to
    &&& a.paths_from == b.paths_from
    &&& a.child == b.child
}

/// Whether every text and every list of the node fits its length field.
/// This holds of the view of every node in memory.
pub open spec fn node_fits(n: NodeView) -> bool {
    &&& text_fits(n.labels)
    &&& text_fits(n.workflow)
    &&& text_fits(n.permissions)
    &&& n.paths_to.len() <= u64::MAX
    &&& n.paths_from.len() <= u64::MAX
    &&& n.child matches Some(ChildView::System(key)) ==> text_fits(key)
}

/// The identities that `s` starts with: as many as the length field at its
/// start announces.
pub open spec fn ids_at(s: Seq<u8>) -> Seq<i32> {
    Seq::new(text_len(s) as nat, |k: int| i32_at(s.skip(8 + 4 * k)))
}

/// What follows the identities that `s` starts with.
pub open spec fn after_ids(s: Seq<u8>) -> Seq<u8> {
    s.skip(8 + 4 * text_len(s))
}

proof fn lemma_ids_body(ids: Seq<i32>, k: int)
    requires
        0 <= k < ids.len(),
    ensures
        ids_body(ids).len() == 4 * ids.len(),
        ids_body(ids).subrange(4 * k, 4 * k + 4) == i32_bytes(ids[k]),
    decreases ids.len(),
{
    lemma_auto_spec_u32_to_from_le_bytes();
    let init = ids.drop_last();
    lemma_ids_body_len(init);
    if k < init.len() {
        lemma_ids_body(init, k);
        assert(ids_body(ids).subrange(4 * k, 4 * k + 4) =~= ids_body(init).subrange(
            4 * k,
            4 * k + 4,
        ));
    } else {
        assert(ids_body(ids).subrange(4 * k, 4 * k + 4) =~= i32_bytes(ids.last()));
    }
}

proof fn lemma_ids_body_len(ids: Seq<i32>)
    ensures
        ids_body(ids).len() == 4 * ids.len(),
    decreases ids.len(),
{
    lemma_auto_spec_u32_to_from_le_bytes();
    if ids.len() > 0 {
        lemma_ids_body_len(ids.drop_last());
    }
}

proof fn lemma_ids_first(ids: Seq<i32>, rest: Seq<u8>)
    requires
        ids.len() <= u64::MAX,
    ensures
        ids_at(ids_bytes(ids) + rest) == ids,
        after_ids(ids_bytes(ids) + rest) == rest,
{
    lemma_auto_spec_u64_to_from_le_bytes();
    lemma_ids_body_len(ids);
    let n = ids.len() as u64;
    let head = spec_u64_to_le_bytes(n);
    let s = ids_bytes(ids) + rest;
    assert(s.take(8) =~= head);
    assert(text_len(s) == n);
    assert(s.skip(8 + 4 * n) =~= rest);
    assert forall|k: int| 0 <= k < ids.len() implies ids_at(s)[k] == ids[k] by {
        lemma_ids_body(ids, k);
        let tail = s.skip(8 + 4 * k);
        let after = s.skip(8 + 4 * k + 4);
        assert(tail =~= i32_bytes(ids[k]) + after) by {
            lemma_auto_spec_u32_to_from_le_bytes();
            assert(tail.take(4) =~= ids_body(ids).subrange(4 * k, 4 * k + 4));
            assert(tail =~= tail.take(4) + tail.skip(4));
            assert(tail.skip(4) =~= after);
        }
        lemma_i32_first(ids[k], after);
    }
    assert(ids_at(s) =~= ids);
}

proof fn lemma_i32_cut(x: i32, r: Seq<u8>, y: i32, q: Seq<u8>)
    requires
        i32_bytes(x) + r == i32_bytes(y) + q,
    ensures
        x == y,
        r == q,
{
    lemma_i32_first(x, r);
    lemma_i32_first(y, q);
}

proof fn lemma_i64_cut(x: i64, r: Seq<u8>, y: i64, q: Seq<u8>)
    requires
        i64_bytes(x) + r == i64_bytes(y) + q,
    ensures
        x == y,
        r == q,
{
    lemma_i64_first(x, r);
    lemma_i64_first(y, q);
}

proof fn lemma_text_cut(x: Seq<char>, r: Seq<u8>, y: Seq<char>, q: Seq<u8>)
    requires
        text_fits(x),
        text_fits(y),
        text_bytes(x) + r == text_bytes(y) + q,
    ensures
        x == y,
        r == q,
{
    lemma_text_first(x, r);
    lemma_text_first(y, q);
}

proof fn lemma_ids_cut(x: Seq<i32>, r: Seq<u8>, y: Seq<i32>, q: Seq<u8>)
    requires
        x.len() <= u64::MAX,
        y.len() <= u64::MAX,
        ids_bytes(x) + r == ids_bytes(y) + q,
    ensures
        x == y,
        r == q,
{
    lemma_ids_first(x, r);
    lemma_ids_first(y, q);
}

proof fn lemma_child_bytes_first(c: Option<ChildView>)
    ensures
        child_bytes(c).len() >= 1,
        child_bytes(c)[0] == (match c {
            None => 0u8,
            Some(ChildView::Article(_)) => TAG_ARTICLE,
            Some(ChildView::Link(_)) => TAG_LINK,
            Some(ChildView::System(_)) => TAG_SYSTEM,
        }),
        c matches Some(ChildView::Article(id)) ==> child_bytes(c).skip(1) == i32_bytes(id)
            + Seq::<u8>::empty(),
        c matches Some(ChildView::Link(id)) ==> child_bytes(c).skip(1) == i32_bytes(id) + Seq::<
            u8,
        >::empty(),
        c matches Some(ChildView::System(key)) ==> child_bytes(c).skip(1) == text_bytes(key)
            + Seq::<u8>::empty(),
{
    match c {
        None => {},
        Some(ChildView::Article(id)) => {
            assert(child_bytes(c).skip(1) =~= i32_bytes(id) + Seq::<u8>::empty());
        },
        Some(ChildView::Link(id)) => {
            assert(child_bytes(c).skip(1) =~= i32_bytes(id) + Seq::<u8>::empty());
        },
        Some(ChildView::System(key)) => {
            assert(child_bytes(c).skip(1) =~= text_bytes(key) + Seq::<u8>::empty());
        },
    }
}

proof fn lemma_child_bytes_injective(a: Option<ChildView>, b: Option<ChildView>)
    requires
        a matches Some(ChildView::System(key)) ==> text_fits(key),
        b matches Some(ChildView::System(key)) ==> text_fits(key),
        child_bytes(a) == child_bytes(b),
    ensures
        a == b,
{
    let empty = Seq::<u8>::empty();
    lemma_child_bytes_first(a);
    lemma_child_bytes_first(b);
    match (a, b) {
        (Some(ChildView::Article(x)), Some(ChildView::Article(y))) => {
            lemma_i32_cut(x, empty, y, empty);
        },
        (Some(ChildView::Link(x)), Some(ChildView::Link(y))) => {
            lemma_i32_cut(x, empty, y, empty);
        },
        (Some(ChildView::System(x)), Some(ChildView::System(y))) => {
            lemma_text_cut(x, empty, y, empty);
        },
        _ => {},
    }
}

/// Two nodes with the same canonical bytes agree in every field that
/// enters them: the canonical bytes of a node, and so its self hash, cover
/// every field but the three hashes and the two sequence links.
pub proof fn lemma_node_bytes_injective(a: NodeView, b: NodeView)
    requires
        node_fits(a),
        node_fits(b),
        node_bytes(a) == node_bytes(b),
    ensures
        same_hashed_fields(a, b),
{
    reveal(node_bytes);
    let a9 = child_bytes(a.child);
    let a8 = ids_bytes(a.paths_from) + a9;
    let a7 = ids_bytes(a.paths_to) + a8;
    let a6 = text_bytes(a.permissions) + a7;
    let a5 = text_bytes(a.workflow) + a6;
    let a4 = text_bytes(a.labels) + a5;
    let a3 = i64_bytes(a.updated) + a4;
    let a2 = i64_bytes(a.time) + a3;
    let a1 = i32_bytes(a.version) + a2;
    let b9 = child_bytes(b.child);
    let b8 = ids_bytes(b.paths_from) + b9;
    let b7 = ids_bytes(b.paths_to) + b8;
    let b6 = text_bytes(b.permissions) + b7;
    let b5 = text_bytes(b.workflow) + b6;
    let b4 = text_bytes(b.labels) + b5;
    let b3 = i64_bytes(b.updated) + b4;
    let b2 = i64_bytes(b.time) + b3;
    let b1 = i32_bytes(b.version) + b2;
    lemma_i32_cut(a.id, a1, b.id, b1);
    lemma_i32_cut(a.version, a2, b.version, b2);
    lemma_i64_cut(a.time, a3, b.time, b3);
    lemma_i64_cut(a.updated, a4, b.updated, b4);
    lemma_text_cut(a.labels, a5, b.labels, b5);
    lemma_text_cut(a.workflow, a6, b.workflow, b6);
    lemma_text_cut(a.permissions, a7, b.permissions, b7);
    lemma_ids_cut(a.paths_to, a8, b.paths_to, b8);
    lemma_ids_cut(a.paths_from, a9, b.paths_from, b9);
    lemma_child_bytes_injective(a.child, b.child);
}

/// `String::from_utf8` of std. The result is `Some` exactly where `bytes` is
/// well-formed UTF-8, and the text then has `bytes` as its UTF-8 form.
#[verifier::external_body]
fn string_from_utf8(bytes: Vec<u8>) -> (r: Option<String>)
    ensures
        r is Some <==> valid_utf8(bytes@),
        r matches Some(text) ==> encode_utf8(text@) == bytes@,
{
    match String::from_utf8(bytes) {
        Ok(text) => Some(text),
        Err(_) => None,
    }
}

fn put_i32(out: &mut Vec<u8>, x: i32)
    ensures
        final(out)@ == old(out)@ + i32_bytes(x),
{
    let mut b = u32_to_le_bytes(#[verifier::truncate] (x as u32));
    out.append(&mut b);
}

fn put_i64(out: &mut Vec<u8>, x: i64)
    ensures
        final(out)@ == old(out)@ + i64_bytes(x),
{
    let mut b = u64_to_le_bytes(#[verifier::truncate] (x as u64));
    out.append(&mut b);
}

fn put_text(out: &mut Vec<u8>, t: &str)
    ensures
        final(out)@ == old(out)@ + text_bytes(t@),
        text_fits(t@),
{
    let raw = t.as_bytes();
    let mut head = u64_to_le_bytes(raw.len() as u64);
    out.append(&mut head);
    out.extend_from_slice(raw);
    assert(out@ =~= old(out)@ + text_bytes(t@));
}

fn put_ids(out: &mut Vec<u8>, ids: &Vec<i32>)
    ensures
        final(out)@ == old(out)@ + ids_bytes(ids@),
        ids@.len() <= u64::MAX,
{
    let mut head = u64_to_le_bytes(ids.len() as u64);
    out.append(&mut head);
    let ghost start = out@;
    let mut i: usize = 0;
    while i < ids.len()
        invariant
            i <= ids.len(),
            out@ == start + ids_body(ids@.take(i as int)),
        decreases ids.len() - i,
    {
        put_i32(out, ids[i]);
        proof {
            assert(ids@.take(i + 1).drop_last() =~= ids@.take(i as int));
            assert(out@ =~= start + ids_body(ids@.take(i + 1)));
        }
        i += 1;
    }
    proof {
        assert(ids@.take(i as int) =~= ids@);
        assert(out@ =~= old(out)@ + ids_bytes(ids@));
    }
}

proof fn lemma_regroup(a: Seq<u8>, b: Seq<u8>, c: Seq<u8>)
    ensures
        (a + b) + c == a + (b + c),
{
    assert((a + b) + c =~= a + (b + c));
}

fn serialize_post(p: &Post) -> (out: Vec<u8>)
    ensures
        out@ == post_bytes(p@),
        content_fits(ContentView::PostContent(p@)),
{
    let mut out: Vec<u8> = Vec::new();
    out.push(TAG_ARTICLE);
    let ghost done0 = out@;
    put_i32(&mut out, p.id);
    let ghost done1 = out@;
    put_i32(&mut out, p.version);
    let ghost done2 = out@;
    put_i32(&mut out, p.parent);
    let ghost done3 = out@;
    put_i64(&mut out, p.time);
    let ghost done4 = out@;
    put_i64(&mut out, p.updated);
    let ghost done5 = out@;
    put_text(&mut out, p.title.as_str());
    let ghost done6 = out@;
    put_text(&mut out, p.body.as_str());
    let ghost done7 = out@;
    put_text(&mut out, p.tags.as_str());
    let ghost done8 = out@;
    put_text(&mut out, p.summary.as_str());
    proof {
        let v = p@;
        let t9 = text_bytes(v.summary);
        let t8 = text_bytes(v.tags) + t9;
        let t7 = text_bytes(v.body) + t8;
        let t6 = text_bytes(v.title) + t7;
        let t5 = i64_bytes(v.updated) + t6;
        let t4 = i64_bytes(v.time) + t5;
        let t3 = i32_bytes(v.parent) + t4;
        let t2 = i32_bytes(v.version) + t3;
        let t1 = i32_bytes(v.id) + t2;
        lemma_regroup(done7, text_bytes(v.tags), t9);
        lemma_regroup(done6, text_bytes(v.body), t8);
        lemma_regroup(done5, text_bytes(v.title), t7);
        lemma_regroup(done4, i64_bytes(v.updated), t6);
        lemma_regroup(done3, i64_bytes(v.time), t5);
        lemma_regroup(done2, i32_bytes(v.parent), t4);
        lemma_regroup(done1, i32_bytes(v.version), t3);
        lemma_regroup(done0, i32_bytes(v.id), t2);
        assert(done0 =~= seq![TAG_ARTICLE]);
        assert(out@ == done0 + t1);
        reveal(post_bytes);
    }
    out
}

fn serialize_link(l: &Link) -> (out: Vec<u8>)
    ensures
        out@ == link_bytes(l@),
        content_fits(ContentView::LinkContent(l@)),
{
    let mut out: Vec<u8> = Vec::new();
    out.push(TAG_LINK);
    let ghost done0 = out@;
    put_i32(&mut out, l.id);
    let ghost done1 = out@;
    put_i32(&mut out, l.version);
    let ghost done2 = out@;
    put_i32(&mut out, l.parent);
    let ghost done3 = out@;
    put_i64(&mut out, l.time);
    let ghost done4 = out@;
    put_i64(&mut out, l.updated);
    let ghost done5 = out@;
    put_text(&mut out, l.text.as_str());
    let ghost done6 = out@;
    put_text(&mut out, l.title.as_str());
    let ghost done7 = out@;
    put_text(&mut out, l.url.as_str());
    let ghost done8 = out@;
    put_text(&mut out, l.tags.as_str());
    proof {
        let v = l@;
        let t9 = text_bytes(v.tags);
        let t8 = text_bytes(v.url) + t9;
        let t7 = text_bytes(v.title) + t8;
        let t6 = text_bytes(v.text) + t7;
        let t5 = i64_bytes(v.updated) + t6;
        let t4 = i64_bytes(v.time) + t5;
        let t3 = i32_bytes(v.parent) + t4;
        let t2 = i32_bytes(v.version) + t3;
        let t1 = i32_bytes(v.id) + t2;
        lemma_regroup(done7, text_bytes(v.url), t9);
        lemma_regroup(done6, text_bytes(v.title), t8);
        lemma_regroup(done5, text_bytes(v.text), t7);
        lemma_regroup(done4, i64_bytes(v.updated), t6);
        lemma_regroup(done3, i64_bytes(v.time), t5);
        lemma_regroup(done2, i32_bytes(v.parent), t4);
        lemma_regroup(done1, i32_bytes(v.version), t3);
        lemma_regroup(done0, i32_bytes(v.id), t2);
        assert(done0 =~= seq![TAG_LINK]);
        assert(out@ == done0 + t1);
        reveal(link_bytes);
    }
    out
}

fn serialize_system(s: &System) -> (out: Vec<u8>)
    ensures
        out@ == system_bytes(s@),
        content_fits(ContentView::SystemContent(s@)),
{
    let mut out: Vec<u8> = Vec::new();
    out.push(TAG_SYSTEM);
    let ghost done0 = out@;
    put_i32(&mut out, s.version);
    let ghost done1 = out@;
    put_i32(&mut out, s.parent);
    let ghost done2 = out@;
    put_i64(&mut out, s.time);
    let ghost done3 = out@;
    put_i64(&mut out, s.updated);
    let ghost done4 = out@;
    put_text(&mut out, s.key.as_str());
    let ghost done5 = out@;
    put_text(&mut out, s.data.as_str());
    proof {
        let v = s@;
        let t6 = text_bytes(v.data);
        let t5 = text_bytes(v.key) + t6;
        let t4 = i64_bytes(v.updated) + t5;
        let t3 = i64_bytes(v.time) + t4;
        let t2 = i32_bytes(v.parent) + t3;
        let t1 = i32_bytes(v.version) + t2;
        lemma_regroup(done4, text_bytes(v.key), t6);
        lemma_regroup(done3, i64_bytes(v.updated), t5);
        lemma_regroup(done2, i64_bytes(v.time), t4);
        lemma_regroup(done1, i32_bytes(v.parent), t3);
        lemma_regroup(done0, i32_bytes(v.version), t2);
        assert(done0 =~= seq![TAG_SYSTEM]);
        assert(out@ == done0 + t1);
        reveal(system_bytes);
    }
    out
}

/// Writes a content record in its canonical form.
pub fn serialize(content: &Content) -> (out: Vec<u8>)
    ensures
        out@ == content_bytes(content@),
        content_fits(content@),
{
    match content {
        Content::PostContent(p) => serialize_post(p),
        Content::LinkContent(l) => serialize_link(l),
        Content::SystemContent(s) => serialize_system(s),
    }
}

fn put_child(out: &mut Vec<u8>, child: &Option<Child>)
    ensures
        final(out)@ == old(out)@ + child_bytes(child_view(*child)),
        child_view(*child) matches Some(ChildView::System(key)) ==> text_fits(key),
{
    let ghost before = out@;
    match child {
        None => {
            out.push(0u8);
            assert(out@ =~= before + seq![0u8]);
        },
        Some(Child::Article(id)) => {
            out.push(TAG_ARTICLE);
            put_i32(out, *id);
            assert(out@ =~= before + (seq![TAG_ARTICLE] + i32_bytes(*id)));
        },
        Some(Child::Link(id)) => {
            out.push(TAG_LINK);
            put_i32(out, *id);
            assert(out@ =~= before + (seq![TAG_LINK] + i32_bytes(*id)));
        },
        Some(Child::System(key)) => {
            out.push(TAG_SYSTEM);
            put_text(out, key.as_str());
            assert(out@ =~= before + (seq![TAG_SYSTEM] + text_bytes(key@)));
        },
    }
}

/// Writes a node in its canonical form.
pub fn serialize_node(node: &Node) -> (out: Vec<u8>)
    ensures
        out@ == node_bytes(node@),
        node_fits(node@),
{
    let mut out: Vec<u8> = Vec::new();
    put_i32(&mut out, node.id);
    let ghost done1 = out@;
    put_i32(&mut out, node.version);
    let ghost done2 = out@;
    put_i64(&mut out, node.time);
    let ghost done3 = out@;
    put_i64(&mut out, node.updated);
    let ghost done4 = out@;
    put_text(&mut out, node.labels.as_str());
    let ghost done5 = out@;
    put_text(&mut out, node.workflow.as_str());
    let ghost done6 = out@;
    put_text(&mut out, node.permissions.as_str());
    let ghost done7 = out@;
    put_ids(&mut out, &node.paths_to);
    let ghost done8 = out@;
    put_ids(&mut out, &node.paths_from);
    let ghost done9 = out@;
    put_child(&mut out, &node.child);
    proof {
        let v = node@;
        let t9 = child_bytes(v.child);
        let t8 = ids_bytes(v.paths_from) + t9;
        let t7 = ids_bytes(v.paths_to) + t8;
        let t6 = text_bytes(v.permissions) + t7;
        let t5 = text_bytes(v.workflow) + t6;
        let t4 = text_bytes(v.labels) + t5;
        let t3 = i64_bytes(v.updated) + t4;
        let t2 = i64_bytes(v.time) + t3;
        let t1 = i32_bytes(v.version) + t2;
        lemma_regroup(done8, ids_bytes(v.paths_from), t9);
        lemma_regroup(done7, ids_bytes(v.paths_to), t8);
        lemma_regroup(done6, text_bytes(v.permissions), t7);
        lemma_regroup(done5, text_bytes(v.workflow), t6);
        lemma_regroup(done4, text_bytes(v.labels), t5);
        lemma_regroup(done3, i64_bytes(v.updated), t4);
        lemma_regroup(done2, i64_bytes(v.time), t3);
        lemma_regroup(done1, i32_bytes(v.version), t2);
        assert(done1 =~= i32_bytes(v.id));
        assert(out@ == done1 + t1);
        reveal(node_bytes);
    }
    out
}

struct Reader<'a> {
    bytes: &'a [u8],
    pos: usize,
}

impl<'a> Reader<'a> {
    spec fn wf(&self) -> bool {
        self.pos <= self.bytes@.len()
    }

    spec fn rest(&self) -> Seq<u8> {
        self.bytes@.skip(self.pos as int)
    }

    fn read_u8(&mut self) -> (r: Option<u8>)
        requires
            old(self).wf(),
        ensures
            final(self).wf(),
            r is Some <==> old(self).rest().len() >= 1,
            r matches Some(b) ==> b == old(self).rest()[0] && final(self).rest() == old(
                self,
            ).rest().skip(1),
    {
        if self.pos >= self.bytes.len() {
            return None;
        }
        let b = self.bytes[self.pos];
        self.pos += 1;
        assert(self.rest() =~= old(self).rest().skip(1));
        Some(b)
    }

    fn read_i32(&mut self) -> (r: Option<i32>)
        requires
            old(self).wf(),
        ensures
            final(self).wf(),
            r is Some <==> has_i32(old(self).rest()),
            r matches Some(x) ==> x == i32_at(old(self).rest()) && final(self).rest() == old(
                self,
            ).rest().skip(4),
    {
        if self.bytes.len() - self.pos < 4 {
            return None;
        }
        let raw = slice_subrange(self.bytes, self.pos, self.pos + 4);
        assert(raw@ =~= old(self).rest().take(4));
        let x = u32_from_le_bytes(raw);
        self.pos += 4;
        assert(self.rest() =~= old(self).rest().skip(4));
        Some(#[verifier::truncate] (x as i32))
    }

    fn read_i64(&mut self) -> (r: Option<i64>)
        requires
            old(self).wf(),
        ensures
            final(self).wf(),
            r is Some <==> has_i64(old(self).rest()),
            r matches Some(x) ==> x == i64_at(old(self).rest()) && final(self).rest() == old(
                self,
            ).rest().skip(8),
    {
        if self.bytes.len() - self.pos < 8 {
            return None;
        }
        let raw = slice_subrange(self.bytes, self.pos, self.pos + 8);
        assert(raw@ =~= old(self).rest().take(8));
        let x = u64_from_le_bytes(raw);
        self.pos += 8;
        assert(self.rest() =~= old(self).rest().skip(8));
        Some(#[verifier::truncate] (x as i64))
    }

    fn read_text(&mut self) -> (r: Option<String>)
        requires
            old(self).wf(),
        ensures
            final(self).wf(),
            r is Some <==> has_text(old(self).rest()),
            r matches Some(t) ==> t@ == text_at(old(self).rest()) && final(self).rest()
                == after_text(old(self).rest()),
    {
        if self.bytes.len() - self.pos < 8 {
            return None;
        }
        let head = slice_subrange(self.bytes, self.pos, self.pos + 8);
        assert(head@ =~= old(self).rest().take(8));
        let n = u64_from_le_bytes(head);
        let avail = self.bytes.len() - self.pos - 8;
        if n > avail as u64 {
            return None;
        }
        let n = n as usize;
        let start = self.pos + 8;
        let raw = slice_subrange(self.bytes, start, start + n);
        assert(raw@ =~= text_raw(old(self).rest()));
        match string_from_utf8(slice_to_vec(raw)) {
            Some(text) => {
                proof {
                    encode_utf8_decode_utf8(text@);
                }
                self.pos = start + n;
                assert(self.rest() =~= after_text(old(self).rest()));
                Some(text)
            },
            None => None,
        }
    }

    fn at_end(&self) -> (r: bool)
        requires
            self.wf(),
        ensures
            r == (self.rest().len() == 0),
    {
        self.pos == self.bytes.len()
    }
}

fn read_post(rd: &mut Reader) -> (r: Option<Post>)
    requires
        old(rd).wf(),
    ensures
        match r {
            Some(p) => parse_post(old(rd).rest()) == Some(p@),
            None => parse_post(old(rd).rest()) is None,
        },
{
    let id = rd.read_i32()?;
    let version = rd.read_i32()?;
    let parent = rd.read_i32()?;
    let time = rd.read_i64()?;
    let updated = rd.read_i64()?;
    let title = rd.read_text()?;
    let body = rd.read_text()?;
    let tags = rd.read_text()?;
    let summary = rd.read_text()?;
    if !rd.at_end() {
        return None;
    }
    Some(Post { id, title, body, time, tags, summary, version, updated, parent })
}

fn read_link(rd: &mut Reader) -> (r: Option<Link>)
    requires
        old(rd).wf(),
    ensures
        match r {
            Some(l) => parse_link(old(rd).rest()) == Some(l@),
            None => parse_link(old(rd).rest()) is None,
        },
{
    let id = rd.read_i32()?;
    let version = rd.read_i32()?;
    let parent = rd.read_i32()?;
    let time = rd.read_i64()?;
    let updated = rd.read_i64()?;
    let text = rd.read_text()?;
    let title = rd.read_text()?;
    let url = rd.read_text()?;
    let tags = rd.read_text()?;
    if !rd.at_end() {
        return None;
    }
    Some(Link { id, text, title, url, tags, time, version, updated, parent })
}

fn read_system(rd: &mut Reader) -> (r: Option<System>)
    requires
        old(rd).wf(),
    ensures
        match r {
            Some(s) => parse_system(old(rd).rest()) == Some(s@),
            None => parse_system(old(rd).rest()) is None,
        },
{
    let version = rd.read_i32()?;
    let parent = rd.read_i32()?;
    let time = rd.read_i64()?;
    let updated = rd.read_i64()?;
    let key = rd.read_text()?;
    let data = rd.read_text()?;
    if !rd.at_end() {
        return None;
    }
    Some(System { key, data, time, version, updated, parent })
}

/// Reads a content record from its canonical form; `None` where `bytes` is
/// not the canonical form of a record.
pub fn deserialize(bytes: &[u8]) -> (r: Option<Content>)
    ensures
        match r {
            Some(c) => parse_content(bytes@) == Some(c@),
            None => parse_content(bytes@) is None,
        },
{
    let mut rd = Reader { bytes, pos: 0 };
    assert(rd.rest() =~= bytes@);
    match rd.read_u8() {
        None => None,
        Some(tag) => {
            if tag == TAG_ARTICLE {
                match read_post(&mut rd) {
                    Some(p) => Some(Content::PostContent(p)),
                    None => None,
                }
            } else if tag == TAG_LINK {
                match read_link(&mut rd) {
                    Some(l) => Some(Content::LinkContent(l)),
                    None => None,
                }
            } else if tag == TAG_SYSTEM {
                match read_system(&mut rd) {
                    Some(s) => Some(Content::SystemContent(s)),
                    None => None,
                }
            } else {
                None
            }
        },
    }
}

} // verus!
