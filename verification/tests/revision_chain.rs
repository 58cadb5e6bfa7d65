use nautilus::chain::{commit_update, commit_update_if_version, verify_chain};
use nautilus::codec::{deserialize, serialize, serialize_node};
use nautilus::error::{Error, HashField};
use nautilus::hash::{chain, digest, seed};
use nautilus::models::{
    Child, Content, Link, LinkRevision, Node, NodeRevision, Post, System, SystemRevision,
};
use nautilus::node_store::{attach_content, create_node};
use nautilus::seal::{child_hash, seal, self_hash};
use nautilus::store::{
    get_current, get_node, get_node_revision, get_node_revisions, get_snapshot, Store,
};

fn article(title: &str, body: &str, tags: &str, summary: &str) -> Content {
    Content::PostContent(Post {
        id: 0,
        title: title.to_string(),
        body: body.to_string(),
        time: 0,
        tags: tags.to_string(),
        summary: summary.to_string(),
        version: 0,
        updated: 0,
        parent: 0,
    })
}

fn link_content(text: &str, title: &str, url: &str, tags: &str) -> Content {
    Content::LinkContent(Link {
        id: 0,
        text: text.to_string(),
        title: title.to_string(),
        url: url.to_string(),
        tags: tags.to_string(),
        time: 0,
        version: 0,
        updated: 0,
        parent: 0,
    })
}

fn system_entry(key: &str, data: &str) -> Content {
    Content::SystemContent(System {
        key: key.to_string(),
        data: data.to_string(),
        time: 0,
        version: 0,
        updated: 0,
        parent: 0,
    })
}

fn attached_article(store: &mut Store) -> Node {
    let node = create_node(store, 100).unwrap();
    attach_content(store, node.id, article("A", "B", "t", "s"), 200).unwrap()
}

#[test]
fn create_node_starts_under_construction() {
    let mut store = Store::new();
    let node = create_node(&mut store, 42).unwrap();
    assert_eq!(node.id, 1);
    assert_eq!(node.version, 0);
    assert_eq!(node.workflow, "constructing");
    assert_eq!(node.permissions, "pre");
    assert!(node.paths_to.is_empty());
    assert!(node.paths_from.is_empty());
    assert_eq!(node.child, None);
    assert_eq!(node.node_next, None);
    assert_eq!(node.node_last, None);
    assert_eq!(node.time, 42);
    assert_eq!(node.updated, 42);
    assert_eq!(store.nodes, vec![node.clone()]);
    assert_eq!(store.next_node_id, 2);
    assert_eq!(get_node(&store, 1), Ok(node));
    let second = create_node(&mut store, 43).unwrap();
    assert_eq!(second.id, 2);
}

#[test]
fn create_node_fails_when_identities_are_used_up() {
    let mut store = Store::new();
    store.next_node_id = i32::MAX;
    assert_eq!(create_node(&mut store, 1), Err(Error::Storage));
    assert!(store.nodes.is_empty());
}

#[test]
fn create_node_fails_when_the_next_identity_is_taken() {
    let mut store = Store::new();
    create_node(&mut store, 1).unwrap();
    store.next_node_id = 1;
    let before = store.nodes.clone();
    assert_eq!(create_node(&mut store, 2), Err(Error::Storage));
    assert_eq!(store.nodes, before);
}

#[test]
fn get_node_reports_an_absent_node() {
    let store = Store::new();
    assert_eq!(get_node(&store, 7), Err(Error::NotFound));
    assert_eq!(verify_chain(&store, 7), Err(Error::NotFound));
}

#[test]
fn attach_content_computes_the_first_hashes_from_the_seed() {
    let mut store = Store::new();
    let node = attached_article(&mut store);
    assert_eq!(node.version, 1);
    assert_eq!(node.updated, 200);
    assert_eq!(node.time, 100);
    assert_eq!(node.child, Some(Child::Article(1)));
    let content = get_current(&store, &Child::Article(1)).unwrap();
    let expected = Content::PostContent(Post {
        id: 1,
        title: "A".to_string(),
        body: "B".to_string(),
        time: 200,
        tags: "t".to_string(),
        summary: "s".to_string(),
        version: 1,
        updated: 200,
        parent: node.id,
    });
    assert_eq!(content, expected);
    assert_eq!(node.child_hash, digest(&serialize(&content)));
    assert_eq!(node.self_hash, digest(&serialize_node(&node)));
    assert_eq!(
        Ok(node.hash_chain.clone()),
        chain(&node.self_hash, &node.child_hash, &seed())
    );
    assert_eq!(get_node(&store, node.id), Ok(node));
    assert!(store.node_revisions.is_empty());
    assert!(store.post_revisions.is_empty());
    assert_eq!(verify_chain(&store, 1), Ok(()));
}

#[test]
fn attach_content_twice_is_an_invalid_state() {
    let mut store = Store::new();
    let node = attached_article(&mut store);
    let before = store.clone();
    assert_eq!(
        attach_content(&mut store, node.id, article("X", "Y", "", ""), 300),
        Err(Error::InvalidState)
    );
    assert_eq!(store.clone(), before);
}

#[test]
fn attach_content_to_an_absent_node_is_not_found() {
    let mut store = Store::new();
    assert_eq!(
        attach_content(&mut store, 9, article("X", "Y", "", ""), 300),
        Err(Error::NotFound)
    );
    assert!(store.posts.is_empty());
}

#[test]
fn attach_system_entry_with_a_taken_key_is_a_conflict() {
    let mut store = Store::new();
    let a = create_node(&mut store, 1).unwrap();
    let b = create_node(&mut store, 2).unwrap();
    attach_content(&mut store, a.id, system_entry("routes", "/post/"), 3).unwrap();
    assert_eq!(
        attach_content(&mut store, b.id, system_entry("routes", "/other/"), 4),
        Err(Error::Conflict)
    );
    assert_eq!(store.system.len(), 1);
    assert_eq!(get_node(&store, b.id).unwrap().version, 0);
}

#[test]
fn article_is_created_updated_verified_and_tampered_with() {
    let mut store = Store::new();
    let node = create_node(&mut store, 100).unwrap();
    let first = attach_content(&mut store, node.id, article("A", "B", "t", "s"), 200).unwrap();
    assert_eq!(first.version, 1);
    assert_eq!(
        Ok(first.hash_chain.clone()),
        chain(&first.self_hash, &first.child_hash, &seed())
    );
    let second = commit_update(&mut store, node.id, article("A", "B2", "t", "s"), 300).unwrap();
    assert_eq!(second.version, 2);
    assert_eq!(store.node_revisions.len(), 1);
    assert_eq!(store.node_revisions[0].version, 1);
    assert_eq!(store.post_revisions.len(), 1);
    assert_eq!(store.post_revisions[0].version, 1);
    assert_eq!(store.post_revisions[0].body, "B");
    assert_eq!(store.posts[0].body, "B2");
    assert_eq!(store.posts[0].version, 2);
    assert_eq!(
        Ok(second.hash_chain.clone()),
        chain(&second.self_hash, &second.child_hash, &first.hash_chain)
    );
    assert_eq!(verify_chain(&store, node.id), Ok(()));
    store.post_revisions[0].body = "C".to_string();
    assert_eq!(
        verify_chain(&store, node.id),
        Err(Error::Integrity { version: 1, field: HashField::ChildHash })
    );
}

#[test]
fn chain_verifies_after_every_update() {
    let mut store = Store::new();
    let node = attached_article(&mut store);
    for i in 0..20 {
        let body = format!("body {}", i);
        commit_update(&mut store, node.id, article("A", &body, "t", "s"), 1000 + i).unwrap();
        assert_eq!(verify_chain(&store, node.id), Ok(()));
    }
}

#[test]
fn versions_grow_by_one_per_update() {
    let mut store = Store::new();
    let other = attached_article(&mut store);
    let node = attached_article(&mut store);
    let k = 7;
    for i in 0..k {
        let body = format!("body {}", i);
        commit_update(&mut store, node.id, article("A", &body, "t", "s"), 1000 + i as i64).unwrap();
        commit_update(&mut store, other.id, article("O", &body, "t", "s"), 1000 + i as i64)
            .unwrap();
    }
    assert_eq!(get_node(&store, node.id).unwrap().version, 1 + k);
    let revisions = get_node_revisions(&store, node.id);
    assert!(revisions.iter().all(|r| r.id == node.id));
    let versions: Vec<i32> = revisions.iter().map(|r| r.version).collect();
    assert_eq!(versions, (1..=k).collect::<Vec<i32>>());
    assert_eq!(store.node_revisions.len(), 2 * k as usize);
    assert!(get_node_revisions(&store, 99).is_empty());
    let content_versions: Vec<i32> = store
        .post_revisions
        .iter()
        .filter(|r| r.parent == node.id)
        .map(|r| r.version)
        .collect();
    assert_eq!(content_versions, (1..=k).collect::<Vec<i32>>());
    assert_eq!(verify_chain(&store, node.id), Ok(()));
    assert_eq!(verify_chain(&store, other.id), Ok(()));
}

#[test]
fn second_writer_at_the_same_version_is_rejected() {
    let mut store = Store::new();
    let node = attached_article(&mut store);
    let read_by_first = get_node(&store, node.id).unwrap().version;
    let read_by_second = get_node(&store, node.id).unwrap().version;
    let first = commit_update_if_version(
        &mut store,
        node.id,
        read_by_first,
        article("A", "first", "t", "s"),
        300,
    );
    let after_first = store.clone();
    let second = commit_update_if_version(
        &mut store,
        node.id,
        read_by_second,
        article("A", "second", "t", "s"),
        301,
    );
    assert_eq!(first.unwrap().version, 2);
    assert_eq!(second, Err(Error::Conflict));
    assert_eq!(store.clone(), after_first);
    assert_eq!(get_node(&store, node.id).unwrap().version, 2);
    assert_eq!(store.posts[0].body, "first");
    let retried = commit_update(&mut store, node.id, article("A", "second", "t", "s"), 302);
    assert_eq!(retried.unwrap().version, 3);
    assert_eq!(verify_chain(&store, node.id), Ok(()));
}

#[test]
fn commit_conflicts_when_a_revision_of_the_live_version_exists() {
    let mut store = Store::new();
    let node = attached_article(&mut store);
    commit_update(&mut store, node.id, article("A", "B2", "t", "s"), 300).unwrap();
    let mut stale = store.node_revisions[0].clone();
    stale.version = 2;
    store.node_revisions.push(stale);
    let before = store.clone();
    assert_eq!(
        commit_update(&mut store, node.id, article("A", "B3", "t", "s"), 400),
        Err(Error::Conflict)
    );
    assert_eq!(store.clone(), before);
}

#[test]
fn commit_update_reports_what_is_missing_or_out_of_place() {
    let mut store = Store::new();
    assert_eq!(
        commit_update(&mut store, 1, article("A", "B", "t", "s"), 1),
        Err(Error::NotFound)
    );
    let bare = create_node(&mut store, 1).unwrap();
    assert_eq!(
        commit_update(&mut store, bare.id, article("A", "B", "t", "s"), 2),
        Err(Error::InvalidState)
    );
    let node = attached_article(&mut store);
    assert_eq!(
        commit_update(&mut store, node.id, link_content("a", "b", "c", "d"), 3),
        Err(Error::InvalidState)
    );
    store.posts.clear();
    assert_eq!(
        commit_update(&mut store, node.id, article("A", "B", "t", "s"), 4),
        Err(Error::NotFound)
    );
}

#[test]
fn commit_update_fails_when_versions_are_used_up() {
    let mut store = Store::new();
    let node = attached_article(&mut store);
    store.nodes[0].version = i32::MAX;
    store.posts[0].version = i32::MAX;
    assert_eq!(
        commit_update(&mut store, node.id, article("A", "B", "t", "s"), 4),
        Err(Error::Storage)
    );
}

#[test]
fn commit_update_refuses_a_malformed_chain_digest() {
    let mut store = Store::new();
    let node = attached_article(&mut store);
    store.nodes[0].hash_chain = "not a digest".to_string();
    assert_eq!(
        commit_update(&mut store, node.id, article("A", "B", "t", "s"), 4),
        Err(Error::Integrity { version: 1, field: HashField::HashChain })
    );
    assert!(store.node_revisions.is_empty());
}

#[test]
fn commit_update_keeps_identity_and_takes_the_texts() {
    let mut store = Store::new();
    let node = create_node(&mut store, 1).unwrap();
    attach_content(&mut store, node.id, link_content("text", "title", "url", "tags"), 2).unwrap();
    let mut changed = link_content("text2", "title2", "url2", "tags2");
    if let Content::LinkContent(l) = &mut changed {
        l.id = 99;
        l.parent = 98;
        l.time = 97;
        l.version = 96;
    }
    let after = commit_update(&mut store, node.id, changed, 3).unwrap();
    assert_eq!(after.child, Some(Child::Link(1)));
    assert_eq!(
        get_current(&store, &Child::Link(1)),
        Ok(Content::LinkContent(Link {
            id: 1,
            text: "text2".to_string(),
            title: "title2".to_string(),
            url: "url2".to_string(),
            tags: "tags2".to_string(),
            time: 2,
            version: 2,
            updated: 3,
            parent: node.id,
        }))
    );
    assert_eq!(
        get_snapshot(&store, &Child::Link(1), 1),
        Ok(Content::LinkContent(Link {
            id: 1,
            text: "text".to_string(),
            title: "title".to_string(),
            url: "url".to_string(),
            tags: "tags".to_string(),
            time: 2,
            version: 1,
            updated: 2,
            parent: node.id,
        }))
    );
    assert_eq!(verify_chain(&store, node.id), Ok(()));
}

#[test]
fn system_entries_are_versioned_under_their_key() {
    let mut store = Store::new();
    let node = create_node(&mut store, 1).unwrap();
    attach_content(&mut store, node.id, system_entry("routes", "/post/"), 2).unwrap();
    commit_update(&mut store, node.id, system_entry("ignored", "/article/"), 3).unwrap();
    let child = Child::System("routes".to_string());
    assert_eq!(get_node(&store, node.id).unwrap().child, Some(child.clone()));
    assert_eq!(
        get_current(&store, &child),
        Ok(Content::SystemContent(System {
            key: "routes".to_string(),
            data: "/article/".to_string(),
            time: 2,
            version: 2,
            updated: 3,
            parent: node.id,
        }))
    );
    assert_eq!(store.system_revisions.len(), 1);
    assert_eq!(store.system_revisions[0].data, "/post/");
    assert_eq!(verify_chain(&store, node.id), Ok(()));
    store.system_revisions[0].data = "/pest/".to_string();
    assert_eq!(
        verify_chain(&store, node.id),
        Err(Error::Integrity { version: 1, field: HashField::ChildHash })
    );
}

#[test]
fn tampering_is_reported_at_the_first_version_it_touches() {
    let mut store = Store::new();
    let node = attached_article(&mut store);
    for i in 0..5 {
        let body = format!("body {}", i);
        commit_update(&mut store, node.id, article("A", &body, "t", "s"), 1000 + i).unwrap();
    }
    let clean = store.clone();
    store.post_revisions[2].tags = "T".to_string();
    assert_eq!(
        verify_chain(&store, node.id),
        Err(Error::Integrity { version: 3, field: HashField::ChildHash })
    );
    store.post_revisions[1].summary = "S".to_string();
    assert_eq!(
        verify_chain(&store, node.id),
        Err(Error::Integrity { version: 2, field: HashField::ChildHash })
    );
    store = clean;
    assert_eq!(verify_chain(&store, node.id), Ok(()));
    store.node_revisions[3].workflow = "published".to_string();
    assert_eq!(
        verify_chain(&store, node.id),
        Err(Error::Integrity { version: 4, field: HashField::SelfHash })
    );
    store.node_revisions[3].workflow = "constructing".to_string();
    store.node_revisions[3].updated += 1;
    assert_eq!(
        verify_chain(&store, node.id),
        Err(Error::Integrity { version: 4, field: HashField::SelfHash })
    );
    store.node_revisions[3].updated -= 1;
    assert_eq!(verify_chain(&store, node.id), Ok(()));
}

#[test]
fn tampering_with_stored_hashes_is_reported() {
    let mut store = Store::new();
    let node = attached_article(&mut store);
    commit_update(&mut store, node.id, article("A", "B2", "t", "s"), 300).unwrap();
    commit_update(&mut store, node.id, article("A", "B3", "t", "s"), 400).unwrap();
    let clean = store.clone();
    store.node_revisions[0].hash_chain = digest(b"forged");
    assert_eq!(
        verify_chain(&store, node.id),
        Err(Error::Integrity { version: 1, field: HashField::HashChain })
    );
    store = clean.clone();
    store.node_revisions[1].self_hash = digest(b"forged");
    assert_eq!(
        verify_chain(&store, node.id),
        Err(Error::Integrity { version: 2, field: HashField::SelfHash })
    );
    store = clean.clone();
    store.nodes[0].child_hash = digest(b"forged");
    assert_eq!(
        verify_chain(&store, node.id),
        Err(Error::Integrity { version: 3, field: HashField::ChildHash })
    );
    store = clean;
    store.posts[0].body = "changed outside the protocol".to_string();
    assert_eq!(
        verify_chain(&store, node.id),
        Err(Error::Integrity { version: 3, field: HashField::ChildHash })
    );
}

#[test]
fn a_missing_revision_is_reported_as_not_found() {
    let mut store = Store::new();
    let node = attached_article(&mut store);
    commit_update(&mut store, node.id, article("A", "B2", "t", "s"), 300).unwrap();
    let clean = store.clone();
    store.node_revisions.clear();
    assert_eq!(verify_chain(&store, node.id), Err(Error::NotFound));
    assert_eq!(get_node_revision(&store, node.id, 1), Err(Error::NotFound));
    store = clean;
    store.post_revisions.clear();
    assert_eq!(verify_chain(&store, node.id), Err(Error::NotFound));
}

#[test]
fn sequence_links_are_outside_the_chain() {
    let mut store = Store::new();
    let node = attached_article(&mut store);
    commit_update(&mut store, node.id, article("A", "B2", "t", "s"), 300).unwrap();
    store.node_revisions[0].node_next = Some(5);
    store.node_revisions[0].node_last = Some(6);
    assert_eq!(verify_chain(&store, node.id), Ok(()));
}

#[test]
fn a_node_without_content_verifies() {
    let mut store = Store::new();
    let node = create_node(&mut store, 1).unwrap();
    assert_eq!(verify_chain(&store, node.id), Ok(()));
}

#[test]
fn serialize_then_deserialize_gives_the_record_back() {
    let post = Content::PostContent(Post {
        id: -7,
        title: "Ünïcödé ✓".to_string(),
        body: "line\nbreak\0nul".to_string(),
        time: i64::MIN,
        tags: String::new(),
        summary: "s".to_string(),
        version: i32::MAX,
        updated: i64::MAX,
        parent: 12,
    });
    let link = Content::LinkContent(Link {
        id: 3,
        text: "duck".to_string(),
        title: "Duck Duck Go".to_string(),
        url: "https://duckduckgo.com/".to_string(),
        tags: "This, that".to_string(),
        time: 1,
        version: 2,
        updated: 3,
        parent: 4,
    });
    let system = Content::SystemContent(System {
        key: "routes".to_string(),
        data: "/post/".to_string(),
        time: 5,
        version: 6,
        updated: 7,
        parent: 8,
    });
    for content in [post, link, system] {
        let bytes = serialize(&content);
        assert_eq!(deserialize(&bytes), Some(content.clone()));
        assert_eq!(digest(&serialize(&content)), digest(&bytes));
    }
}

#[test]
fn canonical_bytes_of_a_system_entry() {
    let system = Content::SystemContent(System {
        key: "k".to_string(),
        data: "é".to_string(),
        time: 1,
        version: 2,
        updated: -1,
        parent: 3,
    });
    let mut expected: Vec<u8> = vec![3];
    expected.extend([2, 0, 0, 0]);
    expected.extend([3, 0, 0, 0]);
    expected.extend([1, 0, 0, 0, 0, 0, 0, 0]);
    expected.extend([255; 8]);
    expected.extend([1, 0, 0, 0, 0, 0, 0, 0]);
    expected.extend(b"k");
    expected.extend([2, 0, 0, 0, 0, 0, 0, 0]);
    expected.extend([0xc3, 0xa9]);
    assert_eq!(serialize(&system), expected);
}

#[test]
fn canonical_bytes_of_a_node_leave_out_hashes_and_sequence_links() {
    let node = Node {
        id: 1,
        version: 2,
        child_hash: "x".to_string(),
        self_hash: "y".to_string(),
        hash_chain: "z".to_string(),
        labels: "l".to_string(),
        workflow: "w".to_string(),
        permissions: "p".to_string(),
        paths_to: vec![7, -1],
        paths_from: vec![],
        node_next: Some(4),
        node_last: None,
        time: 3,
        updated: 4,
        child: Some(Child::Link(9)),
    };
    let mut expected: Vec<u8> = Vec::new();
    expected.extend([1, 0, 0, 0]);
    expected.extend([2, 0, 0, 0]);
    expected.extend([3, 0, 0, 0, 0, 0, 0, 0]);
    expected.extend([4, 0, 0, 0, 0, 0, 0, 0]);
    for text in ["l", "w", "p"] {
        expected.extend([1, 0, 0, 0, 0, 0, 0, 0]);
        expected.extend(text.as_bytes());
    }
    expected.extend([2, 0, 0, 0, 0, 0, 0, 0]);
    expected.extend([7, 0, 0, 0]);
    expected.extend([255, 255, 255, 255]);
    expected.extend([0, 0, 0, 0, 0, 0, 0, 0]);
    expected.extend([2]);
    expected.extend([9, 0, 0, 0]);
    assert_eq!(serialize_node(&node), expected);
    let mut other = node.clone();
    other.child_hash = String::new();
    other.self_hash = String::new();
    other.hash_chain = String::new();
    other.node_next = None;
    other.node_last = Some(1);
    assert_eq!(serialize_node(&other), expected);
}

#[test]
fn deserialize_rejects_what_is_not_canonical() {
    let content = article("A", "B", "t", "s");
    let bytes = serialize(&content);
    assert_eq!(deserialize(&[]), None);
    assert_eq!(deserialize(&bytes[..bytes.len() - 1]), None);
    let mut longer = bytes.clone();
    longer.push(0);
    assert_eq!(deserialize(&longer), None);
    let mut other_kind = bytes.clone();
    other_kind[0] = 9;
    assert_eq!(deserialize(&other_kind), None);
    let mut bad_text = bytes.clone();
    let last = bad_text.len() - 1;
    bad_text[last] = 0xff;
    assert_eq!(deserialize(&bad_text), None);
    let mut as_link = bytes.clone();
    as_link[0] = 2;
    assert!(matches!(deserialize(&as_link), Some(Content::LinkContent(_))));
}

#[test]
fn revisions_convert_to_and_from_live_rows() {
    let mut store = Store::new();
    let node = create_node(&mut store, 1).unwrap();
    let attached = attach_content(&mut store, node.id, link_content("a", "b", "c", "d"), 2).unwrap();
    commit_update(&mut store, node.id, link_content("a2", "b2", "c2", "d2"), 3).unwrap();
    assert_eq!(store.node_revisions[0].to_node(), attached);
    assert_eq!(NodeRevision::of(&attached), store.node_revisions[0]);
    let first = store.link_revisions[0].to_link();
    assert_eq!(first.text, "a");
    assert_eq!(first.version, 1);
    assert_eq!(LinkRevision::of(&first), store.link_revisions[0]);
    let entry = System {
        key: "k".to_string(),
        data: "d".to_string(),
        time: 1,
        version: 2,
        updated: 3,
        parent: 4,
    };
    let revision = SystemRevision::of(&entry);
    assert_eq!(revision.key, "k");
    assert_eq!(revision.version, 2);
    assert_eq!(revision.to_system(), entry);
    let content = Content::SystemContent(entry);
    assert_eq!(content.version(), 2);
    assert_eq!(content.parent(), 4);
    assert_eq!(content.child(), Child::System("k".to_string()));
}

#[test]
fn hashes_depend_on_the_fields_alone() {
    let mut store = Store::new();
    let node = attached_article(&mut store);
    let content = get_current(&store, &Child::Article(1)).unwrap();
    assert_eq!(child_hash(&content), child_hash(&content.clone()));
    assert_eq!(child_hash(&content), node.child_hash);
    assert_eq!(self_hash(&node), self_hash(&node.clone()));
    assert_eq!(self_hash(&node), node.self_hash);
    let mut other = node.clone();
    other.labels = "x".to_string();
    assert_ne!(self_hash(&other), node.self_hash);
    let resealed = seal(other, node.child_hash.clone(), &seed()).unwrap();
    assert_eq!(resealed.child_hash, node.child_hash);
    assert_ne!(resealed.hash_chain, node.hash_chain);
    assert_eq!(
        seal(node.clone(), "short".to_string(), &seed()),
        Err(Error::InvalidState)
    );
    assert_eq!(
        seal(node.clone(), node.child_hash.clone(), "short"),
        Err(Error::InvalidState)
    );
}
