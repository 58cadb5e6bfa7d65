use nautilus::chain::{commit_update, verify_chain};
use nautilus::error::{Error, HashField};
use nautilus::graph::{transition_allowed, Direction};
use nautilus::models::{Child, Content, FullNode, Post};
use nautilus::node_store::{attach_content, create_node};
use nautilus::store::{get_current, get_node, put_node_if_version, snapshot_node, insert_node};
use nautilus::{delete_node, get_full_node, link, set_sequence, transition, Store};

fn article(body: &str) -> Content {
    Content::PostContent(Post {
        id: 0,
        title: "A".to_string(),
        body: body.to_string(),
        time: 0,
        tags: "t".to_string(),
        summary: "s".to_string(),
        version: 0,
        updated: 0,
        parent: 0,
    })
}

fn two_nodes(store: &mut Store) -> (i32, i32) {
    let a = create_node(store, 1).unwrap();
    attach_content(store, a.id, article("a"), 2).unwrap();
    let b = create_node(store, 3).unwrap();
    (a.id, b.id)
}

#[test]
fn link_adds_an_edge_once() {
    let mut store = Store::new();
    let (a, b) = two_nodes(&mut store);
    let linked = link(&mut store, a, b, Direction::To).unwrap();
    assert_eq!(linked.paths_to, vec![b]);
    assert!(linked.paths_from.is_empty());
    assert_eq!(linked.version, 1);
    assert_eq!(get_node(&store, a), Ok(linked.clone()));
    let before = store.clone();
    assert_eq!(link(&mut store, a, b, Direction::To), Ok(linked));
    assert_eq!(store, before);
    let back = link(&mut store, a, b, Direction::From).unwrap();
    assert_eq!(back.paths_to, vec![b]);
    assert_eq!(back.paths_from, vec![b]);
    let own = link(&mut store, a, a, Direction::To).unwrap();
    assert_eq!(own.paths_to, vec![b, a]);
    assert!(store.node_revisions.is_empty());
}

#[test]
fn link_keeps_the_chain_intact() {
    let mut store = Store::new();
    let (a, b) = two_nodes(&mut store);
    link(&mut store, a, b, Direction::To).unwrap();
    assert_eq!(verify_chain(&store, a), Ok(()));
    commit_update(&mut store, a, article("a2"), 5).unwrap();
    link(&mut store, a, b, Direction::From).unwrap();
    assert_eq!(verify_chain(&store, a), Ok(()));
    commit_update(&mut store, a, article("a3"), 6).unwrap();
    assert_eq!(verify_chain(&store, a), Ok(()));
    assert_eq!(store.node_revisions[1].paths_from, vec![b]);
    store.node_revisions[1].paths_from = vec![];
    assert_eq!(
        verify_chain(&store, a),
        Err(Error::Integrity { version: 2, field: HashField::SelfHash })
    );
}

#[test]
fn link_on_a_node_without_content_leaves_the_hashes_empty() {
    let mut store = Store::new();
    let (a, b) = two_nodes(&mut store);
    let linked = link(&mut store, b, a, Direction::To).unwrap();
    assert_eq!(linked.version, 0);
    assert_eq!(linked.self_hash, "");
    assert_eq!(linked.hash_chain, "");
    attach_content(&mut store, b, article("b"), 9).unwrap();
    assert_eq!(verify_chain(&store, b), Ok(()));
}

#[test]
fn link_needs_both_nodes() {
    let mut store = Store::new();
    let (a, _) = two_nodes(&mut store);
    let before = store.clone();
    assert_eq!(link(&mut store, a, 99, Direction::To), Err(Error::NotFound));
    assert_eq!(link(&mut store, 99, a, Direction::To), Err(Error::NotFound));
    assert_eq!(store, before);
}

#[test]
fn link_reports_a_history_that_cannot_be_chained() {
    let mut store = Store::new();
    let (a, b) = two_nodes(&mut store);
    commit_update(&mut store, a, article("a2"), 5).unwrap();
    let clean = store.clone();
    store.node_revisions.clear();
    assert_eq!(link(&mut store, a, b, Direction::To), Err(Error::NotFound));
    store = clean.clone();
    store.node_revisions[0].hash_chain = "zz".to_string();
    assert_eq!(
        link(&mut store, a, b, Direction::To),
        Err(Error::Integrity { version: 2, field: HashField::HashChain })
    );
    store = clean;
    store.nodes[0].child_hash = String::new();
    let before = store.clone();
    assert_eq!(
        link(&mut store, a, b, Direction::To),
        Err(Error::Integrity { version: 2, field: HashField::HashChain })
    );
    assert_eq!(store, before);
}

#[test]
fn set_sequence_sets_both_links() {
    let mut store = Store::new();
    let (a, b) = two_nodes(&mut store);
    let node = set_sequence(&mut store, a, Some(b), None).unwrap();
    assert_eq!(node.node_next, Some(b));
    assert_eq!(node.node_last, None);
    assert_eq!(get_node(&store, a), Ok(node));
    assert_eq!(verify_chain(&store, a), Ok(()));
    let node = set_sequence(&mut store, a, None, Some(77)).unwrap();
    assert_eq!(node.node_next, None);
    assert_eq!(node.node_last, Some(77));
    assert_eq!(verify_chain(&store, a), Ok(()));
    assert_eq!(set_sequence(&mut store, 99, None, None), Err(Error::NotFound));
}

#[test]
fn workflow_follows_the_state_machine() {
    let allowed = [
        ("constructing", "published"),
        ("constructing", "archived"),
        ("constructing", "deleted"),
        ("published", "archived"),
        ("published", "deleted"),
        ("archived", "published"),
        ("archived", "deleted"),
    ];
    let states = ["constructing", "published", "archived", "deleted", "", "Published", "x"];
    for from in states {
        for to in states {
            assert_eq!(
                transition_allowed(from, to),
                allowed.contains(&(from, to)),
                "{} -> {}",
                from,
                to
            );
        }
    }
}

#[test]
fn transition_moves_the_workflow_and_keeps_the_chain() {
    let mut store = Store::new();
    let (a, _) = two_nodes(&mut store);
    let node = transition(&mut store, a, "published").unwrap();
    assert_eq!(node.workflow, "published");
    assert_eq!(node.version, 1);
    assert_eq!(verify_chain(&store, a), Ok(()));
    let before = store.clone();
    assert_eq!(transition(&mut store, a, "constructing"), Err(Error::InvalidState));
    assert_eq!(transition(&mut store, a, "published"), Err(Error::InvalidState));
    assert_eq!(transition(&mut store, a, "unheard of"), Err(Error::InvalidState));
    assert_eq!(store, before);
    transition(&mut store, a, "archived").unwrap();
    transition(&mut store, a, "published").unwrap();
    commit_update(&mut store, a, article("a2"), 5).unwrap();
    transition(&mut store, a, "deleted").unwrap();
    assert_eq!(verify_chain(&store, a), Ok(()));
    for to in ["constructing", "published", "archived", "deleted"] {
        assert_eq!(transition(&mut store, a, to), Err(Error::InvalidState));
    }
    assert_eq!(transition(&mut store, 99, "published"), Err(Error::NotFound));
}

#[test]
fn get_full_node_reads_node_and_content() {
    let mut store = Store::new();
    let (a, b) = two_nodes(&mut store);
    let full = get_full_node(&store, a).unwrap();
    assert_eq!(
        full,
        FullNode {
            node: get_node(&store, a).unwrap(),
            content: get_current(&store, &Child::Article(1)).unwrap(),
        }
    );
    assert_eq!(get_full_node(&store, b), Err(Error::InvalidState));
    assert_eq!(get_full_node(&store, 99), Err(Error::NotFound));
    store.posts.clear();
    assert_eq!(get_full_node(&store, a), Err(Error::NotFound));
}

#[test]
fn node_primitives_guard_their_keys() {
    let mut store = Store::new();
    let (a, _) = two_nodes(&mut store);
    let node = get_node(&store, a).unwrap();
    assert_eq!(insert_node(&mut store, node.clone()), Err(Error::Conflict));
    let mut changed = node.clone();
    changed.labels = "x".to_string();
    assert_eq!(
        put_node_if_version(&mut store, changed.clone(), 5),
        Err(Error::Conflict)
    );
    assert_eq!(get_node(&store, a), Ok(node.clone()));
    assert_eq!(put_node_if_version(&mut store, changed.clone(), 1), Ok(()));
    assert_eq!(get_node(&store, a), Ok(changed.clone()));
    changed.id = 50;
    assert_eq!(
        put_node_if_version(&mut store, changed.clone(), 1),
        Err(Error::NotFound)
    );
    assert_eq!(insert_node(&mut store, changed.clone()), Ok(()));
    assert_eq!(snapshot_node(&mut store, &changed), Ok(()));
    assert_eq!(snapshot_node(&mut store, &changed), Err(Error::Conflict));
    assert_eq!(store.node_revisions.len(), 1);
    assert_eq!(store.node_revisions[0].to_node(), changed);
}

#[test]
fn delete_node_leaves_a_tombstone_with_its_history() {
    let mut store = Store::new();
    let (a, b) = two_nodes(&mut store);
    commit_update(&mut store, a, article("a2"), 5).unwrap();
    let deleted = delete_node(&mut store, a).unwrap();
    assert_eq!(deleted.workflow, "deleted");
    assert_eq!(deleted.version, 2);
    assert_eq!(get_node(&store, a), Ok(deleted));
    assert_eq!(store.node_revisions.len(), 1);
    assert_eq!(store.post_revisions.len(), 1);
    assert_eq!(store.posts.len(), 1);
    assert_eq!(verify_chain(&store, a), Ok(()));
    assert_eq!(delete_node(&mut store, a), Err(Error::InvalidState));
    assert_eq!(delete_node(&mut store, 99), Err(Error::NotFound));
    assert_eq!(delete_node(&mut store, b).unwrap().workflow, "deleted");
}
