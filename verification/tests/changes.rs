use nautilus::changes::{changes, contents_of, Write};
use nautilus::models::{Child, Content, NewLink, NewPost, NewSystem, Post};
use nautilus::content::remove_current;
use nautilus::store::put_current;
use nautilus::{
    attach_content, commit_update, create_link, create_node, create_post, create_system, link,
    update_post, Direction, Store,
};

fn article(body: &str) -> Content {
    Content::PostContent(Post {
        id: 0,
        title: "A".to_string(),
        body: body.to_string(),
        time: 0,
        tags: "t".to_string(),
        summary: "s".to_string(),
        version: 0,
        updated: 0,
        parent: 0,
    })
}

fn filled() -> Store {
    let mut store = Store::new();
    let node = create_node(&mut store, 1).unwrap();
    attach_content(&mut store, node.id, article("a"), 2).unwrap();
    create_post(&mut store, &NewPost { title: "t", body: "b", tags: "g", summary: "s" }, 3)
        .unwrap();
    create_link(&mut store, &NewLink { text: "t", title: "ti", url: "u", tags: "g" }, 4).unwrap();
    create_system(&mut store, &NewSystem { key: "routes", data: "/post/" }, 5).unwrap();
    store
}

#[test]
fn nothing_changes_between_a_store_and_itself() {
    let store = filled();
    assert_eq!(changes(&store, &store), vec![]);
    assert_eq!(changes(&Store::new(), &Store::new()), vec![]);
}

#[test]
fn everything_is_inserted_into_empty_tables() {
    let store = filled();
    let writes = changes(&Store::new(), &store);
    assert_eq!(
        writes,
        vec![
            Write::InsertNode(store.nodes[0].clone()),
            Write::InsertNode(store.nodes[1].clone()),
            Write::InsertNode(store.nodes[2].clone()),
            Write::InsertNode(store.nodes[3].clone()),
            Write::InsertContent(Content::PostContent(store.posts[0].clone())),
            Write::InsertContent(Content::PostContent(store.posts[1].clone())),
            Write::InsertContent(Content::LinkContent(store.links[0].clone())),
            Write::InsertContent(Content::SystemContent(store.system[0].clone())),
        ]
    );
}

#[test]
fn contents_of_lists_the_kinds_in_turn() {
    let store = filled();
    assert_eq!(
        contents_of(&store),
        vec![
            Content::PostContent(store.posts[0].clone()),
            Content::PostContent(store.posts[1].clone()),
            Content::LinkContent(store.links[0].clone()),
            Content::SystemContent(store.system[0].clone()),
        ]
    );
    assert_eq!(contents_of(&Store::new()), vec![]);
}

#[test]
fn a_commit_appends_two_revisions_and_updates_two_rows() {
    let before = filled();
    let mut after = before.clone();
    commit_update(&mut after, 1, article("a2"), 9).unwrap();
    assert_eq!(
        changes(&before, &after),
        vec![
            Write::AppendNodeRevision(after.node_revisions[0].clone()),
            Write::AppendRevision(Content::PostContent(after.post_revisions[0].to_post())),
            Write::UpdateNode { expected_version: 1, node: after.nodes[0].clone() },
            Write::UpdateContent {
                expected_version: 1,
                content: Content::PostContent(after.posts[0].clone()),
            },
        ]
    );
    let mut later = after.clone();
    commit_update(&mut later, 1, article("a3"), 10).unwrap();
    assert_eq!(
        changes(&after, &later),
        vec![
            Write::AppendNodeRevision(later.node_revisions[1].clone()),
            Write::AppendRevision(Content::PostContent(later.post_revisions[1].to_post())),
            Write::UpdateNode { expected_version: 2, node: later.nodes[0].clone() },
            Write::UpdateContent {
                expected_version: 2,
                content: Content::PostContent(later.posts[0].clone()),
            },
        ]
    );
    assert_eq!(changes(&before, &later).len(), 6);
}

#[test]
fn deletes_and_inserts_name_the_rows() {
    let before = filled();
    let mut after = before.clone();
    remove_current(&mut after, &Child::Article(2));
    create_system(&mut after, &NewSystem { key: "theme", data: "dark" }, 6).unwrap();
    let second = create_node(&mut after, 7).unwrap();
    link(&mut after, 1, second.id, Direction::To).unwrap();
    let mut edited = after.links[0].clone();
    edited.url = "elsewhere".to_string();
    after.links[0] = edited.clone();
    assert_eq!(
        changes(&before, &after),
        vec![
            Write::UpdateNode { expected_version: 1, node: after.nodes[0].clone() },
            Write::InsertNode(after.nodes[4].clone()),
            Write::InsertNode(after.nodes[5].clone()),
            Write::DeleteContent { child: Child::Article(2), expected_version: 1 },
            Write::UpdateContent { expected_version: 1, content: Content::LinkContent(edited) },
            Write::InsertContent(Content::SystemContent(after.system[1].clone())),
        ]
    );
    assert_eq!(
        changes(&after, &before),
        vec![
            Write::DeleteNode { id: 5, expected_version: 1 },
            Write::DeleteNode { id: 6, expected_version: 0 },
            Write::UpdateNode { expected_version: 1, node: before.nodes[0].clone() },
            Write::DeleteContent {
                child: Child::System("theme".to_string()),
                expected_version: 1,
            },
            Write::InsertContent(Content::PostContent(before.posts[1].clone())),
            Write::UpdateContent {
                expected_version: 1,
                content: Content::LinkContent(before.links[0].clone()),
            },
        ]
    );
}

#[test]
fn an_edit_appends_two_revisions_and_updates_two_rows() {
    let before = filled();
    let mut after = before.clone();
    let mut edited = after.posts[1].clone();
    edited.body = "changed".to_string();
    assert_eq!(update_post(&mut after, &edited, 9), Ok(1));
    assert_eq!(
        changes(&before, &after),
        vec![
            Write::AppendNodeRevision(after.node_revisions[0].clone()),
            Write::AppendRevision(Content::PostContent(before.posts[1].clone())),
            Write::UpdateNode { expected_version: 1, node: after.nodes[1].clone() },
            Write::UpdateContent {
                expected_version: 1,
                content: Content::PostContent(after.posts[1].clone()),
            },
        ]
    );
}

#[test]
fn an_update_names_the_version_that_was_read() {
    let before = filled();
    let mut after = before.clone();
    let mut edited = after.posts[1].clone();
    edited.version = 5;
    edited.body = "changed".to_string();
    put_current(&mut after, Content::PostContent(edited.clone())).unwrap();
    assert_eq!(
        changes(&before, &after),
        vec![Write::UpdateContent {
            expected_version: 1,
            content: Content::PostContent(edited),
        }]
    );
}

#[test]
fn rows_compare_by_all_their_fields() {
    let store = filled();
    let node = store.nodes[0].clone();
    assert!(node.same(&node.clone()));
    let mut other = node.clone();
    other.node_last = Some(3);
    assert!(!node.same(&other));
    let mut other = node.clone();
    other.paths_from.push(1);
    assert!(!node.same(&other));
    let mut other = node.clone();
    other.hash_chain.push('0');
    assert!(!node.same(&other));
    let mut other = node.clone();
    other.child = Some(Child::Link(1));
    assert!(!node.same(&other));
    other.child = None;
    assert!(!node.same(&other));
    let post = Content::PostContent(store.posts[0].clone());
    let link = Content::LinkContent(store.links[0].clone());
    assert!(post.same(&post.clone()));
    assert!(!post.same(&link));
    assert!(!post.same(&Content::PostContent(store.posts[1].clone())));
    assert!(store.system[0].same(&store.system[0].clone()));
    let mut entry = store.system[0].clone();
    entry.data.push('x');
    assert!(!store.system[0].same(&entry));
    assert!(Child::System("a".to_string()).same(&Child::System("a".to_string())));
    assert!(!Child::System("a".to_string()).same(&Child::System("b".to_string())));
    assert!(!Child::Article(1).same(&Child::Link(1)));
}

#[test]
fn from_tables_gives_out_the_identities_that_come_next() {
    let store = filled();
    let loaded = Store::from_tables(
        store.nodes.clone(),
        store.node_revisions.clone(),
        store.posts.clone(),
        store.post_revisions.clone(),
        store.links.clone(),
        store.link_revisions.clone(),
        store.system.clone(),
        store.system_revisions.clone(),
    );
    assert_eq!(loaded, store);
    let mut later = store.clone();
    commit_update(&mut later, 1, article("a2"), 9).unwrap();
    remove_current(&mut later, &Child::Article(2));
    later.posts.remove(0);
    later.nodes.clear();
    let loaded = Store::from_tables(
        later.nodes.clone(),
        later.node_revisions.clone(),
        later.posts.clone(),
        later.post_revisions.clone(),
        later.links.clone(),
        later.link_revisions.clone(),
        later.system.clone(),
        later.system_revisions.clone(),
    );
    assert_eq!(loaded.next_node_id, 2);
    assert_eq!(loaded.next_post_id, 2);
    assert_eq!(loaded.next_link_id, 2);
    let empty = Store::from_tables(
        vec![],
        vec![],
        vec![],
        vec![],
        vec![],
        vec![],
        vec![],
        vec![],
    );
    assert_eq!(empty, Store::new());
}

#[test]
fn from_tables_stops_at_the_highest_number() {
    let mut store = filled();
    store.posts[0].id = i32::MAX;
    store.links[0].id = -7;
    store.nodes[0].id = i32::MAX - 1;
    let loaded = Store::from_tables(
        store.nodes.clone(),
        vec![],
        store.posts.clone(),
        vec![],
        store.links.clone(),
        vec![],
        vec![],
        vec![],
    );
    assert_eq!(loaded.next_node_id, i32::MAX);
    assert_eq!(loaded.next_post_id, i32::MAX);
    assert_eq!(loaded.next_link_id, 1);
}
