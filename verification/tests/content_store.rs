use nautilus::chain::{commit_update, commit_update_if_version, verify_chain};
use nautilus::content::{delete_content, publish_content, remove_current, update_content};
use nautilus::error::{Error, HashField};
use nautilus::hash::{chain, seed};
use nautilus::seal::{child_hash, self_hash};
use nautilus::store::get_node_revisions;
use nautilus::models::{
    Child, Content, Link, NewLink, NewNode, NewPost, NewSystem, Post, PostRevision, System,
};
use nautilus::node_store::{attach_content, create_node, insert_content};
use nautilus::pattern::{chars_of, is_like, like_chars, pattern_of_filter};
use nautilus::store::{get_node, insert_current, put_current, snapshot, Store};
use nautilus::{
    create_link, create_post, create_system, delete_link, delete_post, delete_system,
    publish_link, publish_post, read_all_links, read_all_posts, read_all_system, read_link,
    read_links_by_filter_limit, read_post, read_posts_by_filter_limit, read_some_posts,
    read_system, update_link, update_post, update_system,
};

fn new_post<'a>(title: &'a str, tags: &'a str) -> NewPost<'a> {
    NewPost { title, body: "Something", tags, summary: "Something" }
}

fn store_with_posts(tags: &[&str]) -> Store {
    let mut store = Store::new();
    for (i, t) in tags.iter().enumerate() {
        let title = format!("post {}", i + 1);
        create_post(&mut store, &new_post(&title, t), 10 + i as i64).unwrap();
    }
    store
}

fn ids(posts: &[Post]) -> Vec<i32> {
    posts.iter().map(|p| p.id).collect()
}

#[test]
fn new_node_is_under_construction() {
    let node = NewNode::new();
    assert_eq!(node.workflow, "constructing");
    assert_eq!(node.permissions, "pre");
}

#[test]
fn create_post_creates_a_node_and_attaches_the_article() {
    let mut store = Store::new();
    let thingy = NewPost {
        title: "Something",
        body: "Something",
        summary: "Something",
        tags: "This, That",
    };
    let post = create_post(&mut store, &thingy, 77).unwrap();
    assert_eq!(
        post,
        Post {
            id: 1,
            title: "Something".to_string(),
            body: "Something".to_string(),
            time: 77,
            tags: "This, That".to_string(),
            summary: "Something".to_string(),
            version: 1,
            updated: 77,
            parent: 1,
        }
    );
    assert_eq!(store.posts, vec![post.clone()]);
    assert_eq!(store.next_post_id, 2);
    assert_eq!(read_post(&store, 1), Ok(post.clone()));
    let node = get_node(&store, post.parent).unwrap();
    assert_eq!(node.version, 1);
    assert_eq!(node.child, Some(Child::Article(1)));
    assert_eq!(node.workflow, "constructing");
    assert_eq!(node.time, 77);
    assert_eq!(node.child_hash, child_hash(&Content::PostContent(post.clone())));
    assert_eq!(node.self_hash, self_hash(&node));
    assert_eq!(
        Ok(node.hash_chain.clone()),
        chain(&node.self_hash, &node.child_hash, &seed())
    );
    assert!(store.node_revisions.is_empty());
    assert!(store.post_revisions.is_empty());
    assert_eq!(verify_chain(&store, node.id), Ok(()));
    let second = create_post(&mut store, &thingy, 78).unwrap();
    assert_eq!(second.id, 2);
    assert_eq!(second.parent, 2);
    assert_eq!(store.nodes.len(), 2);
}

#[test]
fn create_post_fails_when_identities_are_used_up() {
    let mut store = Store::new();
    store.next_post_id = i32::MAX;
    let before = store.clone();
    assert_eq!(create_post(&mut store, &new_post("a", "b"), 1), Err(Error::Storage));
    assert_eq!(store, before);
    store.next_post_id = 5;
    store.post_revisions.push(PostRevision {
        id: 5,
        version: 1,
        title: String::new(),
        body: String::new(),
        time: 0,
        updated: 0,
        tags: String::new(),
        summary: String::new(),
        parent: 0,
    });
    let before = store.clone();
    assert_eq!(create_post(&mut store, &new_post("a", "b"), 1), Err(Error::Storage));
    assert_eq!(store, before);
    let mut store = Store::new();
    store.next_node_id = i32::MAX;
    let before = store.clone();
    assert_eq!(create_post(&mut store, &new_post("a", "b"), 1), Err(Error::Storage));
    assert_eq!(store, before);
}

#[test]
fn create_link_creates_a_node_and_attaches_the_link() {
    let mut store = Store::new();
    create_post(&mut store, &new_post("a", "b"), 1).unwrap();
    let thingy = NewLink {
        text: "Something",
        title: "Something",
        url: "https://duckduckgo.com/",
        tags: "This, that",
    };
    let link = create_link(&mut store, &thingy, 5).unwrap();
    assert_eq!(
        link,
        Link {
            id: 1,
            text: "Something".to_string(),
            title: "Something".to_string(),
            url: "https://duckduckgo.com/".to_string(),
            tags: "This, that".to_string(),
            time: 5,
            version: 1,
            updated: 5,
            parent: 2,
        }
    );
    assert_eq!(read_link(&store, 1), Ok(link.clone()));
    assert_eq!(read_all_links(&store), vec![link]);
    assert_eq!(get_node(&store, 2).unwrap().child, Some(Child::Link(1)));
    assert_eq!(verify_chain(&store, 2), Ok(()));
    store.next_link_id = i32::MAX;
    let before = store.clone();
    assert_eq!(create_link(&mut store, &thingy, 6), Err(Error::Storage));
    assert_eq!(store, before);
}

#[test]
fn create_system_keeps_keys_apart() {
    let mut store = Store::new();
    let thingy = NewSystem { key: "This", data: "That" };
    let entry = create_system(&mut store, &thingy, 9).unwrap();
    assert_eq!(
        entry,
        System {
            key: "This".to_string(),
            data: "That".to_string(),
            time: 9,
            version: 1,
            updated: 9,
            parent: 1,
        }
    );
    assert_eq!(
        get_node(&store, 1).unwrap().child,
        Some(Child::System("This".to_string()))
    );
    assert_eq!(verify_chain(&store, 1), Ok(()));
    let before = store.clone();
    assert_eq!(create_system(&mut store, &thingy, 10), Err(Error::Conflict));
    assert_eq!(store, before);
    assert_eq!(read_all_system(&store), vec![entry.clone()]);
    assert_eq!(read_system(&store, "This".to_string()), Ok(entry));
    assert_eq!(read_system(&store, "this".to_string()), Err(Error::NotFound));
    assert_eq!(read_system(&store, "Th%".to_string()), Err(Error::NotFound));
}

#[test]
fn reading_an_absent_record_is_not_found() {
    let store = Store::new();
    assert_eq!(read_post(&store, 1), Err(Error::NotFound));
    assert_eq!(read_link(&store, 1), Err(Error::NotFound));
    assert_eq!(read_system(&store, "routes".to_string()), Err(Error::NotFound));
}

#[test]
fn update_post_commits_a_new_version() {
    let mut store = Store::new();
    let p = create_post(
        &mut store,
        &NewPost { title: "A", body: "B", tags: "t", summary: "s" },
        10,
    )
    .unwrap();
    let content = Post { body: "B2".to_string(), ..p.clone() };
    assert_eq!(update_post(&mut store, &content, 20), Ok(1));
    let live = read_post(&store, p.id).unwrap();
    assert_eq!(
        live,
        Post { body: "B2".to_string(), version: 2, updated: 20, ..p.clone() }
    );
    assert_eq!(store.post_revisions.len(), 1);
    assert_eq!(store.post_revisions[0].to_post(), p);
    let node = get_node(&store, p.parent).unwrap();
    assert_eq!(node.version, 2);
    assert_eq!(node.updated, 20);
    assert_eq!(node.child_hash, child_hash(&Content::PostContent(live.clone())));
    assert_eq!(
        Ok(node.hash_chain.clone()),
        chain(&node.self_hash, &node.child_hash, &store.node_revisions[0].hash_chain)
    );
    assert_eq!(verify_chain(&store, node.id), Ok(()));
    store.post_revisions[0].body = "X".to_string();
    assert_eq!(
        verify_chain(&store, node.id),
        Err(Error::Integrity { version: 1, field: HashField::ChildHash })
    );
}

#[test]
fn update_post_moves_one_version_on_each_time() {
    let mut store = Store::new();
    create_post(&mut store, &new_post("other", "o"), 1).unwrap();
    let p = create_post(&mut store, &new_post("a", "b"), 2).unwrap();
    let k = 6;
    for i in 0..k {
        let mut content = read_post(&store, p.id).unwrap();
        content.body = format!("body {}", i);
        assert_eq!(update_post(&mut store, &content, 100 + i as i64), Ok(1));
        assert_eq!(verify_chain(&store, p.parent), Ok(()));
    }
    assert_eq!(read_post(&store, p.id).unwrap().version, 1 + k);
    assert_eq!(get_node(&store, p.parent).unwrap().version, 1 + k);
    let versions: Vec<i32> = store
        .post_revisions
        .iter()
        .filter(|r| r.id == p.id)
        .map(|r| r.version)
        .collect();
    assert_eq!(versions, (1..=k).collect::<Vec<i32>>());
    let node_versions: Vec<i32> = get_node_revisions(&store, p.parent)
        .iter()
        .map(|r| r.version)
        .collect();
    assert_eq!(node_versions, (1..=k).collect::<Vec<i32>>());
    assert_eq!(read_post(&store, 1).unwrap().version, 1);
}

#[test]
fn update_post_rejects_a_stale_version() {
    let mut store = Store::new();
    let p = create_post(&mut store, &new_post("a", "b"), 2).unwrap();
    let first = Post { body: "first".to_string(), ..p.clone() };
    let second = Post { body: "second".to_string(), ..p.clone() };
    assert_eq!(update_post(&mut store, &first, 3), Ok(1));
    let after_first = store.clone();
    assert_eq!(update_post(&mut store, &second, 4), Err(Error::Conflict));
    assert_eq!(store, after_first);
    assert_eq!(read_post(&store, p.id).unwrap().version, 2);
    assert_eq!(read_post(&store, p.id).unwrap().body, "first");
    assert_eq!(store.post_revisions.len(), 1);
    let ahead = Post { version: 7, ..p.clone() };
    assert_eq!(update_post(&mut store, &ahead, 5), Err(Error::Conflict));
    let absent = Post { id: 99, ..p.clone() };
    assert_eq!(update_post(&mut store, &absent, 5), Err(Error::NotFound));
    assert_eq!(store, after_first);
}

#[test]
fn update_post_conflicts_where_a_revision_of_the_live_version_exists() {
    let mut store = Store::new();
    let p = create_post(&mut store, &new_post("a", "b"), 2).unwrap();
    store.post_revisions.push(PostRevision::of(&p));
    let before = store.clone();
    let content = Post { body: "B2".to_string(), ..p.clone() };
    assert_eq!(update_post(&mut store, &content, 3), Err(Error::Conflict));
    assert_eq!(store, before);
}

#[test]
fn update_link_and_system_commit_new_versions() {
    let mut store = Store::new();
    let link = create_link(
        &mut store,
        &NewLink { text: "t", title: "ti", url: "u", tags: "g" },
        1,
    )
    .unwrap();
    let mut edited = link.clone();
    edited.url = "Something else".to_string();
    assert_eq!(update_link(&mut store, &edited, 2), Ok(1));
    assert_eq!(
        read_link(&store, link.id),
        Ok(Link { url: "Something else".to_string(), version: 2, updated: 2, ..link.clone() })
    );
    assert_eq!(store.link_revisions.len(), 1);
    assert_eq!(store.link_revisions[0].to_link(), link);
    assert_eq!(update_link(&mut store, &edited, 3), Err(Error::Conflict));
    edited.id = 2;
    assert_eq!(update_link(&mut store, &edited, 3), Err(Error::NotFound));
    assert_eq!(verify_chain(&store, link.parent), Ok(()));
    create_system(&mut store, &NewSystem { key: "routes", data: "/post/" }, 2).unwrap();
    create_system(&mut store, &NewSystem { key: "theme", data: "dark" }, 3).unwrap();
    let old = read_system(&store, "routes".to_string()).unwrap();
    let mut entry = old.clone();
    entry.data = "/article/".to_string();
    assert_eq!(update_system(&mut store, &entry, 4), Ok(1));
    assert_eq!(
        read_system(&store, "routes".to_string()),
        Ok(System { data: "/article/".to_string(), version: 2, updated: 4, ..old.clone() })
    );
    assert_eq!(store.system_revisions.len(), 1);
    assert_eq!(store.system_revisions[0].to_system(), old);
    assert_eq!(read_system(&store, "theme".to_string()).unwrap().data, "dark");
    assert_eq!(read_system(&store, "theme".to_string()).unwrap().version, 1);
    assert_eq!(verify_chain(&store, old.parent), Ok(()));
    entry.key = "absent".to_string();
    assert_eq!(update_system(&mut store, &entry, 5), Err(Error::NotFound));
}

#[test]
fn read_all_posts_is_in_ascending_order_of_identity() {
    let store = store_with_posts(&["a", "b", "c", "d"]);
    assert_eq!(ids(&read_all_posts(&store)), vec![1, 2, 3, 4]);
    assert_eq!(read_all_posts(&store), store.posts);
    assert_eq!(read_all_posts(&Store::new()), vec![]);
}

#[test]
fn reads_order_a_table_that_stands_in_another_order() {
    let mut store = store_with_posts(&["x", "y x", "x", "z", "x"]);
    store.posts.swap(0, 4);
    store.posts.swap(1, 2);
    store.posts[3].id = 2;
    store.posts[3].title = "second of two".to_string();
    let all = read_all_posts(&store);
    assert_eq!(ids(&all), vec![1, 2, 2, 3, 5]);
    assert_eq!(all[1].title, "post 2");
    assert_eq!(all[2].title, "second of two");
    assert_eq!(ids(&read_some_posts(&store, 3)), vec![5, 3, 2]);
    assert_eq!(read_some_posts(&store, 3)[2].title, "second of two");
    assert_eq!(
        ids(&read_posts_by_filter_limit(&store, "x".to_string(), 9)),
        vec![5, 3, 2, 1]
    );
    for tags in ["a", "b", "c"] {
        create_link(&mut store, &NewLink { text: "t", title: "ti", url: "u", tags }, 1).unwrap();
    }
    store.links.reverse();
    let links = read_all_links(&store);
    assert_eq!(links.iter().map(|l| l.id).collect::<Vec<i32>>(), vec![1, 2, 3]);
    let found = read_links_by_filter_limit(&store, String::new(), 2);
    assert_eq!(found.iter().map(|l| l.id).collect::<Vec<i32>>(), vec![3, 2]);
}

#[test]
fn read_some_posts_takes_the_newest_first() {
    let store = store_with_posts(&["a", "b", "c", "d"]);
    assert_eq!(ids(&read_some_posts(&store, 2)), vec![4, 3]);
    assert_eq!(ids(&read_some_posts(&store, 4)), vec![4, 3, 2, 1]);
    assert_eq!(ids(&read_some_posts(&store, 100)), vec![4, 3, 2, 1]);
    assert_eq!(ids(&read_some_posts(&store, i64::MAX)), vec![4, 3, 2, 1]);
    assert_eq!(ids(&read_some_posts(&store, 0)), Vec::<i32>::new());
    assert_eq!(ids(&read_some_posts(&store, -3)), Vec::<i32>::new());
}

#[test]
fn read_posts_by_filter_limit_matches_part_of_the_tags() {
    let store = store_with_posts(&["Groovy, Rust", "front", "very groovy", "Groovy", "x"]);
    let found = read_posts_by_filter_limit(&store, String::from("Groovy"), 5);
    assert_eq!(ids(&found), vec![4, 1]);
    let found = read_posts_by_filter_limit(&store, String::from("Groovy"), 1);
    assert_eq!(ids(&found), vec![4]);
    let found = read_posts_by_filter_limit(&store, String::from("roovy"), 5);
    assert_eq!(ids(&found), vec![4, 3, 1]);
    let found = read_posts_by_filter_limit(&store, String::new(), 5);
    assert_eq!(ids(&found), vec![5, 4, 3, 2, 1]);
    let found = read_posts_by_filter_limit(&store, String::from("_"), 2);
    assert_eq!(ids(&found), vec![5, 4]);
    let found = read_posts_by_filter_limit(&store, String::from("G%y"), 5);
    assert_eq!(ids(&found), vec![4, 1]);
    let found = read_posts_by_filter_limit(&store, String::from("fr_nt"), 5);
    assert_eq!(ids(&found), vec![2]);
    let found = read_posts_by_filter_limit(&store, String::from("absent"), 5);
    assert_eq!(ids(&found), Vec::<i32>::new());
    let found = read_posts_by_filter_limit(&store, String::from("Groovy"), 0);
    assert_eq!(ids(&found), Vec::<i32>::new());
}

#[test]
fn read_links_by_filter_limit_matches_part_of_the_tags() {
    let mut store = Store::new();
    for tags in ["nav", "Groovy nav", "footer"] {
        create_link(&mut store, &NewLink { text: "t", title: "ti", url: "u", tags }, 1).unwrap();
    }
    let found = read_links_by_filter_limit(&store, String::from("nav"), 5);
    assert_eq!(found.iter().map(|l| l.id).collect::<Vec<i32>>(), vec![2, 1]);
    let found = read_links_by_filter_limit(&store, String::from("nav"), 1);
    assert_eq!(found.iter().map(|l| l.id).collect::<Vec<i32>>(), vec![2]);
    let found = read_links_by_filter_limit(&store, String::from("o_ter"), 5);
    assert_eq!(found.iter().map(|l| l.id).collect::<Vec<i32>>(), vec![3]);
}

#[test]
fn like_follows_the_wildcards() {
    assert!(is_like("", ""));
    assert!(!is_like("a", ""));
    assert!(!is_like("", "a"));
    assert!(is_like("", "%"));
    assert!(is_like("", "%%"));
    assert!(!is_like("", "_"));
    assert!(is_like("abc", "abc"));
    assert!(!is_like("abc", "abd"));
    assert!(!is_like("abc", "ab"));
    assert!(!is_like("ab", "abc"));
    assert!(is_like("abc", "a%"));
    assert!(is_like("abc", "%c"));
    assert!(is_like("abc", "%b%"));
    assert!(is_like("abc", "a_c"));
    assert!(is_like("abc", "___"));
    assert!(!is_like("abc", "____"));
    assert!(!is_like("abc", "__"));
    assert!(is_like("abc", "%_%_%_%"));
    assert!(!is_like("ab", "%_%_%_%"));
    assert!(is_like("aXbXc", "a%b%c"));
    assert!(!is_like("aXbXd", "a%b%c"));
    assert!(is_like("abab", "%ab"));
    assert!(is_like("mississippi", "m%iss%pi"));
    assert!(!is_like("mississippi", "m%iss%pa"));
    assert!(is_like("héllo", "h_llo"));
    assert!(is_like("ABC", "ABC"));
    assert!(!is_like("ABC", "abc"));
}

#[test]
fn like_takes_the_character_after_a_backslash_literally() {
    assert!(is_like("50%", "50\\%"));
    assert!(!is_like("500", "50\\%"));
    assert!(is_like("a_b", "a\\_b"));
    assert!(!is_like("aXb", "a\\_b"));
    assert!(is_like("a\\b", "a\\\\b"));
    assert!(is_like("ab", "a\\b"));
    assert!(!is_like("a\\", "a\\"));
    assert!(!is_like("a", "a\\"));
    assert!(!is_like("", "\\"));
    assert!(is_like("100% sure", "%\\%%"));
    assert!(!is_like("no percent", "%\\%%"));
}

#[test]
fn like_chars_agrees_with_is_like() {
    let text = chars_of("Groovy, Rust");
    assert_eq!(text, "Groovy, Rust".chars().collect::<Vec<char>>());
    assert_eq!(chars_of("é✓"), vec!['é', '✓']);
    let pattern = chars_of(&pattern_of_filter("Rust"));
    assert_eq!(pattern_of_filter("Rust"), "%%Rust%%");
    assert!(like_chars(&text, &pattern));
    assert!(!like_chars(&text, &chars_of(&pattern_of_filter("rust"))));
}

#[test]
fn delete_post_removes_a_record_that_no_node_owns() {
    let mut store = Store::new();
    for tags in ["a", "b", "c"] {
        let free = Content::PostContent(Post {
            id: 0,
            title: "t".to_string(),
            body: "b".to_string(),
            time: 0,
            tags: tags.to_string(),
            summary: "s".to_string(),
            version: 0,
            updated: 0,
            parent: 0,
        });
        insert_content(&mut store, free, 0, 1).unwrap();
    }
    assert_eq!(delete_post(&mut store, 2), Ok(()));
    assert_eq!(ids(&read_all_posts(&store)), vec![1, 3]);
    assert_eq!(read_post(&store, 2), Err(Error::NotFound));
    let before = store.clone();
    assert_eq!(delete_post(&mut store, 2), Err(Error::NotFound));
    assert_eq!(store, before);
    assert_eq!(create_post(&mut store, &new_post("d", "d"), 1).unwrap().id, 4);
}

#[test]
fn delete_link_and_system_remove_records_that_no_node_owns() {
    let mut store = Store::new();
    let link = Content::LinkContent(Link {
        id: 0,
        text: "t".to_string(),
        title: "ti".to_string(),
        url: "u".to_string(),
        tags: "g".to_string(),
        time: 0,
        version: 0,
        updated: 0,
        parent: 0,
    });
    let entry = Content::SystemContent(System {
        key: "routes".to_string(),
        data: "/post/".to_string(),
        time: 0,
        version: 0,
        updated: 0,
        parent: 0,
    });
    insert_content(&mut store, link, 0, 1).unwrap();
    insert_content(&mut store, entry, 0, 2).unwrap();
    assert_eq!(delete_link(&mut store, 1), Ok(()));
    assert_eq!(delete_link(&mut store, 1), Err(Error::NotFound));
    assert_eq!(delete_system(&mut store, "rout%"), Err(Error::NotFound));
    assert_eq!(delete_system(&mut store, "routes"), Ok(()));
    assert!(store.links.is_empty());
    assert!(store.system.is_empty());
}

#[test]
fn deleting_a_created_record_marks_its_node() {
    let mut store = Store::new();
    let link = create_link(
        &mut store,
        &NewLink { text: "t", title: "ti", url: "u", tags: "g" },
        1,
    )
    .unwrap();
    let entry = create_system(&mut store, &NewSystem { key: "routes", data: "/post/" }, 2).unwrap();
    assert_eq!(delete_link(&mut store, link.id), Ok(()));
    assert_eq!(delete_system(&mut store, "routes"), Ok(()));
    assert_eq!(get_node(&store, link.parent).unwrap().workflow, "deleted");
    assert_eq!(get_node(&store, entry.parent).unwrap().workflow, "deleted");
    assert_eq!(store.links.len(), 1);
    assert_eq!(store.system.len(), 1);
    assert_eq!(verify_chain(&store, link.parent), Ok(()));
    assert_eq!(delete_link(&mut store, link.id), Err(Error::InvalidState));
}

#[test]
fn deleting_owned_content_marks_the_node_and_keeps_the_history() {
    let mut store = Store::new();
    let node = create_node(&mut store, 1).unwrap();
    let content = Content::PostContent(Post {
        id: 0,
        title: "A".to_string(),
        body: "B".to_string(),
        time: 0,
        tags: "t".to_string(),
        summary: "s".to_string(),
        version: 0,
        updated: 0,
        parent: 0,
    });
    attach_content(&mut store, node.id, content.clone(), 2).unwrap();
    commit_update(&mut store, node.id, content.clone(), 3).unwrap();
    assert_eq!(delete_post(&mut store, 1), Ok(()));
    assert_eq!(get_node(&store, node.id).unwrap().workflow, "deleted");
    assert_eq!(store.posts.len(), 1);
    assert_eq!(store.post_revisions.len(), 1);
    assert_eq!(store.node_revisions.len(), 1);
    assert_eq!(verify_chain(&store, node.id), Ok(()));
    assert_eq!(delete_post(&mut store, 1), Err(Error::InvalidState));
    assert_eq!(publish_post(&mut store, 1), Err(Error::InvalidState));
    assert_eq!(
        delete_content(&mut store, &Child::Article(1)),
        Err(Error::InvalidState)
    );
}

#[test]
fn publish_post_publishes_the_owning_node() {
    let mut store = Store::new();
    let created = create_post(&mut store, &new_post("a", "t"), 2).unwrap();
    let post = publish_post(&mut store, created.id).unwrap();
    assert_eq!(post, created);
    assert_eq!(post, read_post(&store, 1).unwrap());
    assert_eq!(get_node(&store, created.parent).unwrap().workflow, "published");
    assert_eq!(verify_chain(&store, created.parent), Ok(()));
    assert_eq!(publish_post(&mut store, 1), Err(Error::InvalidState));
    assert_eq!(publish_post(&mut store, 2), Err(Error::NotFound));
    let free = Content::PostContent(Post { id: 0, parent: 0, ..created.clone() });
    insert_content(&mut store, free, 0, 3).unwrap();
    assert_eq!(publish_post(&mut store, 2), Err(Error::InvalidState));
}

#[test]
fn publish_link_publishes_the_owning_node() {
    let mut store = Store::new();
    let created = create_link(
        &mut store,
        &NewLink { text: "t", title: "ti", url: "u", tags: "g" },
        2,
    )
    .unwrap();
    let link = publish_link(&mut store, 1).unwrap();
    assert_eq!(link, created);
    assert_eq!(
        publish_content(&mut store, &Child::Link(1)),
        Err(Error::InvalidState)
    );
    assert_eq!(get_node(&store, created.parent).unwrap().workflow, "published");
    assert_eq!(publish_link(&mut store, 9), Err(Error::NotFound));
}

#[test]
fn a_row_written_behind_the_protocol_is_reported() {
    let mut store = Store::new();
    let created = create_post(&mut store, &new_post("a", "t"), 2).unwrap();
    let mut edited = created.clone();
    edited.body = "B2".to_string();
    assert_eq!(put_current(&mut store, Content::PostContent(edited)), Ok(()));
    assert_eq!(
        verify_chain(&store, created.parent),
        Err(Error::Integrity { version: 1, field: HashField::ChildHash })
    );
}

#[test]
fn store_primitives_guard_their_keys() {
    let mut store = Store::new();
    let post = Post {
        id: 4,
        title: "A".to_string(),
        body: "B".to_string(),
        time: 0,
        tags: "t".to_string(),
        summary: "s".to_string(),
        version: 3,
        updated: 0,
        parent: 0,
    };
    let content = Content::PostContent(post.clone());
    assert_eq!(put_current(&mut store, content.clone()), Err(Error::NotFound));
    assert_eq!(insert_current(&mut store, content.clone()), Ok(()));
    assert_eq!(insert_current(&mut store, content.clone()), Err(Error::Conflict));
    assert_eq!(put_current(&mut store, content.clone()), Ok(()));
    assert_eq!(snapshot(&mut store, &content), Ok(()));
    assert_eq!(snapshot(&mut store, &content), Err(Error::Conflict));
    assert_eq!(store.post_revisions.len(), 1);
    assert_eq!(store.post_revisions[0].to_post(), post);
    assert_eq!(PostRevision::of(&post), store.post_revisions[0]);
    remove_current(&mut store, &Child::Article(4));
    remove_current(&mut store, &Child::Article(4));
    assert!(store.posts.is_empty());
    assert_eq!(store.post_revisions.len(), 1);
    let stored = insert_content(&mut store, content, 7, 8).unwrap();
    assert_eq!(
        stored,
        Content::PostContent(Post { id: 1, version: 1, time: 8, updated: 8, parent: 7, ..post })
    );
}

#[test]
fn update_content_commits_on_condition_of_the_version_read() {
    let mut store = Store::new();
    let created = create_post(&mut store, &new_post("a", "t"), 2).unwrap();
    let read_by_first = read_post(&store, created.id).unwrap();
    let read_by_second = read_post(&store, created.id).unwrap();
    let first = Post { body: "first".to_string(), ..read_by_first };
    let second = Post { body: "second".to_string(), ..read_by_second };
    let stored = update_content(&mut store, Content::PostContent(first.clone()), 3).unwrap();
    let expected = Post { version: 2, updated: 3, ..first };
    assert_eq!(stored, Content::PostContent(expected.clone()));
    assert_eq!(read_post(&store, 1), Ok(expected));
    let after_first = store.clone();
    assert_eq!(
        update_content(&mut store, Content::PostContent(second.clone()), 4),
        Err(Error::Conflict)
    );
    assert_eq!(store, after_first);
    assert_eq!(get_node(&store, created.parent).unwrap().version, 2);
    assert_eq!(store.post_revisions.len(), 1);
    assert_eq!(store.node_revisions.len(), 1);
    let retried = Post { version: 2, ..second };
    assert!(update_content(&mut store, Content::PostContent(retried), 5).is_ok());
    assert_eq!(get_node(&store, created.parent).unwrap().version, 3);
    assert_eq!(verify_chain(&store, created.parent), Ok(()));
}

#[test]
fn update_content_agrees_with_commit_update_if_version() {
    let mut store = Store::new();
    let created = create_post(&mut store, &new_post("a", "t"), 2).unwrap();
    let mut other = store.clone();
    let edited = Content::PostContent(Post { body: "B2".to_string(), ..created.clone() });
    update_content(&mut store, edited.clone(), 3).unwrap();
    commit_update_if_version(&mut other, created.parent, 1, edited, 3).unwrap();
    assert_eq!(store, other);
}

#[test]
fn update_content_refuses_a_record_that_no_node_owns() {
    let mut store = Store::new();
    let free = Content::PostContent(Post {
        id: 0,
        title: "t".to_string(),
        body: "b".to_string(),
        time: 0,
        tags: "g".to_string(),
        summary: "s".to_string(),
        version: 0,
        updated: 0,
        parent: 0,
    });
    let stored = insert_content(&mut store, free, 0, 1).unwrap();
    let before = store.clone();
    assert_eq!(update_content(&mut store, stored.clone(), 3), Err(Error::InvalidState));
    assert_eq!(store, before);
    let mut absent = read_post(&store, 1).unwrap();
    absent.id = 77;
    assert_eq!(
        update_content(&mut store, Content::PostContent(absent), 4),
        Err(Error::NotFound)
    );
    assert_eq!(store, before);
}

#[test]
fn identities_stay_in_ascending_order() {
    let mut store = store_with_posts(&["a", "b", "c", "d"]);
    let mut edited = read_post(&store, 2).unwrap();
    edited.body = "changed".to_string();
    update_post(&mut store, &edited, 5).unwrap();
    delete_post(&mut store, 4).unwrap();
    create_post(&mut store, &new_post("e", "e"), 1).unwrap();
    let node = create_node(&mut store, 1).unwrap();
    let content = Content::PostContent(Post {
        id: 0,
        title: "A".to_string(),
        body: "B".to_string(),
        time: 0,
        tags: "t".to_string(),
        summary: "s".to_string(),
        version: 0,
        updated: 0,
        parent: 0,
    });
    attach_content(&mut store, node.id, content.clone(), 2).unwrap();
    commit_update(&mut store, node.id, content, 3).unwrap();
    assert_eq!(ids(&read_all_posts(&store)), vec![1, 2, 3, 4, 5, 6]);
    assert_eq!(read_all_posts(&store), store.posts);
    assert_eq!(ids(&read_some_posts(&store, 3)), vec![6, 5, 4]);
    assert_eq!(store.next_post_id, 7);
    assert_eq!(
        store.nodes.iter().map(|n| n.id).collect::<Vec<i32>>(),
        vec![1, 2, 3, 4, 5, 6]
    );
}

