//! The records of the content graph and their mathematical views.
//!
//! Every record has a view in which text is a sequence of characters and a
//! list is a sequence; the contracts of the library speak of views. A revision
//! has the view type of the record it is a snapshot of. Timestamps are
//! microseconds since the Unix epoch.

use vstd::prelude::*;
use vstd::string::StringExecFns;

verus! {

/// An article, as the `posts` table holds it.
#[derive(Debug, PartialEq, Eq)]
pub struct Post {
    pub id: i32,
    pub title: String,
    pub body: String,
    pub time: i64,
    pub tags: String,
    pub summary: String,
    pub version: i32,
    pub updated: i64,
    pub parent: i32,
}

/// The view of a [`Post`] and of a [`PostRevision`].
pub struct PostView {
    pub id: i32,
    pub title: Seq<char>,
    pub body: Seq<char>,
    pub time: i64,
    pub tags: Seq<char>,
    pub summary: Seq<char>,
    pub version: i32,
    pub updated: i64,
    pub parent: i32,
}

impl View for Post {
    type V = PostView;

    open spec fn view(&self) -> PostView {
        PostView {
            id: self.id,
            title: self.title@,
            body: self.body@,
            time: self.time,
            tags: self.tags@,
            summary: self.summary@,
            version: self.version,
            updated: self.updated,
            parent: self.parent,
        }
    }
}

impl Clone for Post {
    fn clone(&self) -> (r: Self)
        ensures
            r@ == self@,
    {
        Post {
            id: self.id,
            title: self.title.clone(),
            body: self.body.clone(),
            time: self.time,
            tags: self.tags.clone(),
            summary: self.summary.clone(),
            version: self.version,
            updated: self.updated,
            parent: self.parent,
        }
    }
}

impl Post {
    /// Whether `other` has the same fields.
    pub fn same(&self, other: &Post) -> (r: bool)
        ensures
            r == (self@ == other@),
    {
        self.id == other.id
            && self.time == other.time
            && self.version == other.version
            && self.updated == other.updated
            && self.parent == other.parent
            && self.title == other.title
            && self.body == other.body
            && self.tags == other.tags
            && self.summary == other.summary
    }
}

/// A past version of an article, keyed by `(id, version)`.
#[derive(Debug, PartialEq, Eq)]
pub struct PostRevision {
    pub id: i32,
    pub version: i32,
    pub title: String,
    pub body: String,
    pub time: i64,
    pub updated: i64,
    pub tags: String,
    pub summary: String,
    pub parent: i32,
}

impl View for PostRevision {
    type V = PostView;

    open spec fn view(&self) -> PostView {
        PostView {
            id: self.id,
            title: self.title@,
            body: self.body@,
            time: self.time,
            tags: self.tags@,
            summary: self.summary@,
            version: self.version,
            updated: self.updated,
            parent: self.parent,
        }
    }
}

impl Clone for PostRevision {
    fn clone(&self) -> (r: Self)
        ensures
            r@ == self@,
    {
        PostRevision {
            id: self.id,
            version: self.version,
            title: self.title.clone(),
            body: self.body.clone(),
            time: self.time,
            updated: self.updated,
            tags: self.tags.clone(),
            summary: self.summary.clone(),
            parent: self.parent,
        }
    }
}

impl PostRevision {
    /// The snapshot of an article as it stands.
    pub fn of(post: &Post) -> (r: PostRevision)
        ensures
            r@ == post@,
    {
        PostRevision {
            id: post.id,
            version: post.version,
            title: post.title.clone(),
            body: post.body.clone(),
            time: post.time,
            updated: post.updated,
            tags: post.tags.clone(),
            summary: post.summary.clone(),
            parent: post.parent,
        }
    }

    /// The article as it stood at this revision.
    pub fn to_post(&self) -> (r: Post)
        ensures
            r@ == self@,
    {
        Post {
            id: self.id,
            title: self.title.clone(),
            body: self.body.clone(),
            time: self.time,
            tags: self.tags.clone(),
            summary: self.summary.clone(),
            version: self.version,
            updated: self.updated,
            parent: self.parent,
        }
    }
}

/// What a caller supplies for a new article.
#[derive(Debug, Clone, Copy)]
pub struct NewPost<'a> {
    pub title: &'a str,
    pub body: &'a str,
    pub tags: &'a str,
    pub summary: &'a str,
}

/// A link, as the `links` table holds it.
#[derive(Debug, PartialEq, Eq)]
pub struct Link {
    pub id: i32,
    pub text: String,
    pub title: String,
    pub url: String,
    pub tags: String,
    pub time: i64,
    pub version: i32,
    pub updated: i64,
    pub parent: i32,
}

/// The view of a [`Link`] and of a [`LinkRevision`].
pub struct LinkView {
    pub id: i32,
    pub text: Seq<char>,
    pub title: Seq<char>,
    pub url: Seq<char>,
    pub tags: Seq<char>,
    pub time: i64,
    pub version: i32,
    pub updated: i64,
    pub parent: i32,
}

impl View for Link {
    type V = LinkView;

    open spec fn view(&self) -> LinkView {
        LinkView {
            id: self.id,
            text: self.text@,
            title: self.title@,
            url: self.url@,
            tags: self.tags@,
            time: self.time,
            version: self.version,
            updated: self.updated,
            parent: self.parent,
        }
    }
}

impl Clone for Link {
    fn clone(&self) -> (r: Self)
        ensures
            r@ == self@,
    {
        Link {
            id: self.id,
            text: self.text.clone(),
            title: self.title.clone(),
            url: self.url.clone(),
            tags: self.tags.clone(),
            time: self.time,
            version: self.version,
            updated: self.updated,
            parent: self.parent,
        }
    }
}

impl Link {
    /// Whether `other` has the same fields.
    pub fn same(&self, other: &Link) -> (r: bool)
        ensures
            r == (self@ == other@),
    {
        self.id == other.id
            && self.time == other.time
            && self.version == other.version
            && self.updated == other.updated
            && self.parent == other.parent
            && self.text == other.text
            && self.title == other.title
            && self.url == other.url
            && self.tags == other.tags
    }
}

/// A past version of a link, keyed by `(id, version)`.
#[derive(Debug, PartialEq, Eq)]
pub struct LinkRevision {
    pub id: i32,
    pub version: i32,
    pub text: String,
    pub title: String,
    pub url: String,
    pub tags: String,
    pub time: i64,
    pub updated: i64,
    pub parent: i32,
}

impl View for LinkRevision {
    type V = LinkView;

    open spec fn view(&self) -> LinkView {
        LinkView {
            id: self.id,
            text: self.text@,
            title: self.title@,
            url: self.url@,
            tags: self.tags@,
            time: self.time,
            version: self.version,
            updated: self.updated,
            parent: self.parent,
        }
    }
}

impl Clone for LinkRevision {
    fn clone(&self) -> (r: Self)
        ensures
            r@ == self@,
    {
        LinkRevision {
            id: self.id,
            version: self.version,
            text: self.text.clone(),
            title: self.title.clone(),
            url: self.url.clone(),
            tags: self.tags.clone(),
            time: self.time,
            updated: self.updated,
            parent: self.parent,
        }
    }
}

impl LinkRevision {
    /// The snapshot of a link as it stands.
    pub fn of(link: &Link) -> (r: LinkRevision)
        ensures
            r@ == link@,
    {
        LinkRevision {
            id: link.id,
            version: link.version,
            text: link.text.clone(),
            title: link.title.clone(),
            url: link.url.clone(),
            tags: link.tags.clone(),
            time: link.time,
            updated: link.updated,
            parent: link.parent,
        }
    }

    /// The link as it stood at this revision.
    pub fn to_link(&self) -> (r: Link)
        ensures
            r@ == self@,
    {
        Link {
            id: self.id,
            text: self.text.clone(),
            title: self.title.clone(),
            url: self.url.clone(),
            tags: self.tags.clone(),
            time: self.time,
            version: self.version,
            updated: self.updated,
            parent: self.parent,
        }
    }
}

/// What a caller supplies for a new link.
#[derive(Debug, Clone, Copy)]
pub struct NewLink<'a> {
    pub text: &'a str,
    pub title: &'a str,
    pub url: &'a str,
    pub tags: &'a str,
}

/// A system entry, as the `system` table holds it. Its identity is its key.
#[derive(Debug, PartialEq, Eq)]
pub struct System {
    pub key: String,
    pub data: String,
    pub time: i64,
    pub version: i32,
    pub updated: i64,
    pub parent: i32,
}

/// The view of a [`System`] and of a [`SystemRevision`].
pub struct SystemView {
    pub key: Seq<char>,
    pub data: Seq<char>,
    pub time: i64,
    pub version: i32,
    pub updated: i64,
    pub parent: i32,
}

impl View for System {
    type V = SystemView;

    open spec fn view(&self) -> SystemView {
        SystemView {
            key: self.key@,
            data: self.data@,
            time: self.time,
            version: self.version,
            updated: self.updated,
            parent: self.parent,
        }
    }
}

impl Clone for System {
    fn clone(&self) -> (r: Self)
        ensures
            r@ == self@,
    {
        System {
            key: self.key.clone(),
            data: self.data.clone(),
            time: self.time,
            version: self.version,
            updated: self.updated,
            parent: self.parent,
        }
    }
}

impl System {
    /// Whether `other` has the same fields.
    pub fn same(&self, other: &System) -> (r: bool)
        ensures
            r == (self@ == other@),
    {
        self.time == other.time
            && self.version == other.version
            && self.updated == other.updated
            && self.parent == other.parent
            && self.key == other.key
            && self.data == other.data
    }
}

/// A past version of a system entry, keyed by `(key, version)`.
#[derive(Debug, PartialEq, Eq)]
pub struct SystemRevision {
    pub key: String,
    pub version: i32,
    pub data: String,
    pub time: i64,
    pub updated: i64,
    pub parent: i32,
}

impl View for SystemRevision {
    type V = SystemView;

    open spec fn view(&self) -> SystemView {
        SystemView {
            key: self.key@,
            data: self.data@,
            time: self.time,
            version: self.version,
            updated: self.updated,
            parent: self.parent,
        }
    }
}

impl Clone for SystemRevision {
    fn clone(&self) -> (r: Self)
        ensures
            r@ == self@,
    {
        SystemRevision {
            key: self.key.clone(),
            version: self.version,
            data: self.data.clone(),
            time: self.time,
            updated: self.updated,
            parent: self.parent,
        }
    }
}

impl SystemRevision {
    /// The snapshot of a system entry as it stands.
    pub fn of(entry: &System) -> (r: SystemRevision)
        ensures
            r@ == entry@,
    {
        SystemRevision {
            key: entry.key.clone(),
            version: entry.version,
            data: entry.data.clone(),
            time: entry.time,
            updated: entry.updated,
            parent: entry.parent,
        }
    }

    /// The system entry as it stood at this revision.
    pub fn to_system(&self) -> (r: System)
        ensures
            r@ == self@,
    {
        System {
            key: self.key.clone(),
            data: self.data.clone(),
            time: self.time,
            version: self.version,
            updated: self.updated,
            parent: self.parent,
        }
    }
}

/// What a caller supplies for a new system entry.
#[derive(Debug, Clone, Copy)]
pub struct NewSystem<'a> {
    pub key: &'a str,
    pub data: &'a str,
}

/// The kind of a content record.
#[derive(Clone, Copy, Debug, PartialEq, Eq, Structural)]
pub enum ContentKind {
    Article,
    Link,
    System,
}

impl ContentKind {
    /// The tag under which a table of nodes keeps the kind of a child.
    pub open spec fn tag(self) -> Seq<char> {
        match self {
            ContentKind::Article => "article"@,
            ContentKind::Link => "link"@,
            ContentKind::System => "system"@,
        }
    }

    /// The kind that a tag stands for.
    pub open spec fn of_tag(tag: Seq<char>) -> Option<ContentKind> {
        if tag == "article"@ {
            Some(ContentKind::Article)
        } else if tag == "link"@ {
            Some(ContentKind::Link)
        } else if tag == "system"@ {
            Some(ContentKind::System)
        } else {
            None
        }
    }

    /// The tag under which a table of nodes keeps the kind of a child.
    pub fn name(self) -> (r: &'static str)
        ensures
            r@ == self.tag(),
    {
        match self {
            ContentKind::Article => "article",
            ContentKind::Link => "link",
            ContentKind::System => "system",
        }
    }

    /// The kind that the tag `name` stands for; `None` where it stands for
    /// none.
    pub fn from_name(name: &str) -> (r: Option<ContentKind>)
        ensures
            r == ContentKind::of_tag(name@),
    {
        let name = String::from_str(name);
        if name == String::from_str("article") {
            Some(ContentKind::Article)
        } else if name == String::from_str("link") {
            Some(ContentKind::Link)
        } else if name == String::from_str("system") {
            Some(ContentKind::System)
        } else {
            None
        }
    }

    /// The kinds in the order in which a menu offers them: the kind at
    /// `index`, `None` behind the last.
    pub fn at(index: usize) -> (r: Option<ContentKind>)
        ensures
            r == (if index == 0 {
                Some(ContentKind::Article)
            } else if index == 1 {
                Some(ContentKind::Link)
            } else if index == 2 {
                Some(ContentKind::System)
            } else {
                None
            }),
    {
        if index == 0 {
            Some(ContentKind::Article)
        } else if index == 1 {
            Some(ContentKind::Link)
        } else if index == 2 {
            Some(ContentKind::System)
        } else {
            None
        }
    }

    /// The name under which a menu offers the kind.
    pub fn label(self) -> (r: &'static str)
        ensures
            r@ == (match self {
                ContentKind::Article => "Article"@,
                ContentKind::Link => "Link"@,
                ContentKind::System => "System"@,
            }),
    {
        match self {
            ContentKind::Article => "Article",
            ContentKind::Link => "Link",
            ContentKind::System => "System",
        }
    }
}

/// A tag names the kind that it stands for, and no other.
pub proof fn lemma_tag_round_trip(kind: ContentKind)
    ensures
        ContentKind::of_tag(kind.tag()) == Some(kind),
{
    reveal_strlit("article");
    reveal_strlit("link");
    reveal_strlit("system");
    assert("article"@.len() == 7);
    assert("link"@.len() == 4);
    assert("system"@.len() == 6);
}

/// A content record of one of the three kinds.
#[derive(Debug, PartialEq, Eq)]
pub enum Content {
    PostContent(Post),
    LinkContent(Link),
    SystemContent(System),
}

/// The view of a [`Content`].
pub enum ContentView {
    PostContent(PostView),
    LinkContent(LinkView),
    SystemContent(SystemView),
}

impl View for Content {
    type V = ContentView;

    open spec fn view(&self) -> ContentView {
        match self {
            Content::PostContent(p) => ContentView::PostContent(p@),
            Content::LinkContent(l) => ContentView::LinkContent(l@),
            Content::SystemContent(s) => ContentView::SystemContent(s@),
        }
    }
}

impl Clone for Content {
    fn clone(&self) -> (r: Self)
        ensures
            r@ == self@,
    {
        match self {
            Content::PostContent(p) => Content::PostContent(p.clone()),
            Content::LinkContent(l) => Content::LinkContent(l.clone()),
            Content::SystemContent(s) => Content::SystemContent(s.clone()),
        }
    }
}

impl Content {
    /// Whether `other` is of the same kind and has the same fields.
    pub fn same(&self, other: &Content) -> (r: bool)
        ensures
            r == (self@ == other@),
    {
        match (self, other) {
            (Content::PostContent(a), Content::PostContent(b)) => a.same(b),
            (Content::LinkContent(a), Content::LinkContent(b)) => a.same(b),
            (Content::SystemContent(a), Content::SystemContent(b)) => a.same(b),
            _ => false,
        }
    }

    /// The kind of the record.
    pub fn kind(&self) -> (k: ContentKind)
        ensures
            k == self@.kind(),
    {
        match self {
            Content::PostContent(_) => ContentKind::Article,
            Content::LinkContent(_) => ContentKind::Link,
            Content::SystemContent(_) => ContentKind::System,
        }
    }

    /// The version number that the record carries.
    pub fn version(&self) -> (v: i32)
        ensures
            v == self@.version(),
    {
        match self {
            Content::PostContent(p) => p.version,
            Content::LinkContent(l) => l.version,
            Content::SystemContent(s) => s.version,
        }
    }

    /// The identity of the node that owns the record.
    pub fn parent(&self) -> (p: i32)
        ensures
            p == self@.parent(),
    {
        match self {
            Content::PostContent(p) => p.parent,
            Content::LinkContent(l) => l.parent,
            Content::SystemContent(s) => s.parent,
        }
    }

    /// The reference by which a node names this record.
    pub fn child(&self) -> (c: Child)
        ensures
            c@ == self@.child(),
    {
        match self {
            Content::PostContent(p) => Child::Article(p.id),
            Content::LinkContent(l) => Child::Link(l.id),
            Content::SystemContent(s) => Child::System(s.key.clone()),
        }
    }
}

impl ContentView {
    /// The kind of the record.
    pub open spec fn kind(self) -> ContentKind {
        match self {
            ContentView::PostContent(_) => ContentKind::Article,
            ContentView::LinkContent(_) => ContentKind::Link,
            ContentView::SystemContent(_) => ContentKind::System,
        }
    }

    /// The version number that the record carries.
    pub open spec fn version(self) -> i32 {
        match self {
            ContentView::PostContent(p) => p.version,
            ContentView::LinkContent(l) => l.version,
            ContentView::SystemContent(s) => s.version,
        }
    }

    /// The identity of the node that owns the record.
    pub open spec fn parent(self) -> i32 {
        match self {
            ContentView::PostContent(p) => p.parent,
            ContentView::LinkContent(l) => l.parent,
            ContentView::SystemContent(s) => s.parent,
        }
    }

    /// The reference by which a node names this record.
    pub open spec fn child(self) -> ChildView {
        match self {
            ContentView::PostContent(p) => ChildView::Article(p.id),
            ContentView::LinkContent(l) => ChildView::Link(l.id),
            ContentView::SystemContent(s) => ChildView::System(s.key),
        }
    }
}

/// A node's reference to its content record: the kind and the identity of
/// the record within its kind.
#[derive(Debug, PartialEq, Eq)]
pub enum Child {
    Article(i32),
    Link(i32),
    System(String),
}

/// The view of a [`Child`].
pub enum ChildView {
    Article(i32),
    Link(i32),
    System(Seq<char>),
}

impl View for Child {
    type V = ChildView;

    open spec fn view(&self) -> ChildView {
        match self {
            Child::Article(id) => ChildView::Article(*id),
            Child::Link(id) => ChildView::Link(*id),
            Child::System(key) => ChildView::System(key@),
        }
    }
}

impl ChildView {
    /// The kind of the record that the reference names.
    pub open spec fn kind(self) -> ContentKind {
        match self {
            ChildView::Article(_) => ContentKind::Article,
            ChildView::Link(_) => ContentKind::Link,
            ChildView::System(_) => ContentKind::System,
        }
    }

    /// The reference that a kind, a number and a key make up: an article
    /// or a link with its number, a system entry with its key; `None` where
    /// what the kind asks for is missing.
    pub open spec fn of_parts(kind: ContentKind, id: Option<i32>, key: Option<Seq<char>>) -> Option<
        ChildView,
    > {
        match kind {
            ContentKind::Article => match id {
                Some(id) => Some(ChildView::Article(id)),
                None => None,
            },
            ContentKind::Link => match id {
                Some(id) => Some(ChildView::Link(id)),
                None => None,
            },
            ContentKind::System => match key {
                Some(key) => Some(ChildView::System(key)),
                None => None,
            },
        }
    }
}

impl Child {
    /// Whether `other` names the same record.
    pub fn same(&self, other: &Child) -> (r: bool)
        ensures
            r == (self@ == other@),
    {
        match (self, other) {
            (Child::Article(a), Child::Article(b)) => *a == *b,
            (Child::Link(a), Child::Link(b)) => *a == *b,
            (Child::System(a), Child::System(b)) => *a == *b,
            _ => false,
        }
    }

    /// The kind of the record that the reference names.
    pub fn kind(&self) -> (k: ContentKind)
        ensures
            k == self@.kind(),
    {
        match self {
            Child::Article(_) => ContentKind::Article,
            Child::Link(_) => ContentKind::Link,
            Child::System(_) => ContentKind::System,
        }
    }

    /// The number of the article or link that the reference names.
    pub fn number(&self) -> (r: Option<i32>)
        ensures
            r == (match self@ {
                ChildView::Article(id) => Some(id),
                ChildView::Link(id) => Some(id),
                ChildView::System(_) => None,
            }),
    {
        match self {
            Child::Article(id) => Some(*id),
            Child::Link(id) => Some(*id),
            Child::System(_) => None,
        }
    }

    /// The key of the system entry that the reference names.
    pub fn key(&self) -> (r: Option<String>)
        ensures
            match self@ {
                ChildView::System(key) => r matches Some(k) && k@ == key,
                _ => r is None,
            },
    {
        match self {
            Child::System(key) => Some(key.clone()),
            _ => None,
        }
    }

    /// The reference that a kind, a number and a key make up: an article
    /// or a link with its number, a system entry with its key; `None` where
    /// what the kind asks for is missing.
    pub fn from_parts(kind: ContentKind, id: Option<i32>, key: Option<String>) -> (r: Option<Child>)
        ensures
            child_view(r) == ChildView::of_parts(kind, id, match key {
                Some(k) => Some(k@),
                None => None,
            }),
    {
        match kind {
            ContentKind::Article => match id {
                Some(id) => Some(Child::Article(id)),
                None => None,
            },
            ContentKind::Link => match id {
                Some(id) => Some(Child::Link(id)),
                None => None,
            },
            ContentKind::System => match key {
                Some(key) => Some(Child::System(key)),
                None => None,
            },
        }
    }
}

impl Clone for Child {
    fn clone(&self) -> (r: Self)
        ensures
            r@ == self@,
    {
        match self {
            Child::Article(id) => Child::Article(*id),
            Child::Link(id) => Child::Link(*id),
            Child::System(key) => Child::System(key.clone()),
        }
    }
}

/// The view of an optional child reference.
pub open spec fn child_view(child: Option<Child>) -> Option<ChildView> {
    match child {
        Some(c) => Some(c@),
        None => None,
    }
}

/// The envelope of one content record, as the `nodes` table holds it.
#[derive(Debug, PartialEq, Eq)]
pub struct Node {
    pub id: i32,
    pub version: i32,
    pub child_hash: String,
    pub self_hash: String,
    pub hash_chain: String,
    pub labels: String,
    pub workflow: String,
    pub permissions: String,
    pub paths_to: Vec<i32>,
    pub paths_from: Vec<i32>,
    pub node_next: Option<i32>,
    pub node_last: Option<i32>,
    pub time: i64,
    pub updated: i64,
    pub child: Option<Child>,
}

/// The view of a [`Node`] and of a [`NodeRevision`].
pub struct NodeView {
    pub id: i32,
    pub version: i32,
    pub child_hash: Seq<char>,
    pub self_hash: Seq<char>,
    pub hash_chain: Seq<char>,
    pub labels: Seq<char>,
    pub workflow: Seq<char>,
    pub permissions: Seq<char>,
    pub paths_to: Seq<i32>,
    pub paths_from: Seq<i32>,
    pub node_next: Option<i32>,
    pub node_last: Option<i32>,
    pub time: i64,
    pub updated: i64,
    pub child: Option<ChildView>,
}

impl View for Node {
    type V = NodeView;

    open spec fn view(&self) -> NodeView {
        NodeView {
            id: self.id,
            version: self.version,
            child_hash: self.child_hash@,
            self_hash: self.self_hash@,
            hash_chain: self.hash_chain@,
            labels: self.labels@,
            workflow: self.workflow@,
            permissions: self.permissions@,
            paths_to: self.paths_to@,
            paths_from: self.paths_from@,
            node_next: self.node_next,
            node_last: self.node_last,
            time: self.time,
            updated: self.updated,
            child: child_view(self.child),
        }
    }
}

fn same_child(a: &Option<Child>, b: &Option<Child>) -> (r: bool)
    ensures
        r == (child_view(*a) == child_view(*b)),
{
    match (a, b) {
        (Some(x), Some(y)) => x.same(y),
        (None, None) => true,
        _ => false,
    }
}

fn same_ids(a: &Vec<i32>, b: &Vec<i32>) -> (r: bool)
    ensures
        r == (a@ == b@),
{
    if a.len() != b.len() {
        return false;
    }
    let mut i: usize = 0;
    while i < a.len()
        invariant
            i <= a.len(),
            a.len() == b.len(),
            forall|j: int| 0 <= j < i ==> a@[j] == b@[j],
        decreases a.len() - i,
    {
        if a[i] != b[i] {
            return false;
        }
        i += 1;
    }
    assert(a@ =~= b@);
    true
}

fn same_link(a: Option<i32>, b: Option<i32>) -> (r: bool)
    ensures
        r == (a == b),
{
    match (a, b) {
        (Some(x), Some(y)) => x == y,
        (None, None) => true,
        _ => false,
    }
}

impl Node {
    /// Whether `other` has the same fields.
    pub fn same(&self, other: &Node) -> (r: bool)
        ensures
            r == (self@ == other@),
    {
        self.id == other.id && self.version == other.version && self.child_hash
            == other.child_hash && self.self_hash == other.self_hash && self.hash_chain
            == other.hash_chain && self.labels == other.labels && self.workflow == other.workflow
            && self.permissions == other.permissions && same_ids(&self.paths_to, &other.paths_to)
            && same_ids(&self.paths_from, &other.paths_from) && same_link(
            self.node_next,
            other.node_next,
        ) && same_link(self.node_last, other.node_last) && self.time == other.time && self.updated
            == other.updated && same_child(&self.child, &other.child)
    }
}

fn clone_child(child: &Option<Child>) -> (r: Option<Child>)
    ensures
        child_view(r) == child_view(*child),
{
    match child {
        Some(c) => Some(c.clone()),
        None => None,
    }
}

impl Clone for Node {
    fn clone(&self) -> (r: Self)
        ensures
            r@ == self@,
    {
        Node {
            id: self.id,
            version: self.version,
            child_hash: self.child_hash.clone(),
            self_hash: self.self_hash.clone(),
            hash_chain: self.hash_chain.clone(),
            labels: self.labels.clone(),
            workflow: self.workflow.clone(),
            permissions: self.permissions.clone(),
            paths_to: self.paths_to.clone(),
            paths_from: self.paths_from.clone(),
            node_next: self.node_next,
            node_last: self.node_last,
            time: self.time,
            updated: self.updated,
            child: clone_child(&self.child),
        }
    }
}

/// A past version of a node, keyed by `(id, version)`.
#[derive(Debug, PartialEq, Eq)]
pub struct NodeRevision {
    pub id: i32,
    pub version: i32,
    pub child_hash: String,
    pub self_hash: String,
    pub hash_chain: String,
    pub labels: String,
    pub workflow: String,
    pub permissions: String,
    pub paths_to: Vec<i32>,
    pub paths_from: Vec<i32>,
    pub node_next: Option<i32>,
    pub node_last: Option<i32>,
    pub time: i64,
    pub updated: i64,
    pub child: Option<Child>,
}

impl View for NodeRevision {
    type V = NodeView;

    open spec fn view(&self) -> NodeView {
        NodeView {
            id: self.id,
            version: self.version,
            child_hash: self.child_hash@,
            self_hash: self.self_hash@,
            hash_chain: self.hash_chain@,
            labels: self.labels@,
            workflow: self.workflow@,
            permissions: self.permissions@,
            paths_to: self.paths_to@,
            paths_from: self.paths_from@,
            node_next: self.node_next,
            node_last: self.node_last,
            time: self.time,
            updated: self.updated,
            child: child_view(self.child),
        }
    }
}

impl Clone for NodeRevision {
    fn clone(&self) -> (r: Self)
        ensures
            r@ == self@,
    {
        NodeRevision {
            id: self.id,
            version: self.version,
            child_hash: self.child_hash.clone(),
            self_hash: self.self_hash.clone(),
            hash_chain: self.hash_chain.clone(),
            labels: self.labels.clone(),
            workflow: self.workflow.clone(),
            permissions: self.permissions.clone(),
            paths_to: self.paths_to.clone(),
            paths_from: self.paths_from.clone(),
            node_next: self.node_next,
            node_last: self.node_last,
            time: self.time,
            updated: self.updated,
            child: clone_child(&self.child),
        }
    }
}

impl NodeRevision {
    /// The snapshot of a node as it stands.
    pub fn of(node: &Node) -> (r: NodeRevision)
        ensures
            r@ == node@,
    {
        NodeRevision {
            id: node.id,
            version: node.version,
            child_hash: node.child_hash.clone(),
            self_hash: node.self_hash.clone(),
            hash_chain: node.hash_chain.clone(),
            labels: node.labels.clone(),
            workflow: node.workflow.clone(),
            permissions: node.permissions.clone(),
            paths_to: node.paths_to.clone(),
            paths_from: node.paths_from.clone(),
            node_next: node.node_next,
            node_last: node.node_last,
            time: node.time,
            updated: node.updated,
            child: clone_child(&node.child),
        }
    }

    /// The node as it stood at this revision.
    pub fn to_node(&self) -> (r: Node)
        ensures
            r@ == self@,
    {
        Node {
            id: self.id,
            version: self.version,
            child_hash: self.child_hash.clone(),
            self_hash: self.self_hash.clone(),
            hash_chain: self.hash_chain.clone(),
            labels: self.labels.clone(),
            workflow: self.workflow.clone(),
            permissions: self.permissions.clone(),
            paths_to: self.paths_to.clone(),
            paths_from: self.paths_from.clone(),
            node_next: self.node_next,
            node_last: self.node_last,
            time: self.time,
            updated: self.updated,
            child: clone_child(&self.child),
        }
    }
}

/// The tags that a node is created with.
#[derive(Debug, Clone, Copy)]
pub struct NewNode<'a> {
    pub workflow: &'a str,
    pub permissions: &'a str,
}

impl NewNode<'_> {
    /// The tags of a node under construction: workflow `constructing`,
    /// permissions `pre`.
    pub fn new() -> (r: NewNode<'static>)
        ensures
            r.workflow@ == "constructing"@,
            r.permissions@ == "pre"@,
    {
        NewNode { workflow: "constructing", permissions: "pre" }
    }
}

/// A node together with its current content record.
#[derive(Debug, PartialEq, Eq)]
pub struct FullNode {
    pub node: Node,
    pub content: Content,
}

/// The view of a [`FullNode`].
pub struct FullNodeView {
    pub node: NodeView,
    pub content: ContentView,
}

impl View for FullNode {
    type V = FullNodeView;

    open spec fn view(&self) -> FullNodeView {
        FullNodeView { node: self.node@, content: self.content@ }
    }
}

} // verus!
