//! A versioned, integrity-checked content graph.
//!
//! A node is the envelope of one content record: an article, a link or a
//! system entry. Every change of the content leaves the node and the record
//! as they were in the revision tables and moves both one version on. Each
//! version of a node carries three hashes: one of its own fields, one of
//! its content, and one that chains both to the version before.
//! `verify_chain` recomputes them from what is stored and reports the first
//! version at which a stored hash does not fit.

pub mod chain;
pub mod changes;
pub mod codec;
pub mod consistency;
pub mod content;
pub mod error;
pub mod graph;
pub mod hash;
pub mod hex;
pub mod input;
pub mod laws;
pub mod models;
pub mod node_store;
pub mod order;
pub mod pattern;
pub mod replay;
pub mod seal;
pub mod sha256;
pub mod store;
pub mod table;

pub use chain::{commit_update, commit_update_if_version, verify_chain};
pub use content::{
    create_link, create_post, create_system, delete_link, delete_post, delete_system,
    publish_link, publish_post, read_all_links, read_all_posts, read_all_system, read_link,
    read_links_by_filter_limit, read_post, read_posts_by_filter_limit, read_some_posts,
    read_system, update_link, update_post, update_system,
};
pub use error::{Error, HashField};
pub use graph::{delete_node, get_full_node, link, set_sequence, transition, Direction};
pub use node_store::{attach_content, create_node};
pub use store::{get_node, Store};
