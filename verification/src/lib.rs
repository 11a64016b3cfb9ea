//! An embedded store for a personal knowledge graph: records, links between
//! them, tags and attributes on both, and a substring search over all of it.
//!
//! - [`entity`]: identifiers and the value types of records and links.
//! - [`search_query`]: the search query language, its parser and the
//!   matching of a query against one entity.
//! - [`search`]: the evaluation of a query on what a container holds.
//! - [`container`]: the transaction contract, the relational encoding, and
//!   the containers: one in memory and one in an SQLite database.
//! - [`renderer`]: what a renderer exchanges with its clients.
//! - [`text`]: substrings and UTF-8.
//! - [`helpers`]: random test data from a seeded generator.

pub mod container;
pub mod entity;
pub mod helpers;
pub mod renderer;
pub mod search;
pub mod search_query;
pub mod text;

pub use container::{Container, ContainerTransaction};
pub use entity::{
    EntityId, EntityIdVer, Link, Record, SearchResult, SearchResultAttribute, SearchResultLink,
    SearchResultRecord, SearchResultTag, TagsAndAttributes, ENTITY_ID_START, ENTITY_VER_FIRST,
    ENTITY_VER_LATEST,
};
pub use search_query::SearchQuery;
