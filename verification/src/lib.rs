//! A schema-driven store of Markdown entities with YAML frontmatter: the
//! verified core (text handling, values, queries, schemas, editing rules).

pub mod cli;
pub mod config;
pub mod entity;
pub mod error;
pub mod fields;
pub mod frontmatter;
pub mod global_config;
pub mod name_map;
pub mod query;
pub mod schema;
pub mod slug;
pub mod storage;
pub mod text;
pub mod value;
pub mod value_traits;
pub mod wikilink;
pub mod yaml;
