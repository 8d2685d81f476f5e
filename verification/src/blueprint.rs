//! Blueprints: planning documents with a central Todo graph and standalone Todo details.
pub mod body;
pub mod create;
pub mod dfs;
pub mod document;
pub mod edit;
pub mod evidence;
pub mod frontmatter;
pub mod graph;
pub mod legacy;
pub mod validate;
pub mod model;
pub mod service;
pub mod source;
pub mod store;
pub mod tasks;
pub mod todo;
