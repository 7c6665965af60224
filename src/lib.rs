//! Browsing a catalog of smart data models: catalog loading, schema
//! normalisation, a model cache and substring search with highlighting.

pub mod cache;
pub mod catalog;
pub mod codegen;
pub mod error;
pub mod links;
pub mod schema;
pub mod search;
pub mod text;
