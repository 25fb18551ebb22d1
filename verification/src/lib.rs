//! Translation of Markdown documents with a metadata header: the structural
//! transform that protects code and metadata, the cache's bookkeeping, and
//! the rules of the gated, retried call to the translation provider.

pub mod cache;
pub mod clock;
pub mod config;
pub mod digest;
pub mod error;
pub mod fields;
pub mod gate;
pub mod header;
pub mod janitor;
pub mod parser;
pub mod pattern;
pub mod routes;
pub mod schemas;
pub mod store;
pub mod text;
pub mod translator;
