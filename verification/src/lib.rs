//! Indexing core of a small full-text search engine.
//!
//! Documents are tokenized against a schema, accumulated into in-memory
//! inverted-index structures (postings, fast-field columns, stored fields),
//! and sealed into immutable segments.  A grammar-driven query parser
//! compiles a textual query into a term-set query bound to the same schema.

pub mod analyzer;
pub mod chars;
pub mod fastfield;
pub mod postings;
pub mod query;
pub mod schema;
pub mod serializer;
pub mod term;
pub mod writer;
