//! Document chunking and vector retrieval library.
//!
//! Splits long-form text into bounded, overlapping segments, assigns each
//! segment a stable identity derived from its source path, persists segments
//! with their embeddings in batches behind a per-collection cache, and
//! retrieves stored text by similarity.

pub mod cache;
pub mod chunker;
pub mod error;
pub mod strutil;
pub mod text_splitter;
pub mod vectorizer;

pub use vectorizer::Vectorizer;
