//! The question/answer index: its data, its content hashes, its cache of
//! embeddings, lookup by similarity and the mutations that keep entries and
//! vectors paired.

pub mod embedding;
pub mod persistence;
pub mod properties;
pub mod rebuild;
pub mod search;
pub mod service;
pub mod types;
pub mod utils;

pub use service::QAService;
pub use utils::get_question_hash;
