//! Semantic question answering over a curated set of question/answer pairs.
//!
//! A question is answered by the stored pair whose question is most similar
//! to it, provided the similarity reaches a threshold. Similarity is
//! measured between embeddings, vectors that a rate-limited provider
//! computes from text.
//!
//! This crate holds the decisions of such a system, each with a contract
//! that Verus proves:
//!
//! - [`gemini::key_manager`]: a pool of provider credentials that hands
//!   out, in round-robin order, a credential that is within its budget and
//!   not in a cool-down;
//! - [`qa::embedding`]: the retry policy for embedding one text;
//! - [`qa::persistence`]: the cache of embeddings, keyed by the content
//!   hash of the question;
//! - [`qa::rebuild`]: the bulk load, which takes from the cache what it
//!   has and asks for the rest;
//! - [`qa::service`]: the index of entries and vectors, paired position by
//!   position through every mutation, with lookup by hash and by similarity;
//! - [`bot`]: what the chat front end needs decided.
//!
//! What needs the network, the disk or floating-point arithmetic is the
//! caller's: it asks the provider, reads and writes the files, and computes
//! similarities. The crate stores an embedding as the bit patterns of its
//! coordinates and takes a similarity as a rank, an integer that orders as
//! the similarities do.
//!
//! The clock and the calendar are those of `chrono`, hashes come from
//! `sha2`, HTML escaping from `teloxide`, and letter case, search and
//! character classes from the standard library. The small functions that
//! call them are the only ones whose contracts are taken on trust; each
//! says in its documentation what it claims.

pub mod bot;
pub mod clock;
pub mod config;
pub mod gemini;
pub mod qa;
pub mod text;
