//! A persistent frequency count of sentences.
//!
//! A [`SentenceCountsData`] maps each sentence to the number of times it was
//! added. The record is read from and written to a file as one flat JSON
//! object; this crate decodes and encodes the text of that file, counts, and
//! lists the sentences ordered by their count. Opening, locking, reading and
//! writing the file is left to the caller.

pub mod model;
pub mod keys;
pub mod order;
pub mod json;
pub mod error;
pub mod counts;
pub mod render;
pub mod command;
pub mod laws;

pub use counts::SentenceCountsData;
pub use error::CounterError;
