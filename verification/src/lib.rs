//! Segment-level storage and query-execution core of a full-text search
//! engine: shared byte views over mapped segment files, the per-field norms
//! writer, posting-iteration capability flags and the top-K score collector.

pub mod error;
pub mod mmap_index_input;
pub mod data_output;
pub mod codec_util;
pub mod norms_consumer;
pub mod posting_iterator;
pub mod top_docs;
pub mod ranking;
pub mod round_trip;
