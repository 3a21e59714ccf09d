//! Corpus preparation: text to documents, documents to shards, shards to
//! windows and batches.

pub mod articles;
pub mod dataset;
pub mod prepare;
pub mod shard;
pub mod splitting;
pub mod tokenizer;

pub use articles::split_wikitext_articles;
pub use dataset::{TokenBatch, TokenBatcher, TokenDataset, TokenWindow};
pub use prepare::{prepare_shard, shard_of, try_prepare_shard};
pub use shard::{count_words, Shard, ShardMeta, ShardWriter};
