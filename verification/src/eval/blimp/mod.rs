//! Minimal pairs: which of two sentences a model finds more likely.
//!
//! A suite is a set of paradigms, each a list of pairs of a good and a bad
//! sentence. The model is right on a pair when it assigns the good sentence the
//! higher log-probability.

pub mod layout;
pub mod score;
pub mod suite;

pub use layout::{chunk_ends, encode_pairs, lay_out, lay_out_pairs, try_encode_pairs, try_lay_out_pairs, PaddedBatch};
pub use score::{
    count_correct, is_correct, BlimpRates, BlimpScore, FieldTotal, ParadigmScore,
};
pub use suite::{is_blank, suite_files, BlimpSuite, MinimalPair, Paradigm, RawPair};
