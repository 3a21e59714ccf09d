//! Evaluating a trained model: corpus perplexity, minimal pairs, samples.

pub mod artifacts;
pub mod blimp;
pub mod corpus;
pub mod generate;

pub use blimp::{BlimpScore, BlimpSuite};
pub use corpus::{CorpusScore, EvalConfig};
pub use generate::{GenerationConfig, Sample};
