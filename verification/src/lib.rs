//! A small-language-model toolkit: model and compressor configurations with
//! their parameter budgets, token shards and training windows, evaluation
//! bookkeeping, decoding, and run management.

pub mod chars;
pub mod compress;
pub mod config;
pub mod data;
pub mod eval;
pub mod infer;
pub mod laws;
pub mod limits;
pub mod model;
pub mod number;
pub mod order;
pub mod text;
pub mod train;
pub mod words;

pub use config::{LayerSchedule, ModelConfig, NormPlacement};
pub use train::TrainConfig;
