//! The text compressor: its configuration, its quantizer and its evaluation.

pub mod bignum;
pub mod config;
pub mod eval;
pub mod model;
pub mod quantize;

pub use config::CompressConfig;
pub use eval::{CompressEvalConfig, ReconstructionScore};
pub use quantize::Fsq;
