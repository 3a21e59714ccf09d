//! What holds of the library, stated apart from how its functions define it.

pub mod compressors;
pub mod corpora;
pub mod counting;
pub mod decoding;
pub mod models;
pub mod numbers;
pub mod outcomes;
pub mod refusals;
pub mod reports;
pub mod runs;
pub mod suites;
pub mod texts;
pub mod training;
pub mod windows;
pub mod words;
