use quark::config::ModelConfig;
use quark::data::{Shard, ShardMeta, ShardWriter};
use quark::eval::corpus::{CorpusRates, CorpusScore, CorpusSweep, EvalConfig};

fn shard(n_tokens: usize, vocab: usize) -> (Vec<u8>, ShardMeta) {
    let mut w = ShardWriter::create(vocab, 0);
    let tokens: Vec<u32> = (0..n_tokens as u32 - 1)
        .map(|i| (i.wrapping_mul(2654435761) >> 16) % vocab as u32)
        .collect();
    w.push_document("one two three four five", &tokens).unwrap();
    w.finish()
}

fn cfg() -> EvalConfig {
    EvalConfig {
        seq_len: 16,
        stride: 8,
        batch_size: 2,
        num_workers: 1,
    }
}

fn sweep(n_tokens: usize, vocab: usize, config: &EvalConfig) -> Result<CorpusSweep, String> {
    let (bytes, meta) = shard(n_tokens, vocab);
    let shard = Shard::open("e.bin", &bytes, meta).unwrap();
    CorpusSweep::start(config, &ModelConfig::tiny(), shard)
}

#[test]
fn stride_changes_context_not_bookkeeping() {
    let disjoint = sweep(200, 256, &EvalConfig { stride: 16, ..cfg() }).unwrap();
    let strided = sweep(200, 256, &EvalConfig { stride: 8, ..cfg() }).unwrap();
    let (disjoint, strided) = (disjoint.expected, strided.expected);

    assert_eq!(disjoint.n_words, strided.n_words);
    assert_eq!(disjoint.n_bytes, strided.n_bytes);
    assert!(disjoint.n_scored_tokens <= strided.n_scored_tokens);
    assert!(strided.n_scored_tokens < strided.n_tokens);
    assert_eq!(disjoint.n_scored_tokens, 192);
    assert_eq!(strided.n_scored_tokens, 192);
}

#[test]
fn corpus_a_shard_from_another_tokenizer_is_rejected() {
    let err = sweep(200, 512, &cfg()).unwrap_err();
    assert!(err.contains("different tokenizer"), "got: {err}");
    assert_eq!(
        err,
        "shard vocab 512 != model vocab 256: this shard was tokenized with a different \
         tokenizer, and its ids mean nothing to this model"
    );
}

#[test]
fn corpus_a_stride_wider_than_the_window_is_rejected() {
    let err = sweep(200, 256, &EvalConfig { stride: 32, ..cfg() }).unwrap_err();
    assert!(err.contains("unscored"), "got: {err}");
    assert_eq!(
        err,
        "stride 32 must be in 1..=16 -- a stride wider than the window would leave tokens \
         between windows unscored"
    );
}

#[test]
fn every_sweep_rule_has_its_message() {
    assert_eq!(
        EvalConfig { seq_len: 0, ..cfg() }.validate().unwrap_err(),
        "seq_len must be positive"
    );
    assert!(EvalConfig { stride: 0, ..cfg() }.validate().is_err());
    assert_eq!(
        EvalConfig { batch_size: 0, ..cfg() }.validate().unwrap_err(),
        "batch_size must be positive"
    );
    assert_eq!(
        sweep(200, 256, &EvalConfig { seq_len: 65, ..cfg() }).unwrap_err(),
        "seq_len 65 exceeds the model's max_seq_len 64"
    );
    assert_eq!(
        sweep(16, 256, &cfg()).unwrap_err(),
        "shard holds 16 tokens, too few for even one 16-token window"
    );
}

#[test]
fn a_sweep_that_miscounts_is_an_error() {
    let s = sweep(200, 256, &cfg()).unwrap();
    assert_eq!(s.windows, 23);
    assert_eq!(
        s.finish(192).unwrap(),
        CorpusScore {
            n_scored_tokens: 192,
            n_tokens: 200,
            n_words: 5,
            n_bytes: 23,
        }
    );
    assert_eq!(
        s.finish(191).unwrap_err(),
        "scored 191 tokens but the window layout predicts 192: the mask and the dataset disagree"
    );
}

#[test]
fn the_default_stride_is_half_the_window() {
    assert_eq!(EvalConfig::for_window(512, None, 8), EvalConfig::default());
    assert_eq!(EvalConfig::for_window(1, None, 8).stride, 1);
    assert_eq!(EvalConfig::for_window(100, Some(7), 4).stride, 7);
}

#[test]
fn a_score_is_reported_in_columns() {
    let score = CorpusScore {
        n_scored_tokens: 500,
        n_tokens: 501,
        n_words: 250,
        n_bytes: 1000,
    };
    let report = score.report(&CorpusRates {
        word_ppl: format!("{:.3}", 4.0f64.exp()),
        bits_per_byte: format!("{:.4}", 1.0 / std::f64::consts::LN_2),
        token_ppl: format!("{:.3}", 2.0f64.exp()),
        total_nll: format!("{:.1}", 1000.0),
        coverage_percent: format!("{:.4}", 100.0),
    });
    assert_eq!(
        report,
        "word perplexity            54.598   <- the comparable number\n\
         bits per byte              1.4427   <- also comparable\n\
         token perplexity            7.389   (tokenizer-dependent; do not compare)\n\
         total NLL (nats)           1000.0\n\
         scored tokens                 500   (100.0000% of the corpus)\n\
         words                         250\n\
         bytes                        1000"
    );
}
