use quark::compress::CompressConfig;
use quark::config::ModelConfig;
use quark::eval::blimp::{BlimpScore, BlimpSuite, ParadigmScore};
use quark::limits::has_mask;
use quark::train::TrainConfig;

#[test]
fn the_reference_configurations_can_be_counted() {
    for config in [ModelConfig::quark_3m(), ModelConfig::tiny()] {
        assert!(config.has_budget() && config.has_compute() && config.has_schedule());
    }
    for config in [CompressConfig::compressor_15m(), CompressConfig::tiny()] {
        assert!(config.has_budget() && config.has_positions());
    }
    assert!(TrainConfig::default().has_step());
}

#[test]
fn a_budget_that_overflows_is_told() {
    let tiny = ModelConfig::tiny;
    assert!(!ModelConfig { n_heads: 0, ..tiny() }.has_budget());
    assert!(!ModelConfig { d_model: usize::MAX, ..tiny() }.has_budget());
    assert!(!ModelConfig { vocab_size: usize::MAX, ..tiny() }.has_budget());
    // As many tables as fit, and one more.
    let c = tiny();
    let rest = c.param_count() - c.vocab_size * c.d_emb;
    let most = (usize::MAX - rest) / c.d_emb;
    assert!(c.tie_embeddings);
    let full = ModelConfig { vocab_size: most, ..tiny() };
    assert!(full.has_budget());
    assert_eq!(full.param_count(), rest + most * c.d_emb);
    assert!(!ModelConfig { vocab_size: most + 1, ..tiny() }.has_budget());
}

#[test]
fn arithmetic_that_overflows_is_told() {
    let tiny = ModelConfig::tiny;
    let c = ModelConfig { n_unique_layers: 1, n_loops: 1, ..tiny() };
    let most = usize::MAX / c.matmul_params_per_layer();
    let full = ModelConfig { n_loops: most, ..c.clone() };
    assert!(full.has_compute());
    assert_eq!(
        full.compute_equivalent_params(),
        most * c.matmul_params_per_layer()
    );
    assert!(!ModelConfig { n_loops: most + 1, ..c.clone() }.has_compute());
    assert!(!ModelConfig { n_heads: 0, ..tiny() }.has_compute());
    let looped = ModelConfig { n_unique_layers: 2, n_loops: usize::MAX, ..tiny() };
    assert!(!looped.has_compute() && !looped.has_schedule());
    assert!(ModelConfig { n_unique_layers: 0, n_loops: usize::MAX, ..tiny() }.has_schedule());
}

#[test]
fn a_compressor_that_cannot_be_counted_is_told() {
    let tiny = CompressConfig::tiny;
    assert!(!CompressConfig { span_len: usize::MAX, ..tiny() }.has_positions());
    assert!(CompressConfig { span_len: usize::MAX, n_slots: 0, ..tiny() }.has_positions());
    assert!(!CompressConfig { n_slots: usize::MAX, ..tiny() }.has_budget());
    let mut c = tiny();
    c.model.n_loops = usize::MAX;
    assert!(!c.has_budget());
    let mut c = tiny();
    c.model.n_unique_layers = 0;
    assert!(!c.has_budget());
    // As many slots as fit, and one more.
    let c = tiny();
    let d = c.model.d_model;
    let rest = c.param_count() - c.n_slots * d;
    let most = (usize::MAX - rest) / d;
    let full = CompressConfig { n_slots: most, ..tiny() };
    assert!(full.has_budget());
    assert_eq!(full.param_count(), rest + most * d);
    assert!(!CompressConfig { n_slots: most + 1, ..tiny() }.has_budget());
}

#[test]
fn a_step_that_cannot_be_counted_is_told() {
    let config = |batch_size, seq_len, grad_accumulation| TrainConfig {
        batch_size,
        seq_len,
        grad_accumulation,
        ..Default::default()
    };
    assert!(config(2, 3, usize::MAX / 6).has_step());
    assert!(!config(2, 3, usize::MAX / 6 + 1).has_step());
    assert!(!config(2, usize::MAX, 0).has_step());
    assert!(config(0, usize::MAX, usize::MAX).has_step());
}

#[test]
fn a_mask_that_cannot_be_laid_out_is_told() {
    assert!(has_mask(3, 5, 2));
    assert!(has_mask(0, usize::MAX, usize::MAX));
    assert!(!has_mask(2, usize::MAX, 0));
    assert!(!has_mask(1, 1, usize::MAX));
    assert!(has_mask(1, usize::MAX, usize::MAX - 1));
}

#[test]
fn pairs_that_cannot_be_counted_are_told() {
    let score = |n_pairs, n_correct| ParadigmScore {
        uid: "p".to_string(),
        field: "f".to_string(),
        n_pairs,
        n_correct,
    };
    let scores = |per_paradigm| BlimpScore { per_paradigm };
    assert!(scores(vec![]).has_count());
    assert!(scores(vec![score(usize::MAX - 1, 1), score(1, 0)]).has_count());
    assert!(!scores(vec![score(usize::MAX, 1), score(1, 0)]).has_count());
    assert!(!scores(vec![score(1, usize::MAX), score(1, 1)]).has_count());
    let suite = BlimpSuite::from_lines(&Vec::new());
    assert!(suite.has_count());
    assert_eq!(suite.n_pairs(), 0);
}
