use quark::compress::eval::{
    clean, n_equal, n_exact_spans, report, sample, try_sample, CompressEvalConfig, ReconstructionRates,
    ReconstructionSample, ReconstructionScore, Sweep,
};
use quark::compress::model::{corrupt, corrupts, plan_compressor, shift_right, CompressorPlan};
use quark::compress::quantize::Fsq;
use quark::compress::CompressConfig;
use quark::data::{Shard, ShardMeta, ShardWriter};
use quark::model::{BlockPlan, Matrix};
use quark::number::Real;
use tokenizers::models::bpe::BPE;
use tokenizers::Tokenizer;

fn num(x: f64) -> Real {
    Real::new(x.to_bits(), &x.to_string())
}

fn size(m: &Matrix) -> usize {
    m.inputs * m.outputs
}

fn block_params(b: &BlockPlan) -> usize {
    let a = &b.attention;
    size(&a.wq)
        + size(&a.wk)
        + size(&a.wv)
        + size(&a.wo)
        + size(&b.ffn.gate)
        + size(&b.ffn.up)
        + size(&b.ffn.down)
        + 2 * b.norm
}

fn num_params(p: &CompressorPlan) -> usize {
    size(&p.token_embedding)
        + size(&p.encoder_embed_proj)
        + size(&p.decoder_embed_proj)
        + size(&p.slot_queries)
        + p.encoder.iter().map(block_params).sum::<usize>()
        + p.encoder_norm
        + size(&p.to_latent)
        + size(&p.from_latent)
        + p.decoder.iter().map(block_params).sum::<usize>()
        + p.decoder_norm
        + size(&p.unembed_proj)
}

fn rates(cfg: &CompressConfig) -> (f64, f64, f64) {
    let bits: f64 = cfg.fsq_levels.iter().map(|&l| (l as f64).log2()).sum();
    (
        cfg.span_len as f64 / cfg.n_slots as f64,
        cfg.n_slots as f64 * bits / cfg.span_len as f64,
        (cfg.model.vocab_size as f64).log2(),
    )
}

fn shard(n_tokens: usize, vocab: usize) -> (Vec<u8>, ShardMeta) {
    let mut w = ShardWriter::create(vocab, 0);
    let tokens: Vec<u32> = (0..n_tokens as u32)
        .map(|i| (i.wrapping_mul(2654435761) >> 16) % vocab as u32)
        .collect();
    w.push_document("one two three four five", &tokens).unwrap();
    w.finish()
}

fn cfg() -> CompressEvalConfig {
    CompressEvalConfig {
        batch_size: 2,
        num_workers: 1,
        max_spans: None,
    }
}

/// A sweep in batches, by a compressor that gets every third token wrong when it
/// runs freely and none when it is taught.
fn swept(config: &CompressEvalConfig, c: &CompressConfig, n_tokens: usize) -> ReconstructionScore {
    let (bytes, meta) = shard(n_tokens, c.model.vocab_size);
    let shard = Shard::open("c.bin", &bytes, meta).unwrap();
    let mut sweep = Sweep::start(config, c, shard).unwrap();
    let mut at = 0;
    while at < sweep.score.n_spans_available {
        let rows = config.batch_size.min(sweep.score.n_spans_available - at);
        let take = sweep.take(rows);
        if take == 0 {
            break;
        }
        let ids = shard.tokens(at * c.span_len..(at + take) * c.span_len);
        let spans: Vec<i64> = ids.iter().map(|&t| t as i64).collect();
        let free: Vec<i64> = spans
            .iter()
            .enumerate()
            .map(|(i, &t)| if i % 3 == 0 { t + 1 } else { t })
            .collect();
        sweep.record(take, &spans, &spans, &free);
        at += rows;
    }
    sweep.score
}

#[test]
fn the_reference_config_is_valid_and_in_the_intended_size_class() {
    let cfg = CompressConfig::compressor_15m();
    cfg.validate().unwrap();
    let n = cfg.param_count();
    assert!(
        (13_000_000..=17_000_000).contains(&n),
        "{n} parameters is outside the 13-17M comparison class"
    );
    assert_eq!(n, 14_993_920);
}

#[test]
fn tiny_is_valid_too() {
    CompressConfig::tiny().validate().unwrap();
}

#[test]
fn token_ratio_and_bit_rate_are_reported_separately() {
    let cfg = CompressConfig::compressor_15m();
    let (token_ratio, rate, _) = rates(&cfg);
    assert!((token_ratio - 4.0).abs() < 1e-12);
    assert!((rate - 3.0237).abs() < 1e-3, "{rate}");
    assert_eq!(cfg.span_bits(), 775);
}

#[test]
fn a_config_that_does_not_compress_is_rejected() {
    let cfg = CompressConfig {
        n_slots: 256,
        ..CompressConfig::compressor_15m()
    };
    let errs = cfg.validate().unwrap_err();
    assert!(
        errs.iter().any(|e| e.contains("not a compressor")),
        "{errs:?}"
    );
}

#[test]
fn a_span_that_overruns_the_rope_table_is_rejected() {
    let cfg = CompressConfig {
        span_len: 1024,
        n_slots: 64,
        ..CompressConfig::compressor_15m()
    };
    let errs = cfg.validate().unwrap_err();
    assert!(errs.iter().any(|e| e.contains("max_seq_len")), "{errs:?}");
}

#[test]
fn every_compressor_rule_has_its_message() {
    let base = CompressConfig::tiny;
    let only = |c: CompressConfig| {
        let errs = c.validate().unwrap_err();
        assert_eq!(errs.len(), 1, "{errs:?}");
        errs[0].clone()
    };
    assert_eq!(
        only(CompressConfig { n_slots: 0, ..base() }),
        "n_slots must be >= 1"
    );
    assert_eq!(
        only(CompressConfig { n_slots: 16, ..base() }),
        "n_slots (16) >= span_len (16): that is not a compressor"
    );
    assert_eq!(
        only(CompressConfig { span_len: 0, ..base() }),
        "span_len must be >= 1"
    );
    assert_eq!(
        only(CompressConfig { span_len: 61, ..base() }),
        "span_len + n_slots = 65 exceeds model.max_seq_len = 64; RoPE has no table for those \
         positions"
    );
    assert_eq!(
        only(CompressConfig { token_dropout: num(1.0), ..base() }),
        "token_dropout must be in [0, 1), got 1"
    );
    assert_eq!(
        only(CompressConfig { latent_dropout: num(-0.25), ..base() }),
        "latent_dropout must be in [0, 1), got -0.25"
    );
    assert_eq!(
        only(CompressConfig { bos_id: 256, ..base() }),
        "bos_id (256) is not a token in a vocabulary of 256"
    );
    assert_eq!(
        only(CompressConfig { fsq_levels: vec![], ..base() }),
        "fsq: levels must not be empty"
    );
    assert_eq!(
        only(CompressConfig { fsq_levels: vec![3, 1], ..base() }),
        "fsq: levels[1] = 1: a dimension needs at least 2 levels to carry any bits"
    );
    let mut broken = base();
    broken.model.n_loops = 0;
    assert_eq!(only(broken), "model: n_loops must be >= 1");
}

#[test]
fn parameter_count_matches_the_analytic_budget() {
    for cfg in [CompressConfig::tiny(), CompressConfig::compressor_15m()] {
        let plan = plan_compressor(&cfg).unwrap();
        assert_eq!(
            num_params(&plan),
            cfg.param_count(),
            "budget disagrees with the module for {} slots / {} span",
            cfg.n_slots,
            cfg.span_len,
        );
    }
}

#[test]
fn the_stacks_lie_around_the_latent() {
    let cfg = CompressConfig::tiny();
    let plan = plan_compressor(&cfg).unwrap();
    assert_eq!((plan.slots_from, plan.slots_to), (16, 20));
    assert_eq!((plan.span_from, plan.span_to), (4, 20));
    assert_eq!(plan.encoder.len(), 2);
    assert_eq!(plan.decoder.len(), 2);
    assert_eq!(cfg.max_positions(), 20);
    let err = plan_compressor(&CompressConfig { n_slots: 0, ..cfg }).unwrap_err();
    assert_eq!(err, "invalid CompressConfig:\n  - n_slots must be >= 1");
}

#[test]
fn the_compressor_table_shows_the_rates_it_is_given() {
    let cfg = CompressConfig::compressor_15m();
    let (ratio, rate, raw) = rates(&cfg);
    let table = cfg.budget_table(
        &format!("{ratio:.2}"),
        &format!("{rate:.3}"),
        &format!("{raw:.1}"),
    );
    let lines: Vec<&str> = table.lines().collect();
    assert_eq!(lines[0], "component                      params");
    assert_eq!(lines[2], "token_embedding               1048576");
    assert_eq!(lines[14], "TOTAL                        14993920");
    assert_eq!(
        lines[15],
        "token ratio                      4.00   (sequence length, not information)"
    );
    assert_eq!(
        lines[16],
        "bits/token                      3.024   (vs 13.0 for a raw token id)"
    );
    assert_eq!(lines.len(), 17);
}

#[test]
fn the_default_level_vector_carries_the_bits_it_advertises() {
    let fsq = Fsq::default_levels();
    assert_eq!(fsq.dim(), 5);
    assert_eq!(fsq.codebook_size(), 7 * 5 * 5 * 5 * 5);
    assert_eq!(fsq.codebook_size(), 4_375);
    assert_eq!(fsq.pack_bits(32), 388);
}

#[test]
fn packing_is_the_least_number_of_bits() {
    let bits = |levels: &[u32], n: usize| Fsq::new(levels.to_vec()).pack_bits(n);
    assert_eq!(bits(&[2], 0), 0);
    assert_eq!(bits(&[2], 1), 1);
    assert_eq!(bits(&[4, 2], 7), 21);
    assert_eq!(bits(&[3], 1), 2);
    assert_eq!(bits(&[3], 5), 8);
    assert_eq!(bits(&[5], 3), 7);
    assert_eq!(bits(&[u32::MAX], 3), 96);
    assert_eq!(bits(&[1 << 31, 2], 100), 3200);
    for n in 0..200 {
        let want = (n as f64 * 4_375f64.log2()).ceil() as usize;
        assert_eq!(Fsq::default_levels().pack_bits(n), want);
    }
}

#[test]
fn levels_are_checked_one_by_one() {
    assert_eq!(
        Fsq::try_new(vec![8, 1, 5, 0]).unwrap_err(),
        vec![
            "levels[1] = 1: a dimension needs at least 2 levels to carry any bits",
            "levels[3] = 0: a dimension needs at least 2 levels to carry any bits",
        ]
    );
    assert_eq!(
        Fsq::try_new(vec![]).unwrap_err(),
        vec!["levels must not be empty"]
    );
    let fsq = Fsq::try_new(vec![8, 5, 2]).unwrap();
    assert!(fsq.validate().is_ok());
    assert_eq!(fsq.levels(), &[8, 5, 2]);
    assert_eq!(fsq.half_widths(), vec![4, 2, 1]);
}

#[test]
fn a_sweep_reports_counts_that_add_up() {
    let c = CompressConfig::tiny();
    let score = swept(&cfg(), &c, 200);
    assert_eq!(score.n_tokens, score.n_spans * c.span_len);
    assert!(score.n_spans > 0);
    assert!(score.free_running_correct <= score.n_tokens);
    assert!(score.teacher_forced_correct <= score.n_tokens);
    assert!(score.exact_spans <= score.n_spans);
    assert_eq!(score.n_spans, 12);
    assert_eq!(score.teacher_forced_correct, 192);
    assert_eq!(score.free_running_correct, 126);
    assert_eq!(score.exact_spans, 0);
}

#[test]
fn max_spans_bounds_the_sweep_exactly() {
    let c = CompressConfig::tiny();
    let full = swept(&cfg(), &c, 200);
    assert!(full.n_spans > 3, "the shard should offer several spans");

    let capped = swept(
        &CompressEvalConfig {
            max_spans: Some(3),
            ..cfg()
        },
        &c,
        200,
    );
    assert_eq!(capped.n_spans, 3);
    assert_eq!(capped.n_tokens, 3 * c.span_len);
    assert_eq!(capped.n_spans_available, full.n_spans_available);
}

#[test]
fn eval_a_shard_from_another_tokenizer_is_rejected() {
    let c = CompressConfig::tiny();
    let (bytes, meta) = shard(200, 512);
    let s = Shard::open("c.bin", &bytes, meta).unwrap();
    let err = Sweep::start(&cfg(), &c, s).unwrap_err();
    assert!(err.contains("different tokenizer"), "got: {err}");
}

#[test]
fn a_shard_too_short_for_one_span_is_an_error() {
    let c = CompressConfig::tiny();
    let (bytes, meta) = shard(c.span_len / 2, c.model.vocab_size);
    let s = Shard::open("c.bin", &bytes, meta).unwrap();
    let err = Sweep::start(&cfg(), &c, s).unwrap_err();
    assert!(err.contains("too few"), "got: {err}");
    assert_eq!(
        err,
        "shard holds 9 tokens, too few for even one 16-token span"
    );
}

#[test]
fn sweep_settings_that_measure_nothing_are_refused() {
    assert_eq!(
        CompressEvalConfig { batch_size: 0, ..cfg() }.validate().unwrap_err(),
        "batch_size must be positive"
    );
    assert_eq!(
        CompressEvalConfig { max_spans: Some(0), ..cfg() }.validate().unwrap_err(),
        "max_spans must be positive, or None for the whole shard"
    );
    assert!(CompressEvalConfig::default().validate().is_ok());
    assert_eq!(CompressEvalConfig::default().max_spans, Some(512));
}

#[test]
fn agreement_is_counted_by_token_and_by_span() {
    let a = [1, 2, 3, 4, 5, 6];
    let b = [1, 2, 9, 4, 5, 6];
    assert_eq!(n_equal(&a, &b), 5);
    assert_eq!(n_equal(&a, &a), 6);
    assert_eq!(n_exact_spans(&a, &b, 3, 2), 1);
    assert_eq!(n_exact_spans(&a, &a, 2, 3), 3);
    assert_eq!(n_equal(&[], &[]), 0);
}

#[test]
fn the_decoder_reads_the_span_behind_the_start_token() {
    assert_eq!(shift_right(&[7, 8, 9], 0), vec![0, 7, 8]);
    assert_eq!(shift_right(&[7], 3), vec![3]);
    assert_eq!(corrupt(&[7, 8, 9], &[true, false, true], 0), vec![7, 0, 9]);
    let c = CompressConfig::compressor_15m();
    assert!(corrupts(&c, true));
    assert!(!corrupts(&c, false));
    assert!(!corrupts(&CompressConfig::tiny(), true));
    assert_eq!(c.token_dropout, num(0.15));
}

#[test]
fn separators_are_cleaned_from_samples() {
    assert_eq!(clean("a<|endoftext|>b<|endoftext|>"), "a b ");
    assert_eq!(clean("<|endoftext|<|endoftext|>"), "<|endoftext| ");
    assert_eq!(clean("plain é"), "plain é");
    assert_eq!(clean(""), "");
}

#[test]
fn a_sample_decodes_both_sides() {
    let bpe = BPE::builder()
        .vocab_and_merges(
            [("a".to_string(), 0), ("b".to_string(), 1), ("c".to_string(), 2)],
            vec![],
        )
        .build()
        .unwrap();
    let tok = Tokenizer::new(bpe);
    let s = sample(&tok, &[0, 1, 2], &[0, 2, 2]).unwrap();
    assert_eq!(
        s,
        ReconstructionSample {
            original: tok.decode(&[0, 1, 2], true).unwrap(),
            reconstruction: tok.decode(&[0, 2, 2], true).unwrap(),
            correct: 2,
            span_len: 3,
        }
    );
    assert_eq!(s.original, "a b c");
    assert_eq!(try_sample(&tok, &[0, 1, 2], &[0, 2, 2]), Some(Ok(s)));
}

#[test]
fn samples_are_reported_before_and_after() {
    let s = ReconstructionSample {
        original: "one<|endoftext|>two".to_string(),
        reconstruction: "one two".to_string(),
        correct: 2,
        span_len: 3,
    };
    let percent = format!("{:.1}", 2.0 / 3.0 * 100.0);
    assert_eq!(
        report(&vec![s.clone(), s], &vec![percent.clone(), percent]),
        "--- span 0 (2/3 tokens, 66.7%) ---\n  in : one two\n  out: one two\n\n\
         --- span 1 (2/3 tokens, 66.7%) ---\n  in : one two\n  out: one two\n\n"
    );
}

#[test]
fn a_reconstruction_score_is_reported_in_columns() {
    let score = ReconstructionScore {
        n_spans: 12,
        n_spans_available: 40,
        n_tokens: 192,
        free_running_correct: 126,
        teacher_forced_correct: 192,
        exact_spans: 0,
    };
    let text = score.report(&ReconstructionRates {
        free_running_percent: format!("{:.4}", 126.0 / 192.0 * 100.0),
        exact_span_percent: format!("{:.4}", 0.0),
        teacher_forced_percent: format!("{:.4}", 100.0),
        exposure_gap_percent: format!("{:.4}", 34.375),
        bits_per_token: format!("{:.3}", 3.0237),
        bit_ratio: format!("{:.2}", 4.3),
        token_bits: format!("{:.1}", 13.0),
        token_ratio: format!("{:.2}", 4.0),
        nll: format!("{:.4}", 5.5452),
        token_ppl: format!("{:.3}", 256.0),
    });
    assert_eq!(
        text,
        "free-running accuracy      65.6250%   <- the headline (latent only)\n\
         exact-span rate             0.0000%   (spans recovered token-for-token)\n\
         teacher-forced accuracy   100.0000%   (upper bound; the decoder saw the true prefix)\n\
         exposure gap               34.3750%   (large => the decoder leans on its prefix)\n\
         bits per token               3.024    (4.30x vs 13.0 bits for a raw id)\n\
         token ratio                   4.00    (sequence length, not information)\n\
         reconstruction NLL          5.5452    (the training loss; ppl 256.000)\n\
         spans                           12    (40 available in the shard)\n\
         tokens                         192"
    );
}

#[test]
fn a_sweep_covers_the_same_spans_however_they_are_batched() {
    let c = CompressConfig::tiny();
    let (bytes, meta) = shard(c.span_len * 7 + 1, c.model.vocab_size);
    let s = Shard::open("c.bin", &bytes, meta).unwrap();
    for max_spans in [None, Some(5), Some(100)] {
        let swept = |batch_size| {
            let config = CompressEvalConfig { batch_size, max_spans, ..cfg() };
            let mut sweep = Sweep::start(&config, &c, s).unwrap();
            for at in (0..7).step_by(batch_size) {
                let take = sweep.take(batch_size.min(7 - at));
                let ids = s.tokens(at * c.span_len..(at + take) * c.span_len);
                let spans: Vec<i64> = ids.iter().map(|&t| t as i64).collect();
                let mut free = spans.clone();
                if at == 0 {
                    free[0] += 1;
                }
                sweep.record(take, &spans, &spans, &free);
            }
            sweep.score
        };
        let covered = max_spans.unwrap_or(7).min(7);
        for batch_size in [1, 2, 3, 7, 50] {
            let score = swept(batch_size);
            assert_eq!(score.n_spans_available, 7);
            assert_eq!(score.n_spans, covered);
            assert_eq!(score.n_tokens, covered * c.span_len);
            assert_eq!(score.teacher_forced_correct, score.n_tokens);
            assert_eq!(score.free_running_correct, score.n_tokens - 1);
            assert_eq!(score.exact_spans, covered - 1);
            assert!(score.exact_spans * c.span_len <= score.free_running_correct);
        }
    }
}

#[test]
fn every_layer_of_a_compressor_has_the_shape_of_the_model() {
    let c = CompressConfig::tiny();
    let plan = plan_compressor(&c).unwrap();
    let m = &c.model;
    for block in plan.encoder.iter().chain(plan.decoder.iter()) {
        assert_eq!(block.attention.d_head, m.d_model / m.n_heads);
        assert_eq!(block.attention.n_rep, m.n_heads / m.n_kv_heads);
        assert_eq!(block.attention.wk.outputs, m.n_kv_heads * m.d_model / m.n_heads);
        assert_eq!(block.attention.wv, block.attention.wk);
        assert_eq!(block.attention.wo, block.attention.wq);
        assert_eq!(block.ffn.up, Matrix { inputs: m.d_model, outputs: m.d_ff });
        assert_eq!(block.ffn.down, Matrix { inputs: m.d_ff, outputs: m.d_model });
        assert_eq!(block.norm, m.d_model);
    }
}

#[test]
fn separators_do_not_show_in_a_report() {
    let samples = vec![ReconstructionSample {
        original: "a<|endoftext|>b".to_string(),
        reconstruction: "<|endoftext|>".to_string(),
        correct: 1,
        span_len: 2,
    }];
    let shown = report(&samples, &vec!["50.0".to_string()]);
    assert!(!shown.contains("<|endoftext|>"), "{shown}");
    assert_eq!(shown, "--- span 0 (1/2 tokens, 50.0%) ---\n  in : a b\n  out:  \n\n");
}
