use quark::config::ModelConfig;
use quark::data::{Shard, ShardMeta, ShardWriter};
use quark::number::{Real, Real32};
use quark::train::epochs::{
    best_valid_loss_epoch, epoch_number, recorded_epochs, refuse_to_merge_runs,
};
use quark::train::plan::{plan_data, plan_schedule, DataPlan};
use quark::train::{TrainConfig, TrainOverrides};

fn num(x: f64) -> Real {
    Real::new(x.to_bits(), &x.to_string())
}

fn num32(x: f32) -> Real32 {
    Real32::new(x.to_bits(), &x.to_string())
}

fn names(items: &[&str]) -> Vec<String> {
    items.iter().map(|s| s.to_string()).collect()
}

/// The epochs of a run, each with the mean of its batches, weighted by size.
fn losses(epochs: &[(usize, &[(f64, usize)])]) -> Vec<(usize, u64)> {
    epochs
        .iter()
        .map(|(epoch, batches)| {
            let sum: f64 = batches.iter().map(|(v, c)| v * *c as f64).sum();
            let n: usize = batches.iter().map(|(_, c)| c).sum();
            (*epoch, (sum / n as f64).to_bits())
        })
        .collect()
}

/// The warmup ratio times the run, rounded, as a caller computes it.
fn ratio_batches(c: &TrainConfig, total: usize) -> usize {
    match &c.warmup_ratio {
        Some(r) => (f64::from_bits(r.bits) * total as f64).round() as usize,
        None => 0,
    }
}

fn warmup(c: &TrainConfig, total: usize) -> usize {
    c.effective_warmup_batches(total, ratio_batches(c, total))
}

fn shard_of(n: usize, vocab: usize) -> (Vec<u8>, ShardMeta) {
    let mut w = ShardWriter::create(vocab, 0);
    let tokens: Vec<u32> = (0..n as u32 - 1).map(|i| i % vocab as u32).collect();
    w.push_document("word", &tokens).unwrap();
    w.finish()
}

fn tiny_config() -> TrainConfig {
    TrainConfig {
        seq_len: 16,
        batch_size: 2,
        grad_accumulation: 1,
        num_epochs: 1,
        warmup_batches: 2,
        num_workers: 1,
        model: ModelConfig::tiny(),
        ..Default::default()
    }
}

#[test]
fn the_reference_config_is_valid() {
    TrainConfig::default().validate().unwrap();
}

#[test]
fn the_best_epoch_is_the_lowest_valid_loss_not_the_last() {
    let log = losses(&[(1, &[(1.0, 4)]), (2, &[(0.5, 4)]), (3, &[(2.0, 4)])]);
    assert_eq!(best_valid_loss_epoch(&log), Some(2));
}

#[test]
fn epochs_are_compared_by_their_mean_loss() {
    let log = losses(&[
        (1, &[(3.9, 1), (0.1, 1)]),
        (2, &[(1.0, 1), (1.0, 1)]),
    ]);
    assert_eq!(best_valid_loss_epoch(&log), Some(2));
}

#[test]
fn the_mean_is_weighted_by_batch_size() {
    let log = losses(&[(1, &[(0.1, 1), (1.9, 99)]), (2, &[(1.0, 100)])]);
    assert_eq!(best_valid_loss_epoch(&log), Some(2));
}

#[test]
fn a_diverged_epoch_is_not_a_candidate() {
    let log = losses(&[(1, &[(1.0, 4)]), (2, &[(f64::NAN, 4)])]);
    assert_eq!(best_valid_loss_epoch(&log), Some(1));
}

#[test]
fn an_empty_artifact_dir_names_no_best_epoch() {
    assert_eq!(best_valid_loss_epoch(&Vec::new()), None);
    assert_eq!(
        best_valid_loss_epoch(&losses(&[(1, &[(f64::NAN, 4)])])),
        None
    );
}

#[test]
fn of_equal_losses_the_first_epoch_wins() {
    let log = vec![
        (4, f64::INFINITY.to_bits()),
        (5, (-0.0f64).to_bits()),
        (6, 0.0f64.to_bits()),
    ];
    assert_eq!(best_valid_loss_epoch(&log), Some(5));
    let log = vec![(1, 1.0f64.to_bits()), (2, (-3.5f64).to_bits())];
    assert_eq!(best_valid_loss_epoch(&log), Some(2));
}

#[test]
fn without_the_guard_a_stale_epoch_wins_the_best_checkpoint_search() {
    let log = losses(&[
        (1, &[(3.361, 512)]),
        (2, &[(3.9, 512)]),
        (3, &[(3.2, 512)]),
        (4, &[(4.1, 512)]),
    ]);
    assert_eq!(best_valid_loss_epoch(&log), Some(3));
    assert_eq!(
        recorded_epochs(&names(&["epoch-1", "epoch-2", "epoch-3", "epoch-4"])),
        Some(4)
    );
}

#[test]
fn a_fresh_run_refuses_a_used_artifact_dir() {
    let err = refuse_to_merge_runs("artifacts/run", &names(&["epoch-1"]), None).unwrap_err();
    assert!(
        err.contains("earlier run") && err.contains("--resume-from-epoch"),
        "the error must name the cause and the way out; got: {err}"
    );
    assert!(
        err.starts_with("artifacts/run already holds metric logs for 1 epoch(s)"),
        "{err}"
    );
}

#[test]
fn resuming_is_not_refused() {
    refuse_to_merge_runs("artifacts/run", &names(&["epoch-1"]), Some(1)).unwrap();
}

#[test]
fn a_directory_without_epoch_logs_is_not_a_used_run() {
    refuse_to_merge_runs("artifacts/run", &Vec::new(), None).unwrap();
    refuse_to_merge_runs("artifacts/run", &names(&["checkpoint", "epoch-"]), None).unwrap();
}

#[test]
fn epoch_directories_are_read_by_their_number() {
    assert_eq!(epoch_number("epoch-12"), Some(12));
    assert_eq!(epoch_number("epoch-+7"), Some(7));
    assert_eq!(epoch_number("epoch-007"), Some(7));
    for bad in [
        "epoch-", "epoch-+", "epoch--1", "epoch-1a", "Epoch-1", "epoch-1 ", "12",
        "epoch-18446744073709551616",
    ] {
        assert_eq!(epoch_number(bad), None, "{bad}");
    }
    assert_eq!(
        epoch_number("epoch-18446744073709551615"),
        Some(usize::MAX)
    );
    assert_eq!(
        recorded_epochs(&names(&["epoch-9", "epoch-10", "notes", "epoch-2"])),
        Some(10)
    );
}

#[test]
fn a_window_longer_than_the_model_supports_is_rejected() {
    let mut c = TrainConfig::default();
    c.seq_len = c.model.max_seq_len + 1;
    let err = c.validate().unwrap_err();
    assert!(err.contains("max_seq_len"), "{err}");
    assert_eq!(
        err,
        "invalid TrainConfig:\n  - seq_len 1025 exceeds the model's max_seq_len 1024: RoPE \
         tables are built to max_seq_len, so longer windows would index out of bounds"
    );
}

#[test]
fn the_schedule_is_measured_in_batches_including_the_partial_one() {
    let c = TrainConfig {
        batch_size: 4,
        num_epochs: 2,
        ..Default::default()
    };
    assert_eq!(c.batches_per_epoch(10), 3);
    assert_eq!(c.total_batches(10), 6);
    let c = TrainConfig {
        grad_accumulation: 8,
        ..c
    };
    assert_eq!(c.total_batches(10), 6);
}

#[test]
fn a_zero_length_warmup_is_allowed() {
    let c = TrainConfig {
        warmup_batches: 0,
        ..Default::default()
    };
    let s = plan_schedule(&c, 10, 0).unwrap();
    assert_eq!((s.period, s.warmup), (10, None));
}

#[test]
fn an_absent_warmup_ratio_keeps_the_absolute_count() {
    let c = TrainConfig::default();
    assert!(c.warmup_ratio.is_none());
    assert_eq!(c.effective_warmup_batches(10_000, 77), c.warmup_batches);
}

#[test]
fn warmup_ratio_drives_the_schedule_like_the_equivalent_count() {
    let by_ratio = TrainConfig {
        lr: num(1e-3),
        warmup_ratio: Some(num(0.1)),
        warmup_batches: 999,
        ..Default::default()
    };
    let by_count = TrainConfig {
        lr: num(1e-3),
        warmup_batches: 10,
        ..Default::default()
    };
    let total = 100;
    assert_eq!(warmup(&by_ratio, total), 10);
    assert_eq!(
        plan_schedule(&by_ratio, total, ratio_batches(&by_ratio, total)).unwrap(),
        plan_schedule(&by_count, total, 0).unwrap()
    );
}

#[test]
fn warmup_ratio_holds_its_share_across_epochs_and_grad_accumulation() {
    let n = 1000;
    let short = TrainConfig {
        batch_size: 10,
        num_epochs: 1,
        warmup_ratio: Some(num(0.05)),
        ..Default::default()
    };
    let long = TrainConfig {
        num_epochs: 4,
        ..short.clone()
    };
    assert_eq!(short.total_batches(n), 100);
    assert_eq!(long.total_batches(n), 400);
    assert_eq!(warmup(&short, short.total_batches(n)), 5);
    assert_eq!(warmup(&long, long.total_batches(n)), 20);

    let more_accum = TrainConfig {
        grad_accumulation: 8,
        ..short.clone()
    };
    assert_eq!(
        warmup(&more_accum, more_accum.total_batches(n)),
        5,
        "grad_accumulation is absent from total_batches, so it cannot move the warmup"
    );
}

#[test]
fn validate_rejects_a_warmup_ratio_outside_the_unit_interval() {
    let ok = TrainConfig {
        warmup_ratio: Some(num(0.02)),
        ..Default::default()
    };
    assert!(ok.validate().is_ok());
    for bad in [1.0, -0.1, f64::NAN, f64::INFINITY] {
        let c = TrainConfig {
            warmup_ratio: Some(num(bad)),
            ..Default::default()
        };
        assert!(c.validate().is_err(), "ratio {bad:?} should be rejected");
    }
}

#[test]
fn a_ratio_warmup_is_shorter_than_the_run() {
    let c = TrainConfig {
        warmup_ratio: Some(num(0.999)),
        ..Default::default()
    };
    assert_eq!(warmup(&c, 10), 9);
    assert_eq!(c.effective_warmup_batches(10, 500), 9);
    assert_eq!(c.effective_warmup_batches(0, 0), 0);
}

#[test]
fn a_warmup_that_fills_the_run_is_refused() {
    let c = TrainConfig {
        warmup_batches: 10,
        ..Default::default()
    };
    assert_eq!(
        plan_schedule(&c, 10, 0).unwrap_err(),
        "warmup of 10 batches must be less than the 10 batches this run will perform, or the \
         learning rate never reaches its peak (warmup_ratio None, warmup_batches 10)"
    );
    assert_eq!(plan_schedule(&c, 11, 0).unwrap().warmup, Some(10));
}

#[test]
fn every_run_rule_has_its_message() {
    let base = TrainConfig::default;
    let only = |c: TrainConfig| {
        let err = c.validate().unwrap_err();
        err.strip_prefix("invalid TrainConfig:\n  - ")
            .unwrap()
            .to_string()
    };
    assert_eq!(
        only(TrainConfig { seq_len: 0, ..base() }),
        "seq_len must be positive"
    );
    assert_eq!(
        only(TrainConfig { batch_size: 0, ..base() }),
        "batch_size must be positive"
    );
    assert_eq!(
        only(TrainConfig { grad_accumulation: 0, ..base() }),
        "grad_accumulation must be at least 1"
    );
    assert_eq!(
        only(TrainConfig { num_epochs: 0, ..base() }),
        "num_epochs must be positive"
    );
    assert_eq!(
        only(TrainConfig { lr: num(1.5), ..base() }),
        "lr must be in (0, 1], got 1.5"
    );
    assert_eq!(
        only(TrainConfig { lr: num(f64::NAN), ..base() }),
        "lr must be in (0, 1], got NaN"
    );
    assert_eq!(
        only(TrainConfig { min_lr_ratio: num(-0.5), ..base() }),
        "min_lr_ratio must be in [0, 1], got -0.5"
    );
    assert_eq!(
        only(TrainConfig { warmup_ratio: Some(num(1.0)), ..base() }),
        "warmup_ratio must be in [0, 1) when set (null falls back to warmup_batches), got 1"
    );
    assert_eq!(
        only(TrainConfig { weight_decay: num32(-0.1), ..base() }),
        "weight_decay must not be negative"
    );
    assert_eq!(
        only(TrainConfig { beta_1: num32(1.0), ..base() }),
        "beta_1 must be in (0, 1), got 1"
    );
    assert_eq!(
        only(TrainConfig { beta_2: num32(0.0), ..base() }),
        "beta_2 must be in (0, 1), got 0"
    );
    assert_eq!(
        only(TrainConfig { epsilon: num32(0.0), ..base() }),
        "epsilon must be positive"
    );
    assert_eq!(
        only(TrainConfig { grad_clip_norm: num32(-1.0), ..base() }),
        "grad_clip_norm must be positive"
    );
    assert_eq!(
        only(TrainConfig { z_loss: num32(f32::INFINITY), ..base() }),
        "z_loss must be finite and non-negative (0 disables it), got inf"
    );
    assert_eq!(
        only(TrainConfig {
            model: ModelConfig { n_loops: 0, ..ModelConfig::tiny() },
            seq_len: 100,
            ..base()
        }),
        "seq_len 100 exceeds the model's max_seq_len 64: RoPE tables are built to max_seq_len, \
         so longer windows would index out of bounds\n  - model: n_loops must be >= 1"
    );
    // What is not a number is not caught by a rule that asks whether it is small.
    assert!(TrainConfig { weight_decay: num32(f32::NAN), ..base() }.validate().is_ok());
    assert!(TrainConfig { epsilon: num32(f32::NAN), ..base() }.validate().is_ok());
}

#[test]
fn the_default_settings_are_the_numbers_they_stand_for() {
    let c = TrainConfig::default();
    assert_eq!(c.lr, num(3e-3));
    assert_eq!(c.min_lr_ratio, num(0.1));
    assert_eq!(c.weight_decay, num32(0.1));
    assert_eq!(c.beta_1, num32(0.9));
    assert_eq!(c.beta_2, num32(0.95));
    assert_eq!(c.epsilon, num32(1e-15));
    assert_eq!(c.grad_clip_norm, num32(1.0));
    assert_eq!(c.z_loss, num32(0.0));
    assert_eq!((c.seq_len, c.batch_size, c.grad_accumulation), (512, 16, 4));
    assert_eq!((c.num_epochs, c.warmup_batches, c.seed), (1, 200, 42));
    assert_eq!(c.train_shard, "artifacts/train.bin");
}

#[test]
fn a_shard_from_a_different_tokenizer_is_rejected_before_training() {
    let cfg = tiny_config();
    let (train, train_meta) = shard_of(600, cfg.model.vocab_size);
    let (valid, valid_meta) = shard_of(4, cfg.model.vocab_size * 2);
    let train = Shard::open("train.bin", &train, train_meta).unwrap();
    let valid = Shard::open("valid.bin", &valid, valid_meta).unwrap();

    let err = plan_data(&cfg, train, valid).unwrap_err();
    assert!(err.contains("vocab_size"), "{err}");
    assert_eq!(
        err,
        "valid shard was tokenized with vocab_size 512 but the model has 256; re-run \
         `quark prepare` with the matching tokenizer"
    );
    assert!(plan_data(&cfg, valid, train)
        .unwrap_err()
        .starts_with("train shard was tokenized"));
}

#[test]
fn a_shard_without_a_window_is_refused() {
    let cfg = tiny_config();
    let (long, long_meta) = shard_of(600, 256);
    let (short, short_meta) = shard_of(16, 256);
    let long = Shard::open("train.bin", &long, long_meta).unwrap();
    let short = Shard::open("valid.bin", &short, short_meta).unwrap();
    assert_eq!(
        plan_data(&cfg, short, long).unwrap_err(),
        "train shard holds fewer than 17 tokens, so it yields no windows"
    );
    assert_eq!(
        plan_data(&cfg, long, short).unwrap_err(),
        "valid shard holds fewer than 17 tokens, so it yields no windows"
    );
    assert_eq!(
        plan_data(&cfg, long, long).unwrap(),
        DataPlan {
            train_windows: 37,
            valid_windows: 37,
            batches_per_epoch: 19,
            total_batches: 19,
        }
    );
}

#[test]
fn settings_that_are_not_given_change_nothing() {
    let none = TrainOverrides {
        train_shard: None,
        valid_shard: None,
        artifact_dir: None,
        seq_len: None,
        batch_size: None,
        grad_accumulation: None,
        num_epochs: None,
        lr: None,
        seed: None,
        resume_from_epoch: None,
    };
    let resumed = TrainConfig {
        resume_from_epoch: Some(3),
        ..Default::default()
    };
    assert_eq!(resumed.clone().overridden(none.clone()), resumed);

    let some = TrainOverrides {
        artifact_dir: Some("elsewhere".to_string()),
        lr: Some(num(1e-4)),
        seed: Some(7),
        resume_from_epoch: Some(5),
        ..none
    };
    let c = resumed.clone().overridden(some);
    assert_eq!(
        c,
        TrainConfig {
            artifact_dir: "elsewhere".to_string(),
            lr: num(1e-4),
            seed: 7,
            resume_from_epoch: Some(5),
            ..resumed
        }
    );
}

#[test]
fn batch_size_trades_for_accumulation() {
    let reference = TrainConfig::default();
    assert_eq!(reference.tokens_per_optimizer_step(), 32_768);
    let traded = TrainConfig {
        batch_size: 4,
        grad_accumulation: 16,
        ..Default::default()
    };
    assert_eq!(
        traded.tokens_per_optimizer_step(),
        reference.tokens_per_optimizer_step()
    );
}
