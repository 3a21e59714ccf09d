//! Training configuration, its checks, and the planning of a run.
//!
//! Every number of a run is in [`TrainConfig`]. A run fails before it starts,
//! not after an hour: [`TrainConfig::validate`] rejects every mistake that the
//! configuration alone shows, and [`plan`] those that show once the data is
//! known.

pub mod epochs;
pub mod plan;

use vstd::prelude::*;

use vstd::string::*;

use vstd::arithmetic::div_mod::lemma_fundamental_div_mod;

use crate::config::{accepted_iff_valid, ModelConfig};
use crate::number::{
    at_most, at_most32, at_most64, at_most_single, less, less32, less64, less_single, Real, Real32, INFINITY_SINGLE, ONE, ONE_SINGLE, ZERO, ZERO_SINGLE,
};
use crate::text::{around_two, decimal, ending_in, join, joined, note, noted, note_prefixed, noted_absent, noted_len, prefixed, texts};

verus! {

/// Everything a run needs, in one place.
#[derive(Debug, Clone, PartialEq, Eq)]
pub struct TrainConfig {
    /// The architecture to train.
    pub model: ModelConfig,
    /// The shard used for gradient steps.
    pub train_shard: String,
    /// A disjoint shard used only for the checkpoint-selection metric.
    pub valid_shard: String,
    /// Where checkpoints, logs and the configuration go.
    pub artifact_dir: String,
    /// Context length. Must not exceed `model.max_seq_len`.
    pub seq_len: usize,
    /// Windows per forward pass.
    pub batch_size: usize,
    /// Forward and backward passes per optimizer step.
    pub grad_accumulation: usize,
    pub num_epochs: usize,
    /// Peak learning rate, reached at the end of warmup.
    pub lr: Real,
    /// Cosine floor, as a fraction of `lr`.
    pub min_lr_ratio: Real,
    /// Warmup length in batches, not optimizer steps. Ignored when
    /// `warmup_ratio` is set.
    pub warmup_batches: usize,
    /// Warmup length as a fraction of the whole run.
    pub warmup_ratio: Option<Real>,
    pub weight_decay: Real32,
    pub beta_1: Real32,
    pub beta_2: Real32,
    pub epsilon: Real32,
    /// Clip threshold applied to each parameter tensor separately.
    pub grad_clip_norm: Real32,
    /// Coefficient on the z-loss penalty; zero disables it.
    pub z_loss: Real32,
    pub seed: u64,
    /// Dataloader worker threads.
    pub num_workers: usize,
    /// Epoch to resume from; `None` starts fresh.
    pub resume_from_epoch: Option<usize>,
}

/// The bits of the `3e-3`.
pub const LR_3E_3: u64 = 0x3f68_9374_bc6a_7efa;

/// The bits of the `0.1`.
pub const RATIO_0_1: u64 = 0x3fb9_9999_9999_999a;

/// The bits of the single-precision `0.1`.
pub const DECAY_0_1: u32 = 0x3dcc_cccd;

/// The bits of the single-precision `0.9`.
pub const BETA_0_9: u32 = 0x3f66_6666;

/// The bits of the single-precision `0.95`.
pub const BETA_0_95: u32 = 0x3f73_3333;

/// The bits of the single-precision `1e-15`.
pub const EPSILON_1E_15: u32 = 0x2690_1d7d;

/// The least number of batches of `size` that hold `n` items.
pub open spec fn ceil_div(n: nat, size: nat) -> nat {
    if n % size == 0 {
        n / size
    } else {
        n / size + 1
    }
}

/// Whether a number lies in the open interval from zero to one.
pub open spec fn in_open_unit(bits: u32) -> bool {
    less32(ZERO_SINGLE, bits) && less32(bits, ONE_SINGLE)
}

/// Settings given beside a configuration, which they take precedence over.
#[derive(Debug, Clone, PartialEq, Eq)]
pub struct TrainOverrides {
    pub train_shard: Option<String>,
    pub valid_shard: Option<String>,
    pub artifact_dir: Option<String>,
    pub seq_len: Option<usize>,
    pub batch_size: Option<usize>,
    pub grad_accumulation: Option<usize>,
    pub num_epochs: Option<usize>,
    pub lr: Option<Real>,
    pub seed: Option<u64>,
    pub resume_from_epoch: Option<usize>,
}

/// What was given, or what was there.
pub open spec fn given_or<T>(given: Option<T>, there: T) -> T {
    match given {
        Some(value) => value,
        None => there,
    }
}

impl TrainConfig {
    /// The configuration with the settings that were given. One that was not
    /// given says nothing: in particular it does not clear the epoch to resume
    /// from.
    pub fn overridden(self, given: TrainOverrides) -> (r: Self)
        ensures
            r == (TrainConfig {
                train_shard: given_or(given.train_shard, self.train_shard),
                valid_shard: given_or(given.valid_shard, self.valid_shard),
                artifact_dir: given_or(given.artifact_dir, self.artifact_dir),
                seq_len: given_or(given.seq_len, self.seq_len),
                batch_size: given_or(given.batch_size, self.batch_size),
                grad_accumulation: given_or(given.grad_accumulation, self.grad_accumulation),
                num_epochs: given_or(given.num_epochs, self.num_epochs),
                lr: given_or(given.lr, self.lr),
                seed: given_or(given.seed, self.seed),
                resume_from_epoch: if given.resume_from_epoch is Some {
                    given.resume_from_epoch
                } else {
                    self.resume_from_epoch
                },
                ..self
            }),
    {
        TrainConfig {
            train_shard: given.train_shard.unwrap_or(self.train_shard),
            valid_shard: given.valid_shard.unwrap_or(self.valid_shard),
            artifact_dir: given.artifact_dir.unwrap_or(self.artifact_dir),
            seq_len: given.seq_len.unwrap_or(self.seq_len),
            batch_size: given.batch_size.unwrap_or(self.batch_size),
            grad_accumulation: given.grad_accumulation.unwrap_or(self.grad_accumulation),
            num_epochs: given.num_epochs.unwrap_or(self.num_epochs),
            lr: given.lr.unwrap_or(self.lr),
            seed: given.seed.unwrap_or(self.seed),
            resume_from_epoch: if given.resume_from_epoch.is_some() {
                given.resume_from_epoch
            } else {
                self.resume_from_epoch
            },
            ..self
        }
    }

    /// Whether the warmup ratio is one that a run can use; `None` always is.
    pub open spec fn warmup_ratio_ok(&self) -> bool {
        match self.warmup_ratio {
            Some(ratio) => at_most64(ZERO, ratio.bits) && less64(ratio.bits, ONE),
            None => true,
        }
    }

    /// The text of the warmup ratio.
    pub open spec fn warmup_ratio_text(&self) -> Seq<char> {
        match self.warmup_ratio {
            Some(ratio) => ratio.text@,
            None => Seq::empty(),
        }
    }

    /// The rules on the run itself that are broken, in the order of the rules.
    pub open spec fn run_violations(&self) -> Seq<Seq<char>> {
        noted(self.seq_len == 0, "seq_len must be positive"@) + noted(
            self.seq_len > self.model.max_seq_len,
            "seq_len "@ + decimal(self.seq_len as nat) + " exceeds the model's max_seq_len "@
                + decimal(self.model.max_seq_len as nat)
                + ": RoPE tables are built to max_seq_len, so longer windows would index out of bounds"@,
        ) + noted(self.batch_size == 0, "batch_size must be positive"@) + noted(
            self.grad_accumulation == 0,
            "grad_accumulation must be at least 1"@,
        ) + noted(self.num_epochs == 0, "num_epochs must be positive"@)
    }

    /// The rules on the learning rate that are broken.
    pub open spec fn rate_violations(&self) -> Seq<Seq<char>> {
        noted(
            !(less64(ZERO, self.lr.bits) && at_most64(self.lr.bits, ONE)),
            "lr must be in (0, 1], got "@ + self.lr.text@,
        ) + noted(
            !(at_most64(ZERO, self.min_lr_ratio.bits) && at_most64(self.min_lr_ratio.bits, ONE)),
            "min_lr_ratio must be in [0, 1], got "@ + self.min_lr_ratio.text@,
        ) + noted(
            !self.warmup_ratio_ok(),
            "warmup_ratio must be in [0, 1) when set (null falls back to warmup_batches), got "@
                + self.warmup_ratio_text(),
        )
    }

    /// The rules on the optimizer that are broken.
    pub open spec fn optimizer_violations(&self) -> Seq<Seq<char>> {
        noted(
            less32(self.weight_decay.bits, ZERO_SINGLE),
            "weight_decay must not be negative"@,
        ) + noted(
            !in_open_unit(self.beta_1.bits),
            "beta_1 must be in (0, 1), got "@ + self.beta_1.text@,
        ) + noted(
            !in_open_unit(self.beta_2.bits),
            "beta_2 must be in (0, 1), got "@ + self.beta_2.text@,
        ) + noted(
            at_most32(self.epsilon.bits, ZERO_SINGLE),
            "epsilon must be positive"@,
        ) + noted(
            at_most32(self.grad_clip_norm.bits, ZERO_SINGLE),
            "grad_clip_norm must be positive"@,
        ) + noted(
            !(at_most32(ZERO_SINGLE, self.z_loss.bits) && less32(
                self.z_loss.bits,
                INFINITY_SINGLE,
            )),
            "z_loss must be finite and non-negative (0 disables it), got "@ + self.z_loss.text@,
        )
    }

    /// Every rule that is broken: those on the run, then those on the model.
    pub open spec fn violations(&self) -> Seq<Seq<char>> {
        self.run_violations() + self.rate_violations() + self.optimizer_violations() + prefixed(
            "model: "@,
            self.model.violations(),
        )
    }

    /// What the rules ask of a configuration.
    pub open spec fn valid(&self) -> bool {
        &&& 0 < self.seq_len <= self.model.max_seq_len
        &&& self.batch_size > 0
        &&& self.grad_accumulation > 0
        &&& self.num_epochs > 0
        &&& less64(ZERO, self.lr.bits) && at_most64(self.lr.bits, ONE)
        &&& at_most64(ZERO, self.min_lr_ratio.bits) && at_most64(self.min_lr_ratio.bits, ONE)
        &&& self.warmup_ratio_ok()
        &&& !less32(self.weight_decay.bits, ZERO_SINGLE)
        &&& in_open_unit(self.beta_1.bits)
        &&& in_open_unit(self.beta_2.bits)
        &&& !at_most32(self.epsilon.bits, ZERO_SINGLE)
        &&& !at_most32(self.grad_clip_norm.bits, ZERO_SINGLE)
        &&& at_most32(ZERO_SINGLE, self.z_loss.bits) && less32(self.z_loss.bits, INFINITY_SINGLE)
        &&& self.model.valid()
    }

    fn note_run_violations(&self, errs: &mut Vec<String>)
        ensures
            texts(final(errs)@) == texts(old(errs)@) + self.run_violations(),
    {
        note(errs, self.seq_len == 0, "seq_len must be positive".to_owned());
        note(
            errs,
            self.seq_len > self.model.max_seq_len,
            around_two(
                "seq_len ",
                self.seq_len,
                " exceeds the model's max_seq_len ",
                self.model.max_seq_len,
                ": RoPE tables are built to max_seq_len, so longer windows would index out of bounds",
            ),
        );
        note(errs, self.batch_size == 0, "batch_size must be positive".to_owned());
        note(
            errs,
            self.grad_accumulation == 0,
            "grad_accumulation must be at least 1".to_owned(),
        );
        note(errs, self.num_epochs == 0, "num_epochs must be positive".to_owned());
        assert(texts(errs@) =~= texts(old(errs)@) + self.run_violations());
    }

    fn note_rate_violations(&self, errs: &mut Vec<String>)
        ensures
            texts(final(errs)@) == texts(old(errs)@) + self.rate_violations(),
    {
        note(
            errs,
            !(less(ZERO, self.lr.bits) && at_most(self.lr.bits, ONE)),
            ending_in("lr must be in (0, 1], got ", &self.lr.text),
        );
        note(
            errs,
            !(at_most(ZERO, self.min_lr_ratio.bits) && at_most(self.min_lr_ratio.bits, ONE)),
            ending_in("min_lr_ratio must be in [0, 1], got ", &self.min_lr_ratio.text),
        );
        let head: &str =
            "warmup_ratio must be in [0, 1) when set (null falls back to warmup_batches), got ";
        match &self.warmup_ratio {
            Some(ratio) => {
                note(
                    errs,
                    !(at_most(ZERO, ratio.bits) && less(ratio.bits, ONE)),
                    ending_in(head, &ratio.text),
                );
            },
            None => {
                note(errs, false, head.to_owned());
                proof {
                    noted_absent(head@, head@ + self.warmup_ratio_text());
                }
            },
        }
        assert(texts(errs@) =~= texts(old(errs)@) + self.rate_violations());
    }

    fn note_optimizer_violations(&self, errs: &mut Vec<String>)
        ensures
            texts(final(errs)@) == texts(old(errs)@) + self.optimizer_violations(),
    {
        note(
            errs,
            less_single(self.weight_decay.bits, ZERO_SINGLE),
            "weight_decay must not be negative".to_owned(),
        );
        note(
            errs,
            !(less_single(ZERO_SINGLE, self.beta_1.bits) && less_single(
                self.beta_1.bits,
                ONE_SINGLE,
            )),
            ending_in("beta_1 must be in (0, 1), got ", &self.beta_1.text),
        );
        note(
            errs,
            !(less_single(ZERO_SINGLE, self.beta_2.bits) && less_single(
                self.beta_2.bits,
                ONE_SINGLE,
            )),
            ending_in("beta_2 must be in (0, 1), got ", &self.beta_2.text),
        );
        note(
            errs,
            at_most_single(self.epsilon.bits, ZERO_SINGLE),
            "epsilon must be positive".to_owned(),
        );
        note(
            errs,
            at_most_single(self.grad_clip_norm.bits, ZERO_SINGLE),
            "grad_clip_norm must be positive".to_owned(),
        );
        note(
            errs,
            !(at_most_single(ZERO_SINGLE, self.z_loss.bits) && less_single(
                self.z_loss.bits,
                INFINITY_SINGLE,
            )),
            ending_in(
                "z_loss must be finite and non-negative (0 disables it), got ",
                &self.z_loss.text,
            ),
        );
        assert(texts(errs@) =~= texts(old(errs)@) + self.optimizer_violations());
    }

    /// The batches of one epoch.
    pub open spec fn epoch_batches(&self, dataset_len: nat) -> nat {
        ceil_div(dataset_len, self.batch_size as nat)
    }

    /// The batches of the whole run.
    pub open spec fn run_batches(&self, dataset_len: nat) -> nat {
        self.num_epochs as nat * self.epoch_batches(dataset_len)
    }

    /// The warmup in batches of a run of `total_batches`, when the warmup ratio
    /// comes to `ratio_batches` of them.
    pub open spec fn warmup_of(&self, total_batches: nat, ratio_batches: nat) -> nat {
        if self.warmup_ratio is None {
            self.warmup_batches as nat
        } else if total_batches == 0 {
            0
        } else if ratio_batches < total_batches {
            ratio_batches
        } else {
            (total_batches - 1) as nat
        }
    }

    /// Batches per epoch, and therefore scheduler steps per epoch. The last
    /// batch may be partial.
    pub fn batches_per_epoch(&self, dataset_len: usize) -> (r: usize)
        requires
            self.batch_size > 0,
        ensures
            r == self.epoch_batches(dataset_len as nat),
    {
        let q: usize = dataset_len / self.batch_size;
        if dataset_len % self.batch_size == 0 {
            q
        } else {
            proof {
                let n = dataset_len as int;
                let b = self.batch_size as int;
                lemma_fundamental_div_mod(n, b);
                assert(q < n) by (nonlinear_arith)
                    requires
                        n == b * (n / b) + n % b,
                        n % b > 0,
                        b >= 1,
                        q == n / b,
                        q >= 0,
                ;
            }
            q + 1
        }
    }

    /// The cosine schedule's period, in batches, not optimizer steps: the
    /// schedule advances once per batch, whatever the gradient accumulation.
    pub fn total_batches(&self, dataset_len: usize) -> (r: usize)
        requires
            self.batch_size > 0,
            self.run_batches(dataset_len as nat) <= usize::MAX,
        ensures
            r == self.run_batches(dataset_len as nat),
    {
        self.num_epochs * self.batches_per_epoch(dataset_len)
    }

    /// The tokens that one optimizer step sees.
    pub open spec fn step_tokens(&self) -> nat {
        self.batch_size as nat * self.seq_len as nat * self.grad_accumulation as nat
    }

    /// The tokens that one optimizer step sees.
    pub fn tokens_per_optimizer_step(&self) -> (r: usize)
        requires
            self.batch_size * self.seq_len <= usize::MAX,
            self.step_tokens() <= usize::MAX,
        ensures
            r == self.step_tokens(),
    {
        self.batch_size * self.seq_len * self.grad_accumulation
    }

    /// Warmup length in batches for a run of `total_batches`.
    ///
    /// `ratio_batches` is the warmup ratio times `total_batches`, rounded; it
    /// is not looked at when no ratio is set. With a ratio, the warmup is a
    /// fixed share of the schedule and shorter than the run.
    pub fn effective_warmup_batches(&self, total_batches: usize, ratio_batches: usize) -> (r: usize)
        ensures
            r == self.warmup_of(total_batches as nat, ratio_batches as nat),
            self.warmup_ratio is Some && total_batches > 0 ==> r < total_batches,
    {
        if self.warmup_ratio.is_none() {
            self.warmup_batches
        } else if total_batches == 0 {
            0
        } else if ratio_batches < total_batches {
            ratio_batches
        } else {
            total_batches - 1
        }
    }

    /// Reject what can be rejected now rather than after an hour of training.
    /// The message lists every violation.
    pub fn validate(&self) -> (r: Result<(), String>)
        ensures
            r is Ok <==> self.valid(),
            r is Ok <==> self.violations().len() == 0,
            r is Err ==> r->Err_0@ == "invalid TrainConfig:\n  - "@ + joined(
                self.violations(),
                "\n  - "@,
            ),
    {
        let mut errs: Vec<String> = Vec::new();
        self.note_run_violations(&mut errs);
        self.note_rate_violations(&mut errs);
        self.note_optimizer_violations(&mut errs);
        match self.model.validate() {
            Ok(()) => {
                assert(prefixed("model: "@, self.model.violations()) =~= Seq::empty());
            },
            Err(model_errs) => {
                note_prefixed(&mut errs, "model: ", &model_errs);
            },
        }
        assert(texts(errs@) =~= self.violations());
        proof {
            accepted_iff_valid_run(*self);
        }
        if errs.len() == 0 {
            Ok(())
        } else {
            let list = join(&errs, "\n  - ");
            Err(ending_in("invalid TrainConfig:\n  - ", &list))
        }
    }
}

impl Default for TrainConfig {
    fn default() -> (r: Self)
        ensures
            r.model.vocab_size == 8192,
            r.model.d_emb == 128,
            r.model.d_model == 384,
            r.model.n_heads == 6,
            r.model.n_kv_heads == 2,
            r.model.d_ff == 1152,
            r.model.n_unique_layers == 1,
            r.model.n_loops == 12,
            r.model.max_seq_len == 1024,
            r.model.has_reference_settings(),
            r.train_shard@ == "artifacts/train.bin"@,
            r.valid_shard@ == "artifacts/valid.bin"@,
            r.artifact_dir@ == "artifacts/run"@,
            r.seq_len == 512,
            r.batch_size == 16,
            r.grad_accumulation == 4,
            r.num_epochs == 1,
            r.lr.bits == LR_3E_3 && r.lr.text@ == "0.003"@,
            r.min_lr_ratio.bits == RATIO_0_1 && r.min_lr_ratio.text@ == "0.1"@,
            r.warmup_batches == 200,
            r.warmup_ratio is None,
            r.weight_decay.bits == DECAY_0_1 && r.weight_decay.text@ == "0.1"@,
            r.beta_1.bits == BETA_0_9 && r.beta_1.text@ == "0.9"@,
            r.beta_2.bits == BETA_0_95 && r.beta_2.text@ == "0.95"@,
            r.epsilon.bits == EPSILON_1E_15 && r.epsilon.text@ == "0.000000000000001"@,
            r.grad_clip_norm.bits == ONE_SINGLE && r.grad_clip_norm.text@ == "1"@,
            r.z_loss.bits == ZERO_SINGLE && r.z_loss.text@ == "0"@,
            r.seed == 42,
            r.num_workers == 4,
            r.resume_from_epoch is None,
    {
        TrainConfig {
            model: ModelConfig::quark_3m(),
            train_shard: "artifacts/train.bin".to_owned(),
            valid_shard: "artifacts/valid.bin".to_owned(),
            artifact_dir: "artifacts/run".to_owned(),
            seq_len: 512,
            batch_size: 16,
            grad_accumulation: 4,
            num_epochs: 1,
            lr: Real::new(LR_3E_3, "0.003"),
            min_lr_ratio: Real::new(RATIO_0_1, "0.1"),
            warmup_batches: 200,
            warmup_ratio: None,
            weight_decay: Real32::new(DECAY_0_1, "0.1"),
            beta_1: Real32::new(BETA_0_9, "0.9"),
            beta_2: Real32::new(BETA_0_95, "0.95"),
            epsilon: Real32::new(EPSILON_1E_15, "0.000000000000001"),
            grad_clip_norm: Real32::new(ONE_SINGLE, "1"),
            z_loss: Real32::new(ZERO_SINGLE, "0"),
            seed: 42,
            num_workers: 4,
            resume_from_epoch: None,
        }
    }
}

/// `ceil_div` is the least number of batches that hold all items.
pub proof fn ceil_div_is_least(n: nat, size: nat, k: nat)
    requires
        size > 0,
    ensures
        ceil_div(n, size) * size >= n,
        k * size >= n ==> ceil_div(n, size) <= k,
{
    lemma_fundamental_div_mod(n as int, size as int);
    let q = (n as int) / (size as int);
    assert(size * q == q * size && (q + 1) * size == q * size + size) by (nonlinear_arith);
    if k * size >= n {
        assert(q <= k) by (nonlinear_arith)
            requires
                k * size >= size * q,
                size > 0,
        ;
        if n % size != 0 {
            assert(q < k) by (nonlinear_arith)
                requires
                    k * size > size * q,
                    size > 0,
            ;
        }
    }
}

/// Raising the gradient accumulation does not change the schedule: it counts
/// batches, not optimizer steps.
pub proof fn schedule_counts_batches(a: TrainConfig, b: TrainConfig, dataset_len: nat)
    requires
        b == (TrainConfig { grad_accumulation: b.grad_accumulation, ..a }),
    ensures
        a.epoch_batches(dataset_len) == b.epoch_batches(dataset_len),
        a.run_batches(dataset_len) == b.run_batches(dataset_len),
{
}

/// Lowering the batch size and raising the accumulation by the same factor keeps
/// what an optimizer step sees.
pub proof fn batches_trade_for_accumulation(a: TrainConfig, b: TrainConfig, factor: nat)
    requires
        a.batch_size == b.batch_size * factor,
        b.grad_accumulation == a.grad_accumulation * factor,
        a.seq_len == b.seq_len,
    ensures
        a.step_tokens() == b.step_tokens(),
{
    let s = a.seq_len as int;
    let k = b.batch_size as int;
    let g = a.grad_accumulation as int;
    let f = factor as int;
    assert((k * f) * s * g == k * s * (g * f)) by (nonlinear_arith);
}

/// A configuration is accepted exactly when it meets every rule.
pub proof fn accepted_iff_valid_run(c: TrainConfig)
    ensures
        c.violations().len() == 0 <==> c.valid(),
{
    broadcast use noted_len;

    accepted_iff_valid(c.model);
    assert(prefixed("model: "@, c.model.violations()).len() == c.model.violations().len());
    assert(c.violations().len() == c.run_violations().len() + c.rate_violations().len()
        + c.optimizer_violations().len() + c.model.violations().len());
}

} // verus!
