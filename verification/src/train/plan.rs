//! Planning a run: what the data allows, and the learning-rate schedule.

use vstd::prelude::*;

use vstd::string::*;

use crate::data::dataset::{window_count, TokenDataset};
use crate::data::shard::Shard;
use crate::text::{append_decimal, around_two, decimal};
use crate::train::{ceil_div_is_least, TrainConfig};

verus! {

/// What the data of a run comes to.
#[derive(Debug, Clone, Copy, PartialEq, Eq, Structural)]
pub struct DataPlan {
    pub train_windows: usize,
    pub valid_windows: usize,
    pub batches_per_epoch: usize,
    pub total_batches: usize,
}

/// The legs of the learning-rate schedule: a cosine over `period` batches,
/// multiplied by a linear ramp over `warmup` batches where there is one.
#[derive(Debug, Clone, Copy, PartialEq, Eq)]
pub struct Schedule {
    pub period: usize,
    pub warmup: Option<usize>,
}

/// What is reported of a shard with another vocabulary.
pub open spec fn foreign_shard(name: Seq<char>, got: nat, want: nat) -> Seq<char> {
    name + " shard was tokenized with vocab_size "@ + decimal(got) + " but the model has "@
        + decimal(want) + "; re-run `quark prepare` with the matching tokenizer"@
}

/// What is reported of a shard without a window.
pub open spec fn short_shard(name: Seq<char>, seq_len: nat) -> Seq<char> {
    name + " shard holds fewer than "@ + decimal(seq_len + 1)
        + " tokens, so it yields no windows"@
}

/// What is reported of a warmup that fills the run.
pub open spec fn long_warmup(warmup: nat, total: nat, warmup_batches: nat) -> Seq<char> {
    "warmup of "@ + decimal(warmup) + " batches must be less than the "@ + decimal(total)
        + " batches this run will perform, or the learning rate never reaches its peak (warmup_ratio None, warmup_batches "@
        + decimal(warmup_batches) + ")"@
}

/// The first reason why the shards do not fit the configuration.
pub open spec fn data_fault(config: TrainConfig, train: Shard, valid: Shard) -> Option<Seq<char>> {
    let vocab = config.model.vocab_size as nat;
    let w = config.seq_len as nat;
    if train.counts().vocab_size != vocab {
        Some(foreign_shard("train"@, train.counts().vocab_size as nat, vocab))
    } else if valid.counts().vocab_size != vocab {
        Some(foreign_shard("valid"@, valid.counts().vocab_size as nat, vocab))
    } else if window_count(train@.len(), w, w) == 0 {
        Some(short_shard("train"@, w))
    } else if window_count(valid@.len(), w, w) == 0 {
        Some(short_shard("valid"@, w))
    } else {
        None
    }
}

fn report_foreign(name: &str, got: usize, want: usize) -> (s: String)
    ensures
        s@ == foreign_shard(name@, got as nat, want as nat),
{
    let mut s = name.to_owned();
    s.append(" shard was tokenized with vocab_size ");
    append_decimal(&mut s, got);
    s.append(" but the model has ");
    append_decimal(&mut s, want);
    s.append("; re-run `quark prepare` with the matching tokenizer");
    s
}

fn report_short(name: &str, seq_len: usize) -> (s: String)
    requires
        seq_len < usize::MAX,
    ensures
        s@ == short_shard(name@, seq_len as nat),
{
    let mut s = name.to_owned();
    s.append(" shard holds fewer than ");
    append_decimal(&mut s, seq_len + 1);
    s.append(" tokens, so it yields no windows");
    s
}

/// What the shards come to for a run, or why they cannot be used.
///
/// A shard tokenized against another vocabulary would index the embedding table
/// out of bounds, or stay in bounds and train on nonsense.
pub fn plan_data(config: &TrainConfig, train: Shard<'_>, valid: Shard<'_>) -> (r: Result<
    DataPlan,
    String,
>)
    requires
        0 < config.seq_len < usize::MAX,
        config.batch_size > 0,
        data_fault(*config, train, valid) is None ==> config.run_batches(
            window_count(train@.len(), config.seq_len as nat, config.seq_len as nat),
        ) <= usize::MAX,
    ensures
        match data_fault(*config, train, valid) {
            Some(fault) => r is Err && r->Err_0@ == fault,
            None => {
                let w = config.seq_len as nat;
                let windows = window_count(train@.len(), w, w);
                &&& r is Ok
                &&& r->Ok_0.train_windows == windows
                &&& r->Ok_0.valid_windows == window_count(valid@.len(), w, w)
                &&& r->Ok_0.batches_per_epoch == config.epoch_batches(windows)
                &&& r->Ok_0.total_batches == config.run_batches(windows)
                &&& config.num_epochs > 0 ==> r->Ok_0.total_batches > 0
            },
        },
{
    let vocab: usize = config.model.vocab_size;
    if train.meta().vocab_size != vocab {
        return Err(report_foreign("train", train.meta().vocab_size, vocab));
    }
    if valid.meta().vocab_size != vocab {
        return Err(report_foreign("valid", valid.meta().vocab_size, vocab));
    }
    let train_windows: usize = TokenDataset::train(train, config.seq_len).len();
    let valid_windows: usize = TokenDataset::train(valid, config.seq_len).len();
    if train_windows == 0 {
        return Err(report_short("train", config.seq_len));
    }
    if valid_windows == 0 {
        return Err(report_short("valid", config.seq_len));
    }
    proof {
        let windows = train_windows as nat;
        let per_epoch = config.epoch_batches(windows);
        ceil_div_is_least(windows, config.batch_size as nat, 0);
        if config.num_epochs > 0 {
            assert(config.num_epochs * per_epoch > 0) by (nonlinear_arith)
                requires
                    config.num_epochs > 0,
                    per_epoch * config.batch_size >= windows,
                    windows > 0,
            ;
        }
    }
    Ok(
        DataPlan {
            train_windows,
            valid_windows,
            batches_per_epoch: config.batches_per_epoch(train_windows),
            total_batches: config.total_batches(train_windows),
        },
    )
}

/// The learning-rate schedule of a run of `total_batches`, or why the warmup
/// does not leave room for it. `ratio_batches` is the warmup ratio times
/// `total_batches`, rounded.
pub fn plan_schedule(config: &TrainConfig, total_batches: usize, ratio_batches: usize) -> (r: Result<
    Schedule,
    String,
>)
    requires
        total_batches > 0,
    ensures
        ({
            let warmup = config.warmup_of(total_batches as nat, ratio_batches as nat);
            &&& r is Ok <==> warmup < total_batches
            &&& r is Ok ==> r->Ok_0.period == total_batches && (r->Ok_0.warmup is None <==> warmup
                == 0) && (warmup > 0 ==> r->Ok_0.warmup == Some(warmup as usize))
            &&& r is Err ==> config.warmup_ratio is None && r->Err_0@ == long_warmup(
                warmup,
                total_batches as nat,
                config.warmup_batches as nat,
            )
        }),
{
    let warmup: usize = config.effective_warmup_batches(total_batches, ratio_batches);
    if warmup >= total_batches {
        let mut s = around_two(
            "warmup of ",
            warmup,
            " batches must be less than the ",
            total_batches,
            " batches this run will perform, or the learning rate never reaches its peak (warmup_ratio None, warmup_batches ",
        );
        append_decimal(&mut s, config.warmup_batches);
        s.append(")");
        return Err(s);
    }
    Ok(
        Schedule {
            period: total_batches,
            warmup: if warmup == 0 {
                None
            } else {
                Some(warmup)
            },
        },
    )
}

} // verus!
