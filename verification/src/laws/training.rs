//! How a run is planned, and what of it is kept.

use vstd::prelude::*;

use vstd::string::*;

use crate::chars::parsed;
use crate::laws::texts::decimals_read_back;
use crate::number::{
    at_most32, at_most64, is_nan64, less32, less64, INFINITY_SINGLE, ONE, ONE_SINGLE, ZERO,
    ZERO_SINGLE,
};
use crate::data::dataset::window_count;
use crate::data::shard::Shard;
use crate::laws::windows::windows_are_those_that_fit;
use crate::text::{decimal, noted_len, prefixed};
use crate::train::epochs::{epoch_of, is_best, is_highest, records};
use crate::train::plan::{data_fault, foreign_shard, short_shard};
use crate::train::{accepted_iff_valid_run, ceil_div, ceil_div_is_least, given_or, TrainConfig};

verus! {

/// With a ratio set the absolute count does not matter.
pub proof fn a_ratio_overrides_the_count(a: TrainConfig, b: TrainConfig, total: nat, ratio: nat)
    requires
        a.warmup_ratio is Some,
        b == (TrainConfig { warmup_batches: b.warmup_batches, ..a }),
    ensures
        a.warmup_of(total, ratio) == b.warmup_of(total, ratio),
{
}

/// With a ratio set the warmup is what the ratio comes to, and shorter than the
/// run.
pub proof fn a_ratio_is_the_warmup(c: TrainConfig, total: nat, ratio: nat)
    requires
        c.warmup_ratio is Some,
    ensures
        ratio < total ==> c.warmup_of(total, ratio) == ratio,
        0 < total <= ratio ==> c.warmup_of(total, ratio) == total - 1,
        total == 0 ==> c.warmup_of(total, ratio) == 0,
{
}

/// Without a ratio the warmup is the absolute count, whatever the run.
pub proof fn a_count_is_the_warmup(c: TrainConfig, total: nat, ratio: nat)
    requires
        c.warmup_ratio is None,
    ensures
        c.warmup_of(total, ratio) == c.warmup_batches,
{
}

/// An epoch has the fewest batches that hold all windows, and a run as many for
/// each of its epochs.
pub proof fn runs_have_the_fewest_batches(c: TrainConfig, windows: nat, k: nat)
    requires
        c.batch_size > 0,
    ensures
        c.epoch_batches(windows) * c.batch_size >= windows,
        k * c.batch_size >= windows ==> c.epoch_batches(windows) <= k,
        c.run_batches(windows) == c.num_epochs * c.epoch_batches(windows),
        ceil_div(windows, c.batch_size as nat) == c.epoch_batches(windows),
{
    ceil_div_is_least(windows, c.batch_size as nat, k);
}

/// An optimizer step sees every token of its windows, for each pass.
pub proof fn steps_see_all_their_tokens(c: TrainConfig)
    ensures
        c.step_tokens() == c.grad_accumulation * (c.batch_size * c.seq_len),
{
    let b = c.batch_size as int;
    let s = c.seq_len as int;
    let g = c.grad_accumulation as int;
    assert(b * s * g == g * (b * s)) by (nonlinear_arith);
}

/// What was given takes the place of what was there.
pub proof fn what_is_given_counts<T>(given: Option<T>, there: T, value: T)
    ensures
        given is None ==> given_or(given, there) == there,
        given == Some(value) ==> given_or(given, there) == value,
{
}

/// A training configuration is accepted exactly where its counts are positive,
/// its context fits the model's, its numbers are in their ranges, and its model
/// is accepted.
pub proof fn accepted_runs_are_in_range(c: TrainConfig)
    ensures
        c.violations().len() == 0 <==> {
            &&& c.seq_len > 0
            &&& c.seq_len <= c.model.max_seq_len
            &&& c.batch_size > 0
            &&& c.grad_accumulation > 0
            &&& c.num_epochs > 0
            &&& less64(ZERO, c.lr.bits) && at_most64(c.lr.bits, ONE)
            &&& at_most64(ZERO, c.min_lr_ratio.bits) && at_most64(c.min_lr_ratio.bits, ONE)
            &&& c.warmup_ratio is Some ==> at_most64(ZERO, c.warmup_ratio->Some_0.bits)
                && less64(c.warmup_ratio->Some_0.bits, ONE)
            &&& !less32(c.weight_decay.bits, ZERO_SINGLE)
            &&& less32(ZERO_SINGLE, c.beta_1.bits) && less32(c.beta_1.bits, ONE_SINGLE)
            &&& less32(ZERO_SINGLE, c.beta_2.bits) && less32(c.beta_2.bits, ONE_SINGLE)
            &&& !at_most32(c.epsilon.bits, ZERO_SINGLE)
            &&& !at_most32(c.grad_clip_norm.bits, ZERO_SINGLE)
            &&& at_most32(ZERO_SINGLE, c.z_loss.bits) && less32(c.z_loss.bits, INFINITY_SINGLE)
            &&& c.model.violations().len() == 0
        },
{
    accepted_iff_valid_run(c);
    crate::config::accepted_iff_valid(c.model);
}

/// A refusal lists one message for each rule that is broken, the model's too.
pub proof fn each_broken_run_rule_is_listed(c: TrainConfig)
    ensures
        c.run_violations().len() == (if c.seq_len == 0 {
            1int
        } else {
            0
        }) + (if c.seq_len > c.model.max_seq_len {
            1int
        } else {
            0
        }) + (if c.batch_size == 0 {
            1int
        } else {
            0
        }) + (if c.grad_accumulation == 0 {
            1int
        } else {
            0
        }) + (if c.num_epochs == 0 {
            1int
        } else {
            0
        }),
        c.violations().len() == c.run_violations().len() + c.rate_violations().len()
            + c.optimizer_violations().len() + c.model.violations().len(),
{
    broadcast use noted_len;

    assert(prefixed("model: "@, c.model.violations()).len() == c.model.violations().len());
}

/// The shards of a run can be used exactly where both have the model's
/// vocabulary and a window with its target.
pub proof fn usable_shards_hold_a_window(c: TrainConfig, train: Shard, valid: Shard)
    requires
        c.seq_len > 0,
    ensures
        data_fault(c, train, valid) is None <==> train.counts().vocab_size == c.model.vocab_size
            && valid.counts().vocab_size == c.model.vocab_size && train@.len() > c.seq_len
            && valid@.len() > c.seq_len,
{
    let w = c.seq_len as nat;
    assert(0 * w == 0) by (nonlinear_arith);
    windows_are_those_that_fit(train@.len(), w, w, 0);
    windows_are_those_that_fit(valid@.len(), w, w, 0);
    assert(window_count(train@.len(), w, w) > 0 <==> train@.len() > w);
}

/// A directory records an epoch by the decimal behind `epoch-`.
pub proof fn epochs_are_named_by_their_number(n: usize, name: Seq<char>)
    ensures
        epoch_of("epoch-"@ + decimal(n as nat)) == Some(n),
        epoch_of(name) is Some ==> "epoch-"@.is_prefix_of(name) && name.len() > 6,
{
    reveal_strlit("epoch-");
    let d = decimal(n as nat);
    let full = "epoch-"@ + d;
    assert(full.skip(6) =~= d);
    assert(full.subrange(0, 6) =~= "epoch-"@);
    decimals_read_back(n as nat);
}

/// The highest recorded epoch is recorded, and none above it is.
pub proof fn the_highest_epoch_is_recorded(names: Seq<Seq<char>>, r: Option<usize>, i: int, n: usize)
    requires
        is_highest(names, r),
        0 <= i < names.len(),
        epoch_of(names[i]) == Some(n),
    ensures
        r is Some,
        n <= r->Some_0,
        exists|j: int| 0 <= j < names.len() && #[trigger] epoch_of(names[j]) == r,
{
    assert(records(names, n));
}

/// The best epoch has a loss, no epoch has a lower one, and none before it has
/// the same.
pub proof fn no_epoch_beats_the_best(entries: Seq<(usize, u64)>, i: int, j: int)
    requires
        is_best(entries, i),
        0 <= j < entries.len(),
    ensures
        0 <= i < entries.len(),
        !is_nan64(entries[i].1),
        !less64(entries[j].1, entries[i].1),
        j < i && !is_nan64(entries[j].1) ==> less64(entries[i].1, entries[j].1),
{
}

/// The first reason why shards cannot be used is told: the vocabulary of the one,
/// of the other, then a shard without a window.
pub proof fn the_first_data_fault_is_told(c: TrainConfig, train: Shard, valid: Shard)
    requires
        c.seq_len > 0,
    ensures
        ({
            let want = c.model.vocab_size;
            let fault = data_fault(c, train, valid);
            &&& train.counts().vocab_size != want ==> fault == Some(
                foreign_shard("train"@, train.counts().vocab_size as nat, want as nat),
            )
            &&& train.counts().vocab_size == want && valid.counts().vocab_size != want ==> fault
                == Some(foreign_shard("valid"@, valid.counts().vocab_size as nat, want as nat))
            &&& train.counts().vocab_size == want && valid.counts().vocab_size == want
                && train@.len() <= c.seq_len ==> fault == Some(
                short_shard("train"@, c.seq_len as nat),
            )
            &&& train.counts().vocab_size == want && valid.counts().vocab_size == want
                && train@.len() > c.seq_len && valid@.len() <= c.seq_len ==> fault == Some(
                short_shard("valid"@, c.seq_len as nat),
            )
        }),
{
    let w = c.seq_len as nat;
    assert(0 * w == 0) by (nonlinear_arith);
    windows_are_those_that_fit(train@.len(), w, w, 0);
    windows_are_those_that_fit(valid@.len(), w, w, 0);
}

/// What follows `epoch-` in a name is read as a number, whatever way it is
/// written.
pub proof fn epochs_are_read_as_numbers(s: Seq<char>)
    ensures
        epoch_of("epoch-"@ + s) == parsed(s),
{
    reveal_strlit("epoch-");
    let full = "epoch-"@ + s;
    assert(full.skip(6) =~= s);
    assert(full.subrange(0, 6) =~= "epoch-"@);
}

} // verus!
