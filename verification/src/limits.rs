//! Whether the figures of a configuration, or the pairs of a suite, can be
//! represented.
//!
//! The counts themselves take it for granted; a caller with a configuration or
//! a suite from elsewhere asks here first.

use vstd::prelude::*;

use crate::compress::config::CompressConfig;
use crate::compress::model::compressor_count_formula;
use crate::config::{total_of_five, ModelConfig};
use crate::eval::blimp::score::{suite_tally, tally, BlimpScore, ParadigmScore};
use crate::eval::blimp::suite::{pair_total, BlimpSuite, Paradigm};
use crate::train::TrainConfig;

verus! {

/// A figure, where it can be represented.
pub open spec fn represented(n: nat) -> Option<usize> {
    if n <= usize::MAX {
        Some(n as usize)
    } else {
        None
    }
}

/// The sum of two figures, where it can be represented.
fn plus(a: Option<usize>, b: Option<usize>, Ghost(x): Ghost<nat>, Ghost(y): Ghost<nat>) -> (r:
    Option<usize>)
    requires
        a == represented(x),
        b == represented(y),
    ensures
        r == represented(x + y),
{
    match (a, b) {
        (Some(m), Some(n)) => m.checked_add(n),
        _ => None,
    }
}

/// The product of two figures, where it can be represented.
fn times(a: Option<usize>, b: usize, Ghost(x): Ghost<nat>) -> (r: Option<usize>)
    requires
        a == represented(x),
    ensures
        r == represented(x * b as nat),
{
    if b == 0 {
        assert(x * b as nat == 0) by (nonlinear_arith)
            requires
                b == 0,
        ;
        return Some(0);
    }
    match a {
        Some(m) => m.checked_mul(b),
        None => {
            assert(x * b as nat >= x) by (nonlinear_arith)
                requires
                    b >= 1,
            ;
            None
        },
    }
}

fn product(a: usize, b: usize) -> (r: Option<usize>)
    ensures
        r == represented(a as nat * b as nat),
{
    times(Some(a), b, Ghost(a as nat))
}

/// The matmul weights of a layer, where they can be represented.
fn layer_weights(config: &ModelConfig) -> (r: Option<usize>)
    requires
        config.n_heads > 0,
    ensures
        r == represented(config.layer_weights()),
{
    let d: usize = config.d_model;
    let ghost dd = d as nat * d as nat;
    let ghost dw = config.kv_width() * d as nat;
    let ghost df = d as nat * config.d_ff as nat;
    let head: usize = d / config.n_heads;
    let square = times(product(d, d), 2, Ghost(dd));
    let wide = times(product(config.n_kv_heads, head), d, Ghost(config.kv_width()));
    let wide = times(wide, 2, Ghost(dw));
    let ffn = times(product(d, config.d_ff), 3, Ghost(df));
    let attention = plus(square, wide, Ghost(dd * 2), Ghost(dw * 2));
    let r = plus(attention, ffn, Ghost(dd * 2 + dw * 2), Ghost(df * 3));
    assert(d as nat * config.kv_width() == dw) by (nonlinear_arith)
        requires
            dw == config.kv_width() * d as nat,
    ;
    r
}

/// The parameters of a layer, where they can be represented.
fn layer_params(config: &ModelConfig) -> (r: Option<usize>)
    requires
        config.n_heads > 0,
    ensures
        r == represented(config.layer_params()),
{
    let norms = product(2, config.d_model);
    plus(
        layer_weights(config),
        norms,
        Ghost(config.layer_weights()),
        Ghost(2 * config.d_model as nat),
    )
}

impl ModelConfig {
    /// Whether every figure of the budget can be represented.
    pub fn has_budget(&self) -> (r: bool)
        ensures
            r == self.budget_fits(),
    {
        if self.n_heads == 0 {
            return false;
        }
        let ghost items = self.itemized();
        proof {
            total_of_five(items);
            let a = self.layer_params();
            let n = self.n_unique_layers as nat;
            assert(a * n == n * a) by (nonlinear_arith);
        }
        let layer = layer_params(self);
        let head = if self.tie_embeddings {
            product(self.d_model, self.d_emb)
        } else {
            product(self.d_model, self.vocab_size)
        };
        let sum = plus(
            product(self.vocab_size, self.d_emb),
            product(self.d_emb, self.d_model),
            Ghost(items[0].1),
            Ghost(items[1].1),
        );
        let sum = plus(sum, head, Ghost(items[0].1 + items[1].1), Ghost(items[2].1));
        let sum = plus(
            sum,
            times(layer, self.n_unique_layers, Ghost(self.layer_params())),
            Ghost(items[0].1 + items[1].1 + items[2].1),
            Ghost(items[3].1),
        );
        let sum = plus(
            sum,
            Some(self.d_model),
            Ghost(items[0].1 + items[1].1 + items[2].1 + items[3].1),
            Ghost(items[4].1),
        );
        layer.is_some() && sum.is_some()
    }

    /// Whether the arithmetic per token can be represented.
    pub fn has_compute(&self) -> (r: bool)
        ensures
            r == self.compute_fits(),
    {
        if self.n_heads == 0 {
            return false;
        }
        let applications: usize = match product(self.n_unique_layers, self.n_loops) {
            Some(n) => n,
            None => {
                return false;
            },
        };
        let dense = times(layer_weights(self), applications, Ghost(self.layer_weights()));
        layer_params(self).is_some() && dense.is_some()
    }

    /// Whether the layer applications of one forward pass can be counted.
    pub fn has_schedule(&self) -> (r: bool)
        ensures
            r == (self.applications() <= usize::MAX),
    {
        product(self.n_unique_layers, self.n_loops).is_some()
    }
}

impl CompressConfig {
    /// Whether the positions of a stack can be counted.
    pub fn has_positions(&self) -> (r: bool)
        ensures
            r == (self.positions() <= usize::MAX),
    {
        self.span_len.checked_add(self.n_slots).is_some()
    }

    /// Whether every figure of the budget can be represented.
    pub fn has_budget(&self) -> (r: bool)
        ensures
            r == self.budget_fits(),
    {
        let m = &self.model;
        if !m.has_budget() || m.n_unique_layers == 0 {
            return false;
        }
        let applications: usize = match product(m.n_unique_layers, m.n_loops) {
            Some(n) => n,
            None => {
                return false;
            },
        };
        let d: usize = self.fsq_levels.len();
        let ghost items = self.itemized();
        let ghost stack = m.layer_params() * m.applications();
        let layers = times(layer_params(m), applications, Ghost(m.layer_params()));
        let embed = product(m.d_emb, m.d_model);
        let latent = product(m.d_model, d);
        proof {
            assert(stack == m.applications() * m.layer_params()) by (nonlinear_arith)
                requires
                    stack == m.layer_params() * m.applications(),
            ;
            let a = m.d_model as nat;
            let b = m.d_emb as nat;
            let c = d as nat;
            assert(a * b == b * a && a * c == c * a) by (nonlinear_arith);
            compressor_count_formula(*self);
        }
        let ghost mut x: nat = items[0].1;
        let sum = product(m.vocab_size, m.d_emb);
        let sum = plus(sum, embed, Ghost(x), Ghost(items[1].1));
        proof {
            x = x + items[1].1;
        }
        let sum = plus(sum, embed, Ghost(x), Ghost(items[2].1));
        proof {
            x = x + items[2].1;
        }
        let sum = plus(sum, product(self.n_slots, m.d_model), Ghost(x), Ghost(items[3].1));
        proof {
            x = x + items[3].1;
        }
        let sum = plus(sum, layers, Ghost(x), Ghost(items[4].1));
        proof {
            x = x + items[4].1;
        }
        let sum = plus(sum, Some(m.d_model), Ghost(x), Ghost(items[5].1));
        proof {
            x = x + items[5].1;
        }
        let sum = plus(sum, latent, Ghost(x), Ghost(items[6].1));
        proof {
            x = x + items[6].1;
        }
        let sum = plus(sum, latent, Ghost(x), Ghost(items[7].1));
        proof {
            x = x + items[7].1;
        }
        let sum = plus(sum, layers, Ghost(x), Ghost(items[8].1));
        proof {
            x = x + items[8].1;
        }
        let sum = plus(sum, Some(m.d_model), Ghost(x), Ghost(items[9].1));
        proof {
            x = x + items[9].1;
        }
        let sum = plus(sum, embed, Ghost(x), Ghost(items[10].1));
        sum.is_some()
    }
}

impl TrainConfig {
    /// Whether the tokens of an optimizer step can be counted.
    pub fn has_step(&self) -> (r: bool)
        ensures
            r == (self.batch_size * self.seq_len <= usize::MAX && self.step_tokens()
                <= usize::MAX),
    {
        let batch = product(self.batch_size, self.seq_len);
        let step = times(
            batch,
            self.grad_accumulation,
            Ghost(self.batch_size as nat * self.seq_len as nat),
        );
        batch.is_some() && step.is_some()
    }
}

impl BlimpSuite {
    /// Whether the pairs of the suite can be counted.
    pub fn has_count(&self) -> (r: bool)
        ensures
            r == (pair_total(self.paradigms@) <= usize::MAX),
    {
        let ghost all = self.paradigms@;
        let mut sum: Option<usize> = Some(0);
        let mut i: usize = 0;
        assert(all.take(0) =~= Seq::<Paradigm>::empty());
        while i < self.paradigms.len()
            invariant
                i <= all.len(),
                all == self.paradigms@,
                sum == represented(pair_total(all.take(i as int))),
            decreases all.len() - i,
        {
            let n: usize = self.paradigms[i].pairs.len();
            assert(all.take(i + 1).drop_last() =~= all.take(i as int));
            sum = plus(sum, Some(n), Ghost(pair_total(all.take(i as int))), Ghost(n as nat));
            i = i + 1;
        }
        assert(all.take(i as int) =~= all);
        sum.is_some()
    }
}

impl BlimpScore {
    /// Whether the pairs of the suite, and the right ones, can be counted.
    pub fn has_count(&self) -> (r: bool)
        ensures
            r == self.countable(),
    {
        let ghost all = self.per_paradigm@;
        let ghost every = |f: Seq<char>| true;
        let mut correct: Option<usize> = Some(0);
        let mut pairs: Option<usize> = Some(0);
        let mut i: usize = 0;
        assert(all.take(0) =~= Seq::<ParadigmScore>::empty());
        while i < self.per_paradigm.len()
            invariant
                i <= all.len(),
                all == self.per_paradigm@,
                every == (|f: Seq<char>| true),
                correct == represented(tally(all.take(i as int), every).0),
                pairs == represented(tally(all.take(i as int), every).1),
            decreases all.len() - i,
        {
            let p = &self.per_paradigm[i];
            let ghost so_far = tally(all.take(i as int), every);
            assert(all.take(i + 1).drop_last() =~= all.take(i as int));
            correct = plus(
                correct,
                Some(p.n_correct),
                Ghost(so_far.0),
                Ghost(p.n_correct as nat),
            );
            pairs = plus(pairs, Some(p.n_pairs), Ghost(so_far.1), Ghost(p.n_pairs as nat));
            i = i + 1;
        }
        assert(all.take(i as int) =~= all);
        assert(suite_tally(all) == tally(all, every));
        correct.is_some() && pairs.is_some()
    }
}

/// Whether an attention mask of these dimensions can be laid out.
pub fn has_mask(seq: usize, kv_seq: usize, pos_offset: usize) -> (r: bool)
    ensures
        r == (seq * kv_seq <= usize::MAX && seq + pos_offset <= usize::MAX),
{
    product(seq, kv_seq).is_some() && seq.checked_add(pos_offset).is_some()
}

} // verus!
