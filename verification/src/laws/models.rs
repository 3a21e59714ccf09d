//! The shape of a model, what it costs, and which positions it sees.

use vstd::prelude::*;

use vstd::arithmetic::div_mod::{
    lemma_fundamental_div_mod, lemma_fundamental_div_mod_converse, lemma_mod_multiples_vanish,
    lemma_small_mod,
};

use crate::config::{
    accepted_iff_valid, param_count_formula, total, total_push, LayerSchedule, ModelConfig,
};
use crate::model::{
    feed_forward, hidden, mask_cell, scheduled, stack_params, BlockPlan,
    GroupedQueryAttentionConfig, HeadPlan, LmPlan, Matrix,
};
use crate::number::{at_most64, less64, ONE, ZERO};
use crate::text::noted_len;

verus! {

/// A model configuration is accepted exactly where its heads divide the width
/// into even parts and the key/value heads divide the heads, there are layers,
/// loops, a vocabulary and widths, the embedding does not expand, and norm and
/// dropout are in their ranges.
pub proof fn accepted_models_have_this_shape(c: ModelConfig)
    ensures
        c.violations().len() == 0 <==> {
            &&& c.n_heads > 0
            &&& c.n_kv_heads > 0
            &&& exists|w: nat| #[trigger] (w * 2 * c.n_heads as nat) == c.d_model
            &&& exists|g: nat| #[trigger] (g * c.n_kv_heads as nat) == c.n_heads
            &&& c.n_unique_layers > 0
            &&& c.n_loops > 0
            &&& c.vocab_size > 0
            &&& 0 < c.d_emb <= c.d_model
            &&& !at_most64(c.norm_eps.bits, ZERO)
            &&& at_most64(ZERO, c.dropout.bits)
            &&& less64(c.dropout.bits, ONE)
        },
{
    accepted_iff_valid(c);
    let d = c.d_model as int;
    let h = c.n_heads as int;
    let k = c.n_kv_heads as int;
    if c.valid() {
        lemma_fundamental_div_mod(d, h);
        lemma_fundamental_div_mod(d / h, 2);
        lemma_fundamental_div_mod(h, k);
        let w = (d / h / 2) as nat;
        let g = (h / k) as nat;
        assert(w * 2 * c.n_heads as nat == d) by (nonlinear_arith)
            requires
                d == h * (d / h),
                d / h == 2 * w,
                h == c.n_heads,
        ;
        assert(g * c.n_kv_heads as nat == h) by (nonlinear_arith)
            requires
                h == k * g,
                k == c.n_kv_heads,
        ;
    }
    if h > 0 && k > 0 {
        if exists|w: nat| #[trigger] (w * 2 * c.n_heads as nat) == c.d_model {
            let w = choose|w: nat| #[trigger] (w * 2 * c.n_heads as nat) == c.d_model;
            lemma_fundamental_div_mod_converse(d, h, (w * 2) as int, 0);
            lemma_mod_multiples_vanish(w as int, 0, 2);
            assert((w * 2) % 2 == 0);
        }
        if exists|g: nat| #[trigger] (g * c.n_kv_heads as nat) == c.n_heads {
            let g = choose|g: nat| #[trigger] (g * c.n_kv_heads as nat) == c.n_heads;
            lemma_fundamental_div_mod_converse(h, k, g as int, 0);
        }
    }
}

/// A refusal lists one message for each rule that is broken.
pub proof fn each_broken_rule_is_listed(c: ModelConfig)
    ensures
        c.violations().len() == (if c.n_heads == 0 {
            1int
        } else {
            0
        }) + (if c.n_heads > 0 && c.d_model as nat % c.n_heads as nat != 0 {
            1int
        } else {
            0
        }) + (if c.n_heads > 0 && c.d_model as nat % c.n_heads as nat == 0 && (c.d_model as nat
            / c.n_heads as nat) % 2 != 0 {
            1int
        } else {
            0
        }) + (if c.n_kv_heads == 0 || c.n_heads as nat % c.n_kv_heads as nat != 0 {
            1int
        } else {
            0
        }) + (if c.n_kv_heads > c.n_heads {
            1int
        } else {
            0
        }) + (if c.n_unique_layers == 0 {
            1int
        } else {
            0
        }) + (if c.n_loops == 0 {
            1int
        } else {
            0
        }) + (if c.d_emb == 0 || c.d_model == 0 || c.vocab_size == 0 {
            1int
        } else {
            0
        }) + (if c.d_emb > c.d_model {
            1int
        } else {
            0
        }) + (if at_most64(c.norm_eps.bits, ZERO) {
            1int
        } else {
            0
        }) + (if !(at_most64(ZERO, c.dropout.bits) && less64(c.dropout.bits, ONE)) {
            1int
        } else {
            0
        }),
{
    broadcast use noted_len;

}

/// The parameters of a model, from its widths alone.
pub proof fn parameters_follow_from_the_widths(c: ModelConfig, d_head: nat)
    requires
        c.n_heads > 0,
        d_head * c.n_heads as nat == c.d_model,
    ensures
        ({
            let d = c.d_model as nat;
            let v = c.vocab_size as nat;
            let e = c.d_emb as nat;
            let f = c.d_ff as nat;
            let kv = c.n_kv_heads as nat * d_head;
            let matmul = 2 * (d * d) + 2 * (d * kv) + 3 * (d * f);
            &&& c.layer_weights() == matmul
            &&& c.layer_params() == matmul + 2 * d
            &&& c.applications() == c.n_unique_layers as nat * c.n_loops as nat
            &&& c.dense_equivalent() == matmul * (c.n_unique_layers as nat * c.n_loops as nat)
            &&& total(c.itemized()) == v * e + e * d + (if c.tie_embeddings {
                d * e
            } else {
                d * v
            }) + c.n_unique_layers as nat * (matmul + 2 * d) + d
        }),
{
    let d = c.d_model as int;
    let h = c.n_heads as int;
    lemma_fundamental_div_mod_converse(d, h, d_head as int, 0);
    param_count_formula(c);
}

/// The attention over a context costs twelve operations for each layer
/// application, channel and position, and every matmul weight costs six.
pub proof fn context_adds_attention(c: ModelConfig, a: nat, b: nat)
    ensures
        c.token_flops(0) == 6 * c.dense_equivalent(),
        c.token_flops(a + b) - c.token_flops(a) == 12 * (c.n_unique_layers as nat
            * c.n_loops as nat) * c.d_model as nat * b,
{
    let k = (12 * (c.n_unique_layers as nat * c.n_loops as nat) * c.d_model as nat) as int;
    assert(k * (a + b) == k * a + k * b && k * 0 == 0) by (nonlinear_arith);
}

/// The output can have no more rank than any width on its way: the residual, and
/// the embedding where it is used again.
pub proof fn the_narrowest_width_caps_the_rank(c: ModelConfig)
    ensures
        c.rank_cap() <= c.d_model,
        c.tie_embeddings ==> c.rank_cap() <= c.d_emb,
        c.rank_cap() == c.d_model || (c.tie_embeddings && c.rank_cap() == c.d_emb),
{
}

/// A budget is the sum of its entries.
pub proof fn budgets_add_up(items: Seq<(Seq<char>, nat)>, name: Seq<char>, n: nat)
    ensures
        total(Seq::<(Seq<char>, nat)>::empty()) == 0,
        total(items.push((name, n))) == total(items) + n,
{
    total_push(items, (name, n));
}

/// The parameters of a plan are those of its matrices and norms.
pub proof fn plans_count_their_matrices(plan: LmPlan, blocks: Seq<BlockPlan>, block: BlockPlan)
    ensures
        plan.token_embedding.weights() == plan.token_embedding.inputs as nat
            * plan.token_embedding.outputs as nat,
        plan.params() == plan.token_embedding.weights() + plan.embed_proj.weights()
            + plan.head.weights() + stack_params(plan.blocks@) + plan.final_norm,
        stack_params(Seq::<BlockPlan>::empty()) == 0,
        stack_params(blocks.push(block)) == stack_params(blocks) + block.params(),
        block.params() == block.attention.wq.weights() + block.attention.wk.weights()
            + block.attention.wv.weights() + block.attention.wo.weights()
            + block.ffn.gate.weights() + block.ffn.up.weights() + block.ffn.down.weights() + 2
            * block.norm,
{
    assert(blocks.push(block).drop_last() =~= blocks);
}

/// A feed-forward block widens twice and narrows once.
pub proof fn feed_forward_widens_and_narrows(d_model: usize, d_ff: usize)
    ensures
        feed_forward(d_model, d_ff).gate.inputs == d_model,
        feed_forward(d_model, d_ff).gate.outputs == d_ff,
        feed_forward(d_model, d_ff).up.inputs == d_model,
        feed_forward(d_model, d_ff).up.outputs == d_ff,
        feed_forward(d_model, d_ff).down.inputs == d_ff,
        feed_forward(d_model, d_ff).down.outputs == d_model,
{
}

/// An attention block can be built exactly where the heads divide the width into
/// even parts and the key/value heads divide the heads.
pub proof fn attention_needs_even_heads(c: GroupedQueryAttentionConfig)
    requires
        c.n_heads > 0,
    ensures
        c.fault() is None <==> c.d_model as nat % c.n_heads as nat == 0 && c.n_kv_heads > 0
            && c.n_heads as nat % c.n_kv_heads as nat == 0 && (c.d_model as nat
            / c.n_heads as nat) % 2 == 0,
{
}

/// A cycle runs through all unique layers in order and starts again.
pub proof fn cycles_run_through_all_layers(n_unique: nat, n_loops: nat, k: nat, i: nat)
    requires
        k < n_unique,
    ensures
        scheduled(LayerSchedule::Cycle, n_unique, n_loops, k) == k,
        scheduled(LayerSchedule::Cycle, n_unique, n_loops, i + n_unique) == scheduled(
            LayerSchedule::Cycle,
            n_unique,
            n_loops,
            i,
        ),
{
    lemma_small_mod(k, n_unique);
    lemma_mod_multiples_vanish(1, i as int, n_unique as int);
    assert(n_unique * 1 + i == i + n_unique);
}

/// A block schedule stays at a layer for all its loops before the next one.
pub proof fn blocks_stay_at_a_layer(n_unique: nat, n_loops: nat, k: nat, r: nat)
    requires
        r < n_loops,
    ensures
        scheduled(LayerSchedule::Blocked, n_unique, n_loops, k * n_loops + r) == k,
{
    lemma_fundamental_div_mod_converse(
        (k * n_loops + r) as int,
        n_loops as int,
        k as int,
        r as int,
    );
}

/// A key is hidden from a query exactly where it comes later in the stream.
pub proof fn later_keys_are_hidden(row: nat, key: nat, offset: nat)
    ensures
        hidden(row, key, offset) <==> key > offset + row,
{
}

/// The mask has a row for each query and a column for each key.
pub proof fn masks_are_laid_out_by_rows(mask: Seq<bool>, kv_seq: int, row: int, key: int)
    ensures
        mask_cell(mask, kv_seq, row, key) == mask[row * kv_seq + key],
{
}

/// The weights of a matrix grow by its outputs with each input.
pub proof fn matrices_hold_inputs_times_outputs(m: Matrix)
    ensures
        m.weights() == m.inputs * m.outputs,
{
}

/// The lines of a budget, by name: the table, the way to the residual and back
/// or a head of its own, the unique layers, and the last norm.
pub proof fn budget_lines_say_what_they_count(c: ModelConfig)
    ensures
        c.itemized().len() == 5,
        c.itemized()[0] == ("token_embedding"@, c.vocab_size as nat * c.d_emb as nat),
        c.itemized()[1] == ("embed_proj"@, c.d_emb as nat * c.d_model as nat),
        c.tie_embeddings ==> c.itemized()[2] == (
            "unembed_proj"@,
            c.d_model as nat * c.d_emb as nat,
        ),
        !c.tie_embeddings ==> c.itemized()[2] == (
            "lm_head"@,
            c.d_model as nat * c.vocab_size as nat,
        ),
        c.itemized()[3] == ("layers"@, c.n_unique_layers as nat * c.layer_params()),
        c.itemized()[4] == ("final_norm"@, c.d_model as nat),
{
}

/// A head has the weights of its matrix.
pub proof fn heads_count_their_matrix(m: Matrix)
    ensures
        HeadPlan::Tied(m).weights() == m.inputs as nat * m.outputs as nat,
        HeadPlan::Untied(m).weights() == m.inputs as nat * m.outputs as nat,
{
}

} // verus!
