//! The structure of the compressor: what matrices it is made of, and what its
//! decoder is fed.

use vstd::prelude::*;

use vstd::string::*;

use crate::compress::config::{accepted_iff_valid_compressor, CompressConfig};
use crate::config::{total, total_push};
use crate::model::{is_block_of, plan_block, plan_stack, stack_params, BlockPlan, Matrix};
use crate::number::{at_most, at_most64, ZERO};
use crate::text::{ending_in, join, joined};

verus! {

/// The matrices of a compressor.
#[derive(Debug, Clone, PartialEq, Eq)]
pub struct CompressorPlan {
    /// Shared by the encoder, the decoder and the output head.
    pub token_embedding: Matrix,
    pub encoder_embed_proj: Matrix,
    pub decoder_embed_proj: Matrix,
    /// Learned queries appended to the encoder's input; its output at those
    /// positions is the latent.
    pub slot_queries: Matrix,
    /// One entry for each layer application.
    pub encoder: Vec<BlockPlan>,
    pub encoder_norm: usize,
    pub to_latent: Matrix,
    pub from_latent: Matrix,
    /// One entry for each layer application.
    pub decoder: Vec<BlockPlan>,
    pub decoder_norm: usize,
    pub unembed_proj: Matrix,
    /// The positions of the slots in the encoder: behind the span.
    pub slots_from: usize,
    pub slots_to: usize,
    /// The positions of the span in the decoder: behind the slots.
    pub span_from: usize,
    pub span_to: usize,
}

impl CompressorPlan {
    /// The parameters of the compressor that the plan describes.
    pub open spec fn params(&self) -> nat {
        self.token_embedding.weights() + self.encoder_embed_proj.weights()
            + self.decoder_embed_proj.weights() + self.slot_queries.weights() + stack_params(
            self.encoder@,
        ) + self.encoder_norm as nat + self.to_latent.weights() + self.from_latent.weights()
            + stack_params(self.decoder@) + self.decoder_norm as nat + self.unembed_proj.weights()
    }
}

/// The closed form of the compressor's parameter count.
pub proof fn compressor_count_formula(c: CompressConfig)
    ensures
        total(c.itemized()) == c.itemized()[0].1 + c.itemized()[1].1 + c.itemized()[2].1
            + c.itemized()[3].1 + c.itemized()[4].1 + c.itemized()[5].1 + c.itemized()[6].1
            + c.itemized()[7].1 + c.itemized()[8].1 + c.itemized()[9].1 + c.itemized()[10].1,
{
    let s = c.itemized();
    assert(s.take(0) =~= Seq::empty());
    total_step(s, 0);
    total_step(s, 1);
    total_step(s, 2);
    total_step(s, 3);
    total_step(s, 4);
    total_step(s, 5);
    total_step(s, 6);
    total_step(s, 7);
    total_step(s, 8);
    total_step(s, 9);
    total_step(s, 10);
    assert(s.take(11) =~= s);
}

proof fn total_step(s: Seq<(Seq<char>, nat)>, i: int)
    requires
        0 <= i < s.len(),
    ensures
        total(s.take(i + 1)) == total(s.take(i)) + s[i].1,
{
    assert(s.take(i + 1) =~= s.take(i).push(s[i]));
    total_push(s.take(i), s[i]);
}

/// The matrices of a compressor, or every reason why the configuration
/// describes none.
pub fn plan_compressor(config: &CompressConfig) -> (r: Result<CompressorPlan, String>)
    requires
        config.positions() <= usize::MAX,
        config.valid() ==> config.model.applications() <= usize::MAX,
    ensures
        r is Ok <==> config.valid(),
        r is Err ==> r->Err_0@ == "invalid CompressConfig:\n  - "@ + joined(
            config.violations(),
            "\n  - "@,
        ),
        r is Ok ==> {
            let p = r->Ok_0;
            let m = config.model;
            let d = config.fsq_levels@.len() as usize;
            &&& p.params() == total(config.itemized())
            &&& p.token_embedding == (Matrix { inputs: m.vocab_size, outputs: m.d_emb })
            &&& p.encoder_embed_proj == (Matrix { inputs: m.d_emb, outputs: m.d_model })
            &&& p.decoder_embed_proj == p.encoder_embed_proj
            &&& p.slot_queries == (Matrix { inputs: config.n_slots, outputs: m.d_model })
            &&& p.to_latent == (Matrix { inputs: m.d_model, outputs: d })
            &&& p.from_latent == (Matrix { inputs: d, outputs: m.d_model })
            &&& p.unembed_proj == (Matrix { inputs: m.d_model, outputs: m.d_emb })
            &&& p.encoder_norm == m.d_model
            &&& p.decoder_norm == m.d_model
            &&& p.encoder@.len() == m.applications()
            &&& p.decoder@.len() == m.applications()
            &&& forall|i: int|
                0 <= i < p.encoder@.len() ==> is_block_of(#[trigger] p.encoder@[i], m)
            &&& forall|i: int|
                0 <= i < p.decoder@.len() ==> is_block_of(#[trigger] p.decoder@[i], m)
            &&& p.slots_from == config.span_len && p.slots_to == config.positions()
            &&& p.span_from == config.n_slots && p.span_to == config.positions()
        },
{
    proof {
        accepted_iff_valid_compressor(*config);
        compressor_count_formula(*config);
    }
    match config.validate() {
        Ok(()) => {},
        Err(errs) => {
            let list = join(&errs, "\n  - ");
            return Err(ending_in("invalid CompressConfig:\n  - ", &list));
        },
    }
    let m = &config.model;
    let layers: usize = m.n_layer_applications();
    let block = plan_block(m);
    let d: usize = config.fsq().dim();
    let embed_proj = Matrix { inputs: m.d_emb, outputs: m.d_model };
    Ok(
        CompressorPlan {
            token_embedding: Matrix { inputs: m.vocab_size, outputs: m.d_emb },
            encoder_embed_proj: embed_proj,
            decoder_embed_proj: embed_proj,
            slot_queries: Matrix { inputs: config.n_slots, outputs: m.d_model },
            encoder: plan_stack(block, layers),
            encoder_norm: m.d_model,
            to_latent: Matrix { inputs: m.d_model, outputs: d },
            from_latent: Matrix { inputs: d, outputs: m.d_model },
            decoder: plan_stack(block, layers),
            decoder_norm: m.d_model,
            unembed_proj: Matrix { inputs: m.d_model, outputs: m.d_emb },
            slots_from: config.span_len,
            slots_to: config.max_positions(),
            span_from: config.n_slots,
            span_to: config.max_positions(),
        },
    )
}

/// What the decoder reads while it is taught a span: the start token, then the
/// span without its last token.
pub open spec fn shifted(span: Seq<i64>, bos_id: i64) -> Seq<i64> {
    seq![bos_id] + span.drop_last()
}

/// `[x_1, .., x_n]` to `[bos, x_1, .., x_(n-1)]`.
pub fn shift_right(span: &[i64], bos_id: i64) -> (r: Vec<i64>)
    requires
        span@.len() > 0,
    ensures
        r@ == shifted(span@, bos_id),
{
    let mut r: Vec<i64> = Vec::new();
    r.push(bos_id);
    let mut i: usize = 0;
    while i < span.len() - 1
        invariant
            i < span@.len(),
            r@ =~= seq![bos_id] + span@.take(i as int),
        decreases span@.len() - i,
    {
        r.push(span[i]);
        i = i + 1;
    }
    assert(span@.take(i as int) =~= span@.drop_last());
    r
}

/// The tokens with those that are not kept replaced by the start token.
pub open spec fn corrupted(tokens: Seq<i64>, keep: Seq<bool>, bos_id: i64) -> Seq<i64> {
    Seq::new(
        tokens.len(),
        |i: int|
            if keep[i] {
                tokens[i]
            } else {
                bos_id
            },
    )
}

/// Replace the tokens that are not kept by the start token: the decoder then
/// cannot lean on its prefix alone. Which tokens are kept is drawn at random
/// by the caller.
pub fn corrupt(tokens: &[i64], keep: &[bool], bos_id: i64) -> (r: Vec<i64>)
    requires
        tokens@.len() == keep@.len(),
    ensures
        r@ == corrupted(tokens@, keep@, bos_id),
{
    let mut r: Vec<i64> = Vec::new();
    let mut i: usize = 0;
    while i < tokens.len()
        invariant
            i <= tokens@.len(),
            tokens@.len() == keep@.len(),
            r@ =~= corrupted(tokens@, keep@, bos_id).take(i as int),
        decreases tokens@.len() - i,
    {
        r.push(
            if keep[i] {
                tokens[i]
            } else {
                bos_id
            },
        );
        i = i + 1;
    }
    assert(r@ =~= corrupted(tokens@, keep@, bos_id));
    r
}

/// Whether the decoder's inputs are corrupted: in training, and only where the
/// configuration asks for it. An evaluation is deterministic.
pub fn corrupts(config: &CompressConfig, training: bool) -> (r: bool)
    ensures
        r == (training && !(at_most64(config.token_dropout.bits, ZERO) && at_most64(
            ZERO,
            config.token_dropout.bits,
        ))),
{
    training && !(at_most(config.token_dropout.bits, ZERO) && at_most(
        ZERO,
        config.token_dropout.bits,
    ))
}

/// The decoder never reads the token that it predicts: what it reads at a
/// position is the start token or an earlier token.
pub proof fn teacher_forcing_hides_the_target(span: Seq<i64>, bos_id: i64, i: int)
    requires
        0 <= i < span.len(),
    ensures
        shifted(span, bos_id).len() == span.len(),
        shifted(span, bos_id)[i] == if i == 0 {
            bos_id
        } else {
            span[i - 1]
        },
{
}

/// Keeping every token corrupts nothing.
pub proof fn keeping_all_corrupts_nothing(tokens: Seq<i64>, keep: Seq<bool>, bos_id: i64)
    requires
        keep.len() == tokens.len(),
        forall|i: int| 0 <= i < keep.len() ==> #[trigger] keep[i],
    ensures
        corrupted(tokens, keep, bos_id) == tokens,
{
    assert(corrupted(tokens, keep, bos_id) =~= tokens);
}

} // verus!
