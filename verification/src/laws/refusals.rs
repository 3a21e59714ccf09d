//! What is said of configurations that are refused.

use vstd::prelude::*;

use vstd::string::*;

use crate::compress::config::CompressConfig;
use crate::compress::quantize::level_violations;
use crate::config::ModelConfig;
use crate::number::{
    at_most32, at_most64, less32, less64, INFINITY_SINGLE, ONE, ONE_SINGLE, ZERO, ZERO_SINGLE,
};
use crate::text::{decimal, noted, noted_len, prefixed};
use crate::train::TrainConfig;

verus! {

/// One for a rule that is broken.
pub open spec fn broken(found: bool) -> int {
    if found {
        1
    } else {
        0
    }
}

proof fn told(x: Seq<char>)
    ensures
        noted(true, x).contains(x),
{
    reveal(noted);
    assert(noted(true, x)[0] == x);
}

proof fn found_in(a: Seq<Seq<char>>, b: Seq<Seq<char>>, x: Seq<char>)
    requires
        a.contains(x) || b.contains(x),
    ensures
        (a + b).contains(x),
{
    if a.contains(x) {
        let i = choose|i: int| 0 <= i < a.len() && a[i] == x;
        assert((a + b)[i] == x);
    } else {
        let i = choose|i: int| 0 <= i < b.len() && b[i] == x;
        assert((a + b)[a.len() + i] == x);
    }
}

proof fn found_in_one(
    l1: Seq<Seq<char>>,
    l2: Seq<Seq<char>>,
    l3: Seq<Seq<char>>,
    l4: Seq<Seq<char>>,
    l5: Seq<Seq<char>>,
    l6: Seq<Seq<char>>,
    l7: Seq<Seq<char>>,
    l8: Seq<Seq<char>>,
    l9: Seq<Seq<char>>,
    l10: Seq<Seq<char>>,
    l11: Seq<Seq<char>>,
    x: Seq<char>,
)
    requires
        l1.contains(x) || l2.contains(x) || l3.contains(x) || l4.contains(x) || l5.contains(x)
            || l6.contains(x) || l7.contains(x) || l8.contains(x) || l9.contains(x)
            || l10.contains(x) || l11.contains(x),
    ensures
        (l1 + l2 + l3 + l4 + l5 + l6 + l7 + l8 + l9 + l10 + l11).contains(x),
{
    let p1 = l1;
    let p2 = p1 + l2;
    if p1.contains(x) || l2.contains(x) {
        found_in(p1, l2, x);
    }
    let p3 = p2 + l3;
    if p2.contains(x) || l3.contains(x) {
        found_in(p2, l3, x);
    }
    let p4 = p3 + l4;
    if p3.contains(x) || l4.contains(x) {
        found_in(p3, l4, x);
    }
    let p5 = p4 + l5;
    if p4.contains(x) || l5.contains(x) {
        found_in(p4, l5, x);
    }
    let p6 = p5 + l6;
    if p5.contains(x) || l6.contains(x) {
        found_in(p5, l6, x);
    }
    let p7 = p6 + l7;
    if p6.contains(x) || l7.contains(x) {
        found_in(p6, l7, x);
    }
    let p8 = p7 + l8;
    if p7.contains(x) || l8.contains(x) {
        found_in(p7, l8, x);
    }
    let p9 = p8 + l9;
    if p8.contains(x) || l9.contains(x) {
        found_in(p8, l9, x);
    }
    let p10 = p9 + l10;
    if p9.contains(x) || l10.contains(x) {
        found_in(p9, l10, x);
    }
    let p11 = p10 + l11;
    if p10.contains(x) || l11.contains(x) {
        found_in(p10, l11, x);
    }
}

/// Every rule that a model breaks is told, with its numbers.
pub proof fn broken_model_rules_are_told(c: ModelConfig)
    ensures
        (c.n_heads == 0) ==> c.violations().contains("n_heads must be >= 1"@),
        (c.n_heads as nat > 0 && c.d_model as nat % c.n_heads as nat != 0)
            ==> c.violations().contains("d_model ("@ + decimal(c.d_model as nat)
            + ") must be divisible by n_heads ("@ + decimal(c.n_heads as nat) + ")"@),
        (c.n_heads as nat > 0 && c.d_model as nat % c.n_heads as nat == 0
            && (c.d_model as nat / (c.n_heads as nat)) % 2 != 0)
            ==> c.violations().contains("d_head ("@
            + decimal(c.d_model as nat / (c.n_heads as nat))
            + ") must be even for rotary embeddings"@),
        (c.n_kv_heads as nat == 0 || c.n_heads as nat % c.n_kv_heads as nat != 0)
            ==> c.violations().contains("n_heads ("@ + decimal(c.n_heads as nat)
            + ") must be a positive multiple of n_kv_heads ("@ + decimal(c.n_kv_heads as nat)
            + ")"@),
        (c.n_kv_heads > c.n_heads) ==> c.violations().contains("n_kv_heads ("@
            + decimal(c.n_kv_heads as nat) + ") cannot exceed n_heads ("@
            + decimal(c.n_heads as nat) + ")"@),
        (c.n_unique_layers == 0) ==> c.violations().contains("n_unique_layers must be >= 1"@),
        (c.n_loops == 0) ==> c.violations().contains("n_loops must be >= 1"@),
        (c.d_emb == 0 || c.d_model == 0 || c.vocab_size == 0)
            ==> c.violations().contains("d_emb, d_model and vocab_size must all be >= 1"@),
        (c.d_emb > c.d_model) ==> c.violations().contains("d_emb ("@ + decimal(c.d_emb as nat)
            + ") > d_model ("@ + decimal(c.d_model as nat)
            + "): factorization would expand rather than compress"@),
        (at_most64(c.norm_eps.bits, ZERO)) ==> c.violations().contains("norm_eps must be > 0"@),
        (!(at_most64(ZERO, c.dropout.bits) && less64(c.dropout.bits, ONE)))
            ==> c.violations().contains("dropout must be in [0, 1)"@),
{
    let m1 = "n_heads must be >= 1"@;
    let l1 = noted(c.n_heads == 0, m1);
    let m2 = "d_model ("@ + decimal(c.d_model as nat) + ") must be divisible by n_heads ("@
        + decimal(c.n_heads as nat) + ")"@;
    let l2 = noted(c.n_heads as nat > 0 && c.d_model as nat % c.n_heads as nat != 0, m2);
    let m3 = "d_head ("@ + decimal(c.d_model as nat / (c.n_heads as nat))
        + ") must be even for rotary embeddings"@;
    let l3 = noted((c.n_heads as nat > 0 && c.d_model as nat % c.n_heads as nat == 0
        && (c.d_model as nat / (c.n_heads as nat)) % 2 != 0), m3);
    let m4 = "n_heads ("@ + decimal(c.n_heads as nat)
        + ") must be a positive multiple of n_kv_heads ("@ + decimal(c.n_kv_heads as nat) + ")"@;
    let l4 = noted(c.n_kv_heads as nat == 0 || c.n_heads as nat % c.n_kv_heads as nat != 0, m4);
    let m5 = "n_kv_heads ("@ + decimal(c.n_kv_heads as nat) + ") cannot exceed n_heads ("@
        + decimal(c.n_heads as nat) + ")"@;
    let l5 = noted(c.n_kv_heads > c.n_heads, m5);
    let m6 = "n_unique_layers must be >= 1"@;
    let l6 = noted(c.n_unique_layers == 0, m6);
    let m7 = "n_loops must be >= 1"@;
    let l7 = noted(c.n_loops == 0, m7);
    let m8 = "d_emb, d_model and vocab_size must all be >= 1"@;
    let l8 = noted(c.d_emb == 0 || c.d_model == 0 || c.vocab_size == 0, m8);
    let m9 = "d_emb ("@ + decimal(c.d_emb as nat) + ") > d_model ("@ + decimal(c.d_model as nat)
        + "): factorization would expand rather than compress"@;
    let l9 = noted(c.d_emb > c.d_model, m9);
    let m10 = "norm_eps must be > 0"@;
    let l10 = noted(at_most64(c.norm_eps.bits, ZERO), m10);
    let m11 = "dropout must be in [0, 1)"@;
    let l11 = noted(!(at_most64(ZERO, c.dropout.bits) && less64(c.dropout.bits, ONE)), m11);
    assert(c.violations() == l1 + l2 + l3 + l4 + l5 + l6 + l7 + l8 + l9 + l10 + l11);
    if (c.n_heads == 0) {
        told(m1);
        found_in_one(l1, l2, l3, l4, l5, l6, l7, l8, l9, l10, l11, m1);
    }
    if (c.n_heads as nat > 0 && c.d_model as nat % c.n_heads as nat != 0) {
        told(m2);
        found_in_one(l1, l2, l3, l4, l5, l6, l7, l8, l9, l10, l11, m2);
    }
    if (c.n_heads as nat > 0 && c.d_model as nat % c.n_heads as nat == 0
        && (c.d_model as nat / (c.n_heads as nat)) % 2 != 0) {
        told(m3);
        found_in_one(l1, l2, l3, l4, l5, l6, l7, l8, l9, l10, l11, m3);
    }
    if (c.n_kv_heads as nat == 0 || c.n_heads as nat % c.n_kv_heads as nat != 0) {
        told(m4);
        found_in_one(l1, l2, l3, l4, l5, l6, l7, l8, l9, l10, l11, m4);
    }
    if (c.n_kv_heads > c.n_heads) {
        told(m5);
        found_in_one(l1, l2, l3, l4, l5, l6, l7, l8, l9, l10, l11, m5);
    }
    if (c.n_unique_layers == 0) {
        told(m6);
        found_in_one(l1, l2, l3, l4, l5, l6, l7, l8, l9, l10, l11, m6);
    }
    if (c.n_loops == 0) {
        told(m7);
        found_in_one(l1, l2, l3, l4, l5, l6, l7, l8, l9, l10, l11, m7);
    }
    if (c.d_emb == 0 || c.d_model == 0 || c.vocab_size == 0) {
        told(m8);
        found_in_one(l1, l2, l3, l4, l5, l6, l7, l8, l9, l10, l11, m8);
    }
    if (c.d_emb > c.d_model) {
        told(m9);
        found_in_one(l1, l2, l3, l4, l5, l6, l7, l8, l9, l10, l11, m9);
    }
    if (at_most64(c.norm_eps.bits, ZERO)) {
        told(m10);
        found_in_one(l1, l2, l3, l4, l5, l6, l7, l8, l9, l10, l11, m10);
    }
    if (!(at_most64(ZERO, c.dropout.bits) && less64(c.dropout.bits, ONE))) {
        told(m11);
        found_in_one(l1, l2, l3, l4, l5, l6, l7, l8, l9, l10, l11, m11);
    }
}

/// Every rule that a run breaks is told, with its numbers, and no other.
pub proof fn broken_run_rules_are_told(c: TrainConfig)
    ensures
        c.run_violations().len() == broken((c.seq_len == 0))
            + broken((c.seq_len > c.model.max_seq_len)) + broken((c.batch_size == 0))
            + broken((c.grad_accumulation == 0)) + broken((c.num_epochs == 0)),
        (c.seq_len == 0) ==> c.run_violations().contains("seq_len must be positive"@),
        (c.seq_len > c.model.max_seq_len) ==> c.run_violations().contains("seq_len "@
            + decimal(c.seq_len as nat) + " exceeds the model's max_seq_len "@
            + decimal(c.model.max_seq_len as nat)
            + ": RoPE tables are built to max_seq_len, so longer windows would index out of bounds"@),
        (c.batch_size == 0) ==> c.run_violations().contains("batch_size must be positive"@),
        (c.grad_accumulation == 0)
            ==> c.run_violations().contains("grad_accumulation must be at least 1"@),
        (c.num_epochs == 0) ==> c.run_violations().contains("num_epochs must be positive"@),
{
    broadcast use noted_len;

    let m1 = "seq_len must be positive"@;
    let l1 = noted(c.seq_len == 0, m1);
    let m2 = "seq_len "@ + decimal(c.seq_len as nat) + " exceeds the model's max_seq_len "@
        + decimal(c.model.max_seq_len as nat)
        + ": RoPE tables are built to max_seq_len, so longer windows would index out of bounds"@;
    let l2 = noted(c.seq_len > c.model.max_seq_len, m2);
    let m3 = "batch_size must be positive"@;
    let l3 = noted(c.batch_size == 0, m3);
    let m4 = "grad_accumulation must be at least 1"@;
    let l4 = noted(c.grad_accumulation == 0, m4);
    let m5 = "num_epochs must be positive"@;
    let l5 = noted(c.num_epochs == 0, m5);
    let p1 = l1;
    let p2 = p1 + l2;
    let p3 = p2 + l3;
    let p4 = p3 + l4;
    let p5 = p4 + l5;
    assert(c.run_violations() == p5);
    if (c.seq_len == 0) {
        told(m1);
        found_in(p1, l2, m1);
        found_in(p2, l3, m1);
        found_in(p3, l4, m1);
        found_in(p4, l5, m1);
    }
    if (c.seq_len > c.model.max_seq_len) {
        told(m2);
        found_in(p1, l2, m2);
        found_in(p2, l3, m2);
        found_in(p3, l4, m2);
        found_in(p4, l5, m2);
    }
    if (c.batch_size == 0) {
        told(m3);
        found_in(p2, l3, m3);
        found_in(p3, l4, m3);
        found_in(p4, l5, m3);
    }
    if (c.grad_accumulation == 0) {
        told(m4);
        found_in(p3, l4, m4);
        found_in(p4, l5, m4);
    }
    if (c.num_epochs == 0) {
        told(m5);
        found_in(p4, l5, m5);
    }
}

/// Every rate out of its range is told, with its value, and no other.
pub proof fn broken_rate_rules_are_told(c: TrainConfig)
    ensures
        ({
            let lr = !(less64(ZERO, c.lr.bits) && at_most64(c.lr.bits, ONE));
            let floor = !(at_most64(ZERO, c.min_lr_ratio.bits) && at_most64(
                c.min_lr_ratio.bits,
                ONE,
            ));
            let warmup = c.warmup_ratio is Some && !(at_most64(ZERO, c.warmup_ratio->Some_0.bits)
                && less64(c.warmup_ratio->Some_0.bits, ONE));
            let all = c.rate_violations();
            &&& all.len() == broken(lr) + broken(floor) + broken(warmup)
            &&& lr ==> all.contains("lr must be in (0, 1], got "@ + c.lr.text@)
            &&& floor ==> all.contains(
                "min_lr_ratio must be in [0, 1], got "@ + c.min_lr_ratio.text@,
            )
            &&& warmup ==> all.contains(
                "warmup_ratio must be in [0, 1) when set (null falls back to warmup_batches), got "@
                    + c.warmup_ratio->Some_0.text@,
            )
        }),
{
    reveal(noted);
    let m1 = "lr must be in (0, 1], got "@ + c.lr.text@;
    let l1 = noted(!(less64(ZERO, c.lr.bits) && at_most64(c.lr.bits, ONE)), m1);
    let m2 = "min_lr_ratio must be in [0, 1], got "@ + c.min_lr_ratio.text@;
    let l2 = noted(
        !(at_most64(ZERO, c.min_lr_ratio.bits) && at_most64(c.min_lr_ratio.bits, ONE)),
        m2,
    );
    let m3 = "warmup_ratio must be in [0, 1) when set (null falls back to warmup_batches), got "@
        + c.warmup_ratio_text();
    let l3 = noted(!c.warmup_ratio_ok(), m3);
    assert(c.rate_violations() == l1 + l2 + l3);
    if l1.len() > 0 {
        assert(l1[0] == m1);
        found_in(l1, l2, m1);
        found_in(l1 + l2, l3, m1);
    }
    if l2.len() > 0 {
        assert(l2[0] == m2);
        found_in(l1, l2, m2);
        found_in(l1 + l2, l3, m2);
    }
    if l3.len() > 0 {
        assert(l3[0] == m3);
        found_in(l1 + l2, l3, m3);
    }
}

/// Every setting of the optimizer out of its range is told, and no other.
pub proof fn broken_optimizer_rules_are_told(c: TrainConfig)
    ensures
        c.optimizer_violations().len() == broken((less32(c.weight_decay.bits, ZERO_SINGLE)))
            + broken((!(less32(ZERO_SINGLE, c.beta_1.bits) && less32(c.beta_1.bits, ONE_SINGLE))))
            + broken((!(less32(ZERO_SINGLE, c.beta_2.bits) && less32(c.beta_2.bits, ONE_SINGLE))))
            + broken((at_most32(c.epsilon.bits, ZERO_SINGLE)))
            + broken((at_most32(c.grad_clip_norm.bits, ZERO_SINGLE)))
            + broken((!(at_most32(ZERO_SINGLE, c.z_loss.bits)
            && less32(c.z_loss.bits, INFINITY_SINGLE)))),
        (less32(c.weight_decay.bits, ZERO_SINGLE))
            ==> c.optimizer_violations().contains("weight_decay must not be negative"@),
        (!(less32(ZERO_SINGLE, c.beta_1.bits) && less32(c.beta_1.bits, ONE_SINGLE)))
            ==> c.optimizer_violations().contains("beta_1 must be in (0, 1), got "@
            + c.beta_1.text@),
        (!(less32(ZERO_SINGLE, c.beta_2.bits) && less32(c.beta_2.bits, ONE_SINGLE)))
            ==> c.optimizer_violations().contains("beta_2 must be in (0, 1), got "@
            + c.beta_2.text@),
        (at_most32(c.epsilon.bits, ZERO_SINGLE))
            ==> c.optimizer_violations().contains("epsilon must be positive"@),
        (at_most32(c.grad_clip_norm.bits, ZERO_SINGLE))
            ==> c.optimizer_violations().contains("grad_clip_norm must be positive"@),
        (!(at_most32(ZERO_SINGLE, c.z_loss.bits) && less32(c.z_loss.bits, INFINITY_SINGLE)))
            ==> c.optimizer_violations().contains("z_loss must be finite and non-negative (0 disables it), got "@
            + c.z_loss.text@),
{
    broadcast use noted_len;

    let m1 = "weight_decay must not be negative"@;
    let l1 = noted(less32(c.weight_decay.bits, ZERO_SINGLE), m1);
    let m2 = "beta_1 must be in (0, 1), got "@ + c.beta_1.text@;
    let l2 = noted((!(less32(ZERO_SINGLE, c.beta_1.bits)
        && less32(c.beta_1.bits, ONE_SINGLE))), m2);
    let m3 = "beta_2 must be in (0, 1), got "@ + c.beta_2.text@;
    let l3 = noted((!(less32(ZERO_SINGLE, c.beta_2.bits)
        && less32(c.beta_2.bits, ONE_SINGLE))), m3);
    let m4 = "epsilon must be positive"@;
    let l4 = noted(at_most32(c.epsilon.bits, ZERO_SINGLE), m4);
    let m5 = "grad_clip_norm must be positive"@;
    let l5 = noted(at_most32(c.grad_clip_norm.bits, ZERO_SINGLE), m5);
    let m6 = "z_loss must be finite and non-negative (0 disables it), got "@ + c.z_loss.text@;
    let l6 = noted((!(at_most32(ZERO_SINGLE, c.z_loss.bits)
        && less32(c.z_loss.bits, INFINITY_SINGLE))), m6);
    let p1 = l1;
    let p2 = p1 + l2;
    let p3 = p2 + l3;
    let p4 = p3 + l4;
    let p5 = p4 + l5;
    let p6 = p5 + l6;
    assert(c.optimizer_violations() == p6);
    if (less32(c.weight_decay.bits, ZERO_SINGLE)) {
        told(m1);
        found_in(p1, l2, m1);
        found_in(p2, l3, m1);
        found_in(p3, l4, m1);
        found_in(p4, l5, m1);
        found_in(p5, l6, m1);
    }
    if (!(less32(ZERO_SINGLE, c.beta_1.bits) && less32(c.beta_1.bits, ONE_SINGLE))) {
        told(m2);
        found_in(p1, l2, m2);
        found_in(p2, l3, m2);
        found_in(p3, l4, m2);
        found_in(p4, l5, m2);
        found_in(p5, l6, m2);
    }
    if (!(less32(ZERO_SINGLE, c.beta_2.bits) && less32(c.beta_2.bits, ONE_SINGLE))) {
        told(m3);
        found_in(p2, l3, m3);
        found_in(p3, l4, m3);
        found_in(p4, l5, m3);
        found_in(p5, l6, m3);
    }
    if (at_most32(c.epsilon.bits, ZERO_SINGLE)) {
        told(m4);
        found_in(p3, l4, m4);
        found_in(p4, l5, m4);
        found_in(p5, l6, m4);
    }
    if (at_most32(c.grad_clip_norm.bits, ZERO_SINGLE)) {
        told(m5);
        found_in(p4, l5, m5);
        found_in(p5, l6, m5);
    }
    if (!(at_most32(ZERO_SINGLE, c.z_loss.bits) && less32(c.z_loss.bits, INFINITY_SINGLE))) {
        told(m6);
        found_in(p5, l6, m6);
    }
}

/// Every rule on the span that a compressor breaks is told, and no other.
pub proof fn broken_span_rules_are_told(c: CompressConfig)
    ensures
        c.span_violations().len() == broken((c.span_len == 0)) + broken((c.n_slots == 0))
            + broken((c.n_slots >= c.span_len && c.span_len > 0)) + broken((c.span_len
            + c.n_slots > c.model.max_seq_len)),
        (c.span_len == 0) ==> c.span_violations().contains("span_len must be >= 1"@),
        (c.n_slots == 0) ==> c.span_violations().contains("n_slots must be >= 1"@),
        (c.n_slots >= c.span_len && c.span_len > 0) ==> c.span_violations().contains("n_slots ("@
            + decimal(c.n_slots as nat) + ") >= span_len ("@ + decimal(c.span_len as nat)
            + "): that is not a compressor"@),
        (c.span_len + c.n_slots > c.model.max_seq_len)
            ==> c.span_violations().contains("span_len + n_slots = "@ + decimal((c.span_len
            + c.n_slots) as nat) + " exceeds model.max_seq_len = "@
            + decimal(c.model.max_seq_len as nat) + "; RoPE has no table for those positions"@),
{
    broadcast use noted_len;

    let m1 = "span_len must be >= 1"@;
    let l1 = noted(c.span_len == 0, m1);
    let m2 = "n_slots must be >= 1"@;
    let l2 = noted(c.n_slots == 0, m2);
    let m3 = "n_slots ("@ + decimal(c.n_slots as nat) + ") >= span_len ("@
        + decimal(c.span_len as nat) + "): that is not a compressor"@;
    let l3 = noted(c.n_slots >= c.span_len && c.span_len > 0, m3);
    let m4 = "span_len + n_slots = "@ + decimal((c.span_len + c.n_slots) as nat)
        + " exceeds model.max_seq_len = "@ + decimal(c.model.max_seq_len as nat)
        + "; RoPE has no table for those positions"@;
    let l4 = noted(c.span_len + c.n_slots > c.model.max_seq_len, m4);
    let p1 = l1;
    let p2 = p1 + l2;
    let p3 = p2 + l3;
    let p4 = p3 + l4;
    assert(c.span_violations() == p4);
    if (c.span_len == 0) {
        told(m1);
        found_in(p1, l2, m1);
        found_in(p2, l3, m1);
        found_in(p3, l4, m1);
    }
    if (c.n_slots == 0) {
        told(m2);
        found_in(p1, l2, m2);
        found_in(p2, l3, m2);
        found_in(p3, l4, m2);
    }
    if (c.n_slots >= c.span_len && c.span_len > 0) {
        told(m3);
        found_in(p2, l3, m3);
        found_in(p3, l4, m3);
    }
    if (c.span_len + c.n_slots > c.model.max_seq_len) {
        told(m4);
        found_in(p3, l4, m4);
    }
}

/// Every setting of the inputs out of its range is told, and no other.
pub proof fn broken_input_rules_are_told(c: CompressConfig)
    ensures
        c.input_violations().len() == broken((!(at_most64(ZERO, c.token_dropout.bits)
            && less64(c.token_dropout.bits, ONE))))
            + broken((!(at_most64(ZERO, c.latent_dropout.bits)
            && less64(c.latent_dropout.bits, ONE)))) + broken((c.bos_id >= c.model.vocab_size)),
        (!(at_most64(ZERO, c.token_dropout.bits) && less64(c.token_dropout.bits, ONE)))
            ==> c.input_violations().contains("token_dropout must be in [0, 1), got "@
            + c.token_dropout.text@),
        (!(at_most64(ZERO, c.latent_dropout.bits) && less64(c.latent_dropout.bits, ONE)))
            ==> c.input_violations().contains("latent_dropout must be in [0, 1), got "@
            + c.latent_dropout.text@),
        (c.bos_id >= c.model.vocab_size) ==> c.input_violations().contains("bos_id ("@
            + decimal(c.bos_id as nat) + ") is not a token in a vocabulary of "@
            + decimal(c.model.vocab_size as nat)),
{
    broadcast use noted_len;

    let m1 = "token_dropout must be in [0, 1), got "@ + c.token_dropout.text@;
    let l1 = noted((!(at_most64(ZERO, c.token_dropout.bits)
        && less64(c.token_dropout.bits, ONE))), m1);
    let m2 = "latent_dropout must be in [0, 1), got "@ + c.latent_dropout.text@;
    let l2 = noted((!(at_most64(ZERO, c.latent_dropout.bits)
        && less64(c.latent_dropout.bits, ONE))), m2);
    let m3 = "bos_id ("@ + decimal(c.bos_id as nat) + ") is not a token in a vocabulary of "@
        + decimal(c.model.vocab_size as nat);
    let l3 = noted(c.bos_id >= c.model.vocab_size, m3);
    let p1 = l1;
    let p2 = p1 + l2;
    let p3 = p2 + l3;
    assert(c.input_violations() == p3);
    if (!(at_most64(ZERO, c.token_dropout.bits) && less64(c.token_dropout.bits, ONE))) {
        told(m1);
        found_in(p1, l2, m1);
        found_in(p2, l3, m1);
    }
    if (!(at_most64(ZERO, c.latent_dropout.bits) && less64(c.latent_dropout.bits, ONE))) {
        told(m2);
        found_in(p1, l2, m2);
        found_in(p2, l3, m2);
    }
    if (c.bos_id >= c.model.vocab_size) {
        told(m3);
        found_in(p2, l3, m3);
    }
}

/// The rules of a run are told before those of its model, which are told as such.
pub proof fn refusals_tell_all_parts(c: TrainConfig, k: CompressConfig)
    ensures
        c.violations() == c.run_violations() + c.rate_violations() + c.optimizer_violations()
            + prefixed("model: "@, c.model.violations()),
        k.violations() == prefixed("model: "@, k.model.violations()) + prefixed(
            "fsq: "@,
            level_violations(k.fsq_levels@),
        ) + k.span_violations() + k.input_violations(),
{
}

} // verus!
