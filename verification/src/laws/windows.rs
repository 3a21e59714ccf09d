//! Which predictions the windows of a sweep score.

use vstd::prelude::*;

use vstd::arithmetic::div_mod::{lemma_div_pos_is_pos, lemma_fundamental_div_mod};

use crate::data::dataset::{
    batch_row, element, elements, first_scored, mask_count, scored_by, scored_sum, scores,
    window_count, window_in_stream, window_mask, TokenBatch, TokenDataset, TokenWindow,
};

verus! {

/// The windows are those that lie in the stream with their last target, and no
/// others.
pub proof fn windows_are_those_that_fit(n: nat, seq_len: nat, stride: nat, i: nat)
    requires
        stride > 0,
    ensures
        i < window_count(n, seq_len, stride) <==> i * stride + seq_len + 1 <= n,
{
    if i < window_count(n, seq_len, stride) {
        window_in_stream(n, seq_len, stride, i);
    }
    assert(i * stride >= 0) by (nonlinear_arith);
    if i * stride + seq_len + 1 <= n {
        let a = (n - seq_len - 1) as int;
        let s = stride as int;
        lemma_fundamental_div_mod(a, s);
        lemma_div_pos_is_pos(a, s);
        let q = a / s;
        assert(i <= q) by (nonlinear_arith)
            requires
                i * s <= a,
                a < s * q + s,
                s > 0,
        ;
    }
}

/// A mask has a place for each position, set from the first scored one on.
pub proof fn masks_are_set_from_the_first_scored(score_from: nat, seq: nat, p: int)
    requires
        0 <= p < seq,
    ensures
        window_mask(score_from, seq).len() == seq,
        window_mask(score_from, seq)[p] <==> p >= score_from,
{
}

/// A position is scored exactly where it lies behind the window before it. The
/// first window has none before it.
pub proof fn what_is_new_is_scored(i: nat, p: int, seq_len: nat, stride: nat)
    requires
        0 < stride <= seq_len,
        0 <= p < seq_len,
    ensures
        window_mask(first_scored(i, seq_len, stride), seq_len)[p] <==> (i == 0 || i * stride + p
            >= (i - 1) * stride + seq_len),
{
    if i > 0 {
        assert(i * stride == (i - 1) * stride + stride) by (nonlinear_arith);
    }
}

/// The positions that a window scores are those that its mask is set at: the
/// target at position `p` is the token behind the input there.
pub proof fn masks_say_what_is_scored(i: nat, p: int, seq_len: nat, stride: nat)
    requires
        0 < stride <= seq_len,
        0 <= p < seq_len,
    ensures
        scores(i, (i * stride + p + 1) as nat, seq_len, stride) <==> window_mask(
            first_scored(i, seq_len, stride),
            seq_len,
        )[p],
{
    assert(i * stride >= 0) by (nonlinear_arith);
}

/// Nothing outside a window is scored by it.
pub proof fn windows_score_within(i: nat, t: nat, seq_len: nat, stride: nat)
    requires
        0 < stride <= seq_len,
        t < i * stride + 1 || t > i * stride + seq_len,
    ensures
        !scores(i, t, seq_len, stride),
{
}

/// The scored predictions of a sweep are counted once each: the first token has
/// none, and the count goes up to the last target of the last window.
pub proof fn scored_tokens_reach_the_last_target(n: nat, seq_len: nat, stride: nat, k: nat)
    requires
        0 < stride <= seq_len,
        0 < k <= window_count(n, seq_len, stride),
    ensures
        scored_by(k, seq_len, stride) == (k - 1) * stride + seq_len,
        scored_by(0, seq_len, stride) == 0,
{
    scored_sum(n, seq_len, stride, k);
}

/// Position `q` of row `p` of a batch belongs to position `q` of window `p`: its
/// input, its target, and whether it is scored.
pub proof fn batches_hold_windows(b: TokenBatch, items: Seq<TokenWindow>, p: int, q: int)
    requires
        b.batch == items.len(),
        b.input@.len() == b.batch * b.seq,
        b.target@.len() == b.batch * b.seq,
        b.score_mask@.len() == b.batch * b.seq,
        0 <= p < b.batch,
        0 <= q < b.seq,
        items[p].input@.len() == b.seq,
        items[p].target@.len() == b.seq,
        batch_row(b.input@, p, b.seq as int) == elements(items[p].input@),
        batch_row(b.target@, p, b.seq as int) == elements(items[p].target@),
        batch_row(b.score_mask@, p, b.seq as int) == window_mask(
            items[p].score_from as nat,
            b.seq as nat,
        ),
    ensures
        0 <= p * b.seq + q < b.batch * b.seq,
        b.input@[p * b.seq + q] == element(items[p].input@[q]),
        b.target@[p * b.seq + q] == element(items[p].target@[q]),
        b.score_mask@[p * b.seq + q] <==> q >= items[p].score_from,
{
    let s = b.seq as int;
    assert(p * s + s <= b.batch * s && 0 <= p * s) by (nonlinear_arith)
        requires
            0 <= p,
            p + 1 <= b.batch,
            s >= 0,
    ;
    assert(batch_row(b.input@, p, s)[q] == b.input@[p * s + q]);
    assert(batch_row(b.target@, p, s)[q] == b.target@[p * s + q]);
    assert(batch_row(b.score_mask@, p, s)[q] == b.score_mask@[p * s + q]);
    assert(elements(items[p].input@)[q] == element(items[p].input@[q]));
    assert(elements(items[p].target@)[q] == element(items[p].target@[q]));
}

/// A tensor element is the token id, taken as a signed number of as many bits.
pub proof fn elements_are_the_ids(t: u32)
    ensures
        t <= i32::MAX ==> element(t) == t,
        t > i32::MAX ==> element(t) == t - 0x1_0000_0000,
{
}

/// A mask counts the positions that are set, one each.
pub proof fn masks_count_one_by_one(mask: Seq<bool>, b: bool)
    ensures
        mask_count(Seq::<bool>::empty()) == 0,
        mask_count(mask.push(b)) == mask_count(mask) + if b {
            1nat
        } else {
            0
        },
{
    assert(mask.push(b).drop_last() =~= mask);
}

/// A dataset has the windows that lie in its stream with their last target.
pub proof fn datasets_have_the_windows_that_fit(d: TokenDataset, i: nat)
    requires
        d.step() > 0,
    ensures
        i < d.count() <==> i * d.step() + d.width() + 1 <= d.stream().len(),
{
    windows_are_those_that_fit(d.stream().len(), d.width(), d.step(), i);
}

} // verus!
