//! The compressor: its rate, its cost, and what survives it.

use vstd::prelude::*;

use vstd::arithmetic::power2::{lemma_pow2_strictly_increases, pow2};

use crate::compress::bignum::is_bit_count;
use crate::compress::config::{accepted_iff_valid_compressor, CompressConfig};
use crate::compress::eval::{
    agreements, exact_spans, span_of, sweep_fault, wide, CompressEvalConfig, Sweep,
};
use crate::compress::model::{compressor_count_formula, corrupted, shifted};
use crate::compress::quantize::{
    accepted_iff_valid_levels, codebook, flat_dimension, flat_dimensions, level_violations,
    valid_levels,
};
use crate::config::{accepted_iff_valid, total};
use crate::data::shard::Shard;
use crate::laws::windows::windows_are_those_that_fit;
use crate::number::{at_most64, less64, ONE, ZERO};
use crate::text::noted;

verus! {

/// One more dimension multiplies the states by its levels.
pub proof fn dimensions_multiply_the_states(levels: Seq<u32>, level: u32)
    ensures
        codebook(Seq::<u32>::empty()) == 1,
        codebook(levels.push(level)) == codebook(levels) * level as nat,
{
    assert(levels.push(level).drop_last() =~= levels);
}

/// Levels are accepted exactly where there is a dimension and each has two.
pub proof fn accepted_levels_carry_bits(levels: Seq<u32>)
    ensures
        level_violations(levels).len() == 0 <==> levels.len() > 0 && forall|i: int|
            0 <= i < levels.len() ==> #[trigger] levels[i] >= 2,
        valid_levels(levels) <==> levels.len() > 0 && forall|i: int|
            0 <= i < levels.len() ==> #[trigger] levels[i] >= 2,
{
    accepted_iff_valid_levels(levels);
}

/// A bit count is enough for all states, and no smaller number is.
pub proof fn bit_counts_are_enough_and_least(b: nat, x: nat)
    ensures
        is_bit_count(b, x) <==> pow2(b) >= x && forall|c: nat| c < b ==> #[trigger] pow2(c) < x,
{
    if is_bit_count(b, x) {
        assert forall|c: nat| c < b implies #[trigger] pow2(c) < x by {
            if c < b - 1 {
                lemma_pow2_strictly_increases(c, (b - 1) as nat);
            }
        }
    }
    if b > 0 && (forall|c: nat| c < b ==> #[trigger] pow2(c) < x) {
        assert(pow2((b - 1) as nat) < x);
    }
}

/// A compressor is accepted exactly where its model and its levels are, it has
/// fewer slots than tokens, both fit the model's positions, its dropouts are
/// probabilities below one, and it starts from a token.
pub proof fn accepted_compressors_compress(c: CompressConfig)
    ensures
        c.violations().len() == 0 <==> {
            &&& c.model.violations().len() == 0
            &&& level_violations(c.fsq_levels@).len() == 0
            &&& 0 < c.n_slots < c.span_len
            &&& c.span_len + c.n_slots <= c.model.max_seq_len
            &&& at_most64(ZERO, c.token_dropout.bits) && less64(c.token_dropout.bits, ONE)
            &&& at_most64(ZERO, c.latent_dropout.bits) && less64(c.latent_dropout.bits, ONE)
            &&& c.bos_id < c.model.vocab_size
        },
        c.positions() == c.span_len + c.n_slots,
{
    accepted_iff_valid_compressor(c);
    accepted_iff_valid(c.model);
    accepted_iff_valid_levels(c.fsq_levels@);
}

/// The parameters of a compressor: the token table once, and for each stack its
/// projection, layers and norm; the slots, and the way into the latent and out.
pub proof fn compressors_count_both_stacks(c: CompressConfig)
    ensures
        ({
            let m = c.model;
            let v = m.vocab_size as nat;
            let e = m.d_emb as nat;
            let d = m.d_model as nat;
            let n = c.fsq_levels@.len();
            let stack = m.n_unique_layers as nat * m.n_loops as nat * m.layer_params();
            total(c.itemized()) == v * e + 3 * (e * d) + c.n_slots as nat * d + 2 * stack + 2 * d
                + 2 * (d * n)
        }),
{
    compressor_count_formula(c);
    let e = c.model.d_emb as nat;
    let d = c.model.d_model as nat;
    let n = c.fsq_levels@.len();
    assert(d * e == e * d && n * d == d * n) by (nonlinear_arith);
}

/// The decoder reads every token of a span but the last, one position late.
pub proof fn the_decoder_reads_one_late(span: Seq<i64>, bos: i64, i: int)
    requires
        0 <= i < span.len(),
    ensures
        shifted(span, bos).len() == span.len(),
        shifted(span, bos)[0] == bos,
        i + 1 < span.len() ==> shifted(span, bos)[i + 1] == span[i],
{
}

/// A token that is kept stays, one that is not becomes the start token.
pub proof fn kept_tokens_stay(tokens: Seq<i64>, keep: Seq<bool>, bos: i64, i: int)
    requires
        tokens.len() == keep.len(),
        0 <= i < tokens.len(),
    ensures
        corrupted(tokens, keep, bos).len() == tokens.len(),
        keep[i] ==> corrupted(tokens, keep, bos)[i] == tokens[i],
        !keep[i] ==> corrupted(tokens, keep, bos)[i] == bos,
{
}

/// An id agrees where it is the id of the span, and counts one there.
pub proof fn ids_agree_where_they_are_equal(a: Seq<i64>, b: Seq<i64>, x: i64, y: i64)
    requires
        a.len() == b.len(),
    ensures
        agreements(Seq::<i64>::empty(), Seq::<i64>::empty()) == 0,
        x == y ==> agreements(a.push(x), b.push(y)) == agreements(a, b) + 1,
        x != y ==> agreements(a.push(x), b.push(y)) == agreements(a, b),
{
    assert(a.push(x).drop_last() =~= a);
    assert(b.push(y).drop_last() =~= b);
}

/// All ids agree only where the spans are equal.
pub proof fn full_agreement_means_equal(a: Seq<i64>, b: Seq<i64>)
    requires
        a.len() == b.len(),
    ensures
        agreements(a, b) <= a.len(),
        agreements(a, b) == a.len() <==> a == b,
    decreases a.len(),
{
    if a.len() == 0 {
        assert(a =~= b);
    } else {
        full_agreement_means_equal(a.drop_last(), b.drop_last());
        if agreements(a, b) == a.len() {
            assert(a =~= a.drop_last().push(a.last()));
            assert(b =~= b.drop_last().push(b.last()));
        }
    }
}

/// A span is exact where every one of its ids agrees.
pub proof fn spans_are_exact_where_all_agree(a: Seq<i64>, b: Seq<i64>, w: nat, n: nat)
    requires
        a.len() == b.len(),
        (n + 1) * w <= a.len(),
    ensures
        exact_spans(a, b, w, 0) == 0,
        exact_spans(a, b, w, n + 1) == exact_spans(a, b, w, n) + if forall|q: int|
            n * w <= q < n * w + w ==> #[trigger] a[q] == b[q] {
            1nat
        } else {
            0
        },
{
    let i = n as int;
    let s = w as int;
    assert((n + 1) * w == n * w + w && 0 <= n * w) by (nonlinear_arith);
    let x = span_of(a, i, s);
    let y = span_of(b, i, s);
    assert((n + 1 - 1) as nat == n);
    if forall|q: int| n * w <= q < n * w + w ==> #[trigger] a[q] == b[q] {
        assert(x =~= y);
    } else {
        let q = choose|q: int| n * w <= q < n * w + w && #[trigger] a[q] != b[q];
        assert(x[q - n * w] != y[q - n * w]);
    }
}

/// Ids keep their value when they are widened.
pub proof fn widening_keeps_ids(ids: Seq<u32>, i: int)
    requires
        0 <= i < ids.len(),
    ensures
        wide(ids).len() == ids.len(),
        wide(ids)[i] == ids[i],
{
}

/// A sweep covers what is left of its budget, or all of a smaller batch.
pub proof fn sweeps_cover_what_is_left(s: Sweep, rows: nat, config: CompressEvalConfig, n: nat)
    requires
        s.score.n_spans <= s.budget,
    ensures
        s.share(rows) <= rows,
        s.score.n_spans + s.share(rows) <= s.budget,
        s.share(rows) == rows || s.score.n_spans + s.share(rows) == s.budget,
        config.max_spans is None ==> config.cap(n) == n,
        config.cap(n) <= n,
        config.max_spans is Some ==> config.cap(n) <= config.max_spans->Some_0,
        config.cap(n) == n || config.max_spans is Some && config.cap(n)
            == config.max_spans->Some_0,
{
}

/// A batch adds its spans, its tokens, and what agrees of them in either pass.
pub proof fn batches_add_their_counts(
    s: Sweep,
    take: nat,
    spans: Seq<i64>,
    forced: Seq<i64>,
    decoded: Seq<i64>,
)
    requires
        s.score.n_spans + take <= usize::MAX,
        s.score.n_tokens + spans.len() <= usize::MAX,
        s.score.free_running_correct + agreements(decoded, spans) <= usize::MAX,
        s.score.teacher_forced_correct + agreements(forced, spans) <= usize::MAX,
        s.score.exact_spans + exact_spans(decoded, spans, s.span_len as nat, take) <= usize::MAX,
    ensures
        ({
            let r = s.recorded(take, spans, forced, decoded);
            &&& r.score.n_spans == s.score.n_spans + take
            &&& r.score.n_tokens == s.score.n_tokens + spans.len()
            &&& r.score.free_running_correct == s.score.free_running_correct + agreements(
                decoded,
                spans,
            )
            &&& r.score.teacher_forced_correct == s.score.teacher_forced_correct + agreements(
                forced,
                spans,
            )
            &&& r.score.exact_spans == s.score.exact_spans + exact_spans(
                decoded,
                spans,
                s.span_len as nat,
                take,
            )
            &&& r.score.n_spans_available == s.score.n_spans_available
            &&& r.span_len == s.span_len
            &&& r.budget == s.budget
        }),
{
}

/// A shard can be swept exactly where the settings measure something, the
/// vocabularies agree, and there is a span with the token behind it.
pub proof fn what_can_be_swept(config: CompressEvalConfig, c: CompressConfig, shard: Shard)
    requires
        c.span_len > 0,
    ensures
        sweep_fault(config, c, shard) is None <==> config.batch_size > 0 && config.max_spans
            != Some(0usize) && shard.counts().vocab_size == c.model.vocab_size && shard@.len()
            > c.span_len,
{
    let w = c.span_len as nat;
    assert(0 * w == 0) by (nonlinear_arith);
    windows_are_those_that_fit(shard@.len(), w, w, 0);
}

/// The lines of a compressor's budget, by name.
pub proof fn compressor_lines_say_what_they_count(c: CompressConfig)
    ensures
        ({
            let m = c.model;
            let d = m.d_model as nat;
            let n = c.fsq_levels@.len();
            let stack = m.n_unique_layers as nat * m.n_loops as nat * m.layer_params();
            let items = c.itemized();
            &&& items.len() == 11
            &&& items[0] == ("token_embedding"@, m.vocab_size as nat * m.d_emb as nat)
            &&& items[1] == ("encoder_embed_proj"@, m.d_emb as nat * d)
            &&& items[2] == ("decoder_embed_proj"@, m.d_emb as nat * d)
            &&& items[3] == ("slot_queries"@, c.n_slots as nat * d)
            &&& items[4] == ("encoder_layers"@, stack)
            &&& items[5] == ("encoder_norm"@, d)
            &&& items[6] == ("to_latent"@, d * n)
            &&& items[7] == ("from_latent"@, n * d)
            &&& items[8] == ("decoder_layers"@, stack)
            &&& items[9] == ("decoder_norm"@, d)
            &&& items[10] == ("unembed_proj"@, d * m.d_emb as nat)
        }),
{
}

/// Each dimension without two levels is reported, in order.
pub proof fn flat_dimensions_are_reported(levels: Seq<u32>, level: u32)
    ensures
        flat_dimensions(Seq::<u32>::empty()).len() == 0,
        level < 2 ==> flat_dimensions(levels.push(level)) == flat_dimensions(levels).push(
            flat_dimension(levels.len(), level as nat),
        ),
        level >= 2 ==> flat_dimensions(levels.push(level)) == flat_dimensions(levels),
        level_violations(levels.push(level)) == flat_dimensions(levels.push(level)),
{
    assert(levels.push(level).drop_last() =~= levels);
    let item = flat_dimension(levels.len(), level as nat);
    reveal(noted);
    if level < 2 {
        assert(flat_dimensions(levels) + seq![item] =~= flat_dimensions(levels).push(item));
    } else {
        assert(flat_dimensions(levels) + Seq::<Seq<char>>::empty() =~= flat_dimensions(levels));
    }
    assert(level_violations(levels.push(level)) =~= flat_dimensions(levels.push(level)));
}

/// What is wrong with the settings is told before what is wrong with the shard.
pub proof fn settings_are_told_first(config: CompressEvalConfig, c: CompressConfig, shard: Shard)
    ensures
        config.fault() is Some ==> sweep_fault(config, c, shard) == config.fault(),
        config.fault() is None <==> config.batch_size > 0 && config.max_spans != Some(0usize),
{
}

} // verus!
