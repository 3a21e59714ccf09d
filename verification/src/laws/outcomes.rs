//! What the outcomes that contracts speak of say, part by part.

use vstd::prelude::*;

use vstd::string::*;

use tokenizers::Tokenizer;

use crate::compress::config::CompressConfig;
use crate::compress::eval::{CompressEvalConfig, Sweep};
use crate::config::{entries, total, BudgetEntry, LayerSchedule, ModelConfig, NormPlacement};
use crate::data::articles::{total_bytes, total_words};
use crate::data::dataset::window_count;
use crate::data::prepare::{encodes_first, is_preparation, is_shard, is_shard_of, rows};
use crate::data::shard::{encoded, separated, Shard, ShardMeta};
use crate::data::tokenizer::{
    is_encoding, may_encode, may_end, may_refuse, plain_parts, plain_token, vocabulary,
    vocabulary_size, EncoderParts, EOS_TOKEN,
};
use crate::eval::blimp::layout::{
    encodes_pair, input_row, is_encoding_of_pairs, is_layout, longest, mask_row,
    rows_stand_apart, scoring_fault, target_row, PaddedBatch,
};
use crate::eval::blimp::score::{suite_tally, BlimpScore};
use crate::eval::blimp::suite::MinimalPair;
use crate::eval::generate::{is_run, no_room, Decoding, GenerationConfig, Sample, StopReason};
use crate::infer::{matching, InferenceInput, InferenceOutput, SpanSweep};
use crate::model::{is_block_of, BlockPlan};
use crate::number::total_order64;
use crate::order::{is_ranking, total_orders};
use crate::text::texts;
use crate::train::ceil_div;
use crate::train::epochs::{epoch_of, records};

verus! {

/// An encoding is one of those that the tokenizer may end in, and a failure says
/// that encoding failed and why.
pub proof fn encodings_are_the_tokenizers(
    t: Tokenizer,
    text: Seq<char>,
    r: Result<Vec<u32>, String>,
)
    requires
        is_encoding(r, t, text),
    ensures
        r is Ok ==> may_end(t, text, Ok(r->Ok_0@)),
        r is Err ==> exists|e: Seq<char>| #[trigger]
            may_refuse(t, text, e) && may_end(t, text, Err(e)) && r->Err_0@
                == "encoding failed: "@ + e,
        forall|ids: Seq<u32>| #[trigger]
            may_encode(t, text, ids) ==> may_end(t, text, Ok(ids)),
{
}

/// The parts of a tokenizer are plain exactly where nothing cuts, pads, rewrites
/// or draws, the model is BPE, and no added token is more than its text.
pub proof fn plain_parts_add_nothing(parts: EncoderParts)
    ensures
        plain_parts(parts) <==> {
            &&& !parts.truncates && !parts.pads && !parts.normalizes
            &&& parts.pre_tokenizer is Some ==> parts.pre_tokenizer->Some_0
            &&& parts.post_processor is Some ==> parts.post_processor->Some_0
            &&& parts.bpe_drops is Some && !parts.bpe_drops->Some_0
            &&& forall|i: int|
                0 <= i < parts.added@.len() ==> !(#[trigger] parts.added@[i]).0
                    && !parts.added@[i].1 && !parts.added@[i].2
        },
{
    if plain_parts(parts) {
        assert forall|i: int| 0 <= i < parts.added@.len() implies !(
        #[trigger] parts.added@[i]).0 && !parts.added@[i].1 && !parts.added@[i].2 by {
            assert(plain_token(parts.added@[i]));
        }
    } else if parts.bpe_drops == Some(false) {
        if exists|i: int| 0 <= i < parts.added@.len() && !plain_token(#[trigger] parts.added@[i]) {
            let i = choose|i: int|
                0 <= i < parts.added@.len() && !plain_token(#[trigger] parts.added@[i]);
            assert(parts.added@[i].0 || parts.added@[i].1 || parts.added@[i].2);
        }
    }
}

/// A shard counts the tokens, words and bytes of its documents and holds their
/// ids, each document with its separator.
pub proof fn shards_count_their_documents(
    bytes: Seq<u8>,
    meta: ShardMeta,
    docs: Seq<Seq<char>>,
    ids: Seq<Seq<u32>>,
)
    requires
        is_shard(bytes, meta, docs, ids),
    ensures
        bytes == encoded(separated(ids, meta.eos_id)),
        bytes.len() == 2 * meta.n_tokens,
        meta.n_tokens == separated(ids, meta.eos_id).len(),
        meta.n_words == total_words(docs),
        meta.n_bytes == total_bytes(docs),
{
}

/// A preparation without a separator fails; one that succeeds has the
/// tokenizer's separator and size and an encoding of every document.
pub proof fn preparations_hold_every_document(
    r: Result<(Vec<u8>, ShardMeta), String>,
    tokenizer: Tokenizer,
    docs: Seq<Seq<char>>,
)
    requires
        is_preparation(r, tokenizer, docs),
    ensures
        r is Ok ==> vocabulary(tokenizer).dom().contains(EOS_TOKEN@),
        r is Ok ==> r->Ok_0.1.eos_id == vocabulary(tokenizer)[EOS_TOKEN@],
        r is Ok ==> r->Ok_0.1.vocab_size == vocabulary_size(tokenizer),
        r is Ok ==> exists|ids: Seq<Seq<u32>>| #[trigger]
            encodes_first(tokenizer, docs, ids) && ids.len() == docs.len() && is_shard(
                r->Ok_0.0@,
                r->Ok_0.1,
                docs,
                ids,
            ) && forall|i: int|
                0 <= i < docs.len() ==> may_encode(tokenizer, #[trigger] docs[i], ids[i]),
{
    if r is Ok {
        let shard = r->Ok_0;
        let ids = choose|ids: Seq<Seq<u32>>| #[trigger]
            is_shard_of(shard.0@, shard.1, tokenizer, docs, ids);
        assert(encodes_first(tokenizer, docs, ids));
        assert forall|i: int| 0 <= i < docs.len() implies may_encode(
            tokenizer,
            #[trigger] docs[i],
            ids[i],
        ) by {
            assert(may_encode(tokenizer, docs[i], ids[i]));
        }
    }
}

/// Encodings keep their place.
pub proof fn encodings_keep_their_place(encodings: Seq<Vec<u32>>, names: Seq<String>, i: int)
    ensures
        rows(encodings).len() == encodings.len(),
        0 <= i < encodings.len() ==> rows(encodings)[i] == encodings[i]@,
        texts(names).len() == names.len(),
        0 <= i < names.len() ==> texts(names)[i] == names[i]@,
{
}

/// A decoding starts on the separator and an encoding of the prompt, with nothing
/// taken, under the settings.
pub proof fn decodings_start_on_the_prompt(
    d: Decoding,
    config: GenerationConfig,
    tokenizer: Tokenizer,
    prompt: Seq<char>,
    max_seq_len: usize,
)
    requires
        Decoding::is_start(Ok(d), config, tokenizer, prompt, max_seq_len),
    ensures
        d.context@.len() > 0,
        d.context@.len() < max_seq_len,
        d.context@[0] == vocabulary(tokenizer)[EOS_TOKEN@],
        may_encode(tokenizer, prompt, d.context@.skip(1)),
        d.generated@.len() == 0,
        d.eos == vocabulary(tokenizer)[EOS_TOKEN@],
        d.stop_at_eos == config.stop_at_eos,
        d.max_new_tokens == config.max_new_tokens,
        d.max_seq_len == max_seq_len,
{
}

/// A run takes its tokens from the picks, in order, and changes nothing else.
pub proof fn runs_take_the_picks(
    start: Decoding,
    picks: Seq<u32>,
    end: Decoding,
    reason: Option<StopReason>,
    i: int,
)
    requires
        is_run(start, picks, end, reason),
        start.wf(),
        start.has_room(),
    ensures
        end.context == start.context,
        end.eos == start.eos,
        end.max_new_tokens == start.max_new_tokens,
        end.max_seq_len == start.max_seq_len,
        end.stop_at_eos == start.stop_at_eos,
        end.generated@.len() >= start.generated@.len(),
        0 <= i < start.generated@.len() ==> end.generated@[i] == start.generated@[i],
        start.generated@.len() <= i < end.generated@.len() ==> end.generated@[i] == picks[i
            - start.generated@.len()],
{
    crate::eval::generate::decoding_ends(
        start.context@.len(),
        start.max_seq_len as nat,
        start.max_new_tokens as nat,
        start.eos,
        start.stop_at_eos,
        start.generated@.len(),
        picks,
    );
}

/// A sample has the prompt, the decoded tokens, their number and the reason.
pub proof fn samples_say_what_was_decoded(
    d: Decoding,
    sample: Sample,
    tokenizer: Tokenizer,
    prompt: Seq<char>,
    reason: StopReason,
)
    requires
        d.is_finish(Ok(sample), tokenizer, prompt, reason),
    ensures
        crate::data::tokenizer::decoding(tokenizer, d.generated@) is Ok,
        sample.completion@ == crate::data::tokenizer::decoding(tokenizer, d.generated@)->Ok_0,
        sample.prompt@ == prompt,
        sample.n_new_tokens == d.generated@.len(),
        sample.stop_reason == reason,
{
}

/// A sweep over a text starts on an encoding of it, with nothing back.
pub proof fn span_sweeps_start_on_the_text(
    s: SpanSweep,
    tokenizer: Tokenizer,
    input: InferenceInput,
    span_len: usize,
)
    requires
        SpanSweep::is_start(Ok(s), tokenizer, input, span_len),
    ensures
        may_encode(tokenizer, input.text@, s.ids@),
        s.ids@.len() > 0,
        s.span_len == span_len,
        s.eos == vocabulary(tokenizer)[EOS_TOKEN@],
        s.reconstructed@.len() == 0,
        s.spans == 0,
        s.correct == 0,
{
    assert(s.reconstructed@ =~= Seq::<u32>::empty());
}

/// What holds of a sweep over a text: what came back lies over the text, and as
/// much is counted right as is equal to it.
pub proof fn span_sweeps_count_what_is_equal(s: SpanSweep)
    requires
        s.wf(),
    ensures
        s.reconstructed@.len() <= s.ids@.len(),
        s.correct == matching(s.reconstructed@, s.ids@),
        s.done() ==> s.spans == ceil_div(s.ids@.len(), s.span_len as nat),
        !s.done() ==> s.reconstructed@.len() == s.spans * s.span_len,
{
}

/// A record says the source, the text, what came back of it, and the counts.
pub proof fn records_say_what_came_back(
    s: SpanSweep,
    r: InferenceOutput,
    tokenizer: Tokenizer,
    input: InferenceInput,
    rates: (Seq<char>, Seq<char>, Seq<char>),
)
    requires
        s.is_finish(Ok(r), tokenizer, input, rates),
    ensures
        r is Compressor,
        r->Compressor_source@ == input.source@,
        r->Compressor_input@ == input.text@,
        crate::data::tokenizer::decoding(tokenizer, s.reconstructed@) is Ok,
        r->Compressor_output@ == crate::data::tokenizer::decoding(
            tokenizer,
            s.reconstructed@,
        )->Ok_0,
        r->Compressor_metrics.input_tokens == s.ids@.len(),
        r->Compressor_metrics.correct_tokens == matching(s.reconstructed@, s.ids@),
        r->Compressor_metrics.spans == ceil_div(s.ids@.len(), s.span_len as nat),
        r->Compressor_metrics.span_len == s.span_len,
        r->Compressor_metrics.accuracy_percent@ == rates.0,
        r->Compressor_metrics.token_ratio@ == rates.1,
        r->Compressor_metrics.bits_per_token@ == rates.2,
{
}

/// Encodings of pairs go by turns: the good sentence, then the bad one.
pub proof fn pair_encodings_go_by_turns(
    ids: Vec<Vec<u32>>,
    tokenizer: Tokenizer,
    pairs: Seq<MinimalPair>,
    from: int,
    to: int,
    k: int,
)
    requires
        is_encoding_of_pairs(Ok(ids), tokenizer, pairs, from, to),
        0 <= k < to - from,
    ensures
        ids@.len() == 2 * (to - from),
        may_encode(tokenizer, pairs[from + k].good@, ids@[2 * k]@),
        may_encode(tokenizer, pairs[from + k].bad@, ids@[2 * k + 1]@),
{
    assert(encodes_pair(tokenizer, pairs[from + k], ids@, k));
}

/// Position `t` of row `r` of a layout belongs to position `t` of sentence `r`:
/// what is read there, what is to be predicted, and whether it counts.
pub proof fn layouts_hold_sentences(
    b: PaddedBatch,
    sequences: Seq<Vec<u32>>,
    bos: u32,
    max_seq_len: nat,
    r: int,
    t: int,
)
    requires
        is_layout(Ok(b), sequences, bos, max_seq_len),
        0 <= r < sequences.len(),
        0 <= t < longest(sequences),
    ensures
        ({
            let len = longest(sequences);
            let s = sequences[r]@;
            let cell = r * len + t;
            &&& b.batch == sequences.len()
            &&& b.len == len
            &&& 0 <= cell < b.input@.len()
            &&& b.input@.len() == b.batch * b.len
            &&& b.target@.len() == b.batch * b.len
            &&& b.mask@.len() == b.batch * b.len
            &&& b.input@[cell] == input_row(s, bos, len)[t]
            &&& b.target@[cell] == target_row(s, len)[t]
            &&& b.mask@[cell] == mask_row(s, len)[t]
        }),
{
    let len = longest(sequences);
    assert(scoring_fault(sequences, max_seq_len) is None);
    rows_stand_apart(sequences, |s: Seq<u32>| input_row(s, bos, len), len, r);
    rows_stand_apart(sequences, |s: Seq<u32>| target_row(s, len), len, r);
    rows_stand_apart(sequences, |s: Seq<u32>| mask_row(s, len), len, r);
    assert((r + 1) * len == r * len + len && 0 <= r * len) by (nonlinear_arith)
        requires
            r >= 0,
    ;
    assert(b.input@.subrange(r * len, (r + 1) * len)[t] == b.input@[r * len + t]);
    assert(b.target@.subrange(r * len, (r + 1) * len)[t] == b.target@[r * len + t]);
    assert(b.mask@.subrange(r * len, (r + 1) * len)[t] == b.mask@[r * len + t]);
}

/// A ranking lists every position once, smaller keys first and equal ones in
/// their order.
pub proof fn rankings_list_every_position(
    keys: Seq<i64>,
    ranking: Seq<usize>,
    p: int,
    q: int,
    k: usize,
)
    requires
        is_ranking(keys, ranking),
    ensures
        ranking.len() == keys.len(),
        k < keys.len() ==> ranking.contains(k),
        0 <= p < ranking.len() ==> ranking[p] < keys.len(),
        0 <= p < q < ranking.len() ==> keys[ranking[p] as int] < keys[ranking[q] as int] || (
        keys[ranking[p] as int] == keys[ranking[q] as int] && ranking[p] < ranking[q]),
{
    if 0 <= p < q < ranking.len() {
        assert(crate::order::ranks_before(keys, ranking[p] as int, ranking[q] as int));
    }
}

/// Numbers are ranked by the total order of their bits.
pub proof fn numbers_are_ranked_by_their_bits(bits: Seq<u64>, i: int)
    requires
        0 <= i < bits.len(),
    ensures
        total_orders(bits).len() == bits.len(),
        total_orders(bits)[i] == total_order64(bits[i]),
{
}

/// An epoch is recorded where one of the names records it.
pub proof fn names_record_epochs(names: Seq<Seq<char>>, n: usize)
    ensures
        records(names, n) <==> exists|i: int|
            0 <= i < names.len() && #[trigger] epoch_of(names[i]) == Some(n),
{
}

/// A layer has the widths of the configuration: heads that make up the residual,
/// keys and values for the shared heads, and a feed-forward block.
pub proof fn layers_have_the_widths(block: BlockPlan, c: ModelConfig, d_head: nat)
    requires
        is_block_of(block, c),
        c.n_heads > 0,
        d_head * c.n_heads as nat == c.d_model,
        c.n_kv_heads as nat * d_head <= usize::MAX,
    ensures
        block.attention.d_head == d_head,
        block.attention.n_rep * c.n_kv_heads == c.n_heads,
        block.attention.wq.inputs == c.d_model && block.attention.wq.outputs == c.d_model,
        block.attention.wk.inputs == c.d_model && block.attention.wk.outputs == c.n_kv_heads
            * d_head,
        block.attention.wv == block.attention.wk,
        block.attention.wo == block.attention.wq,
        block.ffn.gate.inputs == c.d_model && block.ffn.gate.outputs == c.d_ff,
        block.ffn.up == block.ffn.gate,
        block.ffn.down.inputs == c.d_ff && block.ffn.down.outputs == c.d_model,
        block.norm == c.d_model,
        block.placement == c.norm_placement,
{
    vstd::arithmetic::div_mod::lemma_fundamental_div_mod_converse(
        c.d_model as int,
        c.n_heads as int,
        d_head as int,
        0,
    );
}

/// The reference settings: a cycle of layers, tied embeddings, norms before the
/// blocks, no dropout.
pub proof fn reference_settings(c: ModelConfig)
    requires
        c.has_reference_settings(),
    ensures
        c.layer_schedule == LayerSchedule::Cycle,
        c.tie_embeddings,
        c.norm_placement == NormPlacement::Pre,
        c.dropout.bits == 0,
        c.rope_theta.text@ == "10000"@,
        c.norm_eps.text@ == "0.00001"@,
{
}

/// The figures of a configuration, and the pairs of a suite, can be counted
/// exactly where none is above the largest number.
pub proof fn what_can_be_counted(c: ModelConfig, k: CompressConfig, s: BlimpScore)
    ensures
        c.budget_fits() <==> c.n_heads > 0 && c.layer_params() <= usize::MAX && total(
            c.itemized(),
        ) <= usize::MAX,
        c.compute_fits() <==> c.n_heads > 0 && c.layer_params() <= usize::MAX
            && c.n_unique_layers * c.n_loops <= usize::MAX && c.layer_weights() * (
        c.n_unique_layers as nat * c.n_loops as nat) <= usize::MAX,
        k.budget_fits() <==> k.model.budget_fits() && k.model.n_unique_layers > 0
            && k.model.n_unique_layers * k.model.n_loops <= usize::MAX && total(k.itemized())
            <= usize::MAX,
        s.countable() <==> suite_tally(s.per_paradigm@).0 <= usize::MAX && suite_tally(
            s.per_paradigm@,
        ).1 <= usize::MAX,
{
}

/// A budget keeps the names and counts of its lines.
pub proof fn budgets_keep_their_lines(items: Seq<BudgetEntry>, i: int)
    requires
        0 <= i < items.len(),
    ensures
        entries(items).len() == items.len(),
        entries(items)[i].0 == items[i].name@,
        entries(items)[i].1 == items[i].params,
{
}

/// A sweep starts with nothing counted, the spans that the shard offers, and the
/// most that the settings allow.
pub proof fn sweeps_start_at_nothing(
    config: CompressEvalConfig,
    c: CompressConfig,
    shard: Shard,
)
    requires
        window_count(shard@.len(), c.span_len as nat, c.span_len as nat) <= usize::MAX,
    ensures
        ({
            let s = Sweep::at_start(config, c, shard);
            &&& s.score.n_spans == 0 && s.score.n_tokens == 0
            &&& s.score.free_running_correct == 0 && s.score.teacher_forced_correct == 0
            &&& s.score.exact_spans == 0
            &&& s.score.n_spans_available == window_count(
                shard@.len(),
                c.span_len as nat,
                c.span_len as nat,
            )
            &&& s.span_len == c.span_len
            &&& config.max_spans is Some ==> s.budget == config.max_spans->Some_0
            &&& config.max_spans is None ==> s.budget == usize::MAX
        }),
{
}

/// A decoding has room where the context is not full; while it runs it holds no
/// more than it may, and no separator that it should have stopped at.
pub proof fn decodings_stay_within_bounds(d: Decoding, i: int)
    ensures
        d.has_room() <==> d.context@.len() + d.generated@.len() < d.max_seq_len,
        d.wf() ==> d.context@.len() + d.generated@.len() <= d.max_seq_len,
        d.wf() ==> d.generated@.len() <= d.max_new_tokens,
        d.wf() && d.stop_at_eos && 0 <= i < d.generated@.len() ==> d.generated@[i] != d.eos,
{
    if d.wf() && d.stop_at_eos && 0 <= i < d.generated@.len() {
        if d.generated@[i] == d.eos {
            assert(d.generated@.contains(d.eos));
        }
    }
}

/// A decoding that cannot start says why: the settings first, then a tokenizer
/// without a separator, then the prompt.
pub proof fn the_first_reason_not_to_start(
    e: String,
    config: GenerationConfig,
    tokenizer: Tokenizer,
    prompt: Seq<char>,
    max_seq_len: usize,
)
    requires
        Decoding::is_start(Err(e), config, tokenizer, prompt, max_seq_len),
    ensures
        config.fault() is Some ==> config.fault() == Some(e@),
        config.fault() is None && !vocabulary(tokenizer).dom().contains(EOS_TOKEN@) ==> e@
            == "tokenizer has no "@ + EOS_TOKEN@ + " token"@,
        config.fault() is None && vocabulary(tokenizer).dom().contains(EOS_TOKEN@) ==> (exists|
            why: Seq<char>,
        | #[trigger]
            may_refuse(tokenizer, prompt, why) && e@ == "encoding failed: "@ + why) || (exists|
            ids: Seq<u32>,
        | #[trigger]
            may_encode(tokenizer, prompt, ids) && ids.len() + 1 >= max_seq_len && e@ == no_room(
                ids.len(),
                max_seq_len as nat,
            )),
{
}

/// A text that cannot be decoded is told as such.
pub proof fn undecodable_tokens_are_told(
    d: Decoding,
    s: SpanSweep,
    e: String,
    tokenizer: Tokenizer,
    prompt: Seq<char>,
    reason: StopReason,
    input: InferenceInput,
    rates: (Seq<char>, Seq<char>, Seq<char>),
)
    ensures
        d.is_finish(Err(e), tokenizer, prompt, reason) ==> crate::data::tokenizer::decoding(
            tokenizer,
            d.generated@,
        ) is Err && e@ == "decoding failed: "@ + crate::data::tokenizer::decoding(
            tokenizer,
            d.generated@,
        )->Err_0,
        s.is_finish(Err(e), tokenizer, input, rates) ==> crate::data::tokenizer::decoding(
            tokenizer,
            s.reconstructed@,
        ) is Err && e@ == "decoding failed: "@ + crate::data::tokenizer::decoding(
            tokenizer,
            s.reconstructed@,
        )->Err_0,
{
}

} // verus!
