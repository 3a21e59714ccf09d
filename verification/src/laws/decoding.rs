//! What a decoding takes of the tokens that the model picks, and how it picks.

use vstd::prelude::*;

use crate::eval::generate::{
    descending_keys, is_last_maximum, is_shortlist, kept, outcome, GenerationConfig,
    StopReason,
};
use crate::number::{at_most64, less64, total_order32, ONE, ZERO};
use crate::order::{is_ranking, ranks_before};

verus! {

/// A decoding takes every pick up to where it stops: without a reason it has
/// taken them all, and no pick that it took was a separator to stop at.
pub proof fn decoding_takes_until_it_stops(
    context: nat,
    max_seq_len: nat,
    max_new_tokens: nat,
    eos: u32,
    stop_at_eos: bool,
    taken: nat,
    picks: Seq<u32>,
    j: int,
)
    requires
        taken <= max_new_tokens,
        context + taken < max_seq_len,
    ensures
        ({
            let o = outcome(
                context,
                max_seq_len,
                max_new_tokens,
                eos,
                stop_at_eos,
                taken,
                picks,
            );
            &&& o.1 is None ==> o.0 - taken == picks.len() && o.0 < max_new_tokens && context + o.0
                < max_seq_len
            &&& 0 <= j < o.0 - taken ==> j < picks.len() && !(stop_at_eos && picks[j] == eos)
        }),
    decreases picks.len(),
{
    if taken < max_new_tokens && picks.len() > 0 && !(picks[0] == eos && stop_at_eos) && context
        + taken + 1 < max_seq_len {
        decoding_takes_until_it_stops(
            context,
            max_seq_len,
            max_new_tokens,
            eos,
            stop_at_eos,
            taken + 1,
            picks.drop_first(),
            j - 1,
        );
        if j > 0 && j < picks.len() {
            assert(picks.drop_first()[j - 1] == picks[j]);
        }
    }
}

/// A decoding stops at the first thing that ends it: the limit before a pick is
/// looked at, the separator before it is taken, a full context behind the pick
/// that fills it.
pub proof fn the_first_reason_stops(
    context: nat,
    max_seq_len: nat,
    max_new_tokens: nat,
    eos: u32,
    stop_at_eos: bool,
    taken: nat,
    pick: u32,
    rest: Seq<u32>,
)
    requires
        context + taken < max_seq_len,
    ensures
        ({
            let picks = seq![pick] + rest;
            let o = outcome(
                context,
                max_seq_len,
                max_new_tokens,
                eos,
                stop_at_eos,
                taken,
                picks,
            );
            &&& taken == max_new_tokens ==> o == (taken, Some(StopReason::Limit))
            &&& taken < max_new_tokens && stop_at_eos && pick == eos ==> o == (
                taken,
                Some(StopReason::Eos),
            )
            &&& taken < max_new_tokens && !(stop_at_eos && pick == eos) && context + taken + 1
                == max_seq_len ==> o == (taken + 1, Some(StopReason::ContextFull))
            &&& taken < max_new_tokens && !(stop_at_eos && pick == eos) && context + taken + 1
                < max_seq_len ==> o == outcome(
                context,
                max_seq_len,
                max_new_tokens,
                eos,
                stop_at_eos,
                taken + 1,
                rest,
            )
        }),
{
    let picks = seq![pick] + rest;
    assert(picks.drop_first() =~= rest);
}

/// Settings name a distribution exactly where the temperature is not negative
/// and the nucleus is a probability; at temperature zero they name a token.
pub proof fn settings_that_name_a_distribution(c: GenerationConfig)
    ensures
        c.fault() is None <==> !less64(c.temperature.bits, ZERO) && at_most64(ZERO, c.top_p.bits)
            && at_most64(c.top_p.bits, ONE),
        c.greedy() <==> c.temperature.bits == 0 || c.temperature.bits == 0x8000_0000_0000_0000,
{
}

/// The most likely token is at least as likely as any, and more likely than any
/// behind it.
pub proof fn no_token_beats_the_argmax(bits: Seq<u32>, i: int, j: int)
    requires
        is_last_maximum(bits, i),
        0 <= j < bits.len(),
    ensures
        0 <= i < bits.len(),
        total_order32(bits[j]) <= total_order32(bits[i]),
        j > i ==> total_order32(bits[j]) < total_order32(bits[i]),
{
}

/// A cutoff keeps that many candidates, or all of fewer; none keeps all.
pub proof fn cutoffs_keep_that_many(top_k: nat, n: nat)
    ensures
        top_k == 0 ==> kept(top_k, n) == n,
        0 < top_k <= n ==> kept(top_k, n) == top_k,
        top_k > n ==> kept(top_k, n) == n,
{
}

/// The candidates are distinct tokens, the likeliest first, of equal ones the
/// earlier first, and no token that is left out is likelier than one of them.
pub proof fn candidates_are_the_likeliest(
    bits: Seq<u32>,
    top_k: nat,
    order: Seq<usize>,
    a: int,
    b: int,
    t: usize,
)
    requires
        is_shortlist(bits, top_k, order),
        bits.len() <= usize::MAX,
        0 <= a < order.len(),
    ensures
        order.len() == kept(top_k, bits.len()),
        order[a] < bits.len(),
        a < b < order.len() ==> total_order32(bits[order[a] as int]) > total_order32(
            bits[order[b] as int],
        ) || (total_order32(bits[order[a] as int]) == total_order32(bits[order[b] as int])
            && order[a] < order[b]),
        t < bits.len() && !order.contains(t) ==> total_order32(bits[t as int]) <= total_order32(
            bits[order[a] as int],
        ),
{
    let keys = descending_keys(bits);
    let all = choose|all: Seq<usize>| #[trigger]
        is_ranking(keys, all) && order == all.take(kept(top_k, bits.len()) as int);
    assert forall|i: int| 0 <= i < bits.len() implies #[trigger] keys[i] == -total_order32(
        bits[i],
    ) by {}
    assert(order[a] == all[a]);
    if a < b < order.len() {
        assert(ranks_before(keys, all[a] as int, all[b] as int));
        assert(order[b] == all[b]);
    }
    if t < bits.len() && !order.contains(t) {
        assert(all.contains(t));
        let p = choose|p: int| 0 <= p < all.len() && all[p] == t;
        if p < order.len() {
            assert(order[p] == t);
        }
        assert(ranks_before(keys, all[a] as int, all[p] as int));
    }
}

} // verus!
