//! Sentences side by side: what goes through the model at once.

use vstd::prelude::*;

use vstd::string::*;

use tokenizers::Tokenizer;

use crate::data::dataset::{element, to_element};
use crate::data::tokenizer::{
    encode, encode_returns, encodes_all, eos_id, may_encode, may_refuse, one_outcome,
    plain_encoder, vocabulary, EOS_TOKEN,
};
use crate::eval::blimp::suite::MinimalPair;
use crate::text::{around_two, decimal};
use crate::train::{ceil_div, ceil_div_is_least};

verus! {

/// The length of the longest sequence.
pub open spec fn longest(sequences: Seq<Vec<u32>>) -> nat
    decreases sequences.len(),
{
    if sequences.len() == 0 {
        0
    } else {
        let before = longest(sequences.drop_last());
        if sequences.last()@.len() > before {
            sequences.last()@.len()
        } else {
            before
        }
    }
}

proof fn longest_bounds(sequences: Seq<Vec<u32>>, r: int)
    requires
        0 <= r < sequences.len(),
    ensures
        sequences[r]@.len() <= longest(sequences),
    decreases sequences.len(),
{
    if r < sequences.len() - 1 {
        longest_bounds(sequences.drop_last(), r);
    }
}

/// Sentences side by side, padded to the longest.
#[derive(Debug, Clone, PartialEq, Eq)]
pub struct PaddedBatch {
    /// The number of sentences.
    pub batch: usize,
    /// The length of the longest.
    pub len: usize,
    pub input: Vec<i32>,
    pub target: Vec<i32>,
    /// Which positions hold a token of the sentence.
    pub mask: Vec<bool>,
}

/// What the model reads of a sentence: the start token, then the sentence
/// without what does not fit, then padding.
pub open spec fn input_row(seq: Seq<u32>, bos: u32, len: nat) -> Seq<i32> {
    Seq::new(
        len,
        |t: int|
            if t == 0 {
                element(bos)
            } else if t - 1 < seq.len() {
                element(seq[t - 1])
            } else {
                0
            },
    )
}

/// What the model is to predict of a sentence: every token of it.
pub open spec fn target_row(seq: Seq<u32>, len: nat) -> Seq<i32> {
    Seq::new(
        len,
        |t: int|
            if t < seq.len() {
                element(seq[t])
            } else {
                0
            },
    )
}

/// Which predictions count: those of the tokens of the sentence.
pub open spec fn mask_row(seq: Seq<u32>, len: nat) -> Seq<bool> {
    Seq::new(len, |t: int| t < seq.len())
}

/// The rows of a batch, one after another.
pub open spec fn rows_of<T>(
    sequences: Seq<Vec<u32>>,
    row: spec_fn(Seq<u32>) -> Seq<T>,
) -> Seq<T>
    decreases sequences.len(),
{
    if sequences.len() == 0 {
        Seq::empty()
    } else {
        rows_of(sequences.drop_last(), row) + row(sequences.last()@)
    }
}

/// Appends the rows of one sentence.
fn append_rows(out: &mut PaddedBatch, seq: &Vec<u32>, bos: u32, len: usize)
    requires
        0 < len,
        seq@.len() <= len,
    ensures
        final(out).batch == old(out).batch,
        final(out).len == old(out).len,
        final(out).input@ == old(out).input@ + input_row(seq@, bos, len as nat),
        final(out).target@ == old(out).target@ + target_row(seq@, len as nat),
        final(out).mask@ == old(out).mask@ + mask_row(seq@, len as nat),
{
    let ghost input = input_row(seq@, bos, len as nat);
    let ghost target = target_row(seq@, len as nat);
    let ghost mask = mask_row(seq@, len as nat);
    let mut t: usize = 0;
    while t < len
        invariant
            t <= len,
            seq@.len() <= len,
            input == input_row(seq@, bos, len as nat),
            target == target_row(seq@, len as nat),
            mask == mask_row(seq@, len as nat),
            out.batch == old(out).batch,
            out.len == old(out).len,
            out.input@ == old(out).input@ + input.take(t as int),
            out.target@ == old(out).target@ + target.take(t as int),
            out.mask@ == old(out).mask@ + mask.take(t as int),
        decreases len - t,
    {
        let read: i32 = if t == 0 {
            to_element(bos)
        } else if t - 1 < seq.len() {
            to_element(seq[t - 1])
        } else {
            0
        };
        let wanted: i32 = if t < seq.len() {
            to_element(seq[t])
        } else {
            0
        };
        out.input.push(read);
        out.target.push(wanted);
        out.mask.push(t < seq.len());
        proof {
            assert(out.input@ =~= old(out).input@ + input.take(t + 1));
            assert(out.target@ =~= old(out).target@ + target.take(t + 1));
            assert(out.mask@ =~= old(out).mask@ + mask.take(t + 1));
        }
        t = t + 1;
    }
    proof {
        assert(input.take(t as int) =~= input);
        assert(target.take(t as int) =~= target);
        assert(mask.take(t as int) =~= mask);
    }
}

/// Why sentences cannot be scored, when they cannot. No sentences at all can.
pub open spec fn scoring_fault(sequences: Seq<Vec<u32>>, max_seq_len: nat) -> Option<Seq<char>> {
    if sequences.len() == 0 {
        None
    } else if longest(sequences) == 0 {
        Some("cannot score an empty sequence: it has no tokens to assign probability to"@)
    } else if longest(sequences) > max_seq_len {
        Some(
            "a sentence tokenizes to "@ + decimal(longest(sequences))
                + " tokens, past the model's context of "@ + decimal(max_seq_len)
                + ". Truncating would compare two different sentences, so this is an error rather than a warning"@,
        )
    } else {
        None
    }
}

/// Whether an outcome is that of laying sentences out behind `bos`.
pub open spec fn is_layout(
    r: Result<PaddedBatch, String>,
    sequences: Seq<Vec<u32>>,
    bos: u32,
    max_seq_len: nat,
) -> bool {
    match scoring_fault(sequences, max_seq_len) {
        Some(fault) => r is Err && r->Err_0@ == fault,
        None => {
            let b = r->Ok_0;
            let len = longest(sequences);
            &&& r is Ok
            &&& b.batch == sequences.len()
            &&& b.len == len
            &&& b.input@ == rows_of(sequences, |s: Seq<u32>| input_row(s, bos, len))
            &&& b.target@ == rows_of(sequences, |s: Seq<u32>| target_row(s, len))
            &&& b.mask@ == rows_of(sequences, |s: Seq<u32>| mask_row(s, len))
        },
    }
}

/// Sentences laid out for scoring, or why they cannot be scored.
///
/// Each is prefixed with `bos`, so that its first token is scored too, and
/// padded to the longest; padding counts nowhere. No sentences make an empty
/// batch.
pub fn lay_out(sequences: &Vec<Vec<u32>>, bos: u32, max_seq_len: usize) -> (r: Result<
    PaddedBatch,
    String,
>)
    ensures
        is_layout(r, sequences@, bos, max_seq_len as nat),
{
    let mut len: usize = 0;
    let mut i: usize = 0;
    while i < sequences.len()
        invariant
            i <= sequences@.len(),
            len == longest(sequences@.take(i as int)),
        decreases sequences@.len() - i,
    {
        assert(sequences@.take(i + 1).drop_last() =~= sequences@.take(i as int));
        if sequences[i].len() > len {
            len = sequences[i].len();
        }
        i = i + 1;
    }
    assert(sequences@.take(i as int) =~= sequences@);
    if sequences.len() > 0 && len == 0 {
        return Err(
            "cannot score an empty sequence: it has no tokens to assign probability to".to_owned(),
        );
    }
    if sequences.len() > 0 && len > max_seq_len {
        return Err(
            around_two(
                "a sentence tokenizes to ",
                len,
                " tokens, past the model's context of ",
                max_seq_len,
                ". Truncating would compare two different sentences, so this is an error rather than a warning",
            ),
        );
    }
    let mut out = PaddedBatch {
        batch: sequences.len(),
        len,
        input: Vec::new(),
        target: Vec::new(),
        mask: Vec::new(),
    };
    let ghost inputs = |s: Seq<u32>| input_row(s, bos, len as nat);
    let ghost targets = |s: Seq<u32>| target_row(s, len as nat);
    let ghost masks = |s: Seq<u32>| mask_row(s, len as nat);
    let mut k: usize = 0;
    while k < sequences.len()
        invariant
            k <= sequences@.len(),
            sequences@.len() > 0 ==> 0 < len,
            len == longest(sequences@),
            inputs == (|s: Seq<u32>| input_row(s, bos, len as nat)),
            targets == (|s: Seq<u32>| target_row(s, len as nat)),
            masks == (|s: Seq<u32>| mask_row(s, len as nat)),
            out.batch == sequences@.len(),
            out.len == len,
            out.input@ == rows_of(sequences@.take(k as int), inputs),
            out.target@ == rows_of(sequences@.take(k as int), targets),
            out.mask@ == rows_of(sequences@.take(k as int), masks),
        decreases sequences@.len() - k,
    {
        proof {
            longest_bounds(sequences@, k as int);
            assert(sequences@.take(k + 1).drop_last() =~= sequences@.take(k as int));
        }
        append_rows(&mut out, &sequences[k], bos, len);
        k = k + 1;
    }
    assert(sequences@.take(k as int) =~= sequences@);
    Ok(out)
}

/// What counts of a row, in order: at each position that the mask leaves, what
/// the model makes of the input up to there and of the target there.
pub open spec fn counted<A>(
    input: Seq<i32>,
    target: Seq<i32>,
    mask: Seq<bool>,
    value: spec_fn(Seq<i32>, i32) -> A,
) -> Seq<A>
    decreases input.len(),
{
    if input.len() == 0 {
        Seq::empty()
    } else {
        let before = counted(input.drop_last(), target.drop_last(), mask.drop_last(), value);
        if mask.last() {
            before.push(value(input, target.last()))
        } else {
            before
        }
    }
}

/// What a model makes of a sentence on its own: one value for each token.
pub open spec fn alone<A>(
    seq: Seq<u32>,
    bos: u32,
    value: spec_fn(Seq<i32>, i32) -> A,
) -> Seq<A> {
    Seq::new(
        seq.len(),
        |t: int| value(input_row(seq, bos, (t + 1) as nat), element(seq[t])),
    )
}

proof fn counted_so_far<A>(
    seq: Seq<u32>,
    bos: u32,
    len: nat,
    value: spec_fn(Seq<i32>, i32) -> A,
)
    ensures
        counted(input_row(seq, bos, len), target_row(seq, len), mask_row(seq, len), value)
            == if len < seq.len() {
            alone(seq, bos, value).take(len as int)
        } else {
            alone(seq, bos, value)
        },
    decreases len,
{
    let whole = alone(seq, bos, value);
    if len == 0 {
        assert(whole.take(0) =~= Seq::<A>::empty());
        assert(seq.len() == 0 ==> whole =~= Seq::<A>::empty());
    } else {
        let front = (len - 1) as nat;
        counted_so_far(seq, bos, front, value);
        assert(input_row(seq, bos, len).drop_last() =~= input_row(seq, bos, front));
        assert(target_row(seq, len).drop_last() =~= target_row(seq, front));
        assert(mask_row(seq, len).drop_last() =~= mask_row(seq, front));
        if len <= seq.len() {
            assert(whole.take(front as int).push(whole[front as int]) =~= whole.take(len as int));
            assert(whole.take(seq.len() as int) =~= whole);
        }
    }
}

/// Padding is inert: whatever a model makes of each position from the input up
/// to there, what counts of a padded sentence is what counts of it alone. So is
/// every sum of it.
pub proof fn padding_is_inert<A>(
    seq: Seq<u32>,
    bos: u32,
    len: nat,
    value: spec_fn(Seq<i32>, i32) -> A,
)
    requires
        seq.len() <= len,
    ensures
        counted(input_row(seq, bos, len), target_row(seq, len), mask_row(seq, len), value)
            == alone(seq, bos, value),
        counted(input_row(seq, bos, len), target_row(seq, len), mask_row(seq, len), value)
            == counted(
            input_row(seq, bos, seq.len()),
            target_row(seq, seq.len()),
            mask_row(seq, seq.len()),
            value,
        ),
{
    counted_so_far(seq, bos, len, value);
    counted_so_far(seq, bos, seq.len(), value);
}

/// Row `r` of a batch is the row of sentence `r`.
pub proof fn rows_stand_apart<T>(
    sequences: Seq<Vec<u32>>,
    row: spec_fn(Seq<u32>) -> Seq<T>,
    len: nat,
    r: int,
)
    requires
        0 <= r < sequences.len(),
        forall|s: Seq<u32>| #[trigger] row(s).len() == len,
    ensures
        rows_of(sequences, row).len() == sequences.len() * len,
        (r + 1) * len <= rows_of(sequences, row).len(),
        rows_of(sequences, row).subrange(r * len, (r + 1) * len) == row(sequences[r]@),
    decreases sequences.len(),
{
    let n = sequences.len() as int;
    let front = sequences.drop_last();
    rows_length(front, row, len);
    assert(n * len == (n - 1) * len + len) by (nonlinear_arith);
    assert((r + 1) * len == r * len + len) by (nonlinear_arith);
    if r < n - 1 {
        rows_stand_apart(front, row, len, r);
        assert(rows_of(sequences, row).subrange(r * len, (r + 1) * len) =~= rows_of(
            front,
            row,
        ).subrange(r * len, (r + 1) * len));
    } else {
        assert(rows_of(sequences, row).subrange(r * len, (r + 1) * len) =~= row(
            sequences[r]@,
        ));
    }
}

proof fn rows_length<T>(sequences: Seq<Vec<u32>>, row: spec_fn(Seq<u32>) -> Seq<T>, len: nat)
    requires
        forall|s: Seq<u32>| #[trigger] row(s).len() == len,
    ensures
        rows_of(sequences, row).len() == sequences.len() * len,
    decreases sequences.len(),
{
    let n = sequences.len() as int;
    if n > 0 {
        rows_length(sequences.drop_last(), row, len);
        assert(n * len == (n - 1) * len + len) by (nonlinear_arith);
    } else {
        assert(0 * len == 0) by (nonlinear_arith);
    }
}

/// What counts of a sentence in a batch is what counts of it alone, whatever it
/// is batched with.
pub proof fn batching_is_inert<A>(
    sequences: Seq<Vec<u32>>,
    bos: u32,
    r: int,
    value: spec_fn(Seq<i32>, i32) -> A,
)
    requires
        0 <= r < sequences.len(),
    ensures
        ({
            let len = longest(sequences);
            let from = r * len;
            let to = (r + 1) * len;
            counted(
                rows_of(sequences, |s: Seq<u32>| input_row(s, bos, len)).subrange(from, to),
                rows_of(sequences, |s: Seq<u32>| target_row(s, len)).subrange(from, to),
                rows_of(sequences, |s: Seq<u32>| mask_row(s, len)).subrange(from, to),
                value,
            ) == alone(sequences[r]@, bos, value)
        }),
{
    let len = longest(sequences);
    longest_bounds(sequences, r);
    rows_stand_apart(sequences, |s: Seq<u32>| input_row(s, bos, len), len, r);
    rows_stand_apart(sequences, |s: Seq<u32>| target_row(s, len), len, r);
    rows_stand_apart(sequences, |s: Seq<u32>| mask_row(s, len), len, r);
    padding_is_inert(sequences[r]@, bos, len, value);
}

/// Every token of a sentence is scored, the first included.
pub proof fn every_token_counts(seq: Seq<u32>, len: nat, t: int)
    requires
        seq.len() <= len,
        0 <= t < seq.len(),
    ensures
        mask_row(seq, len)[t],
        target_row(seq, len)[t] == element(seq[t]),
{
}

/// How many pairs go through the model at once: each pair is two sentences, and
/// both go through together.
pub open spec fn pairs_at_once(batch_size: nat) -> nat {
    if batch_size < 2 {
        1
    } else {
        batch_size / 2
    }
}

/// The ends of the chunks of a paradigm of `n_pairs`: from each one to the
/// next, both sentences of the pairs are scored together.
pub fn chunk_ends(n_pairs: usize, batch_size: usize) -> (r: Result<Vec<usize>, String>)
    ensures
        r is Ok <==> batch_size > 0,
        r is Err ==> r->Err_0@ == "batch_size must be positive"@,
        r is Ok ==> {
            let ends = r->Ok_0@;
            let step = pairs_at_once(batch_size as nat);
            &&& ends.len() == ceil_div(n_pairs as nat, step)
            &&& forall|k: int|
                0 <= k < ends.len() ==> #[trigger] ends[k] == if (k + 1) * step <= n_pairs {
                    (k + 1) * step
                } else {
                    n_pairs as int
                }
        },
{
    if batch_size == 0 {
        return Err("batch_size must be positive".to_owned());
    }
    let step: usize = if batch_size < 2 {
        1
    } else {
        batch_size / 2
    };
    let mut ends: Vec<usize> = Vec::new();
    let mut at: usize = 0;
    proof {
        assert(0 * step == 0) by (nonlinear_arith);
    }
    while at < n_pairs
        invariant
            step > 0,
            step == pairs_at_once(batch_size as nat),
            at <= n_pairs,
            at == n_pairs || at == ends@.len() * step,
            at == n_pairs && n_pairs > 0 ==> ends@.len() > 0 && (ends@.len() - 1) * step < n_pairs
                <= ends@.len() * step,
            n_pairs == 0 ==> ends@.len() == 0,
            forall|k: int|
                0 <= k < ends@.len() ==> #[trigger] ends@[k] == if (k + 1) * step <= n_pairs {
                    (k + 1) * step
                } else {
                    n_pairs as int
                },
        decreases n_pairs - at,
    {
        proof {
            let k = ends@.len() as int;
            assert((k + 1) * step == k * step + step) by (nonlinear_arith);
        }
        at = if n_pairs - at > step {
            at + step
        } else {
            n_pairs
        };
        ends.push(at);
    }
    proof {
        let n = n_pairs as nat;
        let k = ends@.len();
        ceil_div_is_least(n, step as nat, k);
        if n > 0 {
            let c = ceil_div(n, step as nat);
            assert(c >= k) by (nonlinear_arith)
                requires
                    c * step >= n,
                    (k - 1) * step < n,
                    step > 0,
            ;
        }
    }
    Ok(ends)
}

/// Whether pair `k` of a list of encodings is one of the pair of sentences.
pub open spec fn encodes_pair(
    tokenizer: Tokenizer,
    pair: MinimalPair,
    ids: Seq<Vec<u32>>,
    k: int,
) -> bool {
    &&& may_encode(tokenizer, pair.good@, ids[2 * k]@)
    &&& may_encode(tokenizer, pair.bad@, ids[2 * k + 1]@)
}

/// Sentence `n` of the pairs from `from` on: good and bad by turns.
pub open spec fn sentence_at(pairs: Seq<MinimalPair>, from: int, n: int) -> Seq<char> {
    if n % 2 == 0 {
        pairs[from + n / 2].good@
    } else {
        pairs[from + n / 2].bad@
    }
}

/// Whether a tokenizer encodes both sentences of the pairs from `from` up to
/// `to`, to ids or to an error.
pub open spec fn pairs_encode(
    tokenizer: Tokenizer,
    pairs: Seq<MinimalPair>,
    from: int,
    to: int,
) -> bool {
    forall|i: int|
        from <= i < to ==> encode_returns(tokenizer, (#[trigger] pairs[i]).good@)
            && encode_returns(tokenizer, pairs[i].bad@)
}

/// Whether a tokenizer may encode a text.
pub open spec fn encodable(tokenizer: Tokenizer, text: Seq<char>) -> bool {
    exists|ids: Seq<u32>| #[trigger] may_encode(tokenizer, text, ids)
}

/// Whether sentence `n` is the first that is refused, with this error; `e` says
/// that encoding failed.
pub open spec fn refused_at(
    e: Seq<char>,
    tokenizer: Tokenizer,
    pairs: Seq<MinimalPair>,
    from: int,
    to: int,
    n: int,
    why: Seq<char>,
) -> bool {
    &&& 0 <= n < 2 * (to - from)
    &&& may_refuse(tokenizer, sentence_at(pairs, from, n), why)
    &&& e == "encoding failed: "@ + why
    &&& forall|m: int|
        0 <= m < n ==> encodable(tokenizer, #[trigger] sentence_at(pairs, from, m))
}

/// Whether an outcome is one that encoding the pairs from `from` up to `to` may
/// have: an encoding of each sentence, or the error of the first one that is
/// refused.
pub open spec fn is_encoding_of_pairs(
    r: Result<Vec<Vec<u32>>, String>,
    tokenizer: Tokenizer,
    pairs: Seq<MinimalPair>,
    from: int,
    to: int,
) -> bool {
    match r {
        Ok(ids) => {
            &&& ids@.len() == 2 * (to - from)
            &&& forall|k: int|
                0 <= k < to - from ==> #[trigger] encodes_pair(
                    tokenizer,
                    pairs[from + k],
                    ids@,
                    k,
                )
        },
        Err(e) => exists|n: int, why: Seq<char>|
            #[trigger] refused_at(e@, tokenizer, pairs, from, to, n, why),
    }
}

/// The encodings of the sentences of the pairs from `from` up to `to`: good and
/// bad by turns. The encodings are the tokenizer's.
pub fn encode_pairs(tokenizer: &Tokenizer, pairs: &Vec<MinimalPair>, from: usize, to: usize) -> (r:
    Result<Vec<Vec<u32>>, String>)
    requires
        from <= to <= pairs@.len(),
        pairs_encode(*tokenizer, pairs@, from as int, to as int),
    ensures
        is_encoding_of_pairs(r, *tokenizer, pairs@, from as int, to as int),
{
    let mut out: Vec<Vec<u32>> = Vec::new();
    let mut i: usize = from;
    while i < to
        invariant
            from <= i <= to <= pairs@.len(),
            pairs_encode(*tokenizer, pairs@, from as int, to as int),
            out@.len() == 2 * (i - from),
            forall|k: int|
                0 <= k < i - from ==> #[trigger] encodes_pair(
                    *tokenizer,
                    pairs@[from + k],
                    out@,
                    k,
                ),
        decreases to - i,
    {
        let ghost before = out@;
        let ghost n: int = 2 * (i - from);
        proof {
            assert forall|m: int| 0 <= m < n implies encodable(
                *tokenizer,
                #[trigger] sentence_at(pairs@, from as int, m),
            ) by {
                assert(encodes_pair(*tokenizer, pairs@[from + m / 2], out@, m / 2));
            }
        }
        assert(sentence_at(pairs@, from as int, n) == pairs@[i as int].good@);
        assert(sentence_at(pairs@, from as int, n + 1) == pairs@[i as int].bad@);
        match encode(tokenizer, pairs[i].good.as_str()) {
            Ok(ids) => {
                assert(may_encode(*tokenizer, pairs@[i as int].good@, ids@));
                out.push(ids);
            },
            Err(e) => {
                let out: Result<Vec<Vec<u32>>, String> = Err(e);
                proof {
                    let said = out->Err_0@;
                    let why = choose|why: Seq<char>| #[trigger]
                        may_refuse(*tokenizer, pairs@[i as int].good@, why) && said
                            == "encoding failed: "@ + why;
                    assert(refused_at(
                        said,
                        *tokenizer,
                        pairs@,
                        from as int,
                        to as int,
                        n,
                        why,
                    ));
                }
                return out;
            },
        }
        match encode(tokenizer, pairs[i].bad.as_str()) {
            Ok(ids) => {
                out.push(ids);
            },
            Err(e) => {
                let out: Result<Vec<Vec<u32>>, String> = Err(e);
                proof {
                    let said = out->Err_0@;
                    let why = choose|why: Seq<char>| #[trigger]
                        may_refuse(*tokenizer, pairs@[i as int].bad@, why) && said
                            == "encoding failed: "@ + why;
                    assert(refused_at(
                        said,
                        *tokenizer,
                        pairs@,
                        from as int,
                        to as int,
                        n + 1,
                        why,
                    ));
                }
                return out;
            },
        }
        proof {
            assert forall|k: int| 0 <= k < i + 1 - from implies #[trigger] encodes_pair(
                *tokenizer,
                pairs@[from + k],
                out@,
                k,
            ) by {
                if k < i - from {
                    assert(encodes_pair(*tokenizer, pairs@[from + k], before, k));
                }
            }
        }
        i = i + 1;
    }
    Ok(out)
}

/// Pairs are encoded in one way where a text has one outcome: two runs give the
/// same ids, or the error of the same sentence.
pub proof fn pair_encodings_agree(
    a: Result<Vec<Vec<u32>>, String>,
    b: Result<Vec<Vec<u32>>, String>,
    tokenizer: Tokenizer,
    pairs: Seq<MinimalPair>,
    from: int,
    to: int,
)
    requires
        one_outcome(tokenizer),
        is_encoding_of_pairs(a, tokenizer, pairs, from, to),
        is_encoding_of_pairs(b, tokenizer, pairs, from, to),
    ensures
        match (a, b) {
            (Ok(x), Ok(y)) => {
                &&& x@.len() == y@.len()
                &&& forall|k: int| 0 <= k < x@.len() ==> (#[trigger] x@[k])@ == y@[k]@
            },
            (Err(x), Err(y)) => x@ == y@,
            _ => false,
        },
{
    if a is Ok && b is Ok {
        let x = a->Ok_0@;
        let y = b->Ok_0@;
        assert forall|k: int| 0 <= k < x.len() implies (#[trigger] x[k])@ == y[k]@ by {
            sentence_encoded(x, tokenizer, pairs, from, to, k);
            sentence_encoded(y, tokenizer, pairs, from, to, k);
        }
    } else if a is Err && b is Err {
        let (m, d) = choose|n: int, why: Seq<char>|
            refused_at(a->Err_0@, tokenizer, pairs, from, to, n, why);
        let (n, e) = choose|n: int, why: Seq<char>|
            refused_at(b->Err_0@, tokenizer, pairs, from, to, n, why);
        if m < n {
            assert(encodable(tokenizer, sentence_at(pairs, from, m)));
        } else if n < m {
            assert(encodable(tokenizer, sentence_at(pairs, from, n)));
        }
    } else if a is Ok {
        let (n, e) = choose|n: int, why: Seq<char>|
            refused_at(b->Err_0@, tokenizer, pairs, from, to, n, why);
        sentence_encoded(a->Ok_0@, tokenizer, pairs, from, to, n);
    } else {
        let (n, e) = choose|n: int, why: Seq<char>|
            refused_at(a->Err_0@, tokenizer, pairs, from, to, n, why);
        sentence_encoded(b->Ok_0@, tokenizer, pairs, from, to, n);
    }
}

proof fn sentence_encoded(
    ids: Seq<Vec<u32>>,
    tokenizer: Tokenizer,
    pairs: Seq<MinimalPair>,
    from: int,
    to: int,
    n: int,
)
    requires
        0 <= n < 2 * (to - from),
        forall|k: int|
            0 <= k < to - from ==> #[trigger] encodes_pair(tokenizer, pairs[from + k], ids, k),
    ensures
        may_encode(tokenizer, sentence_at(pairs, from, n), ids[n]@),
{
    assert(encodes_pair(tokenizer, pairs[from + n / 2], ids, n / 2));
    assert(n == 2 * (n / 2) + n % 2);
}

/// Whether an outcome is one that laying out the pairs from `from` up to `to`
/// may have: encodings of their sentences, good and bad by turns, behind the
/// separator; or, in this order, the error of the first sentence that is
/// refused, of a tokenizer without a separator, or of sentences that cannot be
/// scored.
pub open spec fn is_layout_of_pairs(
    r: Result<PaddedBatch, String>,
    tokenizer: Tokenizer,
    pairs: Seq<MinimalPair>,
    from: int,
    to: int,
    max_seq_len: nat,
) -> bool {
    ||| exists|e: String| #[trigger]
        is_encoding_of_pairs(Err(e), tokenizer, pairs, from, to) && r == Err::<
            PaddedBatch,
            String,
        >(e)
    ||| exists|ids: Vec<Vec<u32>>| #[trigger]
        is_encoding_of_pairs(Ok(ids), tokenizer, pairs, from, to) && if !vocabulary(
            tokenizer,
        ).dom().contains(EOS_TOKEN@) {
            r is Err && r->Err_0@ == "tokenizer has no "@ + EOS_TOKEN@ + " token"@
        } else {
            is_layout(r, ids@, vocabulary(tokenizer)[EOS_TOKEN@], max_seq_len)
        }
}

/// The sentences of the pairs from `from` up to `to` laid out for scoring, good
/// and bad by turns, each behind the separator.
pub fn lay_out_pairs(
    tokenizer: &Tokenizer,
    pairs: &Vec<MinimalPair>,
    from: usize,
    to: usize,
    max_seq_len: usize,
) -> (r: Result<PaddedBatch, String>)
    requires
        from <= to <= pairs@.len(),
        pairs_encode(*tokenizer, pairs@, from as int, to as int),
    ensures
        is_layout_of_pairs(
            r,
            *tokenizer,
            pairs@,
            from as int,
            to as int,
            max_seq_len as nat,
        ),
{
    let encoded = encode_pairs(tokenizer, pairs, from, to);
    let ids = match encoded {
        Ok(ids) => ids,
        Err(e) => {
            assert(is_encoding_of_pairs(Err(e), *tokenizer, pairs@, from as int, to as int));
            return Err(e);
        },
    };
    assert(is_encoding_of_pairs(Ok(ids), *tokenizer, pairs@, from as int, to as int));
    match eos_id(tokenizer) {
        Ok(eos) => lay_out(&ids, eos, max_seq_len),
        Err(e) => Err(e),
    }
}

/// The sentences of pairs laid out, as [`lay_out_pairs`], where the tokenizer is
/// known to encode every text; `None` where it is not.
pub fn try_lay_out_pairs(
    tokenizer: &Tokenizer,
    pairs: &Vec<MinimalPair>,
    from: usize,
    to: usize,
    max_seq_len: usize,
) -> (r: Option<Result<PaddedBatch, String>>)
    requires
        from <= to <= pairs@.len(),
    ensures
        r is Some <==> plain_encoder(*tokenizer),
        r is Some ==> one_outcome(*tokenizer),
        r is Some ==> is_layout_of_pairs(
            r->Some_0,
            *tokenizer,
            pairs@,
            from as int,
            to as int,
            max_seq_len as nat,
        ),
{
    if encodes_all(tokenizer) {
        Some(lay_out_pairs(tokenizer, pairs, from, to, max_seq_len))
    } else {
        None
    }
}

/// The encodings of the sentences of pairs, as [`encode_pairs`], where the
/// tokenizer is known to encode every text; `None` where it is not.
pub fn try_encode_pairs(
    tokenizer: &Tokenizer,
    pairs: &Vec<MinimalPair>,
    from: usize,
    to: usize,
) -> (r: Option<Result<Vec<Vec<u32>>, String>>)
    requires
        from <= to <= pairs@.len(),
    ensures
        r is Some <==> plain_encoder(*tokenizer),
        r is Some ==> one_outcome(*tokenizer),
        r is Some ==> is_encoding_of_pairs(
            r->Some_0,
            *tokenizer,
            pairs@,
            from as int,
            to as int,
        ),
{
    if encodes_all(tokenizer) {
        Some(encode_pairs(tokenizer, pairs, from, to))
    } else {
        None
    }
}

} // verus!
