//! Windows over a shard, and the batches made of them.
//!
//! Training wants disjoint windows (`stride == seq_len`): every token is seen
//! once per epoch. Evaluation wants overlapping windows (`stride < seq_len`):
//! every token but those of the first window is then predicted from at least
//! `seq_len - stride` tokens of context, and is still scored once.

use vstd::prelude::*;

use vstd::arithmetic::div_mod::{lemma_fundamental_div_mod, lemma_div_pos_is_pos};
use vstd::arithmetic::mul::lemma_mul_inequality;

use crate::data::shard::{all_fit, Shard};

verus! {

/// One window: `input[i]` is predicted to be followed by `target[i]`.
#[derive(Debug, Clone, PartialEq, Eq)]
pub struct TokenWindow {
    pub input: Vec<u32>,
    pub target: Vec<u32>,
    /// The first position to score. What is before it is context whose loss is
    /// discarded, because an earlier window scored it.
    pub score_from: usize,
}

/// The number of windows of `seq_len` tokens and one target, `stride` apart,
/// in a stream of `n` tokens.
pub open spec fn window_count(n: nat, seq_len: nat, stride: nat) -> nat {
    if n <= seq_len {
        0
    } else {
        (n - seq_len - 1) as nat / stride + 1
    }
}

/// The first position of window `i` that no earlier window has scored.
pub open spec fn first_scored(i: nat, seq_len: nat, stride: nat) -> nat {
    if i == 0 {
        0
    } else {
        (seq_len - stride) as nat
    }
}

/// The positions that the first `k` windows score, summed over the windows.
pub open spec fn scored_by(k: nat, seq_len: nat, stride: nat) -> nat
    decreases k,
{
    if k == 0 {
        0
    } else {
        scored_by((k - 1) as nat, seq_len, stride) + (seq_len - first_scored(
            (k - 1) as nat,
            seq_len,
            stride,
        )) as nat
    }
}

/// Whether window `i` scores the prediction of token `t` of the stream.
pub open spec fn scores(i: nat, t: nat, seq_len: nat, stride: nat) -> bool {
    let p = t - 1 - i * stride;
    first_scored(i, seq_len, stride) <= p < seq_len
}

/// A shard sliced into fixed-length windows.
#[derive(Clone, Copy)]
pub struct TokenDataset<'a> {
    shard: Shard<'a>,
    seq_len: usize,
    stride: usize,
}

impl<'a> TokenDataset<'a> {
    #[verifier::type_invariant]
    spec fn windows_cover(&self) -> bool {
        0 < self.stride <= self.seq_len
    }

    /// The tokens that the windows are cut from.
    pub closed spec fn stream(&self) -> Seq<u32> {
        self.shard@
    }

    /// The length of a window.
    pub closed spec fn width(&self) -> nat {
        self.seq_len as nat
    }

    /// How far apart windows start.
    pub closed spec fn step(&self) -> nat {
        self.stride as nat
    }

    /// The number of windows.
    pub open spec fn count(&self) -> nat {
        window_count(self.stream().len(), self.width(), self.step())
    }

    /// Disjoint windows: the layout for training.
    pub fn train(shard: Shard<'a>, seq_len: usize) -> (r: Self)
        requires
            seq_len > 0,
        ensures
            r.stream() == shard@,
            r.width() == seq_len,
            r.step() == seq_len,
    {
        TokenDataset::with_stride(shard, seq_len, seq_len)
    }

    /// Windows that start `stride` tokens apart. A stride wider than the window
    /// would skip tokens.
    pub fn with_stride(shard: Shard<'a>, seq_len: usize, stride: usize) -> (r: Self)
        requires
            seq_len > 0,
            0 < stride <= seq_len,
        ensures
            r.stream() == shard@,
            r.width() == seq_len,
            r.step() == stride,
    {
        TokenDataset { shard, seq_len, stride }
    }

    /// The length of a window.
    pub fn seq_len(&self) -> (r: usize)
        ensures
            r == self.width(),
    {
        self.seq_len
    }

    /// The number of windows. One that would run past the end is dropped rather
    /// than padded.
    pub fn len(&self) -> (r: usize)
        ensures
            r == self.count(),
    {
        proof {
            use_type_invariant(self);
        }
        let n: usize = self.shard.len();
        if n <= self.seq_len {
            return 0;
        }
        proof {
            let a = (n - self.seq_len - 1) as int;
            let s = self.stride as int;
            lemma_div_pos_is_pos(a, s);
            lemma_fundamental_div_mod(a, s);
            assert(a / s <= a) by (nonlinear_arith)
                requires
                    s >= 1,
                    a / s >= 0,
                    a == s * (a / s) + a % s,
                    a % s >= 0,
            ;
        }
        (n - self.seq_len - 1) / self.stride + 1
    }

    /// Where window `i` starts in the stream.
    pub fn start(&self, i: usize) -> (r: usize)
        requires
            i < self.count(),
        ensures
            r == i * self.step(),
            r + self.width() + 1 <= self.stream().len(),
    {
        let n: usize = self.shard.len();
        proof {
            use_type_invariant(self);
            window_in_stream(n as nat, self.seq_len as nat, self.stride as nat, i as nat);
        }
        i * self.stride
    }

    /// The first position of window `i` that window `i - 1` has not scored.
    pub fn score_from(&self, i: usize) -> (r: usize)
        ensures
            r == first_scored(i as nat, self.width(), self.step()),
            r < self.width(),
    {
        proof {
            use_type_invariant(self);
        }
        if i == 0 {
            0
        } else {
            self.seq_len - self.stride
        }
    }

    /// Window `index`, when there is one.
    pub fn get(&self, index: usize) -> (r: Option<TokenWindow>)
        ensures
            r is Some <==> index < self.count(),
            r is Some ==> {
                let start = index * self.step() as int;
                let end = start + self.width();
                &&& end + 1 <= self.stream().len()
                &&& r->Some_0.input@ == self.stream().subrange(start, end)
                &&& r->Some_0.target@ == self.stream().subrange(start + 1, end + 1)
                &&& r->Some_0.score_from == first_scored(
                    index as nat,
                    self.width(),
                    self.step(),
                )
            },
    {
        if index >= self.len() {
            return None;
        }
        let start: usize = self.start(index);
        let n: usize = self.shard.len();
        let end: usize = start + self.seq_len;
        Some(
            TokenWindow {
                input: self.shard.tokens(start..end),
                target: self.shard.tokens(start + 1..end + 1),
                score_from: self.score_from(index),
            },
        )
    }

    /// The positions that all windows score together.
    ///
    /// Token 0 is only ever an input, since nothing precedes it to predict it
    /// from, so this is not the token count of the shard.
    pub fn n_scored_tokens(&self) -> (r: usize)
        ensures
            r == scored_by(self.count(), self.width(), self.step()),
    {
        proof {
            use_type_invariant(self);
        }
        let len: usize = self.len();
        let n: usize = self.shard.len();
        let mut sum: usize = 0;
        let mut i: usize = 0;
        while i < len
            invariant
                i <= len,
                len == self.count(),
                n == self.stream().len(),
                self.seq_len == self.width(),
                self.stride == self.step(),
                0 < self.stride <= self.seq_len,
                sum == scored_by(i as nat, self.width(), self.step()),
            decreases len - i,
        {
            proof {
                let w = self.width();
                let s = self.step();
                scored_sum(n as nat, w, s, (i + 1) as nat);
            }
            sum = sum + (self.seq_len - self.score_from(i));
            i = i + 1;
        }
        sum
    }
}

/// A window that is counted lies in the stream, its last target included.
pub proof fn window_in_stream(n: nat, seq_len: nat, stride: nat, i: nat)
    requires
        stride > 0,
        i < window_count(n, seq_len, stride),
    ensures
        i * stride + seq_len + 1 <= n,
{
    let a = (n - seq_len - 1) as int;
    let s = stride as int;
    lemma_fundamental_div_mod(a, s);
    lemma_mul_inequality(i as int, a / s, s);
    assert(s * (a / s) == (a / s) * s) by (nonlinear_arith);
}

/// The closed form of the scored count: the first window scores all of its
/// positions and every other one `stride` of them. It never exceeds the tokens
/// that have a predecessor.
pub proof fn scored_sum(n: nat, seq_len: nat, stride: nat, k: nat)
    requires
        0 < stride <= seq_len,
        k <= window_count(n, seq_len, stride),
    ensures
        scored_by(k, seq_len, stride) == if k == 0 {
            0
        } else {
            seq_len + (k - 1) * stride
        },
        k > 0 ==> scored_by(k, seq_len, stride) < n,
    decreases k,
{
    if k > 0 {
        window_in_stream(n, seq_len, stride, (k - 1) as nat);
        scored_sum(n, seq_len, stride, (k - 1) as nat);
        if k > 1 {
            assert((k - 1) * stride == (k - 2) * stride + stride) by (nonlinear_arith);
        }
    }
}

/// Disjoint windows score whole windows: `seq_len` tokens for each.
pub proof fn disjoint_windows_score_everything(n: nat, seq_len: nat)
    requires
        seq_len > 0,
    ensures
        scored_by(window_count(n, seq_len, seq_len), seq_len, seq_len) == window_count(
            n,
            seq_len,
            seq_len,
        ) * seq_len,
{
    let k = window_count(n, seq_len, seq_len);
    scored_sum(n, seq_len, seq_len, k);
    if k > 0 {
        assert(seq_len + (k - 1) * seq_len == k * seq_len) by (nonlinear_arith);
    }
}

/// Striding changes the context, not the bookkeeping: with a stride that divides
/// the window, a sweep scores what the disjoint sweep scores, perhaps a little
/// more of the tail, and never as many tokens as the stream holds.
pub proof fn striding_keeps_the_bookkeeping(n: nat, seq_len: nat, stride: nat)
    requires
        0 < stride <= seq_len,
        seq_len % stride == 0,
        n > seq_len,
    ensures
        scored_by(window_count(n, seq_len, seq_len), seq_len, seq_len) <= scored_by(
            window_count(n, seq_len, stride),
            seq_len,
            stride,
        ) < n,
{
    let a = (n - seq_len - 1) as int;
    let w = seq_len as int;
    let s = stride as int;
    let k = w / s;
    lemma_div_pos_is_pos(a, s);
    lemma_div_pos_is_pos(a, w);
    scored_sum(n, seq_len, seq_len, window_count(n, seq_len, seq_len));
    scored_sum(n, seq_len, stride, window_count(n, seq_len, stride));
    lemma_fundamental_div_mod(a, s);
    lemma_fundamental_div_mod(a, w);
    lemma_fundamental_div_mod(w, s);
    let q = a / w;
    let p = a / s;
    assert(q * w <= p * s) by (nonlinear_arith)
        requires
            w == s * k,
            w * q <= a,
            a < s * p + s,
            s > 0,
            q >= 0,
    {
        assert(s * (k * q) < s * (p + 1)) by (nonlinear_arith)
            requires
                w == s * k,
                w * q <= a,
                a < s * p + s,
        ;
        assert(k * q < p + 1) by (nonlinear_arith)
            requires
                s * (k * q) < s * (p + 1),
                s > 0,
        ;
        assert(q * w <= p * s) by (nonlinear_arith)
            requires
                k * q <= p,
                w == s * k,
                s > 0,
        ;
    }
}

/// Every token from the second on, up to the last one that a window reaches, is
/// scored by exactly one window: none is skipped, none is scored twice.
pub proof fn every_token_scored_once(n: nat, seq_len: nat, stride: nat, t: nat)
    requires
        0 < stride <= seq_len,
        1 <= t <= scored_by(window_count(n, seq_len, stride), seq_len, stride),
    ensures
        exists|i: nat|
            i < window_count(n, seq_len, stride) && #[trigger] scores(i, t, seq_len, stride),
        forall|i: nat, j: nat|
            #[trigger] scores(i, t, seq_len, stride) && #[trigger] scores(j, t, seq_len, stride)
                ==> i == j,
{
    let k = window_count(n, seq_len, stride);
    scored_sum(n, seq_len, stride, k);
    assert forall|i: nat, j: nat|
        #[trigger] scores(i, t, seq_len, stride) && #[trigger] scores(j, t, seq_len, stride)
        implies i == j by {
        if i < j {
            scored_before(i, j, t, seq_len, stride);
        } else if j < i {
            scored_before(j, i, t, seq_len, stride);
        }
    }
    if t <= seq_len {
        assert(scores(0, t, seq_len, stride));
    } else {
        let over = (t - 1 - seq_len) as int;
        let i = (over / stride as int + 1) as nat;
        lemma_div_pos_is_pos(over, stride as int);
        lemma_fundamental_div_mod(over, stride as int);
        let q = over / stride as int;
        assert(i * stride == stride * q + stride) by (nonlinear_arith)
            requires
                i == q + 1,
        ;
        assert(scores(i, t, seq_len, stride));
        assert(i < k) by (nonlinear_arith)
            requires
                i == q + 1,
                stride > 0,
                stride * q <= over,
                over == t - 1 - seq_len,
                t <= seq_len + (k - 1) * stride,
        ;
    }
}

/// A later window does not score what an earlier one scored.
proof fn scored_before(i: nat, j: nat, t: nat, seq_len: nat, stride: nat)
    requires
        i < j,
        0 < stride <= seq_len,
        scores(i, t, seq_len, stride),
    ensures
        !scores(j, t, seq_len, stride),
{
    assert(j * stride >= i * stride + stride) by (nonlinear_arith)
        requires
            i + 1 <= j,
            stride > 0,
    ;
}

/// Striding gives context: a scored position of any window but the first has at
/// least `seq_len - stride` tokens of its window before it.
pub proof fn striding_gives_context(i: nat, t: nat, seq_len: nat, stride: nat)
    requires
        0 < stride <= seq_len,
        i > 0,
        scores(i, t, seq_len, stride),
    ensures
        t - 1 - i * stride >= seq_len - stride,
{
}

/// A prediction is the next token: the target at a position is the input at
/// the next one.
pub proof fn target_is_input_shifted(stream: Seq<u32>, start: int, seq_len: int, p: int)
    requires
        0 <= start,
        start + seq_len + 1 <= stream.len(),
        0 <= p < seq_len - 1,
    ensures
        stream.subrange(start + 1, start + seq_len + 1)[p] == stream.subrange(
            start,
            start + seq_len,
        )[p + 1],
{
}

/// A batch of windows, row by row.
#[derive(Debug, Clone, PartialEq, Eq)]
pub struct TokenBatch {
    /// The number of windows.
    pub batch: usize,
    /// The length of a window.
    pub seq: usize,
    pub input: Vec<i32>,
    pub target: Vec<i32>,
    /// Which positions are scored; the others are context.
    pub score_mask: Vec<bool>,
}

/// Lays windows of one length side by side.
#[derive(Debug, Clone, Copy, Default)]
pub struct TokenBatcher;

/// A token id as a tensor element: the same bits, as a signed number.
pub open spec fn element(t: u32) -> i32 {
    if t < 0x8000_0000 {
        t as i32
    } else {
        (t - 0x1_0000_0000) as i32
    }
}

/// A token id as a tensor element.
pub fn to_element(t: u32) -> (r: i32)
    ensures
        r == element(t),
{
    if t < 0x8000_0000 {
        t as i32
    } else {
        (t - 0x8000_0000) as i32 + i32::MIN
    }
}

/// Row `p` of a batch of rows of length `seq`.
pub open spec fn batch_row<T>(flat: Seq<T>, p: int, seq: int) -> Seq<T> {
    flat.subrange(p * seq, p * seq + seq)
}

/// The mask of one window: the positions from `score_from` on.
pub open spec fn window_mask(score_from: nat, seq: nat) -> Seq<bool> {
    Seq::new(seq, |p: int| p >= score_from)
}

/// The ids of one window.
pub open spec fn elements(ids: Seq<u32>) -> Seq<i32> {
    ids.map_values(|t: u32| element(t))
}

/// What one more row does to a batch: the rows before it stay.
proof fn rows_stay<T>(flat: Seq<T>, row: Seq<T>, n: int, seq: int)
    requires
        n >= 0,
        seq >= 0,
        flat.len() == n * seq,
        row.len() == seq,
    ensures
        (flat + row).len() == (n + 1) * seq,
        forall|p: int|
            0 <= p < n ==> #[trigger] batch_row(flat + row, p, seq) == batch_row(flat, p, seq),
        batch_row(flat + row, n, seq) == row,
{
    assert((n + 1) * seq == n * seq + seq) by (nonlinear_arith);
    assert forall|p: int| 0 <= p < n implies #[trigger] batch_row(flat + row, p, seq)
        == batch_row(flat, p, seq) by {
        assert(p * seq + seq <= n * seq && 0 <= p * seq) by (nonlinear_arith)
            requires
                0 <= p < n,
                seq >= 0,
        ;
        assert(batch_row(flat + row, p, seq) =~= batch_row(flat, p, seq));
    }
    assert(0 <= n * seq) by (nonlinear_arith)
        requires
            n >= 0,
            seq >= 0,
    ;
    assert(batch_row(flat + row, n, seq) =~= row);
}

/// Appends the ids of one window.
fn append_elements(flat: &mut Vec<i32>, ids: &Vec<u32>)
    ensures
        final(flat)@ == old(flat)@ + elements(ids@),
{
    let mut i: usize = 0;
    while i < ids.len()
        invariant
            i <= ids.len(),
            flat@ == old(flat)@ + elements(ids@).take(i as int),
        decreases ids.len() - i,
    {
        flat.push(to_element(ids[i]));
        assert(flat@ =~= old(flat)@ + elements(ids@).take(i + 1));
        i = i + 1;
    }
    assert(elements(ids@).take(i as int) =~= elements(ids@));
}

/// Appends the mask of one window.
fn append_mask(flat: &mut Vec<bool>, score_from: usize, seq: usize)
    ensures
        final(flat)@ == old(flat)@ + window_mask(score_from as nat, seq as nat),
{
    let ghost mask = window_mask(score_from as nat, seq as nat);
    let mut p: usize = 0;
    while p < seq
        invariant
            p <= seq,
            mask == window_mask(score_from as nat, seq as nat),
            flat@ == old(flat)@ + mask.take(p as int),
        decreases seq - p,
    {
        flat.push(p >= score_from);
        assert(flat@ =~= old(flat)@ + mask.take(p + 1));
        p = p + 1;
    }
    assert(mask.take(p as int) =~= mask);
}

impl TokenBatcher {
    /// Windows of one length as a batch: row `p` holds window `p`.
    pub fn batch(&self, items: &Vec<TokenWindow>) -> (r: TokenBatch)
        requires
            items@.len() > 0,
            forall|p: int|
                0 <= p < items@.len() ==> (#[trigger] items@[p]).input@.len()
                    == items@[0].input@.len() && items@[p].target@.len() == items@[0].input@.len(),
        ensures
            r.batch == items@.len(),
            r.seq == items@[0].input@.len(),
            r.input@.len() == r.batch * r.seq,
            r.target@.len() == r.batch * r.seq,
            r.score_mask@.len() == r.batch * r.seq,
            forall|p: int|
                0 <= p < r.batch ==> #[trigger] batch_row(r.input@, p, r.seq as int) == elements(
                    items@[p].input@,
                ),
            forall|p: int|
                0 <= p < r.batch ==> #[trigger] batch_row(r.target@, p, r.seq as int) == elements(
                    items@[p].target@,
                ),
            forall|p: int|
                0 <= p < r.batch ==> #[trigger] batch_row(r.score_mask@, p, r.seq as int)
                    == window_mask(items@[p].score_from as nat, r.seq as nat),
    {
        let batch: usize = items.len();
        let seq: usize = items[0].input.len();
        let mut input: Vec<i32> = Vec::new();
        let mut target: Vec<i32> = Vec::new();
        let mut score_mask: Vec<bool> = Vec::new();
        let mut i: usize = 0;
        assert(0 * seq == 0) by (nonlinear_arith);
        while i < batch
            invariant
                i <= batch,
                batch == items@.len(),
                seq == items@[0].input@.len(),
                forall|p: int|
                    0 <= p < items@.len() ==> (#[trigger] items@[p]).input@.len() == seq
                        && items@[p].target@.len() == seq,
                input@.len() == i * seq,
                target@.len() == i * seq,
                score_mask@.len() == i * seq,
                forall|p: int|
                    0 <= p < i ==> #[trigger] batch_row(input@, p, seq as int) == elements(
                        items@[p].input@,
                    ),
                forall|p: int|
                    0 <= p < i ==> #[trigger] batch_row(target@, p, seq as int) == elements(
                        items@[p].target@,
                    ),
                forall|p: int|
                    0 <= p < i ==> #[trigger] batch_row(score_mask@, p, seq as int)
                        == window_mask(items@[p].score_from as nat, seq as nat),
            decreases batch - i,
        {
            let w = &items[i];
            proof {
                let n = i as int;
                let s = seq as int;
                rows_stay(input@, elements(w.input@), n, s);
                rows_stay(target@, elements(w.target@), n, s);
                rows_stay(score_mask@, window_mask(w.score_from as nat, seq as nat), n, s);
            }
            append_elements(&mut input, &w.input);
            append_elements(&mut target, &w.target);
            append_mask(&mut score_mask, w.score_from, seq);
            i = i + 1;
        }
        TokenBatch { batch, seq, input, target, score_mask }
    }
}

/// Tokens that fit `u16` keep their value as tensor elements.
pub proof fn elements_keep_tokens(ids: Seq<u32>, i: int)
    requires
        all_fit(ids),
        0 <= i < ids.len(),
    ensures
        elements(ids)[i] == ids[i],
{
    assert(ids[i] <= 0xffff);
}

/// How many positions of a mask are scored.
pub open spec fn mask_count(mask: Seq<bool>) -> nat
    decreases mask.len(),
{
    if mask.len() == 0 {
        0
    } else {
        mask_count(mask.drop_last()) + if mask.last() {
            1nat
        } else {
            0
        }
    }
}

/// The mask of a window counts what the window scores.
pub proof fn mask_counts_scored_positions(score_from: nat, seq: nat)
    ensures
        mask_count(window_mask(score_from, seq)) == if score_from < seq {
            (seq - score_from) as nat
        } else {
            0
        },
    decreases seq,
{
    if seq > 0 {
        let shorter = (seq - 1) as nat;
        mask_counts_scored_positions(score_from, shorter);
        assert(window_mask(score_from, seq).drop_last() =~= window_mask(score_from, shorter));
    }
}

/// The masks of the first `k` windows, one after another.
pub open spec fn masks_of(k: nat, seq_len: nat, stride: nat) -> Seq<bool>
    decreases k,
{
    if k == 0 {
        Seq::empty()
    } else {
        let i = (k - 1) as nat;
        masks_of(i, seq_len, stride) + window_mask(first_scored(i, seq_len, stride), seq_len)
    }
}

/// Masks one after another count what they count on their own, so it does not
/// matter how windows are batched.
pub proof fn mask_count_concat(a: Seq<bool>, b: Seq<bool>)
    ensures
        mask_count(a + b) == mask_count(a) + mask_count(b),
    decreases b.len(),
{
    if b.len() == 0 {
        assert(a + b =~= a);
    } else {
        mask_count_concat(a, b.drop_last());
        assert((a + b).drop_last() =~= a + b.drop_last());
    }
}

/// The masks and the window layout agree: the masks of all windows together
/// count what [`TokenDataset::n_scored_tokens`] predicts.
pub proof fn masks_agree_with_the_layout(k: nat, seq_len: nat, stride: nat)
    requires
        0 < stride <= seq_len,
    ensures
        mask_count(masks_of(k, seq_len, stride)) == scored_by(k, seq_len, stride),
    decreases k,
{
    if k > 0 {
        let i = (k - 1) as nat;
        let from = first_scored(i, seq_len, stride);
        masks_agree_with_the_layout(i, seq_len, stride);
        mask_counts_scored_positions(from, seq_len);
        mask_count_concat(masks_of(i, seq_len, stride), window_mask(from, seq_len));
    }
}

impl TokenBatch {
    /// The scored positions of the batch.
    pub fn n_scored(&self) -> (r: usize)
        ensures
            r == mask_count(self.score_mask@),
            r <= self.score_mask@.len(),
    {
        let mut n: usize = 0;
        let mut i: usize = 0;
        while i < self.score_mask.len()
            invariant
                i <= self.score_mask@.len(),
                n == mask_count(self.score_mask@.take(i as int)),
                n <= i,
            decreases self.score_mask@.len() - i,
        {
            assert(self.score_mask@.take(i + 1).drop_last() =~= self.score_mask@.take(i as int));
            if self.score_mask[i] {
                n = n + 1;
            }
            i = i + 1;
        }
        assert(self.score_mask@.take(i as int) =~= self.score_mask@);
        n
    }
}

} // verus!
