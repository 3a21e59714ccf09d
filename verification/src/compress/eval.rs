//! Measuring a compressor: what survives the bottleneck.
//!
//! The counts of a sweep are kept here. The headline is the free-running count,
//! where the decoder sees its own output and the latent and nothing else; the
//! teacher-forced count is an upper bound on the same tokens.

use vstd::prelude::*;

use vstd::string::*;

use tokenizers::Tokenizer;

use crate::chars::{absent, absent_across, absent_without};
use crate::compress::config::CompressConfig;
use crate::data::dataset::{window_count, window_in_stream, TokenDataset};
use crate::data::shard::Shard;
pub use crate::data::tokenizer::clean;
use crate::data::tokenizer::{
    cleaned, cleaning_hides_the_separator, decode, decode_returns, decodes_all, decoding,
    plain_decoder, EOS_TOKEN,
};
use crate::text::{
    append_decimal, append_right_aligned, around_one, around_two, decimal, decimal_is_digits,
    decimal_string, right_aligned, texts,
};

verus! {

/// How to sweep a shard for reconstruction. The windows are the spans of the
/// compressor, and disjoint: a strided sweep would count a token twice.
#[derive(Debug, Clone, Copy, PartialEq, Eq)]
pub struct CompressEvalConfig {
    pub batch_size: usize,
    pub num_workers: usize,
    /// Stop after this many spans. `None` sweeps the whole shard.
    pub max_spans: Option<usize>,
}

impl Default for CompressEvalConfig {
    /// A cap by default: the cost per span is a whole decode.
    fn default() -> (r: Self)
        ensures
            r.batch_size == 8,
            r.num_workers == 2,
            r.max_spans == Some(512usize),
    {
        CompressEvalConfig { batch_size: 8, num_workers: 2, max_spans: Some(512) }
    }
}

impl CompressEvalConfig {
    /// What is wrong with the settings, when something is.
    pub open spec fn fault(&self) -> Option<Seq<char>> {
        if self.batch_size == 0 {
            Some("batch_size must be positive"@)
        } else if self.max_spans == Some(0usize) {
            Some("max_spans must be positive, or None for the whole shard"@)
        } else {
            None
        }
    }

    /// The most spans that a sweep of `available` spans covers.
    pub open spec fn cap(&self, available: nat) -> nat {
        match self.max_spans {
            Some(n) => if n < available {
                n as nat
            } else {
                available
            },
            None => available,
        }
    }

    /// Rejects settings that sweep nothing.
    pub fn validate(&self) -> (r: Result<(), String>)
        ensures
            r is Ok <==> self.fault() is None,
            r is Err ==> self.fault() == Some(r->Err_0@),
    {
        if self.batch_size == 0 {
            return Err("batch_size must be positive".to_owned());
        }
        if let Some(n) = self.max_spans {
            if n == 0 {
                return Err("max_spans must be positive, or None for the whole shard".to_owned());
            }
        }
        Ok(())
    }
}

/// What a reconstruction sweep counted.
#[derive(Debug, Clone, Copy, PartialEq, Eq, Structural)]
pub struct ReconstructionScore {
    pub n_spans: usize,
    /// Spans the shard could have offered.
    pub n_spans_available: usize,
    /// Tokens covered: `n_spans * span_len`.
    pub n_tokens: usize,
    /// Tokens the free-running decode got exactly right. The headline.
    pub free_running_correct: usize,
    /// Tokens the teacher-forced pass got right. An upper bound.
    pub teacher_forced_correct: usize,
    /// Spans reconstructed free-running with every token correct.
    pub exact_spans: usize,
}

/// The rates of a sweep in decimal, as the report shows them.
#[derive(Debug, Clone, PartialEq, Eq)]
pub struct ReconstructionRates {
    pub free_running_percent: String,
    pub exact_span_percent: String,
    pub teacher_forced_percent: String,
    pub exposure_gap_percent: String,
    pub bits_per_token: String,
    pub bit_ratio: String,
    pub token_bits: String,
    pub token_ratio: String,
    pub nll: String,
    pub token_ppl: String,
}

/// How many positions of two id sequences agree.
pub open spec fn agreements(a: Seq<i64>, b: Seq<i64>) -> nat
    decreases a.len(),
{
    if a.len() == 0 || a.len() != b.len() {
        0
    } else {
        agreements(a.drop_last(), b.drop_last()) + if a.last() == b.last() {
            1nat
        } else {
            0
        }
    }
}

/// Span `i` of a batch of spans.
pub open spec fn span_of(flat: Seq<i64>, i: int, span_len: int) -> Seq<i64> {
    flat.subrange(i * span_len, i * span_len + span_len)
}

/// How many of the first `n` spans of two batches agree in every token.
pub open spec fn exact_spans(a: Seq<i64>, b: Seq<i64>, span_len: nat, n: nat) -> nat
    decreases n,
{
    if n == 0 {
        0
    } else {
        exact_spans(a, b, span_len, (n - 1) as nat) + if span_of(a, n - 1, span_len as int)
            == span_of(b, n - 1, span_len as int) {
            1nat
        } else {
            0
        }
    }
}

proof fn agreements_bounded(a: Seq<i64>, b: Seq<i64>)
    ensures
        agreements(a, b) <= a.len(),
    decreases a.len(),
{
    if a.len() > 0 && a.len() == b.len() {
        agreements_bounded(a.drop_last(), b.drop_last());
    }
}

proof fn exact_spans_bounded(a: Seq<i64>, b: Seq<i64>, span_len: nat, n: nat)
    ensures
        exact_spans(a, b, span_len, n) <= n,
    decreases n,
{
    if n > 0 {
        exact_spans_bounded(a, b, span_len, (n - 1) as nat);
    }
}

/// Agreements are counted part by part.
proof fn agreements_split(a: Seq<i64>, b: Seq<i64>, k: int)
    requires
        a.len() == b.len(),
        0 <= k <= a.len(),
    ensures
        agreements(a, b) == agreements(a.take(k), b.take(k)) + agreements(a.skip(k), b.skip(k)),
    decreases a.len(),
{
    if k == a.len() {
        assert(a.take(k) =~= a);
        assert(b.take(k) =~= b);
    } else {
        agreements_split(a.drop_last(), b.drop_last(), k);
        assert(a.drop_last().take(k) =~= a.take(k));
        assert(b.drop_last().take(k) =~= b.take(k));
        assert(a.drop_last().skip(k) =~= a.skip(k).drop_last());
        assert(b.drop_last().skip(k) =~= b.skip(k).drop_last());
    }
}

/// Every span that comes back whole counts all of its tokens: there are at least
/// as many correct tokens as the exact spans hold.
pub proof fn exact_spans_are_correct(a: Seq<i64>, b: Seq<i64>, span_len: nat, n: nat)
    requires
        a.len() == b.len(),
        n * span_len <= a.len(),
    ensures
        exact_spans(a, b, span_len, n) * span_len <= agreements(
            a.take((n * span_len) as int),
            b.take((n * span_len) as int),
        ),
    decreases n,
{
    let w = span_len as int;
    if n == 0 {
        assert(0 * w == 0) by (nonlinear_arith);
    } else {
        let m = (n - 1) as nat;
        let k = m * w;
        assert(n * w == k + w) by (nonlinear_arith)
            requires
                n == m + 1,
                k == m * w,
        ;
        assert(k >= 0) by (nonlinear_arith)
            requires
                k == m * w,
                w >= 0,
                m >= 0,
        ;
        exact_spans_are_correct(a, b, span_len, m);
        let x = a.take(n * w);
        let y = b.take(n * w);
        agreements_split(x, y, k);
        assert(x.take(k) =~= a.take(k));
        assert(y.take(k) =~= b.take(k));
        assert(x.skip(k) =~= span_of(a, m as int, w));
        assert(y.skip(k) =~= span_of(b, m as int, w));
        let e = exact_spans(a, b, span_len, m) as int;
        assert((e + 1) * w == e * w + w) by (nonlinear_arith);
        if span_of(a, m as int, w) == span_of(b, m as int, w) {
            identical_ids_agree(x.skip(k));
        }
    }
}

/// How many positions of two id sequences of one length agree.
pub fn n_equal(a: &[i64], b: &[i64]) -> (r: usize)
    requires
        a@.len() == b@.len(),
    ensures
        r == agreements(a@, b@),
        r <= a@.len(),
{
    let mut n: usize = 0;
    let mut i: usize = 0;
    while i < a.len()
        invariant
            i <= a@.len(),
            a@.len() == b@.len(),
            n == agreements(a@.take(i as int), b@.take(i as int)),
            n <= i,
        decreases a@.len() - i,
    {
        proof {
            assert(a@.take(i + 1).drop_last() =~= a@.take(i as int));
            assert(b@.take(i + 1).drop_last() =~= b@.take(i as int));
        }
        if a[i] == b[i] {
            n = n + 1;
        }
        i = i + 1;
    }
    proof {
        assert(a@.take(i as int) =~= a@);
        assert(b@.take(i as int) =~= b@);
    }
    n
}

/// How many of `n` spans agree in every token.
pub fn n_exact_spans(a: &[i64], b: &[i64], span_len: usize, n: usize) -> (r: usize)
    requires
        a@.len() == n * span_len,
        b@.len() == n * span_len,
    ensures
        r == exact_spans(a@, b@, span_len as nat, n as nat),
        r <= n,
{
    let limit: usize = a.len();
    let mut exact: usize = 0;
    let mut i: usize = 0;
    while i < n
        invariant
            i <= n,
            a@.len() == n * span_len,
            b@.len() == n * span_len,
            limit == a@.len(),
            exact == exact_spans(a@, b@, span_len as nat, i as nat),
            exact <= i,
        decreases n - i,
    {
        proof {
            assert(i * span_len + span_len <= n * span_len && 0 <= i * span_len)
                by (nonlinear_arith)
                requires
                    i + 1 <= n,
                    span_len >= 0,
                    i >= 0,
            ;
        }
        let from: usize = i * span_len;
        let mut same: bool = true;
        let mut p: usize = 0;
        while p < span_len
            invariant
                p <= span_len,
                from == i * span_len,
                from + span_len <= limit,
                limit == a@.len(),
                a@.len() == b@.len(),
                same <==> forall|q: int| from <= q < from + p ==> #[trigger] a@[q] == b@[q],
            decreases span_len - p,
        {
            if a[from + p] != b[from + p] {
                same = false;
            }
            p = p + 1;
        }
        proof {
            let x = span_of(a@, i as int, span_len as int);
            let y = span_of(b@, i as int, span_len as int);
            if same {
                assert(x =~= y);
            } else {
                let q = choose|q: int| from <= q < from + span_len && #[trigger] a@[q] != b@[q];
                assert(x[q - from] != y[q - from]);
            }
        }
        if same {
            exact = exact + 1;
        }
        i = i + 1;
    }
    exact
}

/// A sweep under way: what is counted so far, and how far it goes.
#[derive(Debug, Clone, Copy, PartialEq, Eq, Structural)]
pub struct Sweep {
    pub score: ReconstructionScore,
    pub span_len: usize,
    /// The most spans to cover.
    pub budget: usize,
}

/// Why a shard cannot be swept, when it cannot.
pub open spec fn sweep_fault(
    config: CompressEvalConfig,
    compressor: CompressConfig,
    shard: Shard,
) -> Option<Seq<char>> {
    let span = compressor.span_len as nat;
    if config.fault() is Some {
        config.fault()
    } else if shard.counts().vocab_size != compressor.model.vocab_size {
        Some(
            "shard vocab "@ + decimal(shard.counts().vocab_size as nat) + " != model vocab "@
                + decimal(compressor.model.vocab_size as nat)
                + ": this shard was tokenized with a different tokenizer, and its ids mean nothing to this model"@,
        )
    } else if window_count(shard@.len(), span, span) == 0 {
        Some(
            "shard holds "@ + decimal(shard@.len()) + " tokens, too few for even one "@ + decimal(
                span,
            ) + "-token span"@,
        )
    } else {
        None
    }
}

impl Sweep {
    /// The counts describe one set of tokens, and stay within the budget.
    pub open spec fn wf(&self) -> bool {
        let s = self.score;
        &&& s.n_tokens == s.n_spans * self.span_len
        &&& s.n_spans <= s.n_spans_available
        &&& s.n_spans <= self.budget
        &&& s.n_spans_available * self.span_len <= usize::MAX
        &&& s.free_running_correct <= s.n_tokens
        &&& s.teacher_forced_correct <= s.n_tokens
        &&& s.exact_spans <= s.n_spans
        &&& s.exact_spans * self.span_len <= s.free_running_correct
    }

    /// A sweep of `shard` at its start.
    pub open spec fn at_start(
        config: CompressEvalConfig,
        compressor: CompressConfig,
        shard: Shard,
    ) -> Sweep {
        let span = compressor.span_len as nat;
        Sweep {
            score: ReconstructionScore {
                n_spans: 0,
                n_spans_available: window_count(shard@.len(), span, span) as usize,
                n_tokens: 0,
                free_running_correct: 0,
                teacher_forced_correct: 0,
                exact_spans: 0,
            },
            span_len: compressor.span_len,
            budget: match config.max_spans {
                Some(n) => n,
                None => usize::MAX,
            },
        }
    }

    /// The sweep once a batch of `take` spans is counted.
    pub open spec fn recorded(
        &self,
        take: nat,
        spans: Seq<i64>,
        forced: Seq<i64>,
        decoded: Seq<i64>,
    ) -> Sweep {
        let s = self.score;
        Sweep {
            score: ReconstructionScore {
                n_spans: (s.n_spans + take) as usize,
                n_spans_available: s.n_spans_available,
                n_tokens: (s.n_tokens + spans.len()) as usize,
                free_running_correct: (s.free_running_correct + agreements(
                    decoded,
                    spans,
                )) as usize,
                teacher_forced_correct: (s.teacher_forced_correct + agreements(
                    forced,
                    spans,
                )) as usize,
                exact_spans: (s.exact_spans + exact_spans(
                    decoded,
                    spans,
                    self.span_len as nat,
                    take,
                )) as usize,
            },
            ..*self
        }
    }

    /// The spans of a batch of `rows` that are still to be covered.
    pub open spec fn share(&self, rows: nat) -> nat {
        let left = (self.budget - self.score.n_spans) as nat;
        if left < rows {
            left
        } else {
            rows
        }
    }

    /// A sweep of `shard` at its start, or why there is none.
    pub fn start(config: &CompressEvalConfig, compressor: &CompressConfig, shard: Shard<'_>) -> (r:
        Result<Self, String>)
        requires
            compressor.span_len > 0,
        ensures
            match sweep_fault(*config, *compressor, shard) {
                Some(fault) => r is Err && r->Err_0@ == fault,
                None => {
                    &&& r is Ok
                    &&& r->Ok_0 == Sweep::at_start(*config, *compressor, shard)
                    &&& r->Ok_0.wf()
                    &&& r->Ok_0.score.n_spans_available == window_count(
                        shard@.len(),
                        compressor.span_len as nat,
                        compressor.span_len as nat,
                    )
                },
            },
    {
        match config.validate() {
            Ok(()) => {},
            Err(e) => {
                return Err(e);
            },
        }
        if shard.meta().vocab_size != compressor.model.vocab_size {
            return Err(
                around_two(
                    "shard vocab ",
                    shard.meta().vocab_size,
                    " != model vocab ",
                    compressor.model.vocab_size,
                    ": this shard was tokenized with a different tokenizer, and its ids mean nothing to this model",
                ),
            );
        }
        let n_tokens: usize = shard.len();
        let available: usize = TokenDataset::train(shard, compressor.span_len).len();
        if available == 0 {
            return Err(
                around_two(
                    "shard holds ",
                    n_tokens,
                    " tokens, too few for even one ",
                    compressor.span_len,
                    "-token span",
                ),
            );
        }
        let budget: usize = match config.max_spans {
            Some(n) => n,
            None => usize::MAX,
        };
        proof {
            let w = compressor.span_len as nat;
            let last = (available - 1) as nat;
            window_in_stream(n_tokens as nat, w, w, last);
            assert(available * w == last * w + w) by (nonlinear_arith)
                requires
                    available == last + 1,
            ;
            assert(0 * w == 0) by (nonlinear_arith);
        }
        Ok(
            Sweep {
                score: ReconstructionScore {
                    n_spans: 0,
                    n_spans_available: available,
                    n_tokens: 0,
                    free_running_correct: 0,
                    teacher_forced_correct: 0,
                    exact_spans: 0,
                },
                span_len: compressor.span_len,
                budget,
            },
        )
    }

    /// How many spans of a batch of `rows` to cover: the last batch is trimmed
    /// to the budget, and none is left once the budget is spent.
    pub fn take(&self, rows: usize) -> (r: usize)
        requires
            self.wf(),
        ensures
            r == self.share(rows as nat),
            self.score.n_spans + r <= self.budget,
    {
        let left: usize = self.budget - self.score.n_spans;
        if left < rows {
            left
        } else {
            rows
        }
    }

    /// Counts a batch of `take` spans: the spans, what the teacher-forced pass
    /// predicts of them, and what the free-running decode makes of them.
    pub fn record(&mut self, take: usize, spans: &[i64], forced: &[i64], decoded: &[i64])
        requires
            old(self).wf(),
            take <= old(self).score.n_spans_available - old(self).score.n_spans,
            take <= old(self).budget - old(self).score.n_spans,
            spans@.len() == take * old(self).span_len,
            forced@.len() == spans@.len(),
            decoded@.len() == spans@.len(),
        ensures
            final(self).wf(),
            *final(self) == old(self).recorded(take as nat, spans@, forced@, decoded@),
    {
        proof {
            recording_keeps_counts(*self, take as nat, spans@, forced@, decoded@);
        }
        let free: usize = n_equal(decoded, spans);
        let teacher: usize = n_equal(forced, spans);
        let exact: usize = n_exact_spans(decoded, spans, self.span_len, take);
        let s = self.score;
        self.score = ReconstructionScore {
            n_spans: s.n_spans + take,
            n_spans_available: s.n_spans_available,
            n_tokens: s.n_tokens + spans.len(),
            free_running_correct: s.free_running_correct + free,
            teacher_forced_correct: s.teacher_forced_correct + teacher,
            exact_spans: s.exact_spans + exact,
        };
    }
}

/// Counting a batch keeps the counts in step, whatever came back.
proof fn recording_keeps_counts(
    sweep: Sweep,
    take: nat,
    spans: Seq<i64>,
    forced: Seq<i64>,
    decoded: Seq<i64>,
)
    requires
        sweep.wf(),
        take <= sweep.score.n_spans_available - sweep.score.n_spans,
        take <= sweep.budget - sweep.score.n_spans,
        spans.len() == take * sweep.span_len,
        forced.len() == spans.len(),
        decoded.len() == spans.len(),
    ensures
        sweep.score.n_tokens + spans.len() <= usize::MAX,
        agreements(decoded, spans) <= spans.len(),
        agreements(forced, spans) <= spans.len(),
        exact_spans(decoded, spans, sweep.span_len as nat, take) <= take,
        sweep.recorded(take, spans, forced, decoded).wf(),
{
    let a = sweep.score.n_spans as int;
    let b = take as int;
    let w = sweep.span_len as int;
    let all = sweep.score.n_spans_available as int;
    assert((a + b) * w == a * w + b * w) by (nonlinear_arith);
    assert((a + b) * w <= all * w) by (nonlinear_arith)
        requires
            a + b <= all,
            w >= 0,
    ;
    agreements_bounded(decoded, spans);
    agreements_bounded(forced, spans);
    exact_spans_bounded(decoded, spans, sweep.span_len as nat, take);
    exact_spans_are_correct(decoded, spans, sweep.span_len as nat, take);
    assert(decoded.take(b * w) =~= decoded);
    assert(spans.take(b * w) =~= spans);
    let e = sweep.score.exact_spans as int;
    let f = exact_spans(decoded, spans, sweep.span_len as nat, take) as int;
    assert((e + f) * w == e * w + f * w) by (nonlinear_arith);
}

/// A batch of a sweep: how many spans it offers; then, of those that are
/// covered, the spans, what the teacher-forced pass predicts of them, and what
/// the free-running decode makes of them.
pub type SweepBatch = (nat, Seq<i64>, Seq<i64>, Seq<i64>);

/// The sweep once all batches are counted, each as far as the budget goes.
pub open spec fn swept(start: Sweep, batches: Seq<SweepBatch>) -> Sweep
    decreases batches.len(),
{
    if batches.len() == 0 {
        start
    } else {
        let before = swept(start, batches.drop_last());
        let b = batches.last();
        before.recorded(before.share(b.0), b.1, b.2, b.3)
    }
}

/// Whether each batch holds the spans that are covered of it.
pub open spec fn batches_fit(start: Sweep, batches: Seq<SweepBatch>) -> bool
    decreases batches.len(),
{
    batches.len() == 0 || {
        let before = swept(start, batches.drop_last());
        let b = batches.last();
        &&& batches_fit(start, batches.drop_last())
        &&& b.1.len() == before.share(b.0) * start.span_len
        &&& b.2.len() == b.1.len()
        &&& b.3.len() == b.1.len()
    }
}

/// The sizes of batches.
pub open spec fn sizes(batches: Seq<SweepBatch>) -> Seq<nat> {
    batches.map_values(|b: SweepBatch| b.0)
}

proof fn sweeping_keeps_counts(start: Sweep, batches: Seq<SweepBatch>)
    requires
        start.wf(),
        start.score.n_spans == 0,
        batches_fit(start, batches),
        offered(sizes(batches)) <= start.score.n_spans_available,
    ensures
        ({
            let end = swept(start, batches);
            &&& end.wf()
            &&& end.span_len == start.span_len
            &&& end.budget == start.budget
            &&& end.score.n_spans_available == start.score.n_spans_available
            &&& end.score.n_spans == covered(start.budget as nat, sizes(batches))
        }),
    decreases batches.len(),
{
    if batches.len() > 0 {
        let front = batches.drop_last();
        let b = batches.last();
        assert(sizes(batches).drop_last() =~= sizes(front));
        sweeping_keeps_counts(start, front);
        budget_bounds_the_sweep(start.budget as nat, sizes(front));
        let before = swept(start, front);
        recording_keeps_counts(before, before.share(b.0), b.1, b.2, b.3);
    }
}

/// A sweep covers every span of the shard, or as many as the settings allow,
/// however the spans are batched. It counts each token of them once; no more
/// tokens are correct than there are, and at least those of the exact spans.
pub proof fn sweep_covers_the_cap(
    config: CompressEvalConfig,
    compressor: CompressConfig,
    shard: Shard,
    batches: Seq<SweepBatch>,
)
    requires
        sweep_fault(config, compressor, shard) is None,
        Sweep::at_start(config, compressor, shard).wf(),
        Sweep::at_start(config, compressor, shard).score.n_spans_available == window_count(
            shard@.len(),
            compressor.span_len as nat,
            compressor.span_len as nat,
        ),
        batches_fit(Sweep::at_start(config, compressor, shard), batches),
        offered(sizes(batches)) == Sweep::at_start(
            config,
            compressor,
            shard,
        ).score.n_spans_available,
    ensures
        ({
            let start = Sweep::at_start(config, compressor, shard);
            let available = start.score.n_spans_available;
            let s = swept(start, batches).score;
            &&& s.n_spans_available == available >= 1
            &&& s.n_spans == config.cap(available as nat)
            &&& s.n_tokens == s.n_spans * compressor.span_len
            &&& s.teacher_forced_correct <= s.n_tokens
            &&& s.exact_spans * compressor.span_len <= s.free_running_correct <= s.n_tokens
        }),
{
    let start = Sweep::at_start(config, compressor, shard);
    sweeping_keeps_counts(start, batches);
    budget_bounds_the_sweep(start.budget as nat, sizes(batches));
}

/// The spans that a sweep with this budget covers of batches of these sizes.
pub open spec fn covered(budget: nat, batches: Seq<nat>) -> nat
    decreases batches.len(),
{
    if batches.len() == 0 {
        0
    } else {
        let before = covered(budget, batches.drop_last());
        let left = (budget - before) as nat;
        before + if left < batches.last() {
            left
        } else {
            batches.last()
        }
    }
}

/// The spans of batches of these sizes.
pub open spec fn offered(batches: Seq<nat>) -> nat
    decreases batches.len(),
{
    if batches.len() == 0 {
        0
    } else {
        offered(batches.drop_last()) + batches.last()
    }
}

/// The cap is exact: a sweep covers all spans offered to it, or as many as the
/// budget allows, whichever is less, however the spans are batched.
pub proof fn budget_bounds_the_sweep(budget: nat, batches: Seq<nat>)
    ensures
        covered(budget, batches) == if offered(batches) < budget {
            offered(batches)
        } else {
            budget
        },
    decreases batches.len(),
{
    if batches.len() > 0 {
        budget_bounds_the_sweep(budget, batches.drop_last());
    }
}

/// A span that comes back whole counts all of its tokens.
pub proof fn identical_ids_agree(a: Seq<i64>)
    ensures
        agreements(a, a) == a.len(),
    decreases a.len(),
{
    if a.len() > 0 {
        identical_ids_agree(a.drop_last());
    }
}

/// A line of the report: a label and a number in a column of ten.
pub open spec fn rate_line(label: Seq<char>, value: Seq<char>, rest: Seq<char>) -> Seq<char> {
    label + right_aligned(value, 10) + rest
}

fn append_rate_line(out: &mut String, label: &str, value: &str, rest: &str)
    ensures
        final(out)@ == old(out)@ + rate_line(label@, value@, rest@),
{
    out.append(label);
    append_right_aligned(out, value, 10);
    out.append(rest);
    assert(out@ =~= old(out)@ + rate_line(label@, value@, rest@));
}

impl ReconstructionScore {
    /// The counts and rates for a reader.
    pub open spec fn summary(&self, rates: ReconstructionRates) -> Seq<char> {
        rate_line(
            "free-running accuracy   "@,
            rates.free_running_percent@,
            "%   <- the headline (latent only)\n"@,
        ) + rate_line(
            "exact-span rate         "@,
            rates.exact_span_percent@,
            "%   (spans recovered token-for-token)\n"@,
        ) + rate_line(
            "teacher-forced accuracy "@,
            rates.teacher_forced_percent@,
            "%   (upper bound; the decoder saw the true prefix)\n"@,
        ) + rate_line(
            "exposure gap            "@,
            rates.exposure_gap_percent@,
            "%   (large => the decoder leans on its prefix)\n"@,
        ) + rate_line(
            "bits per token          "@,
            rates.bits_per_token@,
            "    ("@ + rates.bit_ratio@ + "x vs "@ + rates.token_bits@ + " bits for a raw id)\n"@,
        ) + rate_line(
            "token ratio             "@,
            rates.token_ratio@,
            "    (sequence length, not information)\n"@,
        ) + rate_line(
            "reconstruction NLL      "@,
            rates.nll@,
            "    (the training loss; ppl "@ + rates.token_ppl@ + ")\n"@,
        ) + rate_line(
            "spans                   "@,
            decimal(self.n_spans as nat),
            "    ("@ + decimal(self.n_spans_available as nat) + " available in the shard)\n"@,
        ) + rate_line("tokens                  "@, decimal(self.n_tokens as nat), ""@)
    }

    /// Renders the counts and rates for a reader. The rates are quotients and
    /// logarithms; their texts come with the call.
    pub fn report(&self, rates: &ReconstructionRates) -> (s: String)
        ensures
            s@ == self.summary(*rates),
    {
        let mut s = String::new();
        append_rate_line(
            &mut s,
            "free-running accuracy   ",
            rates.free_running_percent.as_str(),
            "%   <- the headline (latent only)\n",
        );
        append_rate_line(
            &mut s,
            "exact-span rate         ",
            rates.exact_span_percent.as_str(),
            "%   (spans recovered token-for-token)\n",
        );
        append_rate_line(
            &mut s,
            "teacher-forced accuracy ",
            rates.teacher_forced_percent.as_str(),
            "%   (upper bound; the decoder saw the true prefix)\n",
        );
        append_rate_line(
            &mut s,
            "exposure gap            ",
            rates.exposure_gap_percent.as_str(),
            "%   (large => the decoder leans on its prefix)\n",
        );
        let mut bits = "    (".to_owned();
        bits.append(rates.bit_ratio.as_str());
        bits.append("x vs ");
        bits.append(rates.token_bits.as_str());
        bits.append(" bits for a raw id)\n");
        append_rate_line(
            &mut s,
            "bits per token          ",
            rates.bits_per_token.as_str(),
            bits.as_str(),
        );
        append_rate_line(
            &mut s,
            "token ratio             ",
            rates.token_ratio.as_str(),
            "    (sequence length, not information)\n",
        );
        let mut ppl = "    (the training loss; ppl ".to_owned();
        ppl.append(rates.token_ppl.as_str());
        ppl.append(")\n");
        append_rate_line(&mut s, "reconstruction NLL      ", rates.nll.as_str(), ppl.as_str());
        append_rate_line(
            &mut s,
            "spans                   ",
            decimal_string(self.n_spans).as_str(),
            around_one("    (", self.n_spans_available, " available in the shard)\n").as_str(),
        );
        append_rate_line(
            &mut s,
            "tokens                  ",
            decimal_string(self.n_tokens).as_str(),
            "",
        );
        assert(s@ =~= self.summary(*rates));
        s
    }
}

/// One span, before and after the round trip.
#[derive(Debug, Clone, PartialEq, Eq)]
pub struct ReconstructionSample {
    pub original: String,
    pub reconstruction: String,
    /// Tokens correct in this span, out of `span_len`.
    pub correct: usize,
    pub span_len: usize,
}

/// Ids as a model hands them out.
pub open spec fn wide(ids: Seq<u32>) -> Seq<i64> {
    ids.map_values(|t: u32| t as i64)
}

fn widened(ids: &[u32]) -> (r: Vec<i64>)
    ensures
        r@ == wide(ids@),
{
    let mut r: Vec<i64> = Vec::new();
    let mut i: usize = 0;
    while i < ids.len()
        invariant
            i <= ids@.len(),
            r@ =~= wide(ids@).take(i as int),
        decreases ids@.len() - i,
    {
        r.push(ids[i] as i64);
        i = i + 1;
    }
    assert(r@ =~= wide(ids@));
    r
}

/// A span and its reconstruction, both decoded, and how many tokens agree.
pub fn sample(tokenizer: &Tokenizer, original: &[u32], reconstruction: &[u32]) -> (r: Result<
    ReconstructionSample,
    String,
>)
    requires
        original@.len() == reconstruction@.len(),
        decode_returns(*tokenizer, original@),
        decode_returns(*tokenizer, reconstruction@),
    ensures
        r is Ok <==> decoding(*tokenizer, original@) is Ok && decoding(
            *tokenizer,
            reconstruction@,
        ) is Ok,
        r is Ok ==> r->Ok_0.original@ == decoding(*tokenizer, original@)->Ok_0
            && r->Ok_0.reconstruction@ == decoding(*tokenizer, reconstruction@)->Ok_0
            && r->Ok_0.correct == agreements(wide(reconstruction@), wide(original@))
            && r->Ok_0.span_len == original@.len(),
        r is Err ==> r->Err_0@ == "decoding failed: "@ + match decoding(*tokenizer, original@) {
            Err(e) => e,
            Ok(_) => decoding(*tokenizer, reconstruction@)->Err_0,
        },
{
    let correct: usize = n_equal(widened(reconstruction).as_slice(), widened(original).as_slice());
    let before = match decode(tokenizer, original) {
        Ok(text) => text,
        Err(e) => {
            return Err(e);
        },
    };
    let after = match decode(tokenizer, reconstruction) {
        Ok(text) => text,
        Err(e) => {
            return Err(e);
        },
    };
    Ok(
        ReconstructionSample {
            original: before,
            reconstruction: after,
            correct,
            span_len: original.len(),
        },
    )
}

/// A span and its reconstruction, as [`sample`], where the tokenizer is known to
/// decode every list of ids; `None` where it is not.
pub fn try_sample(tokenizer: &Tokenizer, original: &[u32], reconstruction: &[u32]) -> (r: Option<
    Result<ReconstructionSample, String>,
>)
    requires
        original@.len() == reconstruction@.len(),
    ensures
        r is Some <==> plain_decoder(*tokenizer),
        r is Some ==> (r->Some_0 is Ok <==> decoding(*tokenizer, original@) is Ok && decoding(
            *tokenizer,
            reconstruction@,
        ) is Ok),
        r is Some && r->Some_0 is Ok ==> r->Some_0->Ok_0.original@ == decoding(
            *tokenizer,
            original@,
        )->Ok_0 && r->Some_0->Ok_0.reconstruction@ == decoding(
            *tokenizer,
            reconstruction@,
        )->Ok_0 && r->Some_0->Ok_0.correct == agreements(wide(reconstruction@), wide(original@))
            && r->Some_0->Ok_0.span_len == original@.len(),
        r is Some && r->Some_0 is Err ==> r->Some_0->Err_0@ == "decoding failed: "@ + match decoding(
            *tokenizer,
            original@,
        ) {
            Err(e) => e,
            Ok(_) => decoding(*tokenizer, reconstruction@)->Err_0,
        },
{
    if decodes_all(tokenizer) {
        Some(sample(tokenizer, original, reconstruction))
    } else {
        None
    }
}

/// One sample for a reader; `percent` is the share of tokens that agree.
pub open spec fn shown_sample(i: nat, sample: ReconstructionSample, percent: Seq<char>) -> Seq<
    char,
> {
    "--- span "@ + decimal(i) + " ("@ + decimal(sample.correct as nat) + "/"@ + decimal(
        sample.span_len as nat,
    ) + " tokens, "@ + percent + "%) ---\n  in : "@ + cleaned(sample.original@)
        + "\n  out: "@ + cleaned(sample.reconstruction@) + "\n\n"@
}

/// Samples for a reader, in order.
pub open spec fn shown_samples(
    samples: Seq<ReconstructionSample>,
    percents: Seq<Seq<char>>,
) -> Seq<char>
    decreases samples.len(),
{
    if samples.len() == 0 {
        Seq::empty()
    } else {
        shown_samples(samples.drop_last(), percents) + shown_sample(
            (samples.len() - 1) as nat,
            samples.last(),
            percents[samples.len() - 1],
        )
    }
}

/// Render samples for a reader. `percents` are the shares of tokens that agree,
/// in decimal, one for each sample.
pub fn report(samples: &Vec<ReconstructionSample>, percents: &Vec<String>) -> (r: String)
    requires
        samples@.len() == percents@.len(),
    ensures
        r@ == shown_samples(samples@, texts(percents@)),
{
    let mut s = String::new();
    let mut i: usize = 0;
    while i < samples.len()
        invariant
            i <= samples@.len(),
            samples@.len() == percents@.len(),
            s@ == shown_samples(samples@.take(i as int), texts(percents@)),
        decreases samples@.len() - i,
    {
        let ghost before = s@;
        let sample = &samples[i];
        s.append("--- span ");
        append_decimal(&mut s, i);
        s.append(" (");
        append_decimal(&mut s, sample.correct);
        s.append("/");
        append_decimal(&mut s, sample.span_len);
        s.append(" tokens, ");
        s.append(percents[i].as_str());
        s.append("%) ---\n  in : ");
        s.append(clean(sample.original.as_str()).as_str());
        s.append("\n  out: ");
        s.append(clean(sample.reconstruction.as_str()).as_str());
        s.append("\n\n");
        proof {
            assert(samples@.take(i + 1).drop_last() =~= samples@.take(i as int));
            assert(s@ =~= before + shown_sample(i as nat, *sample, percents@[i as int]@));
        }
        i = i + 1;
    }
    assert(samples@.take(i as int) =~= samples@);
    s
}

proof fn shown_sample_hides_the_separator(
    i: nat,
    sample: ReconstructionSample,
    percent: Seq<char>,
)
    requires
        absent(percent, EOS_TOKEN@),
    ensures
        absent(shown_sample(i, sample, percent), EOS_TOKEN@),
        shown_sample(i, sample, percent).len() > 0,
        shown_sample(i, sample, percent)[0] == '-',
{
    let w = EOS_TOKEN@;
    reveal_strlit("<|endoftext|>");
    reveal_strlit("--- span ");
    reveal_strlit(" (");
    reveal_strlit("/");
    reveal_strlit(" tokens, ");
    reveal_strlit("%) ---\n  in : ");
    reveal_strlit("\n  out: ");
    reveal_strlit("\n\n");
    assert(w[0] == '<');
    let index = decimal(i);
    let correct = decimal(sample.correct as nat);
    let of = decimal(sample.span_len as nat);
    decimal_is_digits(i);
    decimal_is_digits(sample.correct as nat);
    decimal_is_digits(sample.span_len as nat);
    absent_without(index, w, '<');
    absent_without(correct, w, '<');
    absent_without(of, w, '<');
    absent_without("--- span "@, w, '<');
    absent_without(" ("@, w, '<');
    absent_without("/"@, w, '<');
    absent_without(" tokens, "@, w, '<');
    absent_without("%) ---\n  in : "@, w, '<');
    absent_without("\n  out: "@, w, '<');
    absent_without("\n\n"@, w, '<');
    cleaning_hides_the_separator(sample.original@);
    cleaning_hides_the_separator(sample.reconstruction@);
    let s1 = "--- span "@ + index;
    absent_across("--- span "@, index, w);
    let s2 = s1 + " ("@;
    absent_across(s1, " ("@, w);
    let s3 = s2 + correct;
    absent_across(s2, correct, w);
    let s4 = s3 + "/"@;
    absent_across(s3, "/"@, w);
    let s5 = s4 + of;
    absent_across(s4, of, w);
    let s6 = s5 + " tokens, "@;
    absent_across(s5, " tokens, "@, w);
    let s7 = s6 + percent;
    absent_across(s6, percent, w);
    let s8 = s7 + "%) ---\n  in : "@;
    absent_across(s7, "%) ---\n  in : "@, w);
    let s9 = s8 + cleaned(sample.original@);
    absent_across(s8, cleaned(sample.original@), w);
    let s10 = s9 + "\n  out: "@;
    absent_across(s9, "\n  out: "@, w);
    let s11 = s10 + cleaned(sample.reconstruction@);
    absent_across(s10, cleaned(sample.reconstruction@), w);
    absent_across(s11, "\n\n"@, w);
}

/// A reader of samples never meets the separator.
pub proof fn samples_hide_the_separator(
    samples: Seq<ReconstructionSample>,
    percents: Seq<Seq<char>>,
)
    requires
        samples.len() <= percents.len(),
        forall|i: int|
            0 <= i < percents.len() ==> absent(#[trigger] percents[i], EOS_TOKEN@),
    ensures
        absent(shown_samples(samples, percents), EOS_TOKEN@),
    decreases samples.len(),
{
    reveal_strlit("<|endoftext|>");
    if samples.len() == 0 {
        absent_without(shown_samples(samples, percents), EOS_TOKEN@, EOS_TOKEN@[0]);
    } else {
        let front = samples.drop_last();
        let i = (samples.len() - 1) as nat;
        samples_hide_the_separator(front, percents);
        shown_sample_hides_the_separator(i, samples.last(), percents[i as int]);
        absent_across(
            shown_samples(front, percents),
            shown_sample(i, samples.last(), percents[i as int]),
            EOS_TOKEN@,
        );
    }
}

} // verus!
