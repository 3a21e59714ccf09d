//! Decoding samples from a language model.
//!
//! The model's logits come from outside; what to do with them, and when to
//! stop, is decided here.

use vstd::prelude::*;

use vstd::string::*;

use tokenizers::Tokenizer;

use crate::chars::{absent, absent_across, absent_without};
use crate::data::tokenizer::{
    clean, cleaned, cleaning_hides_the_separator, decode, decode_returns, decodes_all, decoding,
    encode, encode_returns, encodes_all, eos_id, may_encode, may_refuse, one_outcome, plain_decoder,
    plain_encoder, vocabulary, EOS_TOKEN,
};
use crate::number::{
    at_most, at_most64, less, less64, total_order32, total_order_single, Real, ONE, ZERO,
};
use crate::order::{is_ranking, ranked, ranks_before};
use crate::text::{append_decimal, around_two, decimal, decimal_is_digits};

verus! {

/// The frozen prompt set, chosen to separate failure modes: an encyclopaedic
/// opener, a factual continuation, agreement over an intervening clause, a
/// list, a subordinate clause, and a prompt out of register.
pub fn prompts() -> (r: Vec<&'static str>)
    ensures
        r@ == seq![
            "The history of the city begins",
            "In 1994 , the team won",
            "The scientist who wrote the papers about the migration of birds",
            "The three largest islands are",
            "Although the bridge had been rebuilt twice , it",
            "\" I don 't think so , \" she said",
        ],
{
    let r: Vec<&'static str> = vec![
        "The history of the city begins",
        "In 1994 , the team won",
        "The scientist who wrote the papers about the migration of birds",
        "The three largest islands are",
        "Although the bridge had been rebuilt twice , it",
        "\" I don 't think so , \" she said",
    ];
    assert(r@ =~= seq![
        "The history of the city begins",
        "In 1994 , the team won",
        "The scientist who wrote the papers about the migration of birds",
        "The three largest islands are",
        "Although the bridge had been rebuilt twice , it",
        "\" I don 't think so , \" she said",
    ]);
    r
}

/// How to decode. The defaults are the reference settings: greedy, because a
/// deterministic sample is the one worth committing to a report.
#[derive(Debug, Clone, PartialEq, Eq)]
pub struct GenerationConfig {
    pub max_new_tokens: usize,
    /// Zero means greedy. Above that, logits are divided by it.
    pub temperature: Real,
    /// Sample only from the `k` most likely tokens; `0` disables the cutoff.
    pub top_k: usize,
    /// Keep the most likely tokens up to this cumulative probability; one
    /// disables it. Applied after `top_k`.
    pub top_p: Real,
    /// Seeds the sampler.
    pub seed: u64,
    /// Stop when the model emits the document separator.
    pub stop_at_eos: bool,
}

/// The bits of `0.95`.
pub const TOP_P_0_95: u64 = 0x3fee_6666_6666_6666;

impl Default for GenerationConfig {
    fn default() -> (r: Self)
        ensures
            r.max_new_tokens == 64,
            r.temperature.bits == ZERO && r.temperature.text@ == "0"@,
            r.top_k == 40,
            r.top_p.bits == TOP_P_0_95 && r.top_p.text@ == "0.95"@,
            r.seed == 42,
            r.stop_at_eos,
    {
        GenerationConfig {
            max_new_tokens: 64,
            temperature: Real::new(ZERO, "0"),
            top_k: 40,
            top_p: Real::new(TOP_P_0_95, "0.95"),
            seed: 42,
            stop_at_eos: true,
        }
    }
}

impl GenerationConfig {
    /// What is wrong with the settings, when something is.
    pub open spec fn fault(&self) -> Option<Seq<char>> {
        if less64(self.temperature.bits, ZERO) {
            Some("temperature "@ + self.temperature.text@ + " must not be negative"@)
        } else if !(at_most64(ZERO, self.top_p.bits) && at_most64(self.top_p.bits, ONE)) {
            Some("top_p "@ + self.top_p.text@ + " must be in 0..=1"@)
        } else {
            None
        }
    }

    /// Whether the most likely token is always taken.
    pub open spec fn greedy(&self) -> bool {
        at_most64(self.temperature.bits, ZERO) && at_most64(ZERO, self.temperature.bits)
    }

    /// Rejects settings that name no distribution.
    pub fn validate(&self) -> (r: Result<(), String>)
        ensures
            r is Ok <==> self.fault() is None,
            r is Err ==> self.fault() == Some(r->Err_0@),
    {
        if less(self.temperature.bits, ZERO) {
            let mut s = "temperature ".to_owned();
            s.append(self.temperature.text.as_str());
            s.append(" must not be negative");
            return Err(s);
        }
        if !(at_most(ZERO, self.top_p.bits) && at_most(self.top_p.bits, ONE)) {
            let mut s = "top_p ".to_owned();
            s.append(self.top_p.text.as_str());
            s.append(" must be in 0..=1");
            return Err(s);
        }
        Ok(())
    }

    /// Whether the most likely token is always taken.
    pub fn is_greedy(&self) -> (r: bool)
        ensures
            r == self.greedy(),
    {
        at_most(self.temperature.bits, ZERO) && at_most(ZERO, self.temperature.bits)
    }

    /// Whether the nucleus cutoff applies.
    pub fn cuts_nucleus(&self) -> (r: bool)
        ensures
            r == less64(self.top_p.bits, ONE),
    {
        less(self.top_p.bits, ONE)
    }
}

/// Why decoding stopped.
#[derive(Debug, Clone, Copy, PartialEq, Eq, Structural)]
pub enum StopReason {
    /// The model emitted the document separator.
    Eos,
    /// `max_new_tokens` reached.
    Limit,
    /// The context filled up.
    ContextFull,
}

impl StopReason {
    /// The name of the reason.
    pub open spec fn label(&self) -> Seq<char> {
        match *self {
            StopReason::Eos => "Eos"@,
            StopReason::Limit => "Limit"@,
            StopReason::ContextFull => "ContextFull"@,
        }
    }

    /// The name of the reason.
    pub fn name(&self) -> (r: &'static str)
        ensures
            r@ == self.label(),
    {
        match *self {
            StopReason::Eos => "Eos",
            StopReason::Limit => "Limit",
            StopReason::ContextFull => "ContextFull",
        }
    }
}

/// A prompt and what the model made of it.
#[derive(Debug, Clone, PartialEq, Eq)]
pub struct Sample {
    pub prompt: String,
    pub completion: String,
    pub n_new_tokens: usize,
    pub stop_reason: StopReason,
}

/// What is reported of a prompt of `n` tokens that fills the context.
pub open spec fn no_room(n: nat, max_seq_len: nat) -> Seq<char> {
    "the prompt is "@ + decimal(n + 1) + " tokens and the model's context is "@ + decimal(
        max_seq_len,
    ) + ": there is no room to generate"@
}

/// A decoding under way.
#[derive(Debug, Clone, PartialEq, Eq)]
pub struct Decoding {
    /// The separator and the prompt.
    pub context: Vec<u32>,
    pub generated: Vec<u32>,
    pub eos: u32,
    pub stop_at_eos: bool,
    pub max_new_tokens: usize,
    pub max_seq_len: usize,
}

impl Decoding {
    /// What holds of every decoding: it stays within the context and the limit,
    /// and holds no separator that it should have stopped at.
    pub open spec fn wf(&self) -> bool {
        &&& self.context@.len() > 0
        &&& self.context@.len() + self.generated@.len() <= self.max_seq_len
        &&& self.generated@.len() <= self.max_new_tokens
        &&& self.stop_at_eos ==> !self.generated@.contains(self.eos)
    }

    /// Whether there is room for one more token.
    pub open spec fn has_room(&self) -> bool {
        self.context@.len() + self.generated@.len() < self.max_seq_len
    }

    /// A decoding at its start, or that the prompt leaves no room for it.
    ///
    /// The prompt is prefixed with the separator, because that is what every
    /// document of the training stream starts behind.
    pub fn start(
        config: &GenerationConfig,
        eos: u32,
        prompt: &Vec<u32>,
        max_seq_len: usize,
    ) -> (r: Result<Self, String>)
        ensures
            r is Ok <==> prompt@.len() + 1 < max_seq_len,
            r is Ok ==> {
                let d = r->Ok_0;
                &&& d.wf()
                &&& d.has_room()
                &&& d.context@ == seq![eos] + prompt@
                &&& d.generated@ == Seq::<u32>::empty()
                &&& d.eos == eos
                &&& d.stop_at_eos == config.stop_at_eos
                &&& d.max_new_tokens == config.max_new_tokens
                &&& d.max_seq_len == max_seq_len
            },
            r is Err ==> r->Err_0@ == no_room(prompt@.len(), max_seq_len as nat),
    {
        let mut context: Vec<u32> = Vec::new();
        context.push(eos);
        let mut i: usize = 0;
        while i < prompt.len()
            invariant
                i <= prompt@.len(),
                context@ =~= seq![eos] + prompt@.take(i as int),
            decreases prompt@.len() - i,
        {
            context.push(prompt[i]);
            i = i + 1;
        }
        assert(prompt@.take(i as int) =~= prompt@);
        if context.len() >= max_seq_len {
            return Err(
                around_two(
                    "the prompt is ",
                    context.len(),
                    " tokens and the model's context is ",
                    max_seq_len,
                    ": there is no room to generate",
                ),
            );
        }
        Ok(
            Decoding {
                context,
                generated: Vec::new(),
                eos,
                stop_at_eos: config.stop_at_eos,
                max_new_tokens: config.max_new_tokens,
                max_seq_len,
            },
        )
    }

    /// Whether an outcome is one that starting on a prompt may have. The error
    /// is, in this order, that of the settings, of a tokenizer without a
    /// separator, of a prompt that is refused, or of one that leaves no room.
    pub open spec fn is_start(
        r: Result<Self, String>,
        config: GenerationConfig,
        tokenizer: Tokenizer,
        prompt: Seq<char>,
        max_seq_len: usize,
    ) -> bool {
        if config.fault() is Some {
            r is Err && config.fault() == Some(r->Err_0@)
        } else if !vocabulary(tokenizer).dom().contains(EOS_TOKEN@) {
            r is Err && r->Err_0@ == "tokenizer has no "@ + EOS_TOKEN@ + " token"@
        } else {
            match r {
                Ok(d) => {
                    &&& d.wf()
                    &&& d.has_room()
                    &&& d.eos == vocabulary(tokenizer)[EOS_TOKEN@]
                    &&& d.context@[0] == d.eos
                    &&& may_encode(tokenizer, prompt, d.context@.skip(1))
                    &&& d.generated@ == Seq::<u32>::empty()
                    &&& d.stop_at_eos == config.stop_at_eos
                    &&& d.max_new_tokens == config.max_new_tokens
                    &&& d.max_seq_len == max_seq_len
                },
                Err(e) => {
                    ||| exists|why: Seq<char>|
                        #[trigger] may_refuse(tokenizer, prompt, why) && e@
                            == "encoding failed: "@ + why
                    ||| exists|ids: Seq<u32>|
                        #[trigger] may_encode(tokenizer, prompt, ids) && ids.len() + 1
                            >= max_seq_len && e@ == no_room(ids.len(), max_seq_len as nat)
                },
            }
        }
    }

    /// The decoding of a prompt at its start, or why there is none: settings
    /// that name no distribution, a tokenizer without a separator, a prompt that
    /// cannot be encoded or leaves no room.
    pub fn begin(
        config: &GenerationConfig,
        tokenizer: &Tokenizer,
        prompt: &str,
        max_seq_len: usize,
    ) -> (r: Result<Self, String>)
        requires
            encode_returns(*tokenizer, prompt@),
        ensures
            Decoding::is_start(r, *config, *tokenizer, prompt@, max_seq_len),
    {
        match config.validate() {
            Ok(()) => {},
            Err(e) => {
                return Err(e);
            },
        }
        let eos: u32 = match eos_id(tokenizer) {
            Ok(id) => id,
            Err(e) => {
                return Err(e);
            },
        };
        let ids = match encode(tokenizer, prompt) {
            Ok(ids) => ids,
            Err(e) => {
                return Err(e);
            },
        };
        let r = Decoding::start(config, eos, &ids, max_seq_len);
        proof {
            if r is Ok {
                assert(r->Ok_0.context@.skip(1) =~= ids@);
            } else {
                assert(may_encode(*tokenizer, prompt@, ids@));
            }
        }
        r
    }

    /// The decoding of a prompt at its start, as [`Decoding::begin`], where the
    /// tokenizer is known to encode every text; `None` where it is not.
    pub fn try_begin(
        config: &GenerationConfig,
        tokenizer: &Tokenizer,
        prompt: &str,
        max_seq_len: usize,
    ) -> (r: Option<Result<Self, String>>)
        ensures
            r is Some <==> plain_encoder(*tokenizer),
            r is Some ==> one_outcome(*tokenizer),
            r is Some ==> Decoding::is_start(
                r->Some_0,
                *config,
                *tokenizer,
                prompt@,
                max_seq_len,
            ),
    {
        if encodes_all(tokenizer) {
            Some(Decoding::begin(config, tokenizer, prompt, max_seq_len))
        } else {
            None
        }
    }

    /// Whether the limit is reached; asked before every token.
    pub fn at_limit(&self) -> (r: bool)
        ensures
            r == (self.generated@.len() == self.max_new_tokens),
    {
        self.generated.len() == self.max_new_tokens
    }

    /// Takes the next token; the result says whether to stop, and why.
    ///
    /// The separator ends the decoding and is not part of it, where the settings
    /// say so. Any other token is taken, and ends the decoding when it fills the
    /// context.
    pub fn accept(&mut self, next: u32) -> (r: Option<StopReason>)
        requires
            old(self).wf(),
            old(self).has_room(),
            old(self).generated@.len() < old(self).max_new_tokens,
        ensures
            final(self).wf(),
            final(self).context == old(self).context,
            final(self).eos == old(self).eos,
            final(self).stop_at_eos == old(self).stop_at_eos,
            final(self).max_new_tokens == old(self).max_new_tokens,
            final(self).max_seq_len == old(self).max_seq_len,
            r == Some(StopReason::Eos) <==> next == old(self).eos && old(self).stop_at_eos,
            r == Some(StopReason::Eos) ==> final(self).generated@ == old(self).generated@,
            r != Some(StopReason::Eos) ==> final(self).generated@ == old(self).generated@.push(
                next,
            ),
            r == Some(StopReason::ContextFull) <==> !(next == old(self).eos && old(
                self,
            ).stop_at_eos) && !final(self).has_room(),
            r is None ==> final(self).has_room(),
            r != Some(StopReason::Limit),
    {
        if next == self.eos && self.stop_at_eos {
            return Some(StopReason::Eos);
        }
        self.generated.push(next);
        proof {
            let before = old(self).generated@;
            let now = self.generated@;
            if self.stop_at_eos && now.contains(self.eos) {
                let i = choose|i: int| 0 <= i < now.len() && now[i] == self.eos;
                if i < before.len() {
                    assert(before[i] == self.eos);
                    assert(before.contains(self.eos));
                }
            }
        }
        if self.context.len() + self.generated.len() >= self.max_seq_len {
            return Some(StopReason::ContextFull);
        }
        None
    }

    /// Whether an outcome is the sample that the decoding makes of its prompt, or
    /// the error of decoding its tokens to text.
    pub open spec fn is_finish(
        &self,
        r: Result<Sample, String>,
        tokenizer: Tokenizer,
        prompt: Seq<char>,
        stop_reason: StopReason,
    ) -> bool {
        match decoding(tokenizer, self.generated@) {
            Ok(text) => {
                &&& r is Ok
                &&& r->Ok_0.prompt@ == prompt
                &&& r->Ok_0.completion@ == text
                &&& r->Ok_0.n_new_tokens == self.generated@.len()
                &&& r->Ok_0.stop_reason == stop_reason
            },
            Err(e) => r is Err && r->Err_0@ == "decoding failed: "@ + e,
        }
    }

    /// The sample that the decoding makes of its prompt.
    pub fn finish(&self, tokenizer: &Tokenizer, prompt: &str, stop_reason: StopReason) -> (r: Result<
        Sample,
        String,
    >)
        requires
            decode_returns(*tokenizer, self.generated@),
        ensures
            self.is_finish(r, *tokenizer, prompt@, stop_reason),
    {
        match decode(tokenizer, self.generated.as_slice()) {
            Ok(completion) => Ok(
                Sample {
                    prompt: prompt.to_owned(),
                    completion,
                    n_new_tokens: self.generated.len(),
                    stop_reason,
                },
            ),
            Err(e) => Err(e),
        }
    }
}

impl Decoding {
    /// The sample that the decoding makes of its prompt, as [`Decoding::finish`],
    /// where the tokenizer is known to decode every list of ids; `None` where it
    /// is not.
    pub fn try_finish(&self, tokenizer: &Tokenizer, prompt: &str, stop_reason: StopReason) -> (r:
        Option<Result<Sample, String>>)
        ensures
            r is Some <==> plain_decoder(*tokenizer),
            r is Some ==> self.is_finish(r->Some_0, *tokenizer, prompt@, stop_reason),
    {
        if decodes_all(tokenizer) {
            Some(self.finish(tokenizer, prompt, stop_reason))
        } else {
            None
        }
    }
}

/// What a decoding makes of the tokens that the model would pick: how many it
/// takes, and why it stops. `None` while more picks are needed.
pub open spec fn outcome(
    context: nat,
    max_seq_len: nat,
    max_new_tokens: nat,
    eos: u32,
    stop_at_eos: bool,
    taken: nat,
    picks: Seq<u32>,
) -> (nat, Option<StopReason>)
    decreases picks.len(),
{
    if taken == max_new_tokens {
        (taken, Some(StopReason::Limit))
    } else if picks.len() == 0 {
        (taken, None)
    } else if picks[0] == eos && stop_at_eos {
        (taken, Some(StopReason::Eos))
    } else if context + taken + 1 >= max_seq_len {
        (taken + 1, Some(StopReason::ContextFull))
    } else {
        outcome(
            context,
            max_seq_len,
            max_new_tokens,
            eos,
            stop_at_eos,
            taken + 1,
            picks.drop_first(),
        )
    }
}

/// Whether a decoding is another one run over picks, as far as they go, and this
/// the reason to stop.
pub open spec fn is_run(
    start: Decoding,
    picks: Seq<u32>,
    end: Decoding,
    reason: Option<StopReason>,
) -> bool {
    let o = outcome(
        start.context@.len(),
        start.max_seq_len as nat,
        start.max_new_tokens as nat,
        start.eos,
        start.stop_at_eos,
        start.generated@.len(),
        picks,
    );
    &&& end.context == start.context
    &&& end.eos == start.eos
    &&& end.stop_at_eos == start.stop_at_eos
    &&& end.max_new_tokens == start.max_new_tokens
    &&& end.max_seq_len == start.max_seq_len
    &&& reason == o.1
    &&& end.generated@.len() == o.0
    &&& end.generated@ == start.generated@ + picks.take(o.0 - start.generated@.len())
}

/// Runs a decoding over the tokens that the model picks, as far as they go.
pub fn decode_picks(decoding: &mut Decoding, picks: &Vec<u32>) -> (r: Option<StopReason>)
    requires
        old(decoding).wf(),
        old(decoding).has_room(),
    ensures
        final(decoding).wf(),
        is_run(*old(decoding), picks@, *final(decoding), r),
{
    let mut i: usize = 0;
    let ghost d = *decoding;
    let ghost start = decoding.generated@;
    assert(picks@.skip(0) =~= picks@);
    assert(decoding.generated@ =~= start + picks@.take(0));
    loop
        invariant
            i <= picks@.len(),
            decoding.wf(),
            decoding.has_room(),
            decoding.context == d.context,
            decoding.eos == d.eos,
            decoding.stop_at_eos == d.stop_at_eos,
            decoding.max_new_tokens == d.max_new_tokens,
            decoding.max_seq_len == d.max_seq_len,
            d == *old(decoding),
            start == d.generated@,
            decoding.generated@ == start + picks@.take(i as int),
            outcome(
                d.context@.len(),
                d.max_seq_len as nat,
                d.max_new_tokens as nat,
                d.eos,
                d.stop_at_eos,
                start.len(),
                picks@,
            ) == outcome(
                d.context@.len(),
                d.max_seq_len as nat,
                d.max_new_tokens as nat,
                d.eos,
                d.stop_at_eos,
                start.len() + i as nat,
                picks@.skip(i as int),
            ),
        decreases picks@.len() - i,
    {
        if decoding.at_limit() {
            return Some(StopReason::Limit);
        }
        if i >= picks.len() {
            return None;
        }
        proof {
            assert(picks@.skip(i as int).drop_first() =~= picks@.skip(i + 1));
            assert(picks@.take(i + 1) =~= picks@.take(i as int).push(picks@[i as int]));
        }
        let stop = decoding.accept(picks[i]);
        if let Some(reason) = stop {
            proof {
                if reason != StopReason::Eos {
                    assert(decoding.generated@ =~= start + picks@.take(i + 1));
                }
            }
            return Some(reason);
        }
        assert(decoding.generated@ =~= start + picks@.take(i + 1));
        i = i + 1;
    }
}

/// Decoding ends: with as many picks as tokens are allowed, there is a reason to
/// stop, no more tokens are taken than allowed, and none past the context. The
/// limit is reached where it is the reason, and not where the separator is.
pub proof fn decoding_ends(
    context: nat,
    max_seq_len: nat,
    max_new_tokens: nat,
    eos: u32,
    stop_at_eos: bool,
    taken: nat,
    picks: Seq<u32>,
)
    requires
        taken <= max_new_tokens,
        context + taken < max_seq_len,
    ensures
        ({
            let o = outcome(
                context,
                max_seq_len,
                max_new_tokens,
                eos,
                stop_at_eos,
                taken,
                picks,
            );
            &&& picks.len() >= max_new_tokens - taken ==> o.1 is Some
            &&& taken <= o.0 <= max_new_tokens
            &&& o.0 - taken <= picks.len()
            &&& context + o.0 <= max_seq_len
            &&& o.1 == Some(StopReason::Limit) ==> o.0 == max_new_tokens
            &&& o.1 == Some(StopReason::ContextFull) ==> context + o.0 == max_seq_len
            &&& o.1 == Some(StopReason::Eos) ==> stop_at_eos && o.0 < max_new_tokens && o.0
                - taken < picks.len() && picks[o.0 - taken] == eos
        }),
    decreases picks.len(),
{
    if taken < max_new_tokens && picks.len() > 0 && !(picks[0] == eos && stop_at_eos) && context
        + taken + 1 < max_seq_len {
        decoding_ends(
            context,
            max_seq_len,
            max_new_tokens,
            eos,
            stop_at_eos,
            taken + 1,
            picks.drop_first(),
        );
    }
}

/// A decoding starts in one way where a text has one outcome: on the same tokens
/// under the same settings, or with the same error.
pub proof fn starts_agree(
    a: Result<Decoding, String>,
    b: Result<Decoding, String>,
    config: GenerationConfig,
    tokenizer: Tokenizer,
    prompt: Seq<char>,
    max_seq_len: usize,
)
    requires
        one_outcome(tokenizer),
        Decoding::is_start(a, config, tokenizer, prompt, max_seq_len),
        Decoding::is_start(b, config, tokenizer, prompt, max_seq_len),
    ensures
        match (a, b) {
            (Ok(x), Ok(y)) => {
                &&& x.context@ == y.context@
                &&& x.generated@ == y.generated@
                &&& x.eos == y.eos
                &&& x.stop_at_eos == y.stop_at_eos
                &&& x.max_new_tokens == y.max_new_tokens
                &&& x.max_seq_len == y.max_seq_len
            },
            (Err(x), Err(y)) => x@ == y@,
            _ => false,
        },
{
    if a is Ok {
        let x = a->Ok_0.context@;
        assert(may_encode(tokenizer, prompt, x.skip(1)));
        assert(x =~= seq![x[0]] + x.skip(1));
    }
    if b is Ok {
        let y = b->Ok_0.context@;
        assert(may_encode(tokenizer, prompt, y.skip(1)));
        assert(y =~= seq![y[0]] + y.skip(1));
    }
}

/// What a sample says of its decoding: the prompt is as it was given, the
/// settings name a distribution, the prompt left room, and the count and the
/// reason agree. At the limit there are as many tokens as allowed, before a
/// separator fewer, and a full context is full.
pub proof fn samples_keep_their_bounds(
    config: GenerationConfig,
    tokenizer: Tokenizer,
    prompt: Seq<char>,
    max_seq_len: usize,
    start: Decoding,
    picks: Seq<u32>,
    end: Decoding,
    reason: StopReason,
    sample: Sample,
)
    requires
        Decoding::is_start(Ok(start), config, tokenizer, prompt, max_seq_len),
        is_run(start, picks, end, Some(reason)),
        end.is_finish(Ok(sample), tokenizer, prompt, reason),
    ensures
        config.fault() is None,
        sample.prompt@ == prompt,
        sample.n_new_tokens <= config.max_new_tokens,
        exists|ids: Seq<u32>| #[trigger]
            may_encode(tokenizer, prompt, ids) && {
                &&& 1 + ids.len() < max_seq_len
                &&& 1 + ids.len() + sample.n_new_tokens <= max_seq_len
                &&& sample.stop_reason == StopReason::ContextFull ==> 1 + ids.len()
                    + sample.n_new_tokens == max_seq_len
            },
        sample.stop_reason == StopReason::Limit ==> sample.n_new_tokens == config.max_new_tokens,
        sample.stop_reason == StopReason::Eos ==> config.stop_at_eos && sample.n_new_tokens
            < config.max_new_tokens,
{
    decoding_ends(
        start.context@.len(),
        max_seq_len as nat,
        start.max_new_tokens as nat,
        start.eos,
        start.stop_at_eos,
        0,
        picks,
    );
    let ids = start.context@.skip(1);
    assert(may_encode(tokenizer, prompt, ids));
}

/// Whether `i` is the position of the largest value, and the last such.
pub open spec fn is_last_maximum(bits: Seq<u32>, i: int) -> bool {
    &&& 0 <= i < bits.len()
    &&& forall|j: int|
        0 <= j < bits.len() ==> total_order32(#[trigger] bits[j]) <= total_order32(bits[i]) && (j
            > i ==> total_order32(bits[j]) < total_order32(bits[i]))
}

/// The token with the largest logit, the last of equal ones; 0 when there are
/// none. The logits are given by their bits.
pub fn argmax(bits: &Vec<u32>) -> (r: u32)
    requires
        bits@.len() <= u32::MAX,
    ensures
        bits@.len() == 0 ==> r == 0,
        bits@.len() > 0 ==> is_last_maximum(bits@, r as int),
{
    let mut best: usize = 0;
    let mut i: usize = 0;
    while i < bits.len()
        invariant
            i <= bits@.len(),
            bits@.len() <= u32::MAX,
            i == 0 ==> best == 0,
            i > 0 ==> best < i && is_last_maximum(bits@.take(i as int), best as int),
        decreases bits@.len() - i,
    {
        let ghost before = bits@.take(i as int);
        let ghost now = bits@.take(i + 1);
        proof {
            assert forall|j: int| 0 <= j < i implies #[trigger] now[j] == before[j] by {}
        }
        if i == 0 || total_order_single(bits[best]) <= total_order_single(bits[i]) {
            best = i;
        }
        i = i + 1;
    }
    assert(bits@.take(i as int) =~= bits@);
    best as u32
}

/// Keys by which the largest value comes first.
pub open spec fn descending_keys(bits: Seq<u32>) -> Seq<i64> {
    bits.map_values(|b: u32| (-total_order32(b)) as i64)
}

/// How many candidates are kept of `n`.
pub open spec fn kept(top_k: nat, n: nat) -> nat {
    if top_k == 0 || n < top_k {
        n
    } else {
        top_k
    }
}

/// Whether `order` lists the positions of the largest values, the largest first
/// and equal ones in order, as many as are kept.
pub open spec fn is_shortlist(bits: Seq<u32>, top_k: nat, order: Seq<usize>) -> bool {
    exists|all: Seq<usize>| #[trigger]
        is_ranking(descending_keys(bits), all) && order == all.take(
            kept(top_k, bits.len()) as int,
        )
}

/// The candidates for the next token: the `top_k` largest logits, the largest
/// first; all of them when `top_k` is zero. The logits are given by their bits.
pub fn candidates(bits: &Vec<u32>, top_k: usize) -> (r: Vec<usize>)
    ensures
        is_shortlist(bits@, top_k as nat, r@),
        r@.len() == kept(top_k as nat, bits@.len()),
{
    let mut keys: Vec<i64> = Vec::new();
    let mut i: usize = 0;
    while i < bits.len()
        invariant
            i <= bits@.len(),
            keys@ =~= descending_keys(bits@).take(i as int),
        decreases bits@.len() - i,
    {
        keys.push(-(total_order_single(bits[i]) as i64));
        i = i + 1;
    }
    assert(keys@ =~= descending_keys(bits@));
    let mut r = ranked(&keys);
    let ghost all = r@;
    let n: usize = if top_k == 0 || bits.len() < top_k {
        bits.len()
    } else {
        top_k
    };
    r.truncate(n);
    assert(r@ =~= all.take(n as int));
    assert(is_ranking(descending_keys(bits@), all));
    r
}

/// The position of the first flag that is set.
pub fn first_set(flags: &Vec<bool>) -> (r: Option<usize>)
    ensures
        r is None <==> forall|j: int| 0 <= j < flags@.len() ==> !#[trigger] flags@[j],
        r is Some ==> r->Some_0 < flags@.len() && flags@[r->Some_0 as int] && forall|j: int|
            0 <= j < r->Some_0 ==> !#[trigger] flags@[j],
{
    let mut i: usize = 0;
    while i < flags.len()
        invariant
            i <= flags@.len(),
            forall|j: int| 0 <= j < i ==> !#[trigger] flags@[j],
        decreases flags@.len() - i,
    {
        if flags[i] {
            return Some(i);
        }
        i = i + 1;
    }
    None
}

/// How many candidates the nucleus keeps: up to the first at which the
/// cumulative probability is `enough`, that one included; all when it is enough
/// at none.
pub fn nucleus_cutoff(enough: &Vec<bool>) -> (r: usize)
    ensures
        r <= enough@.len(),
        enough@.len() > 0 ==> r > 0,
        forall|j: int| 0 <= j < r - 1 ==> !#[trigger] enough@[j],
        r < enough@.len() ==> enough@[r - 1],
{
    let n: usize = enough.len();
    match first_set(enough) {
        Some(i) => i + 1,
        None => n,
    }
}

/// The candidate that a draw falls on: the first at which the draw is `spent`,
/// or the last one.
pub fn drawn(spent: &Vec<bool>) -> (r: usize)
    requires
        spent@.len() > 0,
    ensures
        r < spent@.len(),
        forall|j: int| 0 <= j < r ==> !#[trigger] spent@[j],
        r < spent@.len() - 1 ==> spent@[r as int],
{
    match first_set(spent) {
        Some(i) => i,
        None => spent.len() - 1,
    }
}

/// The first candidate has the largest logit.
pub proof fn first_candidate_is_largest(bits: Seq<u32>, top_k: nat, order: Seq<usize>, j: int)
    requires
        is_shortlist(bits, top_k, order),
        order.len() > 0,
        0 <= j < bits.len(),
        bits.len() <= usize::MAX,
    ensures
        order[0] < bits.len(),
        total_order32(bits[j]) <= total_order32(bits[order[0] as int]),
{
    let all = choose|all: Seq<usize>| #[trigger]
        is_ranking(descending_keys(bits), all) && order == all.take(
            kept(top_k, bits.len()) as int,
        );
    let keys = descending_keys(bits);
    assert(all.contains(j as usize));
    let p = choose|p: int| 0 <= p < all.len() && all[p] == j as usize;
    assert(order[0] == all[0]);
    assert(keys[j] == -total_order32(bits[j]));
    assert(keys[all[0] as int] == -total_order32(bits[all[0] as int]));
    if p > 0 {
        assert(ranks_before(keys, all[0] as int, all[p] as int));
    }
}

/// One sample for a reader, who should never meet the separator in it.
pub open spec fn shown(sample: Sample) -> Seq<char> {
    "> "@ + cleaned(sample.prompt@) + "\n  "@ + cleaned(sample.completion@) + "\n  ["@ + decimal(
        sample.n_new_tokens as nat,
    ) + " tokens, "@ + sample.stop_reason.label() + "]\n\n"@
}

/// Samples for a reader, in order.
pub open spec fn shown_all(samples: Seq<Sample>) -> Seq<char>
    decreases samples.len(),
{
    if samples.len() == 0 {
        Seq::empty()
    } else {
        shown_all(samples.drop_last()) + shown(samples.last())
    }
}

/// Render samples for a reader.
pub fn report(samples: &Vec<Sample>) -> (s: String)
    ensures
        s@ == shown_all(samples@),
{
    let mut s = String::new();
    let mut i: usize = 0;
    while i < samples.len()
        invariant
            i <= samples@.len(),
            s@ == shown_all(samples@.take(i as int)),
        decreases samples@.len() - i,
    {
        let ghost before = s@;
        let sample = &samples[i];
        s.append("> ");
        s.append(clean(sample.prompt.as_str()).as_str());
        s.append("\n  ");
        s.append(clean(sample.completion.as_str()).as_str());
        s.append("\n  [");
        append_decimal(&mut s, sample.n_new_tokens);
        s.append(" tokens, ");
        s.append(sample.stop_reason.name());
        s.append("]\n\n");
        proof {
            assert(s@ =~= before + shown(*sample));
            assert(samples@.take(i + 1).drop_last() =~= samples@.take(i as int));
        }
        i = i + 1;
    }
    assert(samples@.take(i as int) =~= samples@);
    s
}

proof fn shown_hides_the_separator(sample: Sample)
    ensures
        absent(shown(sample), EOS_TOKEN@),
        shown(sample).last() == '\n',
        shown(sample).len() > 0,
{
    let w = EOS_TOKEN@;
    let head = "> "@;
    let prompt = cleaned(sample.prompt@);
    let indent = "\n  "@;
    let completion = cleaned(sample.completion@);
    let open = "\n  ["@;
    let count = decimal(sample.n_new_tokens as nat);
    let tokens = " tokens, "@;
    let reason = sample.stop_reason.label();
    let close = "]\n\n"@;
    reveal_strlit("<|endoftext|>");
    reveal_strlit("> ");
    reveal_strlit("\n  ");
    reveal_strlit("\n  [");
    reveal_strlit(" tokens, ");
    reveal_strlit("]\n\n");
    reveal_strlit("Eos");
    reveal_strlit("Limit");
    reveal_strlit("ContextFull");
    assert(w[0] == '<');
    cleaning_hides_the_separator(sample.prompt@);
    cleaning_hides_the_separator(sample.completion@);
    decimal_is_digits(sample.n_new_tokens as nat);
    assert(!count.contains('<'));
    absent_without(head, w, '<');
    absent_without(indent, w, '<');
    absent_without(open, w, '<');
    absent_without(count, w, '<');
    absent_without(tokens, w, '<');
    absent_without(reason, w, '<');
    absent_without(close, w, '<');
    let s1 = head + prompt;
    absent_across(head, prompt, w);
    let s2 = s1 + indent;
    absent_across(s1, indent, w);
    let s3 = s2 + completion;
    absent_across(s2, completion, w);
    let s4 = s3 + open;
    absent_across(s3, open, w);
    let s5 = s4 + count;
    absent_across(s4, count, w);
    let s6 = s5 + tokens;
    absent_across(s5, tokens, w);
    let s7 = s6 + reason;
    absent_across(s6, reason, w);
    absent_across(s7, close, w);
}

/// A reader of samples never meets the separator.
pub proof fn samples_hide_the_separator(samples: Seq<Sample>)
    ensures
        absent(shown_all(samples), EOS_TOKEN@),
    decreases samples.len(),
{
    reveal_strlit("<|endoftext|>");
    if samples.len() == 0 {
        absent_without(shown_all(samples), EOS_TOKEN@, EOS_TOKEN@[0]);
    } else {
        let front = samples.drop_last();
        samples_hide_the_separator(front);
        shown_hides_the_separator(samples.last());
        if front.len() > 0 {
            shown_hides_the_separator(front.last());
            assert(shown_all(front).last() == '\n');
        }
        absent_across(shown_all(front), shown(samples.last()), EOS_TOKEN@);
    }
}

} // verus!
