//! Inference over text that a user provides.
//!
//! A language model continues a text; a compressor takes it through its
//! bottleneck and back, span by span.

use vstd::prelude::*;

use vstd::string::*;

use tokenizers::Tokenizer;

use crate::data::tokenizer::{
    decode, decode_returns, decodes_all, decoding, encode, encode_returns, encodes_all, eos_id,
    may_encode, may_refuse, one_outcome, plain_decoder, plain_encoder, vocab_size, vocabulary,
    vocabulary_size, EOS_TOKEN,
};
use crate::eval::generate::{Sample, StopReason};
use crate::text::{append_decimal, around_two, decimal};
use crate::train::{ceil_div, ceil_div_is_least};

verus! {

/// One independent piece of user input and the label shown in output records.
#[derive(Debug, Clone, PartialEq, Eq)]
pub struct InferenceInput {
    pub source: String,
    pub text: String,
}

/// What a language model did with a text.
#[derive(Debug, Clone, PartialEq, Eq)]
pub struct LanguageModelMetrics {
    pub prompt_tokens: usize,
    pub generated_tokens: usize,
    pub stop_reason: String,
}

/// What a compressor did with a text: counts, and rates in decimal.
#[derive(Debug, Clone, PartialEq, Eq)]
pub struct CompressorMetrics {
    /// Real input tokens only; padding never contributes to this denominator.
    pub input_tokens: usize,
    pub correct_tokens: usize,
    pub spans: usize,
    pub span_len: usize,
    /// The share of tokens that are correct, in percent.
    pub accuracy_percent: String,
    pub token_ratio: String,
    pub bits_per_token: String,
}

/// A record for one input.
#[derive(Debug, Clone, PartialEq, Eq)]
pub enum InferenceOutput {
    LanguageModel {
        source: String,
        input: String,
        output: String,
        metrics: LanguageModelMetrics,
    },
    Compressor { source: String, input: String, output: String, metrics: CompressorMetrics },
}

/// The output formats.
#[derive(Debug, Clone, Copy, PartialEq, Eq, Structural)]
pub enum OutputFormat {
    Text,
    Json,
    Jsonl,
}

/// Whether one of the texts is empty.
pub open spec fn has_empty(inputs: Seq<InferenceInput>) -> bool {
    exists|i: int| 0 <= i < inputs.len() && (#[trigger] inputs[i]).text@.len() == 0
}

/// Rejects a request without text.
pub fn check_inputs(inputs: &Vec<InferenceInput>) -> (r: Result<(), String>)
    ensures
        r is Ok <==> inputs@.len() > 0 && !has_empty(inputs@),
        inputs@.len() == 0 ==> r is Err && r->Err_0@ == "no input text was provided"@,
        has_empty(inputs@) ==> r is Err && r->Err_0@ == "input text must not be empty"@,
{
    if inputs.len() == 0 {
        return Err("no input text was provided".to_owned());
    }
    let mut i: usize = 0;
    while i < inputs.len()
        invariant
            i <= inputs@.len(),
            forall|j: int| 0 <= j < i ==> (#[trigger] inputs@[j]).text@.len() > 0,
        decreases inputs@.len() - i,
    {
        if inputs[i].text.as_str().is_empty() {
            assert(inputs@[i as int].text@.len() == 0);
            return Err("input text must not be empty".to_owned());
        }
        i = i + 1;
    }
    Ok(())
}

/// Rejects a tokenizer whose ids mean something else to the model.
pub fn ensure_tokenizer_matches(actual: usize, expected: usize) -> (r: Result<(), String>)
    ensures
        r is Ok <==> actual == expected,
        r is Err ==> r->Err_0@ == "tokenizer vocab "@ + decimal(actual as nat)
            + " != model vocab "@ + decimal(expected as nat)
            + ": token ids from this tokenizer mean something else to the model"@,
{
    if actual != expected {
        return Err(
            around_two(
                "tokenizer vocab ",
                actual,
                " != model vocab ",
                expected,
                ": token ids from this tokenizer mean something else to the model",
            ),
        );
    }
    Ok(())
}

/// Rejects a tokenizer that has not as many tokens as the model expects: its ids
/// mean something else to the model.
pub fn ensure_tokenizer_fits(tokenizer: &Tokenizer, expected: usize) -> (r: Result<(), String>)
    ensures
        r is Ok <==> vocabulary_size(*tokenizer) == expected,
        r is Err ==> r->Err_0@ == "tokenizer vocab "@ + decimal(vocabulary_size(*tokenizer))
            + " != model vocab "@ + decimal(expected as nat)
            + ": token ids from this tokenizer mean something else to the model"@,
{
    ensure_tokenizer_matches(vocab_size(tokenizer), expected)
}

/// How many positions of two token sequences agree, as far as the shorter goes.
pub open spec fn matching(a: Seq<u32>, b: Seq<u32>) -> nat
    decreases a.len(),
{
    if a.len() == 0 {
        0
    } else {
        matching(a.drop_last(), b) + if a.len() <= b.len() && a.last() == b[a.len() - 1] {
            1nat
        } else {
            0
        }
    }
}

/// A text on its way through a compressor, in disjoint spans.
///
/// A compressor takes spans of one length. The last one is padded with the
/// separator; the padding is removed again and counts nowhere, so a short text
/// does not get a high score for it.
#[derive(Debug, Clone, PartialEq, Eq)]
pub struct SpanSweep {
    pub ids: Vec<u32>,
    pub span_len: usize,
    pub eos: u32,
    /// What has come back so far, without padding.
    pub reconstructed: Vec<u32>,
    /// How much of it is right.
    pub correct: usize,
    /// The spans that have come back so far.
    pub spans: usize,
}

/// The span of `ids` from `from` on, padded to `span_len` with `eos`.
pub open spec fn padded_span(ids: Seq<u32>, from: nat, span_len: nat, eos: u32) -> Seq<u32> {
    Seq::new(
        span_len,
        |i: int|
            if from + i < ids.len() {
                ids[from + i]
            } else {
                eos
            },
    )
}

impl SpanSweep {
    /// Where the next span ends in the text.
    pub open spec fn next_end(&self) -> nat {
        let end = self.reconstructed@.len() + self.span_len;
        if end < self.ids@.len() {
            end as nat
        } else {
            self.ids@.len()
        }
    }

    /// What holds of every sweep: what came back lies over the start of the
    /// text, in whole spans except at the end, and the count is that of the real
    /// tokens that agree.
    pub open spec fn wf(&self) -> bool {
        &&& self.span_len > 0
        &&& self.ids@.len() > 0
        &&& self.reconstructed@.len() <= self.ids@.len()
        &&& self.correct == matching(self.reconstructed@, self.ids@)
        &&& self.correct <= self.reconstructed@.len()
        &&& self.reconstructed@.len() == self.ids@.len() || self.reconstructed@.len() == self.spans
            * self.span_len
        &&& self.reconstructed@.len() == self.ids@.len() ==> self.spans == ceil_div(
            self.ids@.len(),
            self.span_len as nat,
        )
    }

    /// Whether all of the text has come back.
    pub open spec fn done(&self) -> bool {
        self.reconstructed@.len() == self.ids@.len()
    }

    /// A sweep over a text of these ids at its start; a text without a token is
    /// an error that names its source.
    pub fn start(source: &str, ids: Vec<u32>, span_len: usize, eos: u32) -> (r: Result<Self, String>)
        requires
            span_len > 0,
        ensures
            r is Ok <==> ids@.len() > 0,
            r is Ok ==> {
                let s = r->Ok_0;
                &&& s.wf()
                &&& s.ids@ == ids@
                &&& s.span_len == span_len
                &&& s.eos == eos
                &&& s.reconstructed@ == Seq::<u32>::empty()
                &&& s.spans == 0
            },
            r is Err ==> r->Err_0@ == source@ + " encoded to zero tokens"@,
    {
        if ids.len() == 0 {
            let mut s = source.to_owned();
            s.append(" encoded to zero tokens");
            return Err(s);
        }
        assert(0 * span_len == 0) by (nonlinear_arith);
        Ok(
            SpanSweep { ids, span_len, eos, reconstructed: Vec::new(), correct: 0, spans: 0 },
        )
    }

    /// The next span, padded, until all of the text has come back.
    pub fn next_span(&self) -> (r: Option<Vec<u32>>)
        requires
            self.wf(),
        ensures
            r is None <==> self.done(),
            r is Some ==> r->Some_0@ == padded_span(
                self.ids@,
                self.reconstructed@.len(),
                self.span_len as nat,
                self.eos,
            ),
    {
        let from: usize = self.reconstructed.len();
        let n: usize = self.ids.len();
        if from == n {
            return None;
        }
        let mut r: Vec<u32> = Vec::new();
        let mut i: usize = 0;
        while i < self.span_len
            invariant
                i <= self.span_len,
                from <= n,
                n == self.ids@.len(),
                r@ =~= padded_span(
                    self.ids@,
                    from as nat,
                    self.span_len as nat,
                    self.eos,
                ).take(i as int),
            decreases self.span_len - i,
        {
            if i < n - from {
                r.push(self.ids[from + i]);
            } else {
                r.push(self.eos);
            }
            i = i + 1;
        }
        assert(r@ =~= padded_span(self.ids@, from as nat, self.span_len as nat, self.eos));
        Some(r)
    }

    /// Takes back a span: what lies over the text is kept and compared, what
    /// lies over padding is dropped.
    pub fn absorb(&mut self, output: &Vec<u32>)
        requires
            old(self).wf(),
            !old(self).done(),
            output@.len() == old(self).span_len,
        ensures
            final(self).wf(),
            final(self).ids == old(self).ids,
            final(self).span_len == old(self).span_len,
            final(self).eos == old(self).eos,
            final(self).spans == old(self).spans + 1,
            final(self).reconstructed@ == old(self).reconstructed@ + output@.take(
                old(self).next_end() - old(self).reconstructed@.len(),
            ),
    {
        let from: usize = self.reconstructed.len();
        let n: usize = self.ids.len();
        let n_real: usize = if n - from < self.span_len {
            n - from
        } else {
            self.span_len
        };
        proof {
            let k = self.spans as int;
            let w = self.span_len as int;
            assert((k + 1) * w == k * w + w) by (nonlinear_arith);
            assert(k <= k * w) by (nonlinear_arith)
                requires
                    w >= 1,
                    k >= 0,
            ;
        }
        let ghost start = self.reconstructed@;
        let mut i: usize = 0;
        assert(self.reconstructed@ =~= start + output@.take(0));
        while i < n_real
            invariant
                i <= n_real,
                n_real <= self.span_len,
                from + n_real <= n,
                n == self.ids@.len(),
                self.ids == old(self).ids,
                self.span_len == old(self).span_len,
                self.eos == old(self).eos,
                self.spans == old(self).spans,
                output@.len() == self.span_len,
                start == old(self).reconstructed@,
                start.len() == from,
                self.reconstructed@ == start + output@.take(i as int),
                self.correct == matching(self.reconstructed@, self.ids@),
                self.correct <= self.reconstructed@.len(),
            decreases n_real - i,
        {
            let ghost before = self.reconstructed@;
            let t: u32 = output[i];
            self.reconstructed.push(t);
            proof {
                assert(self.reconstructed@.drop_last() =~= before);
                assert(self.reconstructed@ =~= start + output@.take(i + 1));
            }
            if t == self.ids[from + i] {
                self.correct = self.correct + 1;
            }
            i = i + 1;
        }
        self.spans = self.spans + 1;
        proof {
            let k = old(self).spans as nat;
            let w = self.span_len as nat;
            assert((k + 1) * w == k * w + w) by (nonlinear_arith);
            if self.done() {
                ceil_div_is_least(n as nat, w, k + 1);
                let c = ceil_div(n as nat, w);
                assert(c > k) by (nonlinear_arith)
                    requires
                        c * w >= n,
                        n > k * w,
                        w > 0,
                ;
            }
        }
    }

    /// The counts of a finished sweep: real tokens, right ones, and spans.
    pub fn counts(&self) -> (r: (usize, usize, usize))
        requires
            self.wf(),
            self.done(),
        ensures
            r.0 == self.ids@.len(),
            r.1 == matching(self.reconstructed@, self.ids@),
            r.1 <= r.0,
            r.2 == ceil_div(self.ids@.len(), self.span_len as nat),
    {
        (self.ids.len(), self.correct, self.spans)
    }

    /// Whether an outcome is one that starting on a text may have. The error is,
    /// in this order, that of a text that is refused, of one that has no token,
    /// or of a tokenizer without a separator.
    pub open spec fn is_start(
        r: Result<Self, String>,
        tokenizer: Tokenizer,
        input: InferenceInput,
        span_len: usize,
    ) -> bool {
        match r {
            Ok(s) => {
                &&& s.wf()
                &&& may_encode(tokenizer, input.text@, s.ids@)
                &&& s.span_len == span_len
                &&& vocabulary(tokenizer).dom().contains(EOS_TOKEN@)
                &&& s.eos == vocabulary(tokenizer)[EOS_TOKEN@]
                &&& s.reconstructed@ == Seq::<u32>::empty()
                &&& s.spans == 0
            },
            Err(e) => {
                ||| exists|why: Seq<char>|
                    #[trigger] may_refuse(tokenizer, input.text@, why) && e@
                        == "encoding failed: "@ + why
                ||| e@ == input.source@ + " encoded to zero tokens"@ && may_encode(
                    tokenizer,
                    input.text@,
                    Seq::empty(),
                )
                ||| e@ == "tokenizer has no "@ + EOS_TOKEN@ + " token"@ && !vocabulary(
                    tokenizer,
                ).dom().contains(EOS_TOKEN@) && exists|ids: Seq<u32>|
                    ids.len() > 0 && #[trigger] may_encode(tokenizer, input.text@, ids)
            },
        }
    }

    /// The sweep of a text, or why there is none: a text that cannot be encoded
    /// or has no token, or a tokenizer without a separator.
    pub fn begin(tokenizer: &Tokenizer, input: &InferenceInput, span_len: usize) -> (r: Result<
        Self,
        String,
    >)
        requires
            span_len > 0,
            encode_returns(*tokenizer, input.text@),
        ensures
            SpanSweep::is_start(r, *tokenizer, *input, span_len),
    {
        let ids = match encode(tokenizer, input.text.as_str()) {
            Ok(ids) => ids,
            Err(e) => {
                return Err(e);
            },
        };
        if ids.len() == 0 {
            proof {
                assert(ids@ =~= Seq::<u32>::empty());
            }
            return SpanSweep::start(input.source.as_str(), ids, span_len, 0);
        }
        assert(may_encode(*tokenizer, input.text@, ids@));
        match eos_id(tokenizer) {
            Ok(eos) => SpanSweep::start(input.source.as_str(), ids, span_len, eos),
            Err(e) => Err(e),
        }
    }

    /// The sweep of a text, as [`SpanSweep::begin`], where the tokenizer is known
    /// to encode every text; `None` where it is not.
    pub fn try_begin(tokenizer: &Tokenizer, input: &InferenceInput, span_len: usize) -> (r: Option<
        Result<Self, String>,
    >)
        requires
            span_len > 0,
        ensures
            r is Some <==> plain_encoder(*tokenizer),
            r is Some ==> one_outcome(*tokenizer),
            r is Some ==> SpanSweep::is_start(r->Some_0, *tokenizer, *input, span_len),
    {
        if encodes_all(tokenizer) {
            Some(SpanSweep::begin(tokenizer, input, span_len))
        } else {
            None
        }
    }

    /// Whether an outcome is the record of a finished sweep with these rates, or
    /// the error of decoding what came back.
    pub open spec fn is_finish(
        &self,
        r: Result<InferenceOutput, String>,
        tokenizer: Tokenizer,
        input: InferenceInput,
        rates: (Seq<char>, Seq<char>, Seq<char>),
    ) -> bool {
        match decoding(tokenizer, self.reconstructed@) {
            Ok(text) => {
                let m = r->Ok_0->Compressor_metrics;
                &&& r is Ok
                &&& r->Ok_0 is Compressor
                &&& r->Ok_0->Compressor_source@ == input.source@
                &&& r->Ok_0->Compressor_input@ == input.text@
                &&& r->Ok_0->Compressor_output@ == text
                &&& m.input_tokens == self.ids@.len()
                &&& m.correct_tokens == matching(self.reconstructed@, self.ids@)
                &&& m.spans == ceil_div(self.ids@.len(), self.span_len as nat)
                &&& m.span_len == self.span_len
                &&& m.accuracy_percent@ == rates.0
                &&& m.token_ratio@ == rates.1
                &&& m.bits_per_token@ == rates.2
            },
            Err(e) => r is Err && r->Err_0@ == "decoding failed: "@ + e,
        }
    }

    /// The record of a finished sweep. The rates are quotients and logarithms;
    /// their texts come with the call.
    pub fn finish(
        &self,
        tokenizer: &Tokenizer,
        input: &InferenceInput,
        accuracy_percent: &str,
        token_ratio: &str,
        bits_per_token: &str,
    ) -> (r: Result<InferenceOutput, String>)
        requires
            self.wf(),
            self.done(),
            decode_returns(*tokenizer, self.reconstructed@),
        ensures
            self.is_finish(
                r,
                *tokenizer,
                *input,
                (accuracy_percent@, token_ratio@, bits_per_token@),
            ),
    {
        match decode(tokenizer, self.reconstructed.as_slice()) {
            Ok(output) => Ok(
                InferenceOutput::Compressor {
                    source: input.source.clone(),
                    input: input.text.clone(),
                    output,
                    metrics: CompressorMetrics {
                        input_tokens: self.ids.len(),
                        correct_tokens: self.correct,
                        spans: self.spans,
                        span_len: self.span_len,
                        accuracy_percent: accuracy_percent.to_owned(),
                        token_ratio: token_ratio.to_owned(),
                        bits_per_token: bits_per_token.to_owned(),
                    },
                },
            ),
            Err(e) => Err(e),
        }
    }
}

impl SpanSweep {
    /// The record of a finished sweep, as [`SpanSweep::finish`], where the
    /// tokenizer is known to decode every list of ids; `None` where it is not.
    pub fn try_finish(
        &self,
        tokenizer: &Tokenizer,
        input: &InferenceInput,
        accuracy_percent: &str,
        token_ratio: &str,
        bits_per_token: &str,
    ) -> (r: Option<Result<InferenceOutput, String>>)
        requires
            self.wf(),
            self.done(),
        ensures
            r is Some <==> plain_decoder(*tokenizer),
            r is Some ==> self.is_finish(
                r->Some_0,
                *tokenizer,
                *input,
                (accuracy_percent@, token_ratio@, bits_per_token@),
            ),
    {
        if decodes_all(tokenizer) {
            Some(self.finish(tokenizer, input, accuracy_percent, token_ratio, bits_per_token))
        } else {
            None
        }
    }
}

/// The name of a stop reason in lower case.
pub open spec fn stop_name(reason: StopReason) -> Seq<char> {
    match reason {
        StopReason::Eos => "eos"@,
        StopReason::Limit => "limit"@,
        StopReason::ContextFull => "contextfull"@,
    }
}

/// The record of a sample that continues an input of `prompt_tokens`.
pub fn continuation(input: &InferenceInput, prompt_tokens: usize, sample: &Sample) -> (r:
    InferenceOutput)
    ensures
        r is LanguageModel,
        r->LanguageModel_source@ == input.source@,
        r->LanguageModel_input@ == input.text@,
        r->LanguageModel_output@ == sample.completion@,
        r->LanguageModel_metrics.prompt_tokens == prompt_tokens,
        r->LanguageModel_metrics.generated_tokens == sample.n_new_tokens,
        r->LanguageModel_metrics.stop_reason@ == stop_name(sample.stop_reason),
{
    let stop_reason = match sample.stop_reason {
        StopReason::Eos => "eos".to_owned(),
        StopReason::Limit => "limit".to_owned(),
        StopReason::ContextFull => "contextfull".to_owned(),
    };
    InferenceOutput::LanguageModel {
        source: input.source.clone(),
        input: input.text.clone(),
        output: sample.completion.clone(),
        metrics: LanguageModelMetrics {
            prompt_tokens,
            generated_tokens: sample.n_new_tokens,
            stop_reason,
        },
    }
}

/// The head of a record for a reader.
pub open spec fn record_head(
    index: nat,
    source: Seq<char>,
    kind: Seq<char>,
    input: Seq<char>,
    output: Seq<char>,
) -> Seq<char> {
    "--- input "@ + decimal(index) + ": "@ + source + kind + input + "\nout: "@ + output
        + "\nmetrics: "@
}

/// What a language model did with a text, for a reader.
pub open spec fn shown_continuation(metrics: LanguageModelMetrics) -> Seq<char> {
    decimal(metrics.prompt_tokens as nat) + " prompt tokens, "@ + decimal(
        metrics.generated_tokens as nat,
    ) + " generated tokens, stopped: "@ + metrics.stop_reason@ + "\n\n"@
}

/// What a compressor did with a text, for a reader.
pub open spec fn shown_reconstruction(metrics: CompressorMetrics) -> Seq<char> {
    decimal(metrics.correct_tokens as nat) + "/"@ + decimal(metrics.input_tokens as nat)
        + " tokens correct ("@ + metrics.accuracy_percent@ + "%), "@ + decimal(
        metrics.spans as nat,
    ) + " span(s) of "@ + decimal(metrics.span_len as nat) + ", "@ + metrics.token_ratio@
        + "x token ratio, "@ + metrics.bits_per_token@ + " bits/token\n\n"@
}

/// One record for a reader.
pub open spec fn shown_record(index: nat, record: InferenceOutput) -> Seq<char> {
    match record {
        InferenceOutput::LanguageModel { source, input, output, metrics } => record_head(
            index,
            source@,
            " (language model) ---\nin : "@,
            input@,
            output@,
        ) + shown_continuation(metrics),
        InferenceOutput::Compressor { source, input, output, metrics } => record_head(
            index,
            source@,
            " (compressor) ---\nin : "@,
            input@,
            output@,
        ) + shown_reconstruction(metrics),
    }
}

/// Records for a reader, in order.
pub open spec fn shown_records(records: Seq<InferenceOutput>) -> Seq<char>
    decreases records.len(),
{
    if records.len() == 0 {
        Seq::empty()
    } else {
        shown_records(records.drop_last()) + shown_record(
            (records.len() - 1) as nat,
            records.last(),
        )
    }
}

fn append_head(out: &mut String, index: usize, source: &str, kind: &str, input: &str, output: &str)
    ensures
        final(out)@ == old(out)@ + record_head(index as nat, source@, kind@, input@, output@),
{
    out.append("--- input ");
    append_decimal(out, index);
    out.append(": ");
    out.append(source);
    out.append(kind);
    out.append(input);
    out.append("\nout: ");
    out.append(output);
    out.append("\nmetrics: ");
    assert(out@ =~= old(out)@ + record_head(index as nat, source@, kind@, input@, output@));
}

fn append_continuation(out: &mut String, metrics: &LanguageModelMetrics)
    ensures
        final(out)@ == old(out)@ + shown_continuation(*metrics),
{
    append_decimal(out, metrics.prompt_tokens);
    out.append(" prompt tokens, ");
    append_decimal(out, metrics.generated_tokens);
    out.append(" generated tokens, stopped: ");
    out.append(metrics.stop_reason.as_str());
    out.append("\n\n");
    assert(out@ =~= old(out)@ + shown_continuation(*metrics));
}

fn append_reconstruction(out: &mut String, metrics: &CompressorMetrics)
    ensures
        final(out)@ == old(out)@ + shown_reconstruction(*metrics),
{
    append_decimal(out, metrics.correct_tokens);
    out.append("/");
    append_decimal(out, metrics.input_tokens);
    out.append(" tokens correct (");
    out.append(metrics.accuracy_percent.as_str());
    out.append("%), ");
    append_decimal(out, metrics.spans);
    out.append(" span(s) of ");
    append_decimal(out, metrics.span_len);
    out.append(", ");
    out.append(metrics.token_ratio.as_str());
    out.append("x token ratio, ");
    out.append(metrics.bits_per_token.as_str());
    out.append(" bits/token\n\n");
    assert(out@ =~= old(out)@ + shown_reconstruction(*metrics));
}

fn append_record(out: &mut String, index: usize, record: &InferenceOutput)
    ensures
        final(out)@ == old(out)@ + shown_record(index as nat, *record),
{
    match record {
        InferenceOutput::LanguageModel { source, input, output, metrics } => {
            append_head(
                out,
                index,
                source.as_str(),
                " (language model) ---\nin : ",
                input.as_str(),
                output.as_str(),
            );
            append_continuation(out, metrics);
        },
        InferenceOutput::Compressor { source, input, output, metrics } => {
            append_head(
                out,
                index,
                source.as_str(),
                " (compressor) ---\nin : ",
                input.as_str(),
                output.as_str(),
            );
            append_reconstruction(out, metrics);
        },
    }
    assert(out@ =~= old(out)@ + shown_record(index as nat, *record));
}

/// Renders records for a reader.
pub fn text_report(records: &Vec<InferenceOutput>) -> (r: String)
    ensures
        r@ == shown_records(records@),
{
    let mut s = String::new();
    let mut i: usize = 0;
    while i < records.len()
        invariant
            i <= records@.len(),
            s@ == shown_records(records@.take(i as int)),
        decreases records@.len() - i,
    {
        append_record(&mut s, i, &records[i]);
        assert(records@.take(i + 1).drop_last() =~= records@.take(i as int));
        i = i + 1;
    }
    assert(records@.take(i as int) =~= records@);
    s
}

/// A perfect reconstruction is right on every token.
pub proof fn identical_texts_match(ids: Seq<u32>, n: int)
    requires
        0 <= n <= ids.len(),
    ensures
        matching(ids.take(n), ids) == n,
    decreases n,
{
    if n > 0 {
        identical_texts_match(ids, n - 1);
        assert(ids.take(n).drop_last() =~= ids.take(n - 1));
    }
}

/// What lies over padding does not matter: two outputs that agree on the real
/// tokens of a span leave the same text.
pub proof fn padding_is_dropped(a: Seq<u32>, b: Seq<u32>, n_real: int)
    requires
        0 <= n_real <= a.len(),
        n_real <= b.len(),
        forall|i: int| 0 <= i < n_real ==> #[trigger] a[i] == b[i],
    ensures
        a.take(n_real) == b.take(n_real),
{
    assert(a.take(n_real) =~= b.take(n_real));
}

} // verus!
