//! The bookkeeping of a corpus sweep.
//!
//! A sweep sums the negative log-likelihood of every scored token. What is
//! reported divides that sum by counts of the text, which are kept here.

use vstd::prelude::*;

use vstd::string::*;

use crate::config::ModelConfig;
use crate::data::dataset::{scored_by, scored_sum, window_count, TokenDataset};
use crate::data::shard::Shard;
use crate::text::{
    append_decimal, append_right_aligned, around_one, around_two, decimal, decimal_string,
    right_aligned,
};

verus! {

/// How to sweep the corpus.
#[derive(Debug, Clone, Copy, PartialEq, Eq, Structural)]
pub struct EvalConfig {
    /// Context length, at most the model's `max_seq_len`.
    pub seq_len: usize,
    /// How far the window advances between scored blocks, at most `seq_len`.
    /// Half of `seq_len` scores every token with at least that much context.
    pub stride: usize,
    pub batch_size: usize,
    pub num_workers: usize,
}

impl Default for EvalConfig {
    fn default() -> (r: Self)
        ensures
            r == (EvalConfig { seq_len: 512, stride: 256, batch_size: 8, num_workers: 2 }),
    {
        EvalConfig { seq_len: 512, stride: 256, batch_size: 8, num_workers: 2 }
    }
}

impl EvalConfig {
    /// What is wrong with the settings, when something is.
    pub open spec fn fault(&self) -> Option<Seq<char>> {
        if self.seq_len == 0 {
            Some("seq_len must be positive"@)
        } else if self.stride == 0 || self.stride > self.seq_len {
            Some(
                "stride "@ + decimal(self.stride as nat) + " must be in 1..="@ + decimal(
                    self.seq_len as nat,
                )
                    + " -- a stride wider than the window would leave tokens between windows unscored"@,
            )
        } else if self.batch_size == 0 {
            Some("batch_size must be positive"@)
        } else {
            None
        }
    }

    /// The settings for windows of `seq_len`. Without a stride, half the window:
    /// every token then sees at least that much context, at twice the compute.
    pub fn for_window(seq_len: usize, stride: Option<usize>, batch_size: usize) -> (r: Self)
        ensures
            r.seq_len == seq_len,
            r.stride == match stride {
                Some(n) => n as int,
                None => if seq_len < 2 {
                    1
                } else {
                    seq_len as int / 2
                },
            },
            r.batch_size == batch_size,
            r.num_workers == 2,
    {
        let stride: usize = match stride {
            Some(n) => n,
            None => if seq_len < 2 {
                1
            } else {
                seq_len / 2
            },
        };
        EvalConfig { seq_len, stride, batch_size, num_workers: 2 }
    }

    /// Rejects settings that would score nothing, or not everything.
    pub fn validate(&self) -> (r: Result<(), String>)
        ensures
            r is Ok <==> self.fault() is None,
            r is Err ==> self.fault() == Some(r->Err_0@),
    {
        if self.seq_len == 0 {
            return Err("seq_len must be positive".to_owned());
        }
        if self.stride == 0 || self.stride > self.seq_len {
            return Err(
                around_two(
                    "stride ",
                    self.stride,
                    " must be in 1..=",
                    self.seq_len,
                    " -- a stride wider than the window would leave tokens between windows unscored",
                ),
            );
        }
        if self.batch_size == 0 {
            return Err("batch_size must be positive".to_owned());
        }
        Ok(())
    }
}

/// What a sweep counted. The ratios that are reported divide by these.
#[derive(Debug, Clone, Copy, PartialEq, Eq, Structural)]
pub struct CorpusScore {
    /// How many tokens the sweep scored.
    pub n_scored_tokens: usize,
    /// How many tokens the shard holds.
    pub n_tokens: usize,
    /// Whitespace-delimited words in the source text.
    pub n_words: usize,
    /// UTF-8 bytes of the source text.
    pub n_bytes: usize,
}

/// The figures of a sweep in decimal, as the report shows them.
#[derive(Debug, Clone, PartialEq, Eq)]
pub struct CorpusRates {
    pub word_ppl: String,
    pub bits_per_byte: String,
    pub token_ppl: String,
    pub total_nll: String,
    pub coverage_percent: String,
}

/// A line of the report: a label and a number in a column of twelve.
pub open spec fn figure(label: Seq<char>, value: Seq<char>, rest: Seq<char>) -> Seq<char> {
    label + right_aligned(value, 12) + rest
}

fn append_figure(out: &mut String, label: &str, value: &str, rest: &str)
    ensures
        final(out)@ == old(out)@ + figure(label@, value@, rest@),
{
    out.append(label);
    append_right_aligned(out, value, 12);
    out.append(rest);
    assert(out@ =~= old(out)@ + figure(label@, value@, rest@));
}

impl CorpusScore {
    /// The counts and figures for a reader.
    pub open spec fn summary(&self, rates: CorpusRates) -> Seq<char> {
        figure("word perplexity      "@, rates.word_ppl@, "   <- the comparable number\n"@)
            + figure("bits per byte        "@, rates.bits_per_byte@, "   <- also comparable\n"@)
            + figure(
            "token perplexity     "@,
            rates.token_ppl@,
            "   (tokenizer-dependent; do not compare)\n"@,
        ) + figure("total NLL (nats)     "@, rates.total_nll@, "\n"@) + figure(
            "scored tokens        "@,
            decimal(self.n_scored_tokens as nat),
            "   ("@ + rates.coverage_percent@ + "% of the corpus)\n"@,
        ) + figure("words                "@, decimal(self.n_words as nat), "\n"@) + figure(
            "bytes                "@,
            decimal(self.n_bytes as nat),
            ""@,
        )
    }

    /// Renders the counts and figures for a reader. The figures are quotients,
    /// exponentials and logarithms; their texts come with the call.
    pub fn report(&self, rates: &CorpusRates) -> (s: String)
        ensures
            s@ == self.summary(*rates),
    {
        let mut s = String::new();
        append_figure(
            &mut s,
            "word perplexity      ",
            rates.word_ppl.as_str(),
            "   <- the comparable number\n",
        );
        append_figure(
            &mut s,
            "bits per byte        ",
            rates.bits_per_byte.as_str(),
            "   <- also comparable\n",
        );
        append_figure(
            &mut s,
            "token perplexity     ",
            rates.token_ppl.as_str(),
            "   (tokenizer-dependent; do not compare)\n",
        );
        append_figure(&mut s, "total NLL (nats)     ", rates.total_nll.as_str(), "\n");
        let mut share = "   (".to_owned();
        share.append(rates.coverage_percent.as_str());
        share.append("% of the corpus)\n");
        append_figure(
            &mut s,
            "scored tokens        ",
            decimal_string(self.n_scored_tokens).as_str(),
            share.as_str(),
        );
        append_figure(
            &mut s,
            "words                ",
            decimal_string(self.n_words).as_str(),
            "\n",
        );
        append_figure(&mut s, "bytes                ", decimal_string(self.n_bytes).as_str(), "");
        assert(s@ =~= self.summary(*rates));
        s
    }
}

/// A sweep that is about to run: what it will have counted when it is done.
#[derive(Debug, Clone, Copy, PartialEq, Eq, Structural)]
pub struct CorpusSweep {
    pub windows: usize,
    pub expected: CorpusScore,
}

/// Why a shard cannot be swept with a model, when it cannot.
pub open spec fn sweep_fault(
    config: EvalConfig,
    model: ModelConfig,
    shard: Shard,
) -> Option<Seq<char>> {
    let w = config.seq_len as nat;
    if config.fault() is Some {
        config.fault()
    } else if shard.counts().vocab_size != model.vocab_size {
        Some(
            "shard vocab "@ + decimal(shard.counts().vocab_size as nat) + " != model vocab "@
                + decimal(model.vocab_size as nat)
                + ": this shard was tokenized with a different tokenizer, and its ids mean nothing to this model"@,
        )
    } else if config.seq_len > model.max_seq_len {
        Some(
            "seq_len "@ + decimal(w) + " exceeds the model's max_seq_len "@ + decimal(
                model.max_seq_len as nat,
            ),
        )
    } else if window_count(shard@.len(), w, config.stride as nat) == 0 {
        Some(
            "shard holds "@ + decimal(shard@.len()) + " tokens, too few for even one "@ + decimal(w)
                + "-token window"@,
        )
    } else {
        None
    }
}

impl CorpusSweep {
    /// A sweep of `shard`, or why there is none.
    pub fn start(config: &EvalConfig, model: &ModelConfig, shard: Shard<'_>) -> (r: Result<
        Self,
        String,
    >)
        ensures
            match sweep_fault(*config, *model, shard) {
                Some(fault) => r is Err && r->Err_0@ == fault,
                None => {
                    let w = config.seq_len as nat;
                    let stride = config.stride as nat;
                    let windows = window_count(shard@.len(), w, stride);
                    let meta = shard.counts();
                    &&& r is Ok
                    &&& r->Ok_0.windows == windows
                    &&& r->Ok_0.expected == (CorpusScore {
                        n_scored_tokens: scored_by(windows, w, stride) as usize,
                        n_tokens: meta.n_tokens,
                        n_words: meta.n_words,
                        n_bytes: meta.n_bytes,
                    })
                    &&& r->Ok_0.expected.n_scored_tokens == scored_by(windows, w, stride)
                    &&& r->Ok_0.expected.n_scored_tokens < r->Ok_0.expected.n_tokens
                },
            },
    {
        match config.validate() {
            Ok(()) => {},
            Err(e) => {
                return Err(e);
            },
        }
        let meta = *shard.meta();
        if meta.vocab_size != model.vocab_size {
            return Err(
                around_two(
                    "shard vocab ",
                    meta.vocab_size,
                    " != model vocab ",
                    model.vocab_size,
                    ": this shard was tokenized with a different tokenizer, and its ids mean nothing to this model",
                ),
            );
        }
        if config.seq_len > model.max_seq_len {
            let mut s = around_one("seq_len ", config.seq_len, " exceeds the model's max_seq_len ");
            append_decimal(&mut s, model.max_seq_len);
            return Err(s);
        }
        let n_tokens: usize = shard.len();
        let dataset = TokenDataset::with_stride(shard, config.seq_len, config.stride);
        let windows: usize = dataset.len();
        if windows == 0 {
            return Err(
                around_two(
                    "shard holds ",
                    n_tokens,
                    " tokens, too few for even one ",
                    config.seq_len,
                    "-token window",
                ),
            );
        }
        proof {
            scored_sum(
                n_tokens as nat,
                config.seq_len as nat,
                config.stride as nat,
                windows as nat,
            );
        }
        Ok(
            CorpusSweep {
                windows,
                expected: CorpusScore {
                    n_scored_tokens: dataset.n_scored_tokens(),
                    n_tokens,
                    n_words: meta.n_words,
                    n_bytes: meta.n_bytes,
                },
            },
        )
    }

    /// The score of a finished sweep that scored `n_scored_tokens`, or that the
    /// masks and the window layout disagree.
    pub fn finish(&self, n_scored_tokens: usize) -> (r: Result<CorpusScore, String>)
        ensures
            r is Ok <==> n_scored_tokens == self.expected.n_scored_tokens,
            r is Ok ==> r->Ok_0 == self.expected,
            r is Err ==> r->Err_0@ == "scored "@ + decimal(n_scored_tokens as nat)
                + " tokens but the window layout predicts "@ + decimal(
                self.expected.n_scored_tokens as nat,
            ) + ": the mask and the dataset disagree"@,
    {
        if n_scored_tokens != self.expected.n_scored_tokens {
            return Err(
                around_two(
                    "scored ",
                    n_scored_tokens,
                    " tokens but the window layout predicts ",
                    self.expected.n_scored_tokens,
                    ": the mask and the dataset disagree",
                ),
            );
        }
        Ok(self.expected)
    }
}

} // verus!
