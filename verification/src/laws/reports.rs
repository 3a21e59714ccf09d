//! What reports show.

use vstd::prelude::*;

use vstd::string::*;

use crate::chars::occurs_at;
use crate::compress::eval::{
    shown_sample, shown_samples, ReconstructionRates, ReconstructionSample, ReconstructionScore,
};
use crate::compress::config::{plain_row, plain_rows, CompressConfig};
use crate::compress::quantize::flat_dimension;
use crate::config::{row, rows, thousands, total, ModelConfig};
use crate::data::shard::{misfit, Shard};
use crate::data::tokenizer::cleaned;
use crate::eval::artifacts::{
    compressor_summary, missing_record, model_summary, path_lines, Section,
};
use crate::eval::blimp::layout::{longest, scoring_fault};
use crate::eval::blimp::score::{
    field_line, field_lines, paradigm_line, paradigm_lines, BlimpRates, BlimpScore, FieldTotal,
    ParadigmScore,
};
use crate::eval::corpus::{CorpusRates, CorpusScore};
use crate::eval::generate::{no_room, shown, shown_all, Sample, StopReason};
use crate::infer::{
    shown_record, shown_records, stop_name, CompressorMetrics, InferenceOutput,
    LanguageModelMetrics,
};
use crate::text::{decimal, left_aligned, repeated, right_aligned, texts};
use crate::train::epochs::merge_refusal;
use crate::train::plan::{foreign_shard, long_warmup, short_shard};

verus! {

/// Whether a report shows a text.
pub open spec fn shows(report: Seq<char>, part: Seq<char>) -> bool {
    exists|k: int| #[trigger] occurs_at(report, part, k)
}

proof fn shows_amid(before: Seq<char>, part: Seq<char>, after: Seq<char>)
    ensures
        shows(before + part + after, part),
{
    let all = before + part + after;
    let k = before.len() as int;
    assert(all.subrange(k, k + part.len()) =~= part);
    assert(occurs_at(all, part, k));
}

proof fn shows_part(report: Seq<char>, before: Seq<char>, part: Seq<char>, after: Seq<char>)
    requires
        report =~= before + part + after,
    ensures
        shows(report, part),
{
    shows_amid(before, part, after);
}

/// The corpus report shows each figure and count behind its label.
pub proof fn corpus_reports_show_their_figures(s: CorpusScore, r: CorpusRates)
    ensures
        ({
            let all = s.summary(r);
            &&& shows(all, "word perplexity      "@ + right_aligned(r.word_ppl@, 12))
            &&& shows(all, "bits per byte        "@ + right_aligned(r.bits_per_byte@, 12))
            &&& shows(all, "token perplexity     "@ + right_aligned(r.token_ppl@, 12))
            &&& shows(all, "total NLL (nats)     "@ + right_aligned(r.total_nll@, 12))
            &&& shows(
                all,
                "scored tokens        "@ + right_aligned(decimal(s.n_scored_tokens as nat), 12)
                    + "   ("@ + r.coverage_percent@ + "% of the corpus)"@,
            )
            &&& shows(all, "words                "@ + right_aligned(decimal(s.n_words as nat), 12))
            &&& shows(all, "bytes                "@ + right_aligned(decimal(s.n_bytes as nat), 12))
        }),
{
    let a1 = "word perplexity      "@ + right_aligned(r.word_ppl@, 12);
    let l1 = a1 + "   <- the comparable number\n"@;
    let a2 = "bits per byte        "@ + right_aligned(r.bits_per_byte@, 12);
    let l2 = a2 + "   <- also comparable\n"@;
    let a3 = "token perplexity     "@ + right_aligned(r.token_ppl@, 12);
    let l3 = a3 + "   (tokenizer-dependent; do not compare)\n"@;
    let a4 = "total NLL (nats)     "@ + right_aligned(r.total_nll@, 12);
    let l4 = a4 + "\n"@;
    let scored = "scored tokens        "@ + right_aligned(decimal(s.n_scored_tokens as nat), 12);
    let a5 = scored + "   ("@ + r.coverage_percent@ + "% of the corpus)"@;
    let l5 = scored + ("   ("@ + r.coverage_percent@ + "% of the corpus)\n"@);
    let a6 = "words                "@ + right_aligned(decimal(s.n_words as nat), 12);
    let l6 = a6 + "\n"@;
    let a7 = "bytes                "@ + right_aligned(decimal(s.n_bytes as nat), 12);
    let l7 = a7 + ""@;
    begins(a1, "   <- the comparable number\n"@);
    begins(a2, "   <- also comparable\n"@);
    begins(a3, "   (tokenizer-dependent; do not compare)\n"@);
    begins(a4, "\n"@);
    share_is_shown(scored, r.coverage_percent@);
    begins(a6, "\n"@);
    begins(a7, ""@);
    let p1 = l1;
    let p2 = p1 + l2;
    let p3 = p2 + l3;
    let p4 = p3 + l4;
    let p5 = p4 + l5;
    let p6 = p5 + l6;
    let p7 = p6 + l7;
    assert(s.summary(r) == p7);
    carried(p1, l2, a1);
    carried(p2, l3, a1);
    carried(p3, l4, a1);
    carried(p4, l5, a1);
    carried(p5, l6, a1);
    carried(p6, l7, a1);
    carried(p1, l2, a2);
    carried(p2, l3, a2);
    carried(p3, l4, a2);
    carried(p4, l5, a2);
    carried(p5, l6, a2);
    carried(p6, l7, a2);
    carried(p2, l3, a3);
    carried(p3, l4, a3);
    carried(p4, l5, a3);
    carried(p5, l6, a3);
    carried(p6, l7, a3);
    carried(p3, l4, a4);
    carried(p4, l5, a4);
    carried(p5, l6, a4);
    carried(p6, l7, a4);
    carried(p4, l5, a5);
    carried(p5, l6, a5);
    carried(p6, l7, a5);
    carried(p5, l6, a6);
    carried(p6, l7, a6);
    carried(p6, l7, a7);
}

proof fn share_is_shown(scored: Seq<char>, percent: Seq<char>)
    ensures
        shows(
            scored + ("   ("@ + percent + "% of the corpus)\n"@),
            scored + "   ("@ + percent + "% of the corpus)"@,
        ),
{
    reveal_strlit("% of the corpus)\n");
    reveal_strlit("% of the corpus)");
    let line = seq!['\n'];
    assert("% of the corpus)\n"@ =~= "% of the corpus)"@ + line);
    shows_part(
        scored + ("   ("@ + percent + "% of the corpus)\n"@),
        Seq::empty(),
        scored + "   ("@ + percent + "% of the corpus)"@,
        line,
    );
}

proof fn begins(part: Seq<char>, rest: Seq<char>)
    ensures
        shows(part + rest, part),
{
    shows_part(part + rest, Seq::empty(), part, rest);
}

/// What a part shows, the whole shows.
proof fn carried(a: Seq<char>, b: Seq<char>, part: Seq<char>)
    requires
        shows(a, part) || shows(b, part),
    ensures
        shows(a + b, part),
{
    if shows(a, part) {
        let k = choose|k: int| #[trigger] occurs_at(a, part, k);
        assert((a + b).subrange(k, k + part.len()) =~= a.subrange(k, k + part.len()));
        assert(occurs_at(a + b, part, k));
    } else {
        let k = choose|k: int| #[trigger] occurs_at(b, part, k);
        let n = a.len() as int;
        assert((a + b).subrange(n + k, n + k + part.len()) =~= b.subrange(k, k + part.len()));
        assert(occurs_at(a + b, part, n + k));
    }
}

/// The reconstruction report shows its counts behind their labels.
pub proof fn reconstruction_reports_show_their_counts(
    s: ReconstructionScore,
    r: ReconstructionRates,
)
    ensures
        ({
            let all = s.summary(r);
            &&& shows(
                all,
                "free-running accuracy   "@ + right_aligned(r.free_running_percent@, 10),
            )
            &&& shows(
                all,
                "exact-span rate         "@ + right_aligned(r.exact_span_percent@, 10),
            )
            &&& shows(
                all,
                "teacher-forced accuracy "@ + right_aligned(r.teacher_forced_percent@, 10),
            )
            &&& shows(
                all,
                "exposure gap            "@ + right_aligned(r.exposure_gap_percent@, 10),
            )
            &&& shows(all, "bits per token          "@ + right_aligned(r.bits_per_token@, 10))
            &&& shows(all, "token ratio             "@ + right_aligned(r.token_ratio@, 10))
            &&& shows(all, "reconstruction NLL      "@ + right_aligned(r.nll@, 10))
            &&& shows(
                all,
                "spans                   "@ + right_aligned(decimal(s.n_spans as nat), 10)
                    + "    ("@ + decimal(s.n_spans_available as nat) + " available"@,
            )
            &&& shows(
                all,
                "tokens                  "@ + right_aligned(decimal(s.n_tokens as nat), 10),
            )
        }),
{
    let a1 = "free-running accuracy   "@ + right_aligned(r.free_running_percent@, 10);
    let l1 = a1 + "%   <- the headline (latent only)\n"@;
    let a2 = "exact-span rate         "@ + right_aligned(r.exact_span_percent@, 10);
    let l2 = a2 + "%   (spans recovered token-for-token)\n"@;
    let a3 = "teacher-forced accuracy "@ + right_aligned(r.teacher_forced_percent@, 10);
    let l3 = a3 + "%   (upper bound; the decoder saw the true prefix)\n"@;
    let a4 = "exposure gap            "@ + right_aligned(r.exposure_gap_percent@, 10);
    let l4 = a4 + "%   (large => the decoder leans on its prefix)\n"@;
    let a5 = "bits per token          "@ + right_aligned(r.bits_per_token@, 10);
    let x5 = "    ("@ + r.bit_ratio@ + "x vs "@ + r.token_bits@ + " bits for a raw id)\n"@;
    let l5 = a5 + x5;
    let a6 = "token ratio             "@ + right_aligned(r.token_ratio@, 10);
    let l6 = a6 + "    (sequence length, not information)\n"@;
    let a7 = "reconstruction NLL      "@ + right_aligned(r.nll@, 10);
    let x7 = "    (the training loss; ppl "@ + r.token_ppl@ + ")\n"@;
    let l7 = a7 + x7;
    let spans = "spans                   "@ + right_aligned(decimal(s.n_spans as nat), 10);
    let a8 = spans + "    ("@ + decimal(s.n_spans_available as nat) + " available"@;
    let l8 = spans + ("    ("@ + decimal(s.n_spans_available as nat)
        + " available in the shard)\n"@);
    let a9 = "tokens                  "@ + right_aligned(decimal(s.n_tokens as nat), 10);
    let l9 = a9 + ""@;
    begins(a1, "%   <- the headline (latent only)\n"@);
    begins(a2, "%   (spans recovered token-for-token)\n"@);
    begins(a3, "%   (upper bound; the decoder saw the true prefix)\n"@);
    begins(a4, "%   (large => the decoder leans on its prefix)\n"@);
    begins(a5, x5);
    begins(a6, "    (sequence length, not information)\n"@);
    begins(a7, x7);
    available_is_shown(spans, decimal(s.n_spans_available as nat));
    begins(a9, ""@);
    let p1 = l1;
    let p2 = p1 + l2;
    let p3 = p2 + l3;
    let p4 = p3 + l4;
    let p5 = p4 + l5;
    let p6 = p5 + l6;
    let p7 = p6 + l7;
    let p8 = p7 + l8;
    let p9 = p8 + l9;
    assert(s.summary(r) == p9);
    carried(p1, l2, a1);
    carried(p2, l3, a1);
    carried(p3, l4, a1);
    carried(p4, l5, a1);
    carried(p5, l6, a1);
    carried(p6, l7, a1);
    carried(p7, l8, a1);
    carried(p8, l9, a1);
    carried(p1, l2, a2);
    carried(p2, l3, a2);
    carried(p3, l4, a2);
    carried(p4, l5, a2);
    carried(p5, l6, a2);
    carried(p6, l7, a2);
    carried(p7, l8, a2);
    carried(p8, l9, a2);
    carried(p2, l3, a3);
    carried(p3, l4, a3);
    carried(p4, l5, a3);
    carried(p5, l6, a3);
    carried(p6, l7, a3);
    carried(p7, l8, a3);
    carried(p8, l9, a3);
    carried(p3, l4, a4);
    carried(p4, l5, a4);
    carried(p5, l6, a4);
    carried(p6, l7, a4);
    carried(p7, l8, a4);
    carried(p8, l9, a4);
    carried(p4, l5, a5);
    carried(p5, l6, a5);
    carried(p6, l7, a5);
    carried(p7, l8, a5);
    carried(p8, l9, a5);
    carried(p5, l6, a6);
    carried(p6, l7, a6);
    carried(p7, l8, a6);
    carried(p8, l9, a6);
    carried(p6, l7, a7);
    carried(p7, l8, a7);
    carried(p8, l9, a7);
    carried(p7, l8, a8);
    carried(p8, l9, a8);
    carried(p8, l9, a9);
}

proof fn available_is_shown(spans: Seq<char>, n: Seq<char>)
    ensures
        shows(
            spans + ("    ("@ + n + " available in the shard)\n"@),
            spans + "    ("@ + n + " available"@,
        ),
{
    reveal_strlit(" available in the shard)\n");
    reveal_strlit(" available");
    let tail = " available in the shard)\n"@.skip(10);
    assert(" available in the shard)\n"@ =~= " available"@ + tail);
    shows_part(
        spans + ("    ("@ + n + " available in the shard)\n"@),
        Seq::empty(),
        spans + "    ("@ + n + " available"@,
        tail,
    );
}

/// The line of a paradigm shows its name, its accuracy, and its right pairs out of
/// all of them.
pub proof fn paradigm_lines_show_their_counts(
    p: ParadigmScore,
    percent: Seq<char>,
    scores: Seq<ParadigmScore>,
    percents: Seq<Seq<char>>,
    ranking: Seq<usize>,
    n: int,
)
    ensures
        shows(paradigm_line(p, percent), p.uid@),
        shows(
            paradigm_line(p, percent),
            percent + "%  ("@ + decimal(p.n_correct as nat) + "/"@ + decimal(p.n_pairs as nat)
                + ")"@,
        ),
        n >= 0 ==> paradigm_lines(scores, percents, ranking, n + 1) == paradigm_lines(
            scores,
            percents,
            ranking,
            n,
        ) + paradigm_line(scores[ranking[n] as int], percents[ranking[n] as int]),
        paradigm_lines(scores, percents, ranking, 0) == Seq::<char>::empty(),
{
    let line = paradigm_line(p, percent);
    reveal_strlit(")\n");
    reveal_strlit(")");
    let end = seq!['\n'];
    assert(")\n"@ =~= ")"@ + end);
    let filled = left_aligned(p.uid@, 44).skip(p.uid@.len() as int);
    assert(left_aligned(p.uid@, 44) =~= p.uid@ + filled);
    let k = right_aligned(percent, 6).len() - percent.len();
    let lead = right_aligned(percent, 6).take(k);
    assert(right_aligned(percent, 6) =~= lead + percent);
    let counts = "%  ("@ + decimal(p.n_correct as nat) + "/"@ + decimal(p.n_pairs as nat);
    let rest = " "@ + lead + percent + counts + ")\n"@;
    shows_part(line, "  "@, p.uid@, filled + rest);
    let part = percent + "%  ("@ + decimal(p.n_correct as nat) + "/"@ + decimal(p.n_pairs as nat)
        + ")"@;
    shows_part(line, "  "@ + p.uid@ + filled + " "@ + lead, part, end);
}

/// The line of a field shows its name and its accuracy, and each field has one.
pub proof fn field_lines_show_their_accuracy(
    field: Seq<char>,
    percent: Seq<char>,
    totals: Seq<FieldTotal>,
    total: FieldTotal,
    percents: Seq<Seq<char>>,
)
    ensures
        shows(field_line(field, percent), field),
        shows(field_line(field, percent), percent + "%\n"@),
        field_lines(totals.push(total), percents) == field_lines(totals, percents) + field_line(
            total.field@,
            percents[totals.len() as int],
        ),
        field_lines(Seq::<FieldTotal>::empty(), percents) == Seq::<char>::empty(),
{
    let line = field_line(field, percent);
    let filled = left_aligned(field, 28).skip(field.len() as int);
    assert(left_aligned(field, 28) =~= field + filled);
    let k = right_aligned(percent, 6).len() - percent.len();
    let lead = right_aligned(percent, 6).take(k);
    assert(right_aligned(percent, 6) =~= lead + percent);
    shows_part(line, "  "@, field, filled + " "@ + lead + percent + "%\n"@);
    shows_part(line, "  "@ + field + filled + " "@ + lead, percent + "%\n"@, Seq::empty());
    assert(totals.push(total).drop_last() =~= totals);
}

/// A sample shows its prompt, what was decoded, how many tokens that took and why
/// it ended, and samples are shown one behind another.
pub proof fn samples_show_what_was_decoded(sample: Sample, samples: Seq<Sample>)
    ensures
        shows(shown(sample), cleaned(sample.prompt@)),
        shows(shown(sample), cleaned(sample.completion@)),
        shows(
            shown(sample),
            "["@ + decimal(sample.n_new_tokens as nat) + " tokens, "@ + sample.stop_reason.label()
                + "]"@,
        ),
        shown_all(samples.push(sample)) == shown_all(samples) + shown(sample),
        shown_all(Seq::<Sample>::empty()) == Seq::<char>::empty(),
        StopReason::Eos.label() == "Eos"@,
        StopReason::Limit.label() == "Limit"@,
        StopReason::ContextFull.label() == "ContextFull"@,
{
    let all = shown(sample);
    let p = cleaned(sample.prompt@);
    let c = cleaned(sample.completion@);
    reveal_strlit("\n  [");
    reveal_strlit("[");
    reveal_strlit("]\n\n");
    reveal_strlit("]");
    let open = seq!['\n', ' ', ' '];
    let close = seq!['\n', '\n'];
    assert("\n  ["@ =~= open + "["@);
    assert("]\n\n"@ =~= "]"@ + close);
    let counts = "["@ + decimal(sample.n_new_tokens as nat) + " tokens, "@
        + sample.stop_reason.label() + "]"@;
    shows_part(all, "> "@, p, "\n  "@ + c + open + counts + close);
    shows_part(all, "> "@ + p + "\n  "@, c, open + counts + close);
    shows_part(all, "> "@ + p + "\n  "@ + c + open, counts, close);
    assert(samples.push(sample).drop_last() =~= samples);
}

/// A round trip shows how many tokens agree out of how many, and both texts.
pub proof fn round_trips_show_both_texts(i: nat, s: ReconstructionSample, percent: Seq<char>)
    ensures
        shows(
            shown_sample(i, s, percent),
            "--- span "@ + decimal(i) + " ("@ + decimal(s.correct as nat) + "/"@ + decimal(
                s.span_len as nat,
            ) + " tokens, "@ + percent + "%"@,
        ),
        shows(shown_sample(i, s, percent), "in : "@ + cleaned(s.original@) + "\n"@),
        shows(shown_sample(i, s, percent), "out: "@ + cleaned(s.reconstruction@) + "\n"@),
{
    let all = shown_sample(i, s, percent);
    let a = cleaned(s.original@);
    let b = cleaned(s.reconstruction@);
    reveal_strlit("%) ---\n  in : ");
    reveal_strlit("%");
    reveal_strlit("in : ");
    reveal_strlit("\n  out: ");
    reveal_strlit("out: ");
    reveal_strlit("\n");
    reveal_strlit("\n\n");
    let mid = "%) ---\n  in : "@.subrange(1, 9);
    assert("%) ---\n  in : "@ =~= "%"@ + mid + "in : "@);
    let gap = seq![' ', ' '];
    assert("\n  out: "@ =~= "\n"@ + gap + "out: "@);
    assert("\n\n"@ =~= "\n"@ + "\n"@);
    let head = "--- span "@ + decimal(i) + " ("@ + decimal(s.correct as nat) + "/"@ + decimal(
        s.span_len as nat,
    ) + " tokens, "@ + percent + "%"@;
    let x = "in : "@ + a + "\n"@;
    let y = "out: "@ + b + "\n"@;
    shows_part(all, Seq::empty(), head, mid + x + gap + y + "\n"@);
    shows_part(all, head + mid, x, gap + y + "\n"@);
    shows_part(all, head + mid + x + gap, y, "\n"@);
}

/// A line of a budget shows the name and the count, with its digits grouped.
pub proof fn budget_lines_show_their_count(name: Seq<char>, n: nat)
    ensures
        shows(row(name, n), name),
        shows(row(name, n), thousands(n)),
        row(name, n).len() >= 37,
{
    let all = row(name, n);
    let filled = left_aligned(name, 24).skip(name.len() as int);
    assert(left_aligned(name, 24) =~= name + filled);
    let t = thousands(n);
    let k = right_aligned(t, 12).len() - t.len();
    let lead = right_aligned(t, 12).take(k);
    assert(right_aligned(t, 12) =~= lead + t);
    reveal_strlit(" ");
    shows_part(all, Seq::empty(), name, filled + " "@ + lead + t);
    shows_part(all, name + filled + " "@ + lead, t, Seq::empty());
}

/// A record of a continuation shows its source, both texts, and its counts.
pub proof fn continuations_show_their_counts(
    index: nat,
    source: String,
    input: String,
    output: String,
    metrics: LanguageModelMetrics,
)
    ensures
        ({
            let all = shown_record(
                index,
                InferenceOutput::LanguageModel { source, input, output, metrics },
            );
            &&& shows(all, "--- input "@ + decimal(index) + ": "@ + source@)
            &&& shows(all, input@ + "\nout: "@ + output@ + "\n"@)
            &&& shows(
                all,
                decimal(metrics.prompt_tokens as nat) + " prompt tokens, "@ + decimal(
                    metrics.generated_tokens as nat,
                ) + " generated tokens, stopped: "@ + metrics.stop_reason@,
            )
        }),
        stop_name(StopReason::Eos) == "eos"@,
        stop_name(StopReason::Limit) == "limit"@,
        stop_name(StopReason::ContextFull) == "contextfull"@,
{
    let all = shown_record(
        index,
        InferenceOutput::LanguageModel { source, input, output, metrics },
    );
    reveal_strlit("\nmetrics: ");
    reveal_strlit("\n");
    let rest = "\nmetrics: "@.skip(1);
    assert("\nmetrics: "@ =~= "\n"@ + rest);
    let head = "--- input "@ + decimal(index) + ": "@ + source@;
    let kind = " (language model) ---\nin : "@;
    let both = input@ + "\nout: "@ + output@ + "\n"@;
    let counts = decimal(metrics.prompt_tokens as nat) + " prompt tokens, "@ + decimal(
        metrics.generated_tokens as nat,
    ) + " generated tokens, stopped: "@ + metrics.stop_reason@;
    shows_part(all, Seq::empty(), head, kind + both + rest + counts + "\n\n"@);
    shows_part(all, head + kind, both, rest + counts + "\n\n"@);
    shows_part(all, head + kind + both + rest, counts, "\n\n"@);
}

/// A record of a reconstruction shows its source, both texts, and its counts.
pub proof fn reconstructions_show_their_counts(
    index: nat,
    source: String,
    input: String,
    output: String,
    metrics: CompressorMetrics,
)
    ensures
        ({
            let all = shown_record(
                index,
                InferenceOutput::Compressor { source, input, output, metrics },
            );
            &&& shows(all, "--- input "@ + decimal(index) + ": "@ + source@)
            &&& shows(all, input@ + "\nout: "@ + output@ + "\n"@)
            &&& shows(
                all,
                decimal(metrics.correct_tokens as nat) + "/"@ + decimal(
                    metrics.input_tokens as nat,
                ) + " tokens correct ("@ + metrics.accuracy_percent@ + "%), "@ + decimal(
                    metrics.spans as nat,
                ) + " span(s) of "@ + decimal(metrics.span_len as nat) + ", "@
                    + metrics.token_ratio@ + "x token ratio, "@ + metrics.bits_per_token@
                    + " bits/token"@,
            )
        }),
{
    let all = shown_record(
        index,
        InferenceOutput::Compressor { source, input, output, metrics },
    );
    reveal_strlit("\nmetrics: ");
    reveal_strlit("\n");
    reveal_strlit(" bits/token\n\n");
    reveal_strlit(" bits/token");
    let rest = "\nmetrics: "@.skip(1);
    assert("\nmetrics: "@ =~= "\n"@ + rest);
    let end = seq!['\n', '\n'];
    assert(" bits/token\n\n"@ =~= " bits/token"@ + end);
    let head = "--- input "@ + decimal(index) + ": "@ + source@;
    let kind = " (compressor) ---\nin : "@;
    let both = input@ + "\nout: "@ + output@ + "\n"@;
    let counts = decimal(metrics.correct_tokens as nat) + "/"@ + decimal(
        metrics.input_tokens as nat,
    ) + " tokens correct ("@ + metrics.accuracy_percent@ + "%), "@ + decimal(metrics.spans as nat)
        + " span(s) of "@ + decimal(metrics.span_len as nat) + ", "@ + metrics.token_ratio@
        + "x token ratio, "@ + metrics.bits_per_token@ + " bits/token"@;
    shows_part(all, Seq::empty(), head, kind + both + rest + counts + end);
    shows_part(all, head + kind, both, rest + counts + end);
    shows_part(all, head + kind + both + rest, counts, end);
}

/// Records are shown one behind another, numbered from zero.
pub proof fn records_are_numbered(records: Seq<InferenceOutput>, record: InferenceOutput)
    ensures
        shown_records(Seq::<InferenceOutput>::empty()) == Seq::<char>::empty(),
        shown_records(records.push(record)) == shown_records(records) + shown_record(
            records.len(),
            record,
        ),
{
    assert(records.push(record).drop_last() =~= records);
}

/// What is said of a missing record: that a directory is none, or which file was
/// looked for; and the records that exist, where there are any.
pub proof fn missing_records_are_named(
    path: Seq<char>,
    record: Seq<char>,
    extension: Seq<char>,
    found: Seq<Seq<char>>,
)
    ensures
        shows(missing_record(true, path, record, extension, found), path + " is a directory"@),
        shows(
            missing_record(false, path, record, extension, found),
            "no model record at "@ + record,
        ),
        found.len() > 0 ==> shows(
            missing_record(true, path, record, extension, found),
            path_lines(found),
        ) && shows(missing_record(false, path, record, extension, found), path_lines(found)),
{
    reveal_strlit(
        " is a directory; `--model` wants the record itself, as a path without the .",
    );
    reveal_strlit(" is a directory");
    let said = " is a directory; `--model` wants the record itself, as a path without the ."@;
    let rest = said.skip(15);
    assert(said =~= " is a directory"@ + rest);
    let list = if found.len() == 0 {
        Seq::empty()
    } else {
        "\n\nrecords that do exist (pass one of these to --model):"@ + path_lines(found)
    };
    let a = missing_record(true, path, record, extension, found);
    let a_tail = rest + extension + " extension (the recorder sets it)"@;
    shows_part(a, Seq::empty(), path + " is a directory"@, a_tail + list);
    let b = missing_record(false, path, record, extension, found);
    let b_tail = " (`--model` is a path *without* the ."@ + extension
        + " extension, which the recorder sets)"@;
    shows_part(b, Seq::empty(), "no model record at "@ + record, b_tail + list);
    if found.len() > 0 {
        let intro = "\n\nrecords that do exist (pass one of these to --model):"@;
        shows_part(
            a,
            path + " is a directory"@ + a_tail + intro,
            path_lines(found),
            Seq::empty(),
        );
        shows_part(
            b,
            "no model record at "@ + record + b_tail + intro,
            path_lines(found),
            Seq::empty(),
        );
    }
}

/// The report on a model shows its size and every part that was asked for; what
/// was not asked for leaves no trace.
pub proof fn model_reports_show_what_was_asked_for(
    path: Seq<char>,
    params: nat,
    dense: nat,
    corpus: Section,
    blimp: Seq<char>,
    generation: Seq<char>,
)
    ensures
        ({
            let head = "model "@ + path + " ("@ + decimal(params) + " parameters, "@ + decimal(
                dense,
            ) + " compute-equivalent)\n\n"@;
            let all = model_summary(
                path,
                params,
                dense,
                Some(corpus),
                Some(blimp),
                Some(generation),
            );
            &&& model_summary(path, params, dense, None, None, None) == head
            &&& shows(all, head)
            &&& shows(all, "== corpus: "@ + corpus.subject@ + " ==\n"@ + corpus.body@)
            &&& shows(all, "== BLiMP ==\n"@ + blimp)
            &&& shows(all, "== generation ==\n"@ + generation)
            &&& shows(
                model_summary(path, params, dense, Some(corpus), None, None),
                "== corpus: "@ + corpus.subject@ + " ==\n"@ + corpus.body@,
            )
            &&& shows(
                model_summary(path, params, dense, None, Some(blimp), None),
                "== BLiMP ==\n"@ + blimp,
            )
            &&& shows(
                model_summary(path, params, dense, None, None, Some(generation)),
                "== generation ==\n"@ + generation,
            )
        }),
{
    let head = "model "@ + path + " ("@ + decimal(params) + " parameters, "@ + decimal(dense)
        + " compute-equivalent)\n\n"@;
    let none = Seq::<char>::empty();
    let c = "== corpus: "@ + corpus.subject@ + " ==\n"@ + corpus.body@;
    let b = "== BLiMP ==\n"@ + blimp;
    let g = "== generation ==\n"@ + generation;
    assert(model_summary(path, params, dense, None, None, None) =~= head);
    let all = model_summary(path, params, dense, Some(corpus), Some(blimp), Some(generation));
    shows_part(all, none, head, c + "\n\n"@ + b + "\n"@ + g);
    shows_part(all, head, c, "\n\n"@ + b + "\n"@ + g);
    shows_part(all, head + c + "\n\n"@, b, "\n"@ + g);
    shows_part(all, head + c + "\n\n"@ + b + "\n"@, g, none);
    shows_part(
        model_summary(path, params, dense, Some(corpus), None, None),
        head,
        c,
        "\n\n"@,
    );
    shows_part(model_summary(path, params, dense, None, Some(blimp), None), head, b, "\n"@);
    shows_part(
        model_summary(path, params, dense, None, None, Some(generation)),
        head,
        g,
        none,
    );
}

/// The report on a compressor shows its size, its budget, and every part that was
/// asked for.
pub proof fn compressor_reports_show_what_was_asked_for(
    path: Seq<char>,
    params: nat,
    span_len: nat,
    n_slots: nat,
    table: Seq<char>,
    blimp_asked: bool,
    part: Section,
    trips: Seq<char>,
)
    ensures
        ({
            let all = compressor_summary(
                path,
                params,
                span_len,
                n_slots,
                table,
                blimp_asked,
                Some(part),
                Some(trips),
            );
            &&& shows(
                all,
                "compressor "@ + path + " ("@ + decimal(params) + " parameters, "@ + decimal(
                    span_len,
                ) + " tokens -> "@ + decimal(n_slots) + " slots)\n\n"@ + table,
            )
            &&& shows(all, "== reconstruction: "@ + part.subject@ + " ==\n"@ + part.body@)
            &&& shows(all, "== round trips ==\n"@ + trips)
        }),
{
    let all = compressor_summary(
        path,
        params,
        span_len,
        n_slots,
        table,
        blimp_asked,
        Some(part),
        Some(trips),
    );
    reveal_strlit("\n== reconstruction: ");
    reveal_strlit("== reconstruction: ");
    reveal_strlit("\n== round trips ==\n");
    reveal_strlit("== round trips ==\n");
    let line = seq!['\n'];
    assert("\n== reconstruction: "@ =~= line + "== reconstruction: "@);
    assert("\n== round trips ==\n"@ =~= line + "== round trips ==\n"@);
    let none = Seq::<char>::empty();
    let head = "compressor "@ + path + " ("@ + decimal(params) + " parameters, "@ + decimal(
        span_len,
    ) + " tokens -> "@ + decimal(n_slots) + " slots)\n\n"@ + table;
    let skipped = if blimp_asked {
        "\n== BLiMP ==\nskipped: BLiMP is a language-model evaluation and this run is a compressor, which has no next-token distribution to score a minimal pair with\n"@
    } else {
        Seq::empty()
    };
    let m = "== reconstruction: "@ + part.subject@ + " ==\n"@ + part.body@;
    let t = "== round trips ==\n"@ + trips;
    let rest = line + m + "\n"@ + line + t;
    assert(all =~= head + "\n"@ + skipped + rest);
    shows_part(all, none, head, "\n"@ + skipped + rest);
    shows_part(all, head + "\n"@ + skipped + line, m, "\n"@ + line + t);
    shows_part(all, head + "\n"@ + skipped + line + m + "\n"@ + line, t, none);
}

/// What is refused is told with its numbers.
pub proof fn refusals_show_their_numbers(
    name: Seq<char>,
    a: nat,
    b: nat,
    token: u32,
    vocab: usize,
    epochs: usize,
)
    ensures
        shows(misfit(token, vocab), "token id "@ + decimal(token as nat) + " does not fit u16"@),
        shows(misfit(token, vocab), "vocab_size is "@ + decimal(vocab as nat)),
        shows(foreign_shard(name, a, b), name + " shard was tokenized with vocab_size "@
            + decimal(a)),
        shows(foreign_shard(name, a, b), "but the model has "@ + decimal(b)),
        shows(short_shard(name, a), name + " shard holds fewer than "@ + decimal(a + 1)
            + " tokens"@),
        shows(long_warmup(a, b, a), "warmup of "@ + decimal(a) + " batches"@),
        shows(long_warmup(a, b, a), "less than the "@ + decimal(b) + " batches"@),
        shows(no_room(a, b), "the prompt is "@ + decimal(a + 1) + " tokens"@),
        shows(no_room(a, b), "context is "@ + decimal(b)),
        shows(merge_refusal(name, epochs), name + " already holds metric logs for "@ + decimal(
            epochs as nat,
        ) + " epoch(s)"@),
{
    let none = Seq::<char>::empty();
    reveal_strlit(" does not fit u16; vocab_size is ");
    reveal_strlit(" does not fit u16");
    reveal_strlit("vocab_size is ");
    let m = misfit(token, vocab);
    let gap = seq![';', ' '];
    assert(" does not fit u16; vocab_size is "@ =~= " does not fit u16"@ + gap
        + "vocab_size is "@);
    let m1 = "token id "@ + decimal(token as nat) + " does not fit u16"@;
    let m2 = "vocab_size is "@ + decimal(vocab as nat);
    shows_part(m, none, m1, gap + m2);
    shows_part(m, m1 + gap, m2, none);

    reveal_strlit(" but the model has ");
    reveal_strlit("but the model has ");
    let blank = seq![' '];
    assert(" but the model has "@ =~= blank + "but the model has "@);
    let f = foreign_shard(name, a, b);
    let f1 = name + " shard was tokenized with vocab_size "@ + decimal(a);
    let f2 = "but the model has "@ + decimal(b);
    let f3 = "; re-run `quark prepare` with the matching tokenizer"@;
    shows_part(f, none, f1, blank + f2 + f3);
    shows_part(f, f1 + blank, f2, f3);

    reveal_strlit(" tokens, so it yields no windows");
    reveal_strlit(" tokens");
    let s_tail = " tokens, so it yields no windows"@.skip(7);
    assert(" tokens, so it yields no windows"@ =~= " tokens"@ + s_tail);
    shows_part(
        short_shard(name, a),
        none,
        name + " shard holds fewer than "@ + decimal(a + 1) + " tokens"@,
        s_tail,
    );

    reveal_strlit(" batches must be less than the ");
    reveal_strlit(" batches");
    reveal_strlit("less than the ");
    reveal_strlit(
        " batches this run will perform, or the learning rate never reaches its peak (warmup_ratio None, warmup_batches ",
    );
    let w = long_warmup(a, b, a);
    let w_mid = " batches must be less than the "@.subrange(8, 17);
    assert(" batches must be less than the "@ =~= " batches"@ + w_mid + "less than the "@);
    let told = " batches this run will perform, or the learning rate never reaches its peak (warmup_ratio None, warmup_batches "@;
    let w_tail = told.skip(8);
    assert(told =~= " batches"@ + w_tail);
    let w1 = "warmup of "@ + decimal(a) + " batches"@;
    let w2 = "less than the "@ + decimal(b) + " batches"@;
    let w3 = w_tail + decimal(a) + ")"@;
    shows_part(w, none, w1, w_mid + w2 + w3);
    shows_part(w, w1 + w_mid, w2, w3);

    reveal_strlit(" tokens and the model's context is ");
    reveal_strlit("context is ");
    let n = no_room(a, b);
    let n_all = " tokens and the model's context is "@;
    let n_mid = n_all.subrange(7, n_all.len() - 11);
    assert(n_all =~= " tokens"@ + n_mid + "context is "@);
    let n1 = "the prompt is "@ + decimal(a + 1) + " tokens"@;
    let n2 = "context is "@ + decimal(b);
    let n3 = ": there is no room to generate"@;
    shows_part(n, none, n1, n_mid + n2 + n3);
    shows_part(n, n1 + n_mid, n2, n3);

    merge_refusal_counts(name, epochs);
}

proof fn merge_refusal_counts(name: Seq<char>, epochs: usize)
    ensures
        shows(
            merge_refusal(name, epochs),
            name + " already holds metric logs for "@ + decimal(epochs as nat) + " epoch(s)"@,
        ),
{
    reveal_strlit(
        " epoch(s) from an earlier run. Training into it would merge the two: burn reads every `epoch-<n>` it finds, so the summary would report both runs as one, and the best-checkpoint search could select -- and load -- a checkpoint from the earlier model. Remove the directory, point --artifact-dir somewhere else, or pass --resume-from-epoch to continue that run deliberately.",
    );
    reveal_strlit(" epoch(s)");
    let told = " epoch(s) from an earlier run. Training into it would merge the two: burn reads every `epoch-<n>` it finds, so the summary would report both runs as one, and the best-checkpoint search could select -- and load -- a checkpoint from the earlier model. Remove the directory, point --artifact-dir somewhere else, or pass --resume-from-epoch to continue that run deliberately."@;
    let tail = told.skip(9);
    assert(told =~= " epoch(s)"@ + tail);
    let head = name + " already holds metric logs for "@ + decimal(epochs as nat);
    shows_part(
        merge_refusal(name, epochs),
        Seq::empty(),
        head + " epoch(s)"@,
        tail,
    );
}

/// Sentences without a token, and those past the context, are told apart.
pub proof fn unscorable_sentences_are_told_apart(sequences: Seq<Vec<u32>>, max_seq_len: nat)
    requires
        sequences.len() > 0,
    ensures
        longest(sequences) == 0 ==> scoring_fault(sequences, max_seq_len) == Some(
            "cannot score an empty sequence: it has no tokens to assign probability to"@,
        ),
        longest(sequences) > max_seq_len ==> longest(sequences) == 0 || (scoring_fault(
            sequences,
            max_seq_len,
        ) is Some && shows(
            scoring_fault(sequences, max_seq_len)->Some_0,
            "a sentence tokenizes to "@ + decimal(longest(sequences))
                + " tokens, past the model's context of "@ + decimal(max_seq_len),
        )),
{
    if longest(sequences) > max_seq_len && longest(sequences) > 0 {
        let told = scoring_fault(sequences, max_seq_len)->Some_0;
        begins(
            "a sentence tokenizes to "@ + decimal(longest(sequences))
                + " tokens, past the model's context of "@ + decimal(max_seq_len),
            ". Truncating would compare two different sentences, so this is an error rather than a warning"@,
        );
    }
}

/// The report on a suite shows its accuracy, every field, and the weakest
/// paradigms, in this order.
pub proof fn suite_reports_show_all_parts(
    s: BlimpScore,
    totals: Seq<FieldTotal>,
    rates: BlimpRates,
    ranking: Seq<usize>,
)
    ensures
        ({
            let n = if s.per_paradigm@.len() < 10 {
                s.per_paradigm@.len() as int
            } else {
                10
            };
            let fields = field_lines(totals, texts(rates.by_field@));
            let weakest = paradigm_lines(
                s.per_paradigm@,
                texts(rates.per_paradigm@),
                ranking,
                n,
            );
            let head = "BLiMP accuracy "@ + right_aligned(rates.overall@, 7);
            let all = s.summary(totals, rates, ranking);
            &&& shows(all, head)
            &&& shows(all, fields)
            &&& shows(all, weakest)
            &&& all.len() >= head.len() + fields.len() + weakest.len()
            &&& all.skip(all.len() - weakest.len()) == weakest
        }),
{
    let n = if s.per_paradigm@.len() < 10 {
        s.per_paradigm@.len() as int
    } else {
        10
    };
    let fields = field_lines(totals, texts(rates.by_field@));
    let weakest = paradigm_lines(s.per_paradigm@, texts(rates.per_paradigm@), ranking, n);
    let head = "BLiMP accuracy "@ + right_aligned(rates.overall@, 7);
    let a = "%   (chance is 50.00%)\n\nby field:\n"@;
    let b = "\nweakest paradigms:\n"@;
    let all = s.summary(totals, rates, ranking);
    let p1 = head + a;
    let p2 = p1 + fields;
    let p3 = p2 + b;
    assert(all == p3 + weakest);
    begins(head, a);
    carried(p1, fields, head);
    carried(p2, b, head);
    carried(p3, weakest, head);
    shows_part(p2, p1, fields, Seq::empty());
    carried(p2, b, fields);
    carried(p3, weakest, fields);
    shows_part(all, p3, weakest, Seq::empty());
    assert(all.skip(all.len() - weakest.len()) =~= weakest);
}

/// The budget table shows every line, the total, and what drives the arithmetic
/// and caps the rank.
pub proof fn budget_tables_show_their_totals(
    c: ModelConfig,
    items: Seq<(Seq<char>, nat)>,
    item: (Seq<char>, nat),
)
    ensures
        shows(c.table(), rows(c.itemized())),
        shows(c.table(), row("TOTAL"@, total(c.itemized()))),
        shows(c.table(), row("compute-equivalent"@, c.dense_equivalent())),
        shows(c.table(), row("output rank cap"@, c.rank_cap())),
        rows(Seq::<(Seq<char>, nat)>::empty()) == Seq::<char>::empty(),
        rows(items.push(item)) == rows(items) + row(item.0, item.1) + "\n"@,
{
    assert(items.push(item).drop_last() =~= items);
    let none = Seq::<char>::empty();
    let lines = rows(c.itemized());
    let sum = row("TOTAL"@, total(c.itemized()));
    let dense = row("compute-equivalent"@, c.dense_equivalent());
    let cap = row("output rank cap"@, c.rank_cap());
    let rule = repeated('-', 37);
    let x1 = "   (drives FLOPs, not the budget)\n"@;
    let x2 = "   (softmax bottleneck)\n"@;
    let p0 = left_aligned("component"@, 24) + " "@ + right_aligned("params"@, 12) + "\n"@ + rule
        + "\n"@;
    let p1 = p0 + lines;
    let p2 = p1 + rule;
    let p3 = p2 + "\n"@;
    let p4 = p3 + sum;
    let p5 = p4 + "\n"@;
    let p6 = p5 + dense;
    let p7 = p6 + x1;
    let p8 = p7 + cap;
    assert(c.table() == p8 + x2);
    shows_part(p1, p0, lines, none);
    carried(p1, rule, lines);
    carried(p2, "\n"@, lines);
    carried(p3, sum, lines);
    carried(p4, "\n"@, lines);
    carried(p5, dense, lines);
    carried(p6, x1, lines);
    carried(p7, cap, lines);
    carried(p8, x2, lines);
    shows_part(p4, p3, sum, none);
    carried(p4, "\n"@, sum);
    carried(p5, dense, sum);
    carried(p6, x1, sum);
    carried(p7, cap, sum);
    carried(p8, x2, sum);
    shows_part(p6, p5, dense, none);
    carried(p6, x1, dense);
    carried(p7, cap, dense);
    carried(p8, x2, dense);
    shows_part(p8, p7, cap, none);
    carried(p8, x2, cap);
}

/// The budget table of a compressor shows every line with its count, the total,
/// and its rates.
pub proof fn compressor_tables_show_their_totals(
    c: CompressConfig,
    ratio: Seq<char>,
    bits: Seq<char>,
    raw: Seq<char>,
    items: Seq<(Seq<char>, nat)>,
    item: (Seq<char>, nat),
)
    ensures
        shows(c.table(ratio, bits, raw), plain_rows(c.itemized())),
        shows(c.table(ratio, bits, raw), plain_row("TOTAL"@, decimal(total(c.itemized())))),
        shows(c.table(ratio, bits, raw), plain_row("token ratio"@, ratio)),
        shows(c.table(ratio, bits, raw), plain_row("bits/token"@, bits)),
        plain_rows(Seq::<(Seq<char>, nat)>::empty()) == Seq::<char>::empty(),
        plain_rows(items.push(item)) == plain_rows(items) + plain_row(item.0, decimal(item.1))
            + "\n"@,
        plain_row(item.0, ratio) == left_aligned(item.0, 24) + " "@ + right_aligned(ratio, 12),
{
    assert(items.push(item).drop_last() =~= items);
    let none = Seq::<char>::empty();
    let lines = plain_rows(c.itemized());
    let sum = plain_row("TOTAL"@, decimal(total(c.itemized())));
    let r = plain_row("token ratio"@, ratio);
    let b = plain_row("bits/token"@, bits);
    let rule = repeated('-', 37);
    let x1 = "   (sequence length, not information)\n"@;
    let x2 = "   (vs "@;
    let x3 = " for a raw token id)\n"@;
    let p0 = plain_row("component"@, "params"@) + "\n"@ + rule + "\n"@;
    let p1 = p0 + lines;
    let p2 = p1 + rule;
    let p3 = p2 + "\n"@;
    let p4 = p3 + sum;
    let p5 = p4 + "\n"@;
    let p6 = p5 + r;
    let p7 = p6 + x1;
    let p8 = p7 + b;
    let p9 = p8 + x2;
    let p10 = p9 + raw;
    assert(c.table(ratio, bits, raw) == p10 + x3);
    shows_part(p1, p0, lines, none);
    carried(p1, rule, lines);
    carried(p2, "\n"@, lines);
    carried(p3, sum, lines);
    carried(p4, "\n"@, lines);
    carried(p5, r, lines);
    carried(p6, x1, lines);
    carried(p7, b, lines);
    carried(p8, x2, lines);
    carried(p9, raw, lines);
    carried(p10, x3, lines);
    shows_part(p4, p3, sum, none);
    carried(p4, "\n"@, sum);
    carried(p5, r, sum);
    carried(p6, x1, sum);
    carried(p7, b, sum);
    carried(p8, x2, sum);
    carried(p9, raw, sum);
    carried(p10, x3, sum);
    shows_part(p6, p5, r, none);
    carried(p6, x1, r);
    carried(p7, b, r);
    carried(p8, x2, r);
    carried(p9, raw, r);
    carried(p10, x3, r);
    shows_part(p8, p7, b, none);
    carried(p8, x2, b);
    carried(p9, raw, b);
    carried(p10, x3, b);
}

/// Round trips are shown one behind another, numbered from zero.
pub proof fn round_trips_are_numbered(
    samples: Seq<ReconstructionSample>,
    s: ReconstructionSample,
    percents: Seq<Seq<char>>,
)
    ensures
        shown_samples(Seq::<ReconstructionSample>::empty(), percents) == Seq::<char>::empty(),
        shown_samples(samples.push(s), percents) == shown_samples(samples, percents)
            + shown_sample(samples.len(), s, percents[samples.len() as int]),
{
    assert(samples.push(s).drop_last() =~= samples);
}

/// A shard that disagrees with its counts is told with both.
pub proof fn disagreeing_shards_show_both_counts(bin: Seq<char>, n_bytes: nat, n_tokens: nat)
    ensures
        shows(
            Shard::out_of_sync(bin, n_bytes, n_tokens),
            "shard "@ + bin + " is "@ + decimal(n_bytes) + " bytes but its metadata claims "@
                + decimal(n_tokens) + " tokens ("@ + decimal(2 * n_tokens) + " bytes)"@,
        ),
        shows(
            flat_dimension(n_bytes, n_tokens),
            "levels["@ + decimal(n_bytes) + "] = "@ + decimal(n_tokens),
        ),
{
    reveal_strlit(" bytes); the pair is out of sync");
    reveal_strlit(" bytes)");
    let tail = " bytes); the pair is out of sync"@.skip(7);
    assert(" bytes); the pair is out of sync"@ =~= " bytes)"@ + tail);
    shows_part(
        Shard::out_of_sync(bin, n_bytes, n_tokens),
        Seq::empty(),
        "shard "@ + bin + " is "@ + decimal(n_bytes) + " bytes but its metadata claims "@
            + decimal(n_tokens) + " tokens ("@ + decimal(2 * n_tokens) + " bytes)"@,
        tail,
    );
    begins(
        "levels["@ + decimal(n_bytes) + "] = "@ + decimal(n_tokens),
        ": a dimension needs at least 2 levels to carry any bits"@,
    );
}

} // verus!
