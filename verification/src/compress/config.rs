//! Compressor configuration and its parameter budget.

use vstd::prelude::*;

use vstd::arithmetic::div_mod::lemma_div_multiples_vanish;
use vstd::arithmetic::power::pow;
use vstd::arithmetic::power2::pow2;
use vstd::string::*;

use crate::compress::bignum::is_bit_count;
use crate::compress::quantize::{
    accepted_iff_valid_levels, codebook, level_violations, valid_levels, Fsq,
};
pub use crate::config::BudgetEntry;
use crate::config::{
    accepted_iff_valid, entries, entry, sum_params, total, ModelConfig,
};
use crate::number::{at_most, at_most64, less, less64, Real, ONE, ZERO};
use crate::text::{
    append_decimal, append_left_aligned, append_repeated, append_right_aligned, around_one,
    around_two, decimal, decimal_string, ending_in, left_aligned, note, note_prefixed, noted,
    noted_len, prefixed, repeated, right_aligned, texts,
};

verus! {

/// The shape of a text compressor.
#[derive(Debug, Clone, PartialEq, Eq)]
pub struct CompressConfig {
    /// Shape of both stacks: the encoder and the decoder are built alike, each
    /// with weights of its own.
    pub model: ModelConfig,
    /// Tokens per compressed span.
    pub span_len: usize,
    /// Latent slots per span.
    pub n_slots: usize,
    /// Levels of the quantizer, one entry per latent dimension.
    pub fsq_levels: Vec<u32>,
    /// Probability of replacing a decoder input token with the start token.
    pub token_dropout: Real,
    /// Dropout applied to the quantized latent before the decoder reads it.
    pub latent_dropout: Real,
    /// Token id the decoder starts from.
    pub bos_id: u32,
}

/// The bits of `0.15`.
pub const DROPOUT_0_15: u64 = 0x3fc3_3333_3333_3333;

/// An entry is no larger than the total.
pub proof fn entry_within_total(items: Seq<(Seq<char>, nat)>, i: int)
    requires
        0 <= i < items.len(),
    ensures
        items[i].1 <= total(items),
    decreases items.len(),
{
    if i < items.len() - 1 {
        entry_within_total(items.drop_last(), i);
    }
}

/// One line of the compressor's budget table.
pub open spec fn plain_row(name: Seq<char>, value: Seq<char>) -> Seq<char> {
    left_aligned(name, 24) + " "@ + right_aligned(value, 12)
}

/// The lines of the compressor's budget, each ended by a line break.
pub open spec fn plain_rows(items: Seq<(Seq<char>, nat)>) -> Seq<char>
    decreases items.len(),
{
    if items.len() == 0 {
        Seq::empty()
    } else {
        plain_rows(items.drop_last()) + plain_row(items.last().0, decimal(items.last().1)) + "\n"@
    }
}

impl CompressConfig {
    /// The longest sequence that either stack attends over.
    pub open spec fn positions(&self) -> nat {
        self.span_len as nat + self.n_slots as nat
    }

    /// The rules on the span that are broken.
    pub open spec fn span_violations(&self) -> Seq<Seq<char>> {
        noted(self.span_len == 0, "span_len must be >= 1"@) + noted(
            self.n_slots == 0,
            "n_slots must be >= 1"@,
        ) + noted(
            self.n_slots >= self.span_len && self.span_len > 0,
            "n_slots ("@ + decimal(self.n_slots as nat) + ") >= span_len ("@ + decimal(
                self.span_len as nat,
            ) + "): that is not a compressor"@,
        ) + noted(
            self.positions() > self.model.max_seq_len,
            "span_len + n_slots = "@ + decimal(self.positions()) + " exceeds model.max_seq_len = "@
                + decimal(self.model.max_seq_len as nat)
                + "; RoPE has no table for those positions"@,
        )
    }

    /// The rules on the training inputs that are broken.
    pub open spec fn input_violations(&self) -> Seq<Seq<char>> {
        noted(
            !(at_most64(ZERO, self.token_dropout.bits) && less64(self.token_dropout.bits, ONE)),
            "token_dropout must be in [0, 1), got "@ + self.token_dropout.text@,
        ) + noted(
            !(at_most64(ZERO, self.latent_dropout.bits) && less64(self.latent_dropout.bits, ONE)),
            "latent_dropout must be in [0, 1), got "@ + self.latent_dropout.text@,
        ) + noted(
            self.bos_id >= self.model.vocab_size,
            "bos_id ("@ + decimal(self.bos_id as nat) + ") is not a token in a vocabulary of "@
                + decimal(self.model.vocab_size as nat),
        )
    }

    /// Every rule that is broken.
    pub open spec fn violations(&self) -> Seq<Seq<char>> {
        prefixed("model: "@, self.model.violations()) + prefixed(
            "fsq: "@,
            level_violations(self.fsq_levels@),
        ) + self.span_violations() + self.input_violations()
    }

    /// What the rules ask of a configuration.
    pub open spec fn valid(&self) -> bool {
        &&& self.model.valid()
        &&& valid_levels(self.fsq_levels@)
        &&& 0 < self.n_slots < self.span_len
        &&& self.positions() <= self.model.max_seq_len
        &&& at_most64(ZERO, self.token_dropout.bits) && less64(self.token_dropout.bits, ONE)
        &&& at_most64(ZERO, self.latent_dropout.bits) && less64(self.latent_dropout.bits, ONE)
        &&& self.bos_id < self.model.vocab_size
    }

    fn note_span_violations(&self, errs: &mut Vec<String>)
        requires
            self.positions() <= usize::MAX,
        ensures
            texts(final(errs)@) == texts(old(errs)@) + self.span_violations(),
    {
        note(errs, self.span_len == 0, "span_len must be >= 1".to_owned());
        note(errs, self.n_slots == 0, "n_slots must be >= 1".to_owned());
        note(
            errs,
            self.n_slots >= self.span_len && self.span_len > 0,
            around_two(
                "n_slots (",
                self.n_slots,
                ") >= span_len (",
                self.span_len,
                "): that is not a compressor",
            ),
        );
        note(
            errs,
            self.max_positions() > self.model.max_seq_len,
            around_two(
                "span_len + n_slots = ",
                self.max_positions(),
                " exceeds model.max_seq_len = ",
                self.model.max_seq_len,
                "; RoPE has no table for those positions",
            ),
        );
        assert(texts(errs@) =~= texts(old(errs)@) + self.span_violations());
    }

    fn note_input_violations(&self, errs: &mut Vec<String>)
        ensures
            texts(final(errs)@) == texts(old(errs)@) + self.input_violations(),
    {
        note(
            errs,
            !(at_most(ZERO, self.token_dropout.bits) && less(self.token_dropout.bits, ONE)),
            ending_in("token_dropout must be in [0, 1), got ", &self.token_dropout.text),
        );
        note(
            errs,
            !(at_most(ZERO, self.latent_dropout.bits) && less(self.latent_dropout.bits, ONE)),
            ending_in("latent_dropout must be in [0, 1), got ", &self.latent_dropout.text),
        );
        let vocab: usize = self.model.vocab_size;
        let outside: bool = self.bos_id as usize >= vocab;
        let mut s = around_one(
            "bos_id (",
            self.bos_id as usize,
            ") is not a token in a vocabulary of ",
        );
        append_decimal(&mut s, vocab);
        note(errs, outside, s);
        assert(texts(errs@) =~= texts(old(errs)@) + self.input_violations());
    }

    /// Validate the configuration; returns every violation.
    pub fn validate(&self) -> (r: Result<(), Vec<String>>)
        requires
            self.positions() <= usize::MAX,
        ensures
            r is Ok <==> self.valid(),
            r is Ok <==> self.violations().len() == 0,
            r is Err ==> texts(r->Err_0@) == self.violations(),
    {
        let mut errs: Vec<String> = Vec::new();
        match self.model.validate() {
            Ok(()) => {
                assert(prefixed("model: "@, self.model.violations()) =~= Seq::empty());
            },
            Err(e) => {
                note_prefixed(&mut errs, "model: ", &e);
            },
        }
        assert(texts(errs@) =~= prefixed("model: "@, self.model.violations()));
        match Fsq::try_new(self.fsq_levels.clone()) {
            Ok(_) => {
                proof {
                    accepted_iff_valid_levels(self.fsq_levels@);
                }
                assert(prefixed("fsq: "@, level_violations(self.fsq_levels@)) =~= Seq::empty());
            },
            Err(e) => {
                note_prefixed(&mut errs, "fsq: ", &e);
            },
        }
        self.note_span_violations(&mut errs);
        self.note_input_violations(&mut errs);
        assert(texts(errs@) =~= self.violations());
        proof {
            accepted_iff_valid_compressor(*self);
        }
        if errs.len() == 0 {
            Ok(())
        } else {
            Err(errs)
        }
    }

    /// Longest sequence either stack has to attend over: the encoder reads the
    /// span and then the slot queries, the decoder the latents and then the
    /// span.
    pub fn max_positions(&self) -> (r: usize)
        requires
            self.positions() <= usize::MAX,
        ensures
            r == self.positions(),
    {
        self.span_len + self.n_slots
    }

    /// The quantizer.
    pub fn fsq(&self) -> (r: Fsq)
        requires
            valid_levels(self.fsq_levels@),
        ensures
            r@ == self.fsq_levels@,
    {
        Fsq::new(self.fsq_levels.clone())
    }

    /// Total bits in one compressed span: the least number that tells all
    /// latents apart.
    pub fn span_bits(&self) -> (r: usize)
        requires
            valid_levels(self.fsq_levels@),
            pow(codebook(self.fsq_levels@) as int, self.n_slots as nat) <= pow2(usize::MAX as nat),
        ensures
            is_bit_count(
                r as nat,
                pow(codebook(self.fsq_levels@) as int, self.n_slots as nat) as nat,
            ),
    {
        self.fsq().pack_bits(self.n_slots)
    }

    /// The parameter budget, itemized: one table, two stacks, and the latent
    /// between them.
    pub open spec fn itemized(&self) -> Seq<(Seq<char>, nat)> {
        let m = self.model;
        let d = self.fsq_levels@.len();
        let stack = m.applications() * m.layer_params();
        seq![
            ("token_embedding"@, m.vocab_size as nat * m.d_emb as nat),
            ("encoder_embed_proj"@, m.d_emb as nat * m.d_model as nat),
            ("decoder_embed_proj"@, m.d_emb as nat * m.d_model as nat),
            ("slot_queries"@, self.n_slots as nat * m.d_model as nat),
            ("encoder_layers"@, stack),
            ("encoder_norm"@, m.d_model as nat),
            ("to_latent"@, m.d_model as nat * d),
            ("from_latent"@, d * m.d_model as nat),
            ("decoder_layers"@, stack),
            ("decoder_norm"@, m.d_model as nat),
            ("unembed_proj"@, m.d_model as nat * m.d_emb as nat),
        ]
    }

    /// The machine limit on the budget: every figure can be represented.
    pub open spec fn budget_fits(&self) -> bool {
        &&& self.model.budget_fits()
        &&& self.model.n_unique_layers > 0
        &&& self.model.applications() <= usize::MAX
        &&& total(self.itemized()) <= usize::MAX
    }

    /// The analytic parameter budget, itemized.
    pub fn budget(&self) -> (r: Vec<BudgetEntry>)
        requires
            self.budget_fits(),
            valid_levels(self.fsq_levels@),
        ensures
            entries(r@) == self.itemized(),
    {
        let m = &self.model;
        let model_budget = m.budget();
        let ghost items = self.itemized();
        proof {
            assert(entry(model_budget@[3]) == entries(model_budget@)[3]);
            lemma_div_multiples_vanish(m.layer_params() as int, m.n_unique_layers as int);
            assert forall|i: int| 0 <= i < items.len() implies (#[trigger] items[i]).1
                <= usize::MAX by {
                entry_within_total(items, i);
            }
            assert(items[0].1 <= usize::MAX && items[1].1 <= usize::MAX && items[3].1 <= usize::MAX
                && items[4].1 <= usize::MAX && items[6].1 <= usize::MAX && items[7].1 <= usize::MAX
                && items[10].1 <= usize::MAX);
        }
        let per_layer: usize = model_budget[3].params / m.n_unique_layers;
        let d: usize = self.fsq().dim();
        let stack: usize = m.n_layer_applications() * per_layer;
        let r: Vec<BudgetEntry> = vec![
            BudgetEntry { name: "token_embedding", params: m.vocab_size * m.d_emb },
            BudgetEntry { name: "encoder_embed_proj", params: m.d_emb * m.d_model },
            BudgetEntry { name: "decoder_embed_proj", params: m.d_emb * m.d_model },
            BudgetEntry { name: "slot_queries", params: self.n_slots * m.d_model },
            BudgetEntry { name: "encoder_layers", params: stack },
            BudgetEntry { name: "encoder_norm", params: m.d_model },
            BudgetEntry { name: "to_latent", params: m.d_model * d },
            BudgetEntry { name: "from_latent", params: d * m.d_model },
            BudgetEntry { name: "decoder_layers", params: stack },
            BudgetEntry { name: "decoder_norm", params: m.d_model },
            BudgetEntry { name: "unembed_proj", params: m.d_model * m.d_emb },
        ];
        assert(entries(r@) =~= items);
        r
    }

    /// Total trainable parameters.
    pub fn param_count(&self) -> (r: usize)
        requires
            self.budget_fits(),
            valid_levels(self.fsq_levels@),
        ensures
            r == total(self.itemized()),
    {
        sum_params(&self.budget())
    }

    /// The budget as a table: one line per component, the total, and the rates.
    /// The rates are given in decimal: tokens per slot, bits per token, and the
    /// bits of a raw token id.
    pub open spec fn table(
        &self,
        token_ratio: Seq<char>,
        bits_per_token: Seq<char>,
        raw_bits: Seq<char>,
    ) -> Seq<char> {
        plain_row("component"@, "params"@) + "\n"@ + repeated('-', 37) + "\n"@ + plain_rows(
            self.itemized(),
        ) + repeated('-', 37) + "\n"@ + plain_row("TOTAL"@, decimal(total(self.itemized())))
            + "\n"@ + plain_row("token ratio"@, token_ratio)
            + "   (sequence length, not information)\n"@ + plain_row(
            "bits/token"@,
            bits_per_token,
        ) + "   (vs "@ + raw_bits + " for a raw token id)\n"@
    }

    /// Render the budget as a human-readable table. The rates are logarithms
    /// and ratios; their texts come with the call.
    pub fn budget_table(&self, token_ratio: &str, bits_per_token: &str, raw_bits: &str) -> (s:
        String)
        requires
            self.budget_fits(),
            valid_levels(self.fsq_levels@),
        ensures
            s@ == self.table(token_ratio@, bits_per_token@, raw_bits@),
    {
        let mut s = String::new();
        append_plain_row(&mut s, "component", "params");
        s.append("\n");
        append_repeated(&mut s, '-', 37);
        s.append("\n");
        append_plain_rows(&mut s, &self.budget());
        append_repeated(&mut s, '-', 37);
        s.append("\n");
        append_plain_row(&mut s, "TOTAL", decimal_string(self.param_count()).as_str());
        s.append("\n");
        append_plain_row(&mut s, "token ratio", token_ratio);
        s.append("   (sequence length, not information)\n");
        append_plain_row(&mut s, "bits/token", bits_per_token);
        s.append("   (vs ");
        s.append(raw_bits);
        s.append(" for a raw token id)\n");
        assert(s@ =~= self.table(token_ratio@, bits_per_token@, raw_bits@));
        s
    }

    /// The reference compressor: about 15.0M parameters, 256 tokens to 64 slots.
    ///
    /// Four unique layers per stack and no looping: compressing and expanding
    /// are different functions, and storage is not the binding constraint.
    pub fn compressor_15m() -> (r: Self)
        ensures
            r.model.vocab_size == 8192,
            r.model.d_emb == 128,
            r.model.d_model == 384,
            r.model.n_heads == 6,
            r.model.n_kv_heads == 2,
            r.model.d_ff == 1152,
            r.model.n_unique_layers == 4,
            r.model.n_loops == 1,
            r.model.max_seq_len == 1024,
            r.model.has_reference_settings(),
            r.span_len == 256,
            r.n_slots == 64,
            r.fsq_levels@ == seq![7u32, 5, 5, 5, 5],
            r.token_dropout.bits == DROPOUT_0_15 && r.token_dropout.text@ == "0.15"@,
            r.latent_dropout.bits == DROPOUT_0_15 && r.latent_dropout.text@ == "0.15"@,
            r.bos_id == 0,
    {
        let fsq_levels: Vec<u32> = vec![7, 5, 5, 5, 5];
        assert(fsq_levels@ =~= seq![7u32, 5, 5, 5, 5]);
        CompressConfig {
            model: ModelConfig { n_unique_layers: 4, n_loops: 1, ..ModelConfig::quark_3m() },
            span_len: 256,
            n_slots: 64,
            fsq_levels,
            token_dropout: Real::new(DROPOUT_0_15, "0.15"),
            latent_dropout: Real::new(DROPOUT_0_15, "0.15"),
            bos_id: 0,
        }
    }

    /// A model small enough to build in a test, with the same structure.
    pub fn tiny() -> (r: Self)
        ensures
            r.model.vocab_size == 256,
            r.model.d_emb == 32,
            r.model.d_model == 64,
            r.model.n_heads == 4,
            r.model.n_kv_heads == 2,
            r.model.d_ff == 128,
            r.model.n_unique_layers == 2,
            r.model.n_loops == 1,
            r.model.max_seq_len == 64,
            r.model.has_reference_settings(),
            r.span_len == 16,
            r.n_slots == 4,
            r.fsq_levels@ == seq![4u32, 3],
            r.token_dropout.bits == ZERO && r.token_dropout.text@ == "0"@,
            r.latent_dropout.bits == ZERO && r.latent_dropout.text@ == "0"@,
            r.bos_id == 0,
    {
        let fsq_levels: Vec<u32> = vec![4, 3];
        assert(fsq_levels@ =~= seq![4u32, 3]);
        CompressConfig {
            model: ModelConfig {
                n_unique_layers: 2,
                n_loops: 1,
                max_seq_len: 64,
                ..ModelConfig::tiny()
            },
            span_len: 16,
            n_slots: 4,
            fsq_levels,
            token_dropout: Real::new(ZERO, "0"),
            latent_dropout: Real::new(ZERO, "0"),
            bos_id: 0,
        }
    }
}

impl Default for CompressConfig {
    /// The reference compressor, [`CompressConfig::compressor_15m`].
    fn default() -> (r: Self)
        ensures
            r.model.vocab_size == 8192,
            r.model.d_emb == 128,
            r.model.d_model == 384,
            r.model.n_heads == 6,
            r.model.n_kv_heads == 2,
            r.model.d_ff == 1152,
            r.model.n_unique_layers == 4,
            r.model.n_loops == 1,
            r.model.max_seq_len == 1024,
            r.model.has_reference_settings(),
            r.span_len == 256,
            r.n_slots == 64,
            r.fsq_levels@ == seq![7u32, 5, 5, 5, 5],
            r.token_dropout.bits == DROPOUT_0_15 && r.token_dropout.text@ == "0.15"@,
            r.latent_dropout.bits == DROPOUT_0_15 && r.latent_dropout.text@ == "0.15"@,
            r.bos_id == 0,
    {
        CompressConfig::compressor_15m()
    }
}

fn append_plain_row(out: &mut String, name: &str, value: &str)
    ensures
        final(out)@ == old(out)@ + plain_row(name@, value@),
{
    append_left_aligned(out, name, 24);
    out.append(" ");
    append_right_aligned(out, value, 12);
    assert(out@ =~= old(out)@ + plain_row(name@, value@));
}

fn append_plain_rows(out: &mut String, items: &Vec<BudgetEntry>)
    ensures
        final(out)@ == old(out)@ + plain_rows(entries(items@)),
{
    let mut i: usize = 0;
    assert(out@ =~= old(out)@ + plain_rows(entries(items@).take(0)));
    while i < items.len()
        invariant
            i <= items.len(),
            out@ == old(out)@ + plain_rows(entries(items@).take(i as int)),
        decreases items.len() - i,
    {
        append_plain_row(out, items[i].name, decimal_string(items[i].params).as_str());
        out.append("\n");
        proof {
            let all = entries(items@);
            assert(all.take(i + 1).drop_last() =~= all.take(i as int));
            assert(out@ =~= old(out)@ + plain_rows(all.take(i + 1)));
        }
        i = i + 1;
    }
    assert(entries(items@).take(items@.len() as int) =~= entries(items@));
}

/// A configuration is accepted exactly when it meets every rule. An accepted
/// one compresses: it has fewer slots than tokens.
pub proof fn accepted_iff_valid_compressor(c: CompressConfig)
    ensures
        c.violations().len() == 0 <==> c.valid(),
        c.violations().len() == 0 ==> c.n_slots < c.span_len,
{
    broadcast use noted_len;

    accepted_iff_valid(c.model);
    accepted_iff_valid_levels(c.fsq_levels@);
    assert(prefixed("model: "@, c.model.violations()).len() == c.model.violations().len());
    assert(prefixed("fsq: "@, level_violations(c.fsq_levels@)).len() == level_violations(
        c.fsq_levels@,
    ).len());
    assert(c.violations().len() == c.model.violations().len() + level_violations(
        c.fsq_levels@,
    ).len() + c.span_violations().len() + c.input_violations().len());
}

/// The two stacks have weights of their own and cost the same.
pub proof fn stacks_cost_the_same(c: CompressConfig)
    ensures
        c.itemized()[4].0 == "encoder_layers"@ && c.itemized()[8].0 == "decoder_layers"@,
        c.itemized()[4].1 == c.itemized()[8].1,
        c.itemized()[4].1 == c.model.applications() * c.model.layer_params(),
{
}

} // verus!
