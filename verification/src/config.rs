//! Model configuration and the analytic parameter budget.
//!
//! Every structural choice that trades parameters against capacity is a field
//! of [`ModelConfig`], so one code path expresses a plain dense model, a
//! shared-layer model and everything between. The parameter count is derived
//! from the configuration alone, without building the model.

use vstd::prelude::*;

use vstd::string::*;

use crate::number::{at_most, at_most64, less, less64, Real, Real32, ONE, ZERO};
use crate::text::{
    append_left_aligned, append_repeated, append_right_aligned, around_one, around_two, decimal,
    decimal_string, digit, digit_char, left_aligned, note, noted, noted_absent, noted_len,
    repeated, right_aligned, texts,
};

verus! {

/// How a stack of `n_loops * n_unique_layers` layer applications maps onto the
/// `n_unique_layers` distinct parameter sets.
#[derive(Debug, Clone, Copy, PartialEq, Eq, Structural)]
pub enum LayerSchedule {
    /// `[0, 1, 0, 1, ...]`: each loop runs the full set of unique layers.
    Cycle,
    /// `[0, 0, 0, 1, 1, 1]`: each unique layer is applied `n_loops` times
    /// before the next one starts.
    Blocked,
}

/// Where a layer normalization sits relative to the residual branch.
#[derive(Debug, Clone, Copy, PartialEq, Eq, Structural)]
pub enum NormPlacement {
    /// `x + f(norm(x))`.
    Pre,
    /// `norm(x + f(x))`.
    Post,
}

/// The shape of a language model.
#[derive(Debug, Clone, PartialEq, Eq)]
pub struct ModelConfig {
    /// Tokenizer vocabulary size.
    pub vocab_size: usize,
    /// Rank of the factorized token embedding. Equal to `d_model` it disables
    /// the factorization. With tied embeddings it also caps the rank of the
    /// output log-probability matrix: see [`ModelConfig::softmax_rank_cap`].
    pub d_emb: usize,
    /// Residual stream width.
    pub d_model: usize,
    /// Number of query heads.
    pub n_heads: usize,
    /// Number of key/value heads: `1` is multi-query, `n_heads` is full
    /// multi-head, a divisor between them is grouped-query.
    pub n_kv_heads: usize,
    /// Inner width of the SwiGLU feed-forward block.
    pub d_ff: usize,
    /// Number of distinct parameter sets in the layer stack.
    pub n_unique_layers: usize,
    /// How many times each unique layer is applied; `1` means no sharing.
    pub n_loops: usize,
    /// Order of the layer applications.
    pub layer_schedule: LayerSchedule,
    /// Largest position that the rotary tables are built for.
    pub max_seq_len: usize,
    /// Rotary base frequency.
    pub rope_theta: Real32,
    /// Reuse the token embedding matrix as the output projection.
    pub tie_embeddings: bool,
    pub norm_placement: NormPlacement,
    pub norm_eps: Real,
    pub dropout: Real,
}

/// One line of the parameter budget.
#[derive(Debug, Clone, PartialEq, Eq)]
pub struct BudgetEntry {
    pub name: &'static str,
    pub params: usize,
}

/// A budget line as a name and a count.
pub open spec fn entry(e: BudgetEntry) -> (Seq<char>, nat) {
    (e.name@, e.params as nat)
}

/// Budget lines as names and counts.
pub open spec fn entries(v: Seq<BudgetEntry>) -> Seq<(Seq<char>, nat)> {
    v.map_values(|e: BudgetEntry| entry(e))
}

/// The sum of the counts of a budget.
pub open spec fn total(items: Seq<(Seq<char>, nat)>) -> nat
    decreases items.len(),
{
    if items.len() == 0 {
        0
    } else {
        total(items.drop_last()) + items.last().1
    }
}

/// `n` in decimal, its digits in groups of three.
pub open spec fn thousands(n: nat) -> Seq<char>
    decreases n,
{
    if n < 1000 {
        decimal(n)
    } else {
        thousands(n / 1000).push(',').push(digit(n / 100 % 10)).push(digit(n / 10 % 10)).push(
            digit(n % 10),
        )
    }
}

/// One line of a budget table.
pub open spec fn row(name: Seq<char>, n: nat) -> Seq<char> {
    left_aligned(name, 24) + " "@ + right_aligned(thousands(n), 12)
}

/// The lines of a budget, each ended by a line break.
pub open spec fn rows(items: Seq<(Seq<char>, nat)>) -> Seq<char>
    decreases items.len(),
{
    if items.len() == 0 {
        Seq::empty()
    } else {
        rows(items.drop_last()) + row(items.last().0, items.last().1) + "\n"@
    }
}

/// Adding an entry adds its count.
pub proof fn total_push(items: Seq<(Seq<char>, nat)>, e: (Seq<char>, nat))
    ensures
        total(items.push(e)) == total(items) + e.1,
{
    assert(items.push(e).drop_last() =~= items);
}

/// A part of a budget is no larger than the whole.
pub proof fn total_monotone(items: Seq<(Seq<char>, nat)>, n: int)
    requires
        0 <= n <= items.len(),
    ensures
        total(items.take(n)) <= total(items),
    decreases items.len() - n,
{
    if n < items.len() {
        total_monotone(items, n + 1);
        assert(items.take(n + 1) =~= items.take(n).push(items[n]));
        total_push(items.take(n), items[n]);
    } else {
        assert(items.take(n) =~= items);
    }
}

/// The total of five entries, written out.
pub proof fn total_of_five(items: Seq<(Seq<char>, nat)>)
    requires
        items.len() == 5,
    ensures
        total(items) == items[0].1 + items[1].1 + items[2].1 + items[3].1 + items[4].1,
{
    assert(items =~= Seq::empty().push(items[0]).push(items[1]).push(items[2]).push(items[3]).push(
        items[4],
    ));
    let none = Seq::<(Seq<char>, nat)>::empty();
    total_push(none, items[0]);
    total_push(none.push(items[0]), items[1]);
    total_push(none.push(items[0]).push(items[1]), items[2]);
    total_push(none.push(items[0]).push(items[1]).push(items[2]), items[3]);
    total_push(none.push(items[0]).push(items[1]).push(items[2]).push(items[3]), items[4]);
}

/// The sum of the counts of a budget.
pub fn sum_params(items: &Vec<BudgetEntry>) -> (r: usize)
    requires
        total(entries(items@)) <= usize::MAX,
    ensures
        r == total(entries(items@)),
{
    let mut sum: usize = 0;
    let mut i: usize = 0;
    while i < items.len()
        invariant
            i <= items.len(),
            sum == total(entries(items@).take(i as int)),
            total(entries(items@)) <= usize::MAX,
        decreases items.len() - i,
    {
        proof {
            let all = entries(items@);
            assert(all.take(i + 1) =~= all.take(i as int).push(all[i as int]));
            total_push(all.take(i as int), all[i as int]);
            total_monotone(all, i + 1);
        }
        sum = sum + items[i].params;
        i = i + 1;
    }
    assert(entries(items@).take(items@.len() as int) =~= entries(items@));
    sum
}

/// The bits of `1e-5`.
pub const EPS_1E_5: u64 = 0x3ee4_f8b5_88e3_68f1;

/// The bits of the single-precision `10000.0`.
pub const THETA_10_000: u32 = 0x461c_4000;

impl ModelConfig {
    /// The width of one head.
    pub open spec fn head_width(&self) -> nat {
        self.d_model as nat / self.n_heads as nat
    }

    /// Layer applications in one forward pass.
    pub open spec fn applications(&self) -> nat {
        self.n_unique_layers as nat * self.n_loops as nat
    }

    /// The width of all keys (or all values) of one position.
    pub open spec fn kv_width(&self) -> nat {
        self.n_kv_heads as nat * self.head_width()
    }

    /// Matmul weights of the attention block: queries and output are square,
    /// keys and values project to the key/value width.
    pub open spec fn attention_weights(&self) -> nat {
        let d = self.d_model as nat;
        2 * (d * d) + 2 * (d * self.kv_width())
    }

    /// Matmul weights of the feed-forward block: gate, up and down.
    pub open spec fn ffn_weights(&self) -> nat {
        3 * (self.d_model as nat * self.d_ff as nat)
    }

    /// Matmul weights of one unique layer.
    pub open spec fn layer_weights(&self) -> nat {
        self.attention_weights() + self.ffn_weights()
    }

    /// Parameters of one unique layer: the matmul weights and two norm gains.
    pub open spec fn layer_params(&self) -> nat {
        self.layer_weights() + 2 * self.d_model as nat
    }

    /// The parameter budget, itemized.
    pub open spec fn itemized(&self) -> Seq<(Seq<char>, nat)> {
        seq![
            ("token_embedding"@, self.vocab_size as nat * self.d_emb as nat),
            ("embed_proj"@, self.d_emb as nat * self.d_model as nat),
            if self.tie_embeddings {
                ("unembed_proj"@, self.d_model as nat * self.d_emb as nat)
            } else {
                ("lm_head"@, self.d_model as nat * self.vocab_size as nat)
            },
            ("layers"@, self.n_unique_layers as nat * self.layer_params()),
            ("final_norm"@, self.d_model as nat),
        ]
    }

    /// Parameters of a dense model with the same arithmetic per token.
    pub open spec fn dense_equivalent(&self) -> nat {
        self.layer_weights() * self.applications()
    }

    /// The largest rank that the output log-probability matrix can have.
    pub open spec fn rank_cap(&self) -> nat {
        if self.tie_embeddings && self.d_emb < self.d_model {
            self.d_emb as nat
        } else {
            self.d_model as nat
        }
    }

    /// The machine limit on a layer: its parameter count can be represented.
    pub open spec fn layer_fits(&self) -> bool {
        self.n_heads > 0 && self.layer_params() <= usize::MAX
    }

    /// The machine limit on the budget: every figure can be represented.
    pub open spec fn budget_fits(&self) -> bool {
        self.layer_fits() && total(self.itemized()) <= usize::MAX
    }

    /// The machine limit on the arithmetic per token.
    pub open spec fn compute_fits(&self) -> bool {
        self.layer_fits() && self.applications() <= usize::MAX && self.dense_equivalent()
            <= usize::MAX
    }

    /// Every violation of the structural rules, in the order of the rules.
    pub open spec fn violations(&self) -> Seq<Seq<char>> {
        let heads = self.n_heads as nat;
        let kv = self.n_kv_heads as nat;
        let d = self.d_model as nat;
        noted(self.n_heads == 0, "n_heads must be >= 1"@) + noted(
            heads > 0 && d % heads != 0,
            "d_model ("@ + decimal(d) + ") must be divisible by n_heads ("@ + decimal(heads)
                + ")"@,
        ) + noted(
            heads > 0 && d % heads == 0 && self.head_width() % 2 != 0,
            "d_head ("@ + decimal(self.head_width()) + ") must be even for rotary embeddings"@,
        ) + noted(
            kv == 0 || heads % kv != 0,
            "n_heads ("@ + decimal(heads) + ") must be a positive multiple of n_kv_heads ("@
                + decimal(kv) + ")"@,
        ) + noted(
            kv > heads,
            "n_kv_heads ("@ + decimal(kv) + ") cannot exceed n_heads ("@ + decimal(heads) + ")"@,
        ) + noted(self.n_unique_layers == 0, "n_unique_layers must be >= 1"@) + noted(
            self.n_loops == 0,
            "n_loops must be >= 1"@,
        ) + noted(
            self.d_emb == 0 || d == 0 || self.vocab_size == 0,
            "d_emb, d_model and vocab_size must all be >= 1"@,
        ) + noted(
            self.d_emb > self.d_model,
            "d_emb ("@ + decimal(self.d_emb as nat) + ") > d_model ("@ + decimal(d)
                + "): factorization would expand rather than compress"@,
        ) + noted(at_most64(self.norm_eps.bits, ZERO), "norm_eps must be > 0"@) + noted(
            !(at_most64(ZERO, self.dropout.bits) && less64(self.dropout.bits, ONE)),
            "dropout must be in [0, 1)"@,
        )
    }

    /// What the rules ask of a configuration.
    pub open spec fn valid(&self) -> bool {
        &&& self.n_heads >= 1
        &&& self.d_model as nat % self.n_heads as nat == 0
        &&& self.head_width() % 2 == 0
        &&& self.n_kv_heads >= 1
        &&& self.n_heads as nat % self.n_kv_heads as nat == 0
        &&& self.n_unique_layers >= 1
        &&& self.n_loops >= 1
        &&& self.d_emb >= 1
        &&& self.d_model >= 1
        &&& self.vocab_size >= 1
        &&& self.d_emb <= self.d_model
        &&& !at_most64(self.norm_eps.bits, ZERO)
        &&& at_most64(ZERO, self.dropout.bits)
        &&& less64(self.dropout.bits, ONE)
    }

    /// The budget as a table: one line per component, then the totals.
    pub open spec fn table(&self) -> Seq<char> {
        left_aligned("component"@, 24) + " "@ + right_aligned("params"@, 12) + "\n"@ + repeated(
            '-',
            37,
        ) + "\n"@ + rows(self.itemized()) + repeated('-', 37) + "\n"@ + row(
            "TOTAL"@,
            total(self.itemized()),
        ) + "\n"@ + row("compute-equivalent"@, self.dense_equivalent())
            + "   (drives FLOPs, not the budget)\n"@ + row("output rank cap"@, self.rank_cap())
            + "   (softmax bottleneck)\n"@
    }

    /// Validate structural invariants. Returns every violation, not just the
    /// first, so a bad config is diagnosed in one pass.
    pub fn validate(&self) -> (r: Result<(), Vec<String>>)
        ensures
            r is Ok <==> self.valid(),
            r is Ok <==> self.violations().len() == 0,
            r is Err ==> texts(r->Err_0@) == self.violations(),
    {
        let mut errs: Vec<String> = Vec::new();
        let heads: usize = self.n_heads;
        let kv: usize = self.n_kv_heads;
        let d: usize = self.d_model;
        let whole: bool = heads > 0 && d % heads == 0;
        let d_head: usize = if heads > 0 {
            self.d_head()
        } else {
            0
        };
        note(&mut errs, heads == 0, "n_heads must be >= 1".to_owned());
        note(
            &mut errs,
            heads > 0 && !whole,
            around_two("d_model (", d, ") must be divisible by n_heads (", heads, ")"),
        );
        note(
            &mut errs,
            whole && d_head % 2 != 0,
            around_one("d_head (", d_head, ") must be even for rotary embeddings"),
        );
        note(
            &mut errs,
            kv == 0 || heads % kv != 0,
            around_two(
                "n_heads (",
                heads,
                ") must be a positive multiple of n_kv_heads (",
                kv,
                ")",
            ),
        );
        note(
            &mut errs,
            kv > heads,
            around_two("n_kv_heads (", kv, ") cannot exceed n_heads (", heads, ")"),
        );
        note(&mut errs, self.n_unique_layers == 0, "n_unique_layers must be >= 1".to_owned());
        note(&mut errs, self.n_loops == 0, "n_loops must be >= 1".to_owned());
        note(
            &mut errs,
            self.d_emb == 0 || d == 0 || self.vocab_size == 0,
            "d_emb, d_model and vocab_size must all be >= 1".to_owned(),
        );
        note(
            &mut errs,
            self.d_emb > d,
            around_two(
                "d_emb (",
                self.d_emb,
                ") > d_model (",
                d,
                "): factorization would expand rather than compress",
            ),
        );
        note(&mut errs, at_most(self.norm_eps.bits, ZERO), "norm_eps must be > 0".to_owned());
        note(
            &mut errs,
            !(at_most(ZERO, self.dropout.bits) && less(self.dropout.bits, ONE)),
            "dropout must be in [0, 1)".to_owned(),
        );
        proof {
            if !(whole && d_head % 2 != 0) {
                noted_absent(
                    "d_head ("@ + decimal(d_head as nat) + ") must be even for rotary embeddings"@,
                    "d_head ("@ + decimal(self.head_width())
                        + ") must be even for rotary embeddings"@,
                );
            }
        }
        assert(texts(errs@) =~= self.violations());
        proof {
            accepted_iff_valid(*self);
        }
        if errs.len() == 0 {
            Ok(())
        } else {
            Err(errs)
        }
    }

    /// The width of one head.
    pub fn d_head(&self) -> (r: usize)
        requires
            self.n_heads > 0,
        ensures
            r == self.head_width(),
    {
        self.d_model / self.n_heads
    }

    /// The settings that the reference models share.
    pub open spec fn has_reference_settings(&self) -> bool {
        &&& self.layer_schedule == LayerSchedule::Cycle
        &&& self.rope_theta.bits == THETA_10_000
        &&& self.rope_theta.text@ == "10000"@
        &&& self.tie_embeddings
        &&& self.norm_placement == NormPlacement::Pre
        &&& self.norm_eps.bits == EPS_1E_5
        &&& self.norm_eps.text@ == "0.00001"@
        &&& self.dropout.bits == ZERO
        &&& self.dropout.text@ == "0"@
    }

    /// The reference model of the 3.0M budget.
    ///
    /// `d_emb = 128` is high for a model this small, on purpose: with tied
    /// embeddings it caps the rank of the distribution the model can express.
    pub fn quark_3m() -> (r: Self)
        ensures
            r.vocab_size == 8192,
            r.d_emb == 128,
            r.d_model == 384,
            r.n_heads == 6,
            r.n_kv_heads == 2,
            r.d_ff == 1152,
            r.n_unique_layers == 1,
            r.n_loops == 12,
            r.max_seq_len == 1024,
            r.has_reference_settings(),
            r.valid(),
            total(r.itemized()) <= 3_000_000,
    {
        let r = ModelConfig {
            vocab_size: 8192,
            d_emb: 128,
            d_model: 384,
            n_heads: 6,
            n_kv_heads: 2,
            d_ff: 1152,
            n_unique_layers: 1,
            n_loops: 12,
            layer_schedule: LayerSchedule::Cycle,
            max_seq_len: 1024,
            rope_theta: Real32::new(THETA_10_000, "10000"),
            tie_embeddings: true,
            norm_placement: NormPlacement::Pre,
            norm_eps: Real::new(EPS_1E_5, "0.00001"),
            dropout: Real::new(ZERO, "0"),
        };
        proof {
            param_count_formula(r);
        }
        r
    }

    /// Two unique layers, six loops each: a second parameter set bought by
    /// narrowing the residual to 288, which keeps the total under 3.0M.
    pub fn quark_3m_deep() -> (r: Self)
        ensures
            r.vocab_size == 8192,
            r.d_emb == 128,
            r.d_model == 288,
            r.n_heads == 4,
            r.n_kv_heads == 1,
            r.d_ff == 768,
            r.n_unique_layers == 2,
            r.n_loops == 6,
            r.max_seq_len == 1024,
            r.has_reference_settings(),
            r.valid(),
            total(r.itemized()) <= 3_000_000,
    {
        let r = ModelConfig {
            vocab_size: 8192,
            d_emb: 128,
            d_model: 288,
            n_heads: 4,
            n_kv_heads: 1,
            d_ff: 768,
            n_unique_layers: 2,
            n_loops: 6,
            ..Self::quark_3m()
        };
        proof {
            param_count_formula(r);
        }
        r
    }

    /// No weight sharing: six distinct layers, narrow. The control condition
    /// for measuring what cross-layer sharing buys.
    pub fn quark_3m_dense() -> (r: Self)
        ensures
            r.vocab_size == 8192,
            r.d_emb == 128,
            r.d_model == 168,
            r.n_heads == 4,
            r.n_kv_heads == 1,
            r.d_ff == 448,
            r.n_unique_layers == 6,
            r.n_loops == 1,
            r.max_seq_len == 1024,
            r.has_reference_settings(),
            r.valid(),
            total(r.itemized()) <= 3_000_000,
    {
        let r = ModelConfig {
            vocab_size: 8192,
            d_emb: 128,
            d_model: 168,
            n_heads: 4,
            n_kv_heads: 1,
            d_ff: 448,
            n_unique_layers: 6,
            n_loops: 1,
            ..Self::quark_3m()
        };
        proof {
            param_count_formula(r);
        }
        r
    }

    /// A tiny config for tests. Not intended for training.
    pub fn tiny() -> (r: Self)
        ensures
            r.vocab_size == 256,
            r.d_emb == 32,
            r.d_model == 64,
            r.n_heads == 4,
            r.n_kv_heads == 2,
            r.d_ff == 128,
            r.n_unique_layers == 1,
            r.n_loops == 2,
            r.max_seq_len == 64,
            r.has_reference_settings(),
            r.valid(),
            total(r.itemized()) <= 3_000_000,
    {
        let r = ModelConfig {
            vocab_size: 256,
            d_emb: 32,
            d_model: 64,
            n_heads: 4,
            n_kv_heads: 2,
            d_ff: 128,
            n_unique_layers: 1,
            n_loops: 2,
            max_seq_len: 64,
            ..Self::quark_3m()
        };
        proof {
            param_count_formula(r);
        }
        r
    }

    /// Total layer applications per forward pass.
    pub fn n_layer_applications(&self) -> (r: usize)
        requires
            self.applications() <= usize::MAX,
        ensures
            r == self.applications(),
    {
        self.n_unique_layers * self.n_loops
    }

    /// Upper bound on the rank of the output log-probability matrix.
    ///
    /// With tied embeddings the logits factor through the `d_emb`-wide
    /// projection; untied, the bound is the residual width.
    pub fn softmax_rank_cap(&self) -> (r: usize)
        ensures
            r == self.rank_cap(),
    {
        if self.tie_embeddings && self.d_emb < self.d_model {
            self.d_emb
        } else {
            self.d_model
        }
    }

    /// Weights of one unique layer that take part in a matmul.
    ///
    /// Storage counts every parameter; the FLOP convention counts only these.
    pub fn matmul_params_per_layer(&self) -> (r: usize)
        requires
            self.layer_fits(),
        ensures
            r == self.layer_weights(),
    {
        let d: usize = self.d_model;
        proof {
            let d = self.d_model as nat;
            let f = self.d_ff as nat;
            let w = self.kv_width();
            assert(d * d >= 0 && d * w >= 0 && d * f >= 0 && f * d == d * f && d * f * 2 == 2 * (d
                * f)) by (nonlinear_arith)
                requires
                    d >= 0,
                    f >= 0,
                    w >= 0,
            ;
            assert(w >= 0 && (d >= 1 ==> w <= d * w)) by (nonlinear_arith)
                requires
                    d >= 0,
                    w >= 0,
            ;
            if d == 0 {
                assert(self.head_width() == 0);
                assert(w == 0) by (nonlinear_arith)
                    requires
                        w == self.n_kv_heads as nat * self.head_width(),
                        self.head_width() == 0,
                ;
            }
        }
        let kv: usize = self.n_kv_heads * self.d_head();
        let wq: usize = d * d;
        let wk: usize = d * kv;
        let wv: usize = d * kv;
        let wo: usize = d * d;
        let ffn: usize = d * self.d_ff * 2 + self.d_ff * d;
        wq + wk + wv + wo + ffn
    }

    /// Parameters of one unique layer.
    pub fn params_per_layer(&self) -> (r: usize)
        requires
            self.layer_fits(),
        ensures
            r == self.layer_params(),
    {
        let norms: usize = 2 * self.d_model;
        self.matmul_params_per_layer() + norms
    }

    /// The analytic parameter budget, itemized.
    pub fn budget(&self) -> (r: Vec<BudgetEntry>)
        requires
            self.budget_fits(),
        ensures
            entries(r@) == self.itemized(),
    {
        proof {
            total_of_five(self.itemized());
        }
        let head: BudgetEntry = if self.tie_embeddings {
            BudgetEntry { name: "unembed_proj", params: self.d_model * self.d_emb }
        } else {
            BudgetEntry { name: "lm_head", params: self.d_model * self.vocab_size }
        };
        let r: Vec<BudgetEntry> = vec![
            BudgetEntry { name: "token_embedding", params: self.vocab_size * self.d_emb },
            BudgetEntry { name: "embed_proj", params: self.d_emb * self.d_model },
            head,
            BudgetEntry { name: "layers", params: self.n_unique_layers * self.params_per_layer() },
            BudgetEntry { name: "final_norm", params: self.d_model },
        ];
        assert(entries(r@) =~= self.itemized());
        r
    }

    /// Total trainable parameters.
    pub fn param_count(&self) -> (r: usize)
        requires
            self.budget_fits(),
        ensures
            r == total(self.itemized()),
    {
        sum_params(&self.budget())
    }

    /// Parameters a dense, unshared model with identical per-token FLOPs would
    /// have.
    ///
    /// Weight sharing reduces storage, not arithmetic: looping one layer twelve
    /// times costs exactly what twelve distinct layers cost.
    pub fn compute_equivalent_params(&self) -> (r: usize)
        requires
            self.compute_fits(),
        ensures
            r == self.dense_equivalent(),
    {
        self.matmul_params_per_layer() * self.n_layer_applications()
    }

    /// Floating-point operations per token, forward and backward: six per
    /// matmul weight, and twelve per layer application, residual channel and
    /// position for the attention scores and their application.
    pub open spec fn token_flops(&self, seq_len: nat) -> nat {
        6 * self.dense_equivalent() + 12 * self.applications() * self.d_model as nat * seq_len
    }

    /// Forward and backward FLOPs per token, `6 * N * D` convention, with the
    /// attention score and context matmuls, which no parameter count captures.
    pub fn flops_per_token(&self, seq_len: usize) -> (r: u64)
        requires
            self.compute_fits(),
            12 * self.applications() <= u64::MAX,
            12 * self.applications() * self.d_model as nat <= u64::MAX,
            self.token_flops(seq_len as nat) <= u64::MAX,
        ensures
            r == self.token_flops(seq_len as nat),
    {
        proof {
            let a = self.applications();
            let d = self.d_model as nat;
            let n = seq_len as nat;
            assert(12 * a * d >= 0 && 12 * a * d * n >= 0) by (nonlinear_arith)
                requires
                    a >= 0,
                    d >= 0,
                    n >= 0,
            ;
        }
        let matmul: u64 = 6 * self.compute_equivalent_params() as u64;
        let attn: u64 = 12 * self.n_layer_applications() as u64 * self.d_model as u64
            * seq_len as u64;
        matmul + attn
    }

    /// Render the budget as a human-readable table.
    pub fn budget_table(&self) -> (s: String)
        requires
            self.budget_fits(),
            self.compute_fits(),
        ensures
            s@ == self.table(),
    {
        let mut s = String::new();
        append_left_aligned(&mut s, "component", 24);
        s.append(" ");
        append_right_aligned(&mut s, "params", 12);
        s.append("\n");
        append_repeated(&mut s, '-', 37);
        s.append("\n");
        append_rows(&mut s, &self.budget());
        append_repeated(&mut s, '-', 37);
        s.append("\n");
        append_row(&mut s, "TOTAL", self.param_count());
        s.append("\n");
        append_row(&mut s, "compute-equivalent", self.compute_equivalent_params());
        s.append("   (drives FLOPs, not the budget)\n");
        append_row(&mut s, "output rank cap", self.softmax_rank_cap());
        s.append("   (softmax bottleneck)\n");
        assert(s@ =~= self.table());
        s
    }
}

impl Default for ModelConfig {
    /// The reference model, [`ModelConfig::quark_3m`].
    fn default() -> (r: Self)
        ensures
            r.vocab_size == 8192,
            r.d_emb == 128,
            r.d_model == 384,
            r.n_heads == 6,
            r.n_kv_heads == 2,
            r.d_ff == 1152,
            r.n_unique_layers == 1,
            r.n_loops == 12,
            r.max_seq_len == 1024,
            r.has_reference_settings(),
    {
        ModelConfig::quark_3m()
    }
}

/// `n` in decimal, its digits in groups of three.
pub fn fmt_thousands(n: usize) -> (s: String)
    ensures
        s@ == thousands(n as nat),
    decreases n,
{
    if n < 1000 {
        decimal_string(n)
    } else {
        let mut s = fmt_thousands(n / 1000);
        s.push(',');
        s.push(digit_char((n / 100 % 10) as u8));
        s.push(digit_char((n / 10 % 10) as u8));
        s.push(digit_char((n % 10) as u8));
        s
    }
}

/// Appends one line of a budget table, without a line break.
pub fn append_row(out: &mut String, name: &str, n: usize)
    ensures
        final(out)@ == old(out)@ + row(name@, n as nat),
{
    append_left_aligned(out, name, 24);
    out.append(" ");
    append_right_aligned(out, fmt_thousands(n).as_str(), 12);
    assert(out@ =~= old(out)@ + row(name@, n as nat));
}

/// Appends the lines of a budget.
pub fn append_rows(out: &mut String, items: &Vec<BudgetEntry>)
    ensures
        final(out)@ == old(out)@ + rows(entries(items@)),
{
    let mut i: usize = 0;
    assert(out@ =~= old(out)@ + rows(entries(items@).take(0)));
    while i < items.len()
        invariant
            i <= items.len(),
            out@ == old(out)@ + rows(entries(items@).take(i as int)),
        decreases items.len() - i,
    {
        append_row(out, items[i].name, items[i].params);
        out.append("\n");
        proof {
            let all = entries(items@);
            assert(all.take(i + 1).drop_last() =~= all.take(i as int));
            assert(out@ =~= old(out)@ + rows(all.take(i + 1)));
        }
        i = i + 1;
    }
    assert(entries(items@).take(items@.len() as int) =~= entries(items@));
}

/// A configuration is accepted exactly when it meets every structural rule.
pub proof fn accepted_iff_valid(c: ModelConfig)
    ensures
        c.violations().len() == 0 <==> c.valid(),
{
    broadcast use noted_len;

    let heads = c.n_heads as nat;
    let kv = c.n_kv_heads as nat;
    if heads > 0 && kv > heads {
        assert(heads % kv == heads) by {
            vstd::arithmetic::div_mod::lemma_small_mod(heads, kv);
        }
    }
}

/// The closed form of the parameter count.
pub proof fn param_count_formula(c: ModelConfig)
    ensures
        total(c.itemized()) == c.vocab_size as nat * c.d_emb as nat + c.d_emb as nat
            * c.d_model as nat + (if c.tie_embeddings {
            c.d_model as nat * c.d_emb as nat
        } else {
            c.d_model as nat * c.vocab_size as nat
        }) + c.n_unique_layers as nat * c.layer_params() + c.d_model as nat,
{
    total_of_five(c.itemized());
}

/// Looping a layer stores nothing: configurations that differ only in how
/// often, and in which order, the layers are applied have one budget.
pub proof fn looping_adds_no_parameters(a: ModelConfig, b: ModelConfig)
    requires
        b == (ModelConfig { n_loops: b.n_loops, layer_schedule: b.layer_schedule, ..a }),
    ensures
        a.itemized() == b.itemized(),
        total(a.itemized()) == total(b.itemized()),
{
    assert(a.itemized() =~= b.itemized());
}

/// Looping costs what as many distinct layers cost: with the same layer and the
/// same number of applications the arithmetic per token is the same.
pub proof fn sharing_saves_no_compute(a: ModelConfig, b: ModelConfig, seq_len: nat)
    requires
        b == (ModelConfig { n_loops: b.n_loops, n_unique_layers: b.n_unique_layers, ..a }),
        a.applications() == b.applications(),
    ensures
        a.dense_equivalent() == b.dense_equivalent(),
        a.token_flops(seq_len) == b.token_flops(seq_len),
{
}

/// Tying the embeddings saves a full output head and costs one projection.
pub proof fn tying_saves_the_lm_head(tied: ModelConfig, untied: ModelConfig)
    requires
        tied.tie_embeddings,
        untied == (ModelConfig { tie_embeddings: false, ..tied }),
    ensures
        total(untied.itemized()) - total(tied.itemized()) == tied.d_model * tied.vocab_size
            - tied.d_model * tied.d_emb,
{
    param_count_formula(tied);
    param_count_formula(untied);
}

/// A tied model's rank cap is its embedding width when the configuration is
/// valid; an untied model's is its residual width.
pub proof fn rank_cap_of_valid(c: ModelConfig)
    requires
        c.valid(),
    ensures
        c.rank_cap() == if c.tie_embeddings {
            c.d_emb as nat
        } else {
            c.d_model as nat
        },
{
}

} // verus!
