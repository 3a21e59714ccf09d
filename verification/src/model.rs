//! The structure of the language model: what matrices it is made of, in which
//! order its layers are applied, and which positions see each other.

use vstd::prelude::*;

use vstd::arithmetic::div_mod::{
    lemma_fundamental_div_mod, lemma_fundamental_div_mod_converse, lemma_mod_bound,
};
use vstd::string::*;

use crate::config::{
    accepted_iff_valid, param_count_formula, total, LayerSchedule, ModelConfig, NormPlacement,
};
use crate::number::{Real, Real32};
use crate::text::{
    append_decimal, around_one, decimal, ending_in, join, joined,
};

verus! {

/// A weight matrix, by its size.
#[derive(Debug, Clone, Copy, PartialEq, Eq, Structural)]
pub struct Matrix {
    pub inputs: usize,
    pub outputs: usize,
}

impl Matrix {
    /// The number of weights.
    pub open spec fn weights(&self) -> nat {
        self.inputs as nat * self.outputs as nat
    }
}

/// The configuration of a grouped-query attention block.
#[derive(Debug, Clone, PartialEq, Eq)]
pub struct GroupedQueryAttentionConfig {
    pub d_model: usize,
    pub n_heads: usize,
    pub n_kv_heads: usize,
    pub max_seq_len: usize,
    pub rope_theta: Real32,
    pub dropout: Real,
}

/// The matrices of an attention block and how its heads share them.
#[derive(Debug, Clone, Copy, PartialEq, Eq, Structural)]
pub struct AttentionPlan {
    pub d_head: usize,
    /// Query heads per key/value head.
    pub n_rep: usize,
    pub wq: Matrix,
    pub wk: Matrix,
    pub wv: Matrix,
    pub wo: Matrix,
}

/// The configuration of a feed-forward block.
#[derive(Debug, Clone, PartialEq, Eq)]
pub struct SwiGluFeedForwardConfig {
    pub d_model: usize,
    pub d_ff: usize,
    pub dropout: Real,
}

/// The matrices of a feed-forward block: gate and up widen, down narrows.
#[derive(Debug, Clone, Copy, PartialEq, Eq, Structural)]
pub struct FeedForwardPlan {
    pub gate: Matrix,
    pub up: Matrix,
    pub down: Matrix,
}

/// The output head.
#[derive(Debug, Clone, Copy, PartialEq, Eq, Structural)]
pub enum HeadPlan {
    /// A projection to the embedding width, then the embedding table again.
    Tied(Matrix),
    /// A full output matrix.
    Untied(Matrix),
}

/// The matrices of a layer.
#[derive(Debug, Clone, Copy, PartialEq, Eq, Structural)]
pub struct BlockPlan {
    pub attention: AttentionPlan,
    pub ffn: FeedForwardPlan,
    /// The width of both norms.
    pub norm: usize,
    pub placement: NormPlacement,
}

/// The matrices of a model.
#[derive(Debug, Clone, PartialEq, Eq)]
pub struct LmPlan {
    pub token_embedding: Matrix,
    pub embed_proj: Matrix,
    /// One entry for each unique layer.
    pub blocks: Vec<BlockPlan>,
    pub final_norm: usize,
    pub head: HeadPlan,
    /// The unique layer of each layer application.
    pub schedule: Vec<usize>,
}

impl GroupedQueryAttentionConfig {
    /// Why no attention block can be built, when none can.
    pub open spec fn fault(&self) -> Option<Seq<char>> {
        let heads = self.n_heads as nat;
        let kv = self.n_kv_heads as nat;
        let d_head = self.d_model as nat / heads;
        if self.d_model as nat % heads != 0 {
            Some(
                "d_model "@ + decimal(self.d_model as nat) + " not divisible by n_heads "@
                    + decimal(heads),
            )
        } else if kv == 0 || heads % kv != 0 {
            Some(
                "n_heads "@ + decimal(heads) + " must be a positive multiple of n_kv_heads "@
                    + decimal(kv),
            )
        } else if d_head % 2 != 0 {
            Some("d_head "@ + decimal(d_head) + " must be even for RoPE"@)
        } else {
            None
        }
    }

    /// The matrices of the block. Queries and output are as wide as the
    /// residual; keys and values are as wide as the key/value heads.
    pub fn init(&self) -> (r: Result<AttentionPlan, String>)
        requires
            self.n_heads > 0,
        ensures
            match self.fault() {
                Some(fault) => r is Err && r->Err_0@ == fault,
                None => {
                    let d = self.d_model;
                    let d_head = d as nat / self.n_heads as nat;
                    let kv_width = (self.n_kv_heads * d_head) as usize;
                    &&& r is Ok
                    &&& self.n_kv_heads * d_head <= d
                    &&& r->Ok_0.d_head == d_head
                    &&& r->Ok_0.n_rep * self.n_kv_heads == self.n_heads
                    &&& r->Ok_0.wq == (Matrix { inputs: d, outputs: d })
                    &&& r->Ok_0.wk == (Matrix { inputs: d, outputs: kv_width })
                    &&& r->Ok_0.wv == (Matrix { inputs: d, outputs: kv_width })
                    &&& r->Ok_0.wo == (Matrix { inputs: d, outputs: d })
                },
            },
    {
        let d: usize = self.d_model;
        let heads: usize = self.n_heads;
        let kv: usize = self.n_kv_heads;
        if d % heads != 0 {
            let mut s = around_one("d_model ", d, " not divisible by n_heads ");
            append_decimal(&mut s, heads);
            return Err(s);
        }
        if kv == 0 || heads % kv != 0 {
            let mut s = around_one("n_heads ", heads, " must be a positive multiple of n_kv_heads ");
            append_decimal(&mut s, kv);
            return Err(s);
        }
        let d_head: usize = d / heads;
        if d_head % 2 != 0 {
            return Err(around_one("d_head ", d_head, " must be even for RoPE"));
        }
        Ok(attention_plan(d, heads, kv))
    }
}

/// The matrices of an attention block over `heads` query heads that share `kv`
/// key/value heads.
pub fn attention_plan(d: usize, heads: usize, kv: usize) -> (r: AttentionPlan)
    requires
        heads > 0,
        d as nat % heads as nat == 0,
        kv > 0,
        heads as nat % kv as nat == 0,
    ensures
        r.d_head == d as nat / heads as nat,
        r.n_rep * kv == heads,
        kv * r.d_head <= d,
        r.wq == (Matrix { inputs: d, outputs: d }),
        r.wk == (Matrix { inputs: d, outputs: (kv * r.d_head) as usize }),
        r.wv == r.wk,
        r.wo == r.wq,
{
    let d_head: usize = d / heads;
    proof {
        lemma_fundamental_div_mod(d as int, heads as int);
        lemma_fundamental_div_mod(heads as int, kv as int);
        let reps = heads as int / kv as int;
        assert(reps * kv == heads && reps >= 1) by (nonlinear_arith)
            requires
                heads == kv * reps,
                heads >= 1,
                kv >= 1,
        ;
        assert(heads * d_head == d);
        assert(kv * d_head <= heads * d_head) by (nonlinear_arith)
            requires
                heads == kv * reps,
                reps >= 1,
                kv >= 1,
                d_head >= 0,
        ;
    }
    let kv_width: usize = kv * d_head;
    let q_width: usize = heads * d_head;
    AttentionPlan {
        d_head,
        n_rep: heads / kv,
        wq: Matrix { inputs: d, outputs: q_width },
        wk: Matrix { inputs: d, outputs: kv_width },
        wv: Matrix { inputs: d, outputs: kv_width },
        wo: Matrix { inputs: q_width, outputs: d },
    }
}

impl AttentionPlan {
    /// The weights of the block.
    pub open spec fn weights(&self) -> nat {
        self.wq.weights() + self.wk.weights() + self.wv.weights() + self.wo.weights()
    }

    /// The key/value head that a query head reads: neighbours share one.
    pub fn kv_head(&self, query_head: usize) -> (r: usize)
        requires
            self.n_rep > 0,
        ensures
            r == query_head as nat / self.n_rep as nat,
    {
        query_head / self.n_rep
    }
}

impl FeedForwardPlan {
    /// The weights of the block.
    pub open spec fn weights(&self) -> nat {
        self.gate.weights() + self.up.weights() + self.down.weights()
    }
}

impl SwiGluFeedForwardConfig {
    /// The matrices of the block: three of one size.
    pub fn init(&self) -> (r: FeedForwardPlan)
        ensures
            r == feed_forward(self.d_model, self.d_ff),
            r.weights() == 3 * (self.d_model as nat * self.d_ff as nat),
    {
        feed_forward_plan(self.d_model, self.d_ff)
    }
}

/// The matrices of a feed-forward block.
pub open spec fn feed_forward(d_model: usize, d_ff: usize) -> FeedForwardPlan {
    FeedForwardPlan {
        gate: Matrix { inputs: d_model, outputs: d_ff },
        up: Matrix { inputs: d_model, outputs: d_ff },
        down: Matrix { inputs: d_ff, outputs: d_model },
    }
}

fn feed_forward_plan(d_model: usize, d_ff: usize) -> (r: FeedForwardPlan)
    ensures
        r == feed_forward(d_model, d_ff),
        r.weights() == 3 * (d_model as nat * d_ff as nat),
{
    assert(d_ff as nat * d_model as nat == d_model as nat * d_ff as nat) by (nonlinear_arith);
    FeedForwardPlan {
        gate: Matrix { inputs: d_model, outputs: d_ff },
        up: Matrix { inputs: d_model, outputs: d_ff },
        down: Matrix { inputs: d_ff, outputs: d_model },
    }
}

impl BlockPlan {
    /// The parameters of the layer.
    pub open spec fn params(&self) -> nat {
        self.attention.weights() + self.ffn.weights() + 2 * self.norm as nat
    }
}

impl HeadPlan {
    /// The weights of the head that no other part of the model has.
    pub open spec fn weights(&self) -> nat {
        match *self {
            HeadPlan::Tied(m) => m.weights(),
            HeadPlan::Untied(m) => m.weights(),
        }
    }
}

/// The parameters of a stack of layers.
pub open spec fn stack_params(blocks: Seq<BlockPlan>) -> nat
    decreases blocks.len(),
{
    if blocks.len() == 0 {
        0
    } else {
        stack_params(blocks.drop_last()) + blocks.last().params()
    }
}

impl LmPlan {
    /// The parameters of the model that the plan describes.
    pub open spec fn params(&self) -> nat {
        self.token_embedding.weights() + self.embed_proj.weights() + self.head.weights()
            + stack_params(self.blocks@) + self.final_norm as nat
    }
}

/// The unique layer of application `i`.
pub open spec fn scheduled(schedule: LayerSchedule, n_unique: nat, n_loops: nat, i: nat) -> nat {
    match schedule {
        LayerSchedule::Cycle => i % n_unique,
        LayerSchedule::Blocked => i / n_loops,
    }
}

/// How many of the first `n` applications use layer `k`.
pub open spec fn visits(
    schedule: LayerSchedule,
    n_unique: nat,
    n_loops: nat,
    k: nat,
    n: nat,
) -> nat
    decreases n,
{
    if n == 0 {
        0
    } else {
        visits(schedule, n_unique, n_loops, k, (n - 1) as nat) + if scheduled(
            schedule,
            n_unique,
            n_loops,
            (n - 1) as nat,
        ) == k {
            1nat
        } else {
            0
        }
    }
}

/// The unique layer of application `i`.
pub fn layer_at(config: &ModelConfig, i: usize) -> (r: usize)
    requires
        config.n_unique_layers > 0,
        config.n_loops > 0,
        i < config.applications(),
    ensures
        r == scheduled(
            config.layer_schedule,
            config.n_unique_layers as nat,
            config.n_loops as nat,
            i as nat,
        ),
        r < config.n_unique_layers,
{
    proof {
        lemma_mod_bound(i as int, config.n_unique_layers as int);
        blocked_in_range(config.n_unique_layers as nat, config.n_loops as nat, i as nat);
    }
    match config.layer_schedule {
        LayerSchedule::Cycle => i % config.n_unique_layers,
        LayerSchedule::Blocked => i / config.n_loops,
    }
}

proof fn blocked_in_range(n_unique: nat, n_loops: nat, i: nat)
    requires
        n_loops > 0,
        i < n_unique * n_loops,
    ensures
        i / n_loops < n_unique,
{
    lemma_fundamental_div_mod(i as int, n_loops as int);
    let q = i / n_loops;
    assert(q < n_unique) by (nonlinear_arith)
        requires
            n_loops * q <= i,
            i < n_unique * n_loops,
            n_loops > 0,
    ;
}

/// The unique layer of every application, in order.
pub fn layer_schedule(config: &ModelConfig) -> (r: Vec<usize>)
    requires
        config.n_unique_layers > 0,
        config.n_loops > 0,
        config.applications() <= usize::MAX,
    ensures
        r@.len() == config.applications(),
        forall|i: int|
            0 <= i < r@.len() ==> #[trigger] r@[i] == scheduled(
                config.layer_schedule,
                config.n_unique_layers as nat,
                config.n_loops as nat,
                i as nat,
            ) && r@[i] < config.n_unique_layers,
{
    let n: usize = config.n_layer_applications();
    let mut r: Vec<usize> = Vec::new();
    let mut i: usize = 0;
    while i < n
        invariant
            i <= n,
            n == config.applications(),
            config.n_unique_layers > 0,
            config.n_loops > 0,
            r@.len() == i,
            forall|j: int|
                0 <= j < i ==> #[trigger] r@[j] == scheduled(
                    config.layer_schedule,
                    config.n_unique_layers as nat,
                    config.n_loops as nat,
                    j as nat,
                ) && r@[j] < config.n_unique_layers,
        decreases n - i,
    {
        r.push(layer_at(config, i));
        i = i + 1;
    }
    r
}

/// Whether a layer is the one that a configuration describes.
pub open spec fn is_block_of(block: BlockPlan, config: ModelConfig) -> bool {
    &&& block.params() == config.layer_params()
    &&& block.attention.d_head == config.head_width()
    &&& block.attention.n_rep * config.n_kv_heads == config.n_heads
    &&& block.attention.wq == (Matrix { inputs: config.d_model, outputs: config.d_model })
    &&& block.attention.wk == (Matrix {
        inputs: config.d_model,
        outputs: config.kv_width() as usize,
    })
    &&& block.attention.wv == block.attention.wk
    &&& block.attention.wo == block.attention.wq
    &&& block.ffn == feed_forward(config.d_model, config.d_ff)
    &&& block.norm == config.d_model
    &&& block.placement == config.norm_placement
}

/// The matrices of one layer of a valid configuration.
pub(crate) fn plan_block(config: &ModelConfig) -> (r: BlockPlan)
    requires
        config.valid(),
    ensures
        is_block_of(r, *config),
{
    let d: usize = config.d_model;
    BlockPlan {
        attention: attention_plan(d, config.n_heads, config.n_kv_heads),
        ffn: feed_forward_plan(d, config.d_ff),
        norm: d,
        placement: config.norm_placement,
    }
}

/// As many equal layers as the model has unique ones.
pub(crate) fn plan_stack(block: BlockPlan, n: usize) -> (r: Vec<BlockPlan>)
    ensures
        r@ == Seq::new(n as nat, |i: int| block),
        stack_params(r@) == n * block.params(),
{
    let mut r: Vec<BlockPlan> = Vec::new();
    let mut i: usize = 0;
    while i < n
        invariant
            i <= n,
            r@ =~= Seq::new(i as nat, |j: int| block),
            stack_params(r@) == i * block.params(),
        decreases n - i,
    {
        let ghost before = r@;
        r.push(block);
        proof {
            assert(r@.drop_last() =~= before);
            let p = block.params();
            assert((i + 1) * p == i * p + p) by (nonlinear_arith);
        }
        i = i + 1;
    }
    r
}

/// The matrices of a model and the order of its layers, or every reason why the
/// configuration describes none.
pub fn plan_model(config: &ModelConfig) -> (r: Result<LmPlan, String>)
    requires
        config.valid() ==> config.applications() <= usize::MAX,
    ensures
        r is Ok <==> config.valid(),
        r is Err ==> r->Err_0@ == "invalid ModelConfig:\n  - "@ + joined(
            config.violations(),
            "\n  - "@,
        ),
        r is Ok ==> {
            let plan = r->Ok_0;
            &&& plan.params() == total(config.itemized())
            &&& plan.token_embedding == (Matrix {
                inputs: config.vocab_size,
                outputs: config.d_emb,
            })
            &&& plan.embed_proj == (Matrix { inputs: config.d_emb, outputs: config.d_model })
            &&& plan.head == if config.tie_embeddings {
                HeadPlan::Tied(Matrix { inputs: config.d_model, outputs: config.d_emb })
            } else {
                HeadPlan::Untied(Matrix { inputs: config.d_model, outputs: config.vocab_size })
            }
            &&& plan.final_norm == config.d_model
            &&& plan.blocks@.len() == config.n_unique_layers
            &&& forall|i: int|
                0 <= i < plan.blocks@.len() ==> is_block_of(#[trigger] plan.blocks@[i], *config)
            &&& plan.schedule@.len() == config.applications()
            &&& forall|i: int|
                0 <= i < plan.schedule@.len() ==> #[trigger] plan.schedule@[i] == scheduled(
                    config.layer_schedule,
                    config.n_unique_layers as nat,
                    config.n_loops as nat,
                    i as nat,
                ) && plan.schedule@[i] < plan.blocks@.len()
        },
{
    proof {
        accepted_iff_valid(*config);
    }
    match config.validate() {
        Ok(()) => {},
        Err(errs) => {
            let list = join(&errs, "\n  - ");
            return Err(ending_in("invalid ModelConfig:\n  - ", &list));
        },
    }
    let block = plan_block(config);
    let blocks = plan_stack(block, config.n_unique_layers);
    let head = if config.tie_embeddings {
        HeadPlan::Tied(Matrix { inputs: config.d_model, outputs: config.d_emb })
    } else {
        HeadPlan::Untied(Matrix { inputs: config.d_model, outputs: config.vocab_size })
    };
    proof {
        param_count_formula(*config);
    }
    Ok(
        LmPlan {
            token_embedding: Matrix { inputs: config.vocab_size, outputs: config.d_emb },
            embed_proj: Matrix { inputs: config.d_emb, outputs: config.d_model },
            blocks,
            final_norm: config.d_model,
            head,
            schedule: layer_schedule(config),
        },
    )
}

/// Whether the key at position `key` is hidden from the query at row `row` of a
/// step that starts at position `offset`: a position sees itself and what came
/// before it.
pub open spec fn hidden(row: nat, key: nat, offset: nat) -> bool {
    key > row + offset
}

/// The attention mask of `seq` queries that start at position `pos_offset`, over
/// `kv_seq` keys, row by row; `true` hides.
pub fn causal_mask(seq: usize, kv_seq: usize, pos_offset: usize) -> (r: Vec<bool>)
    requires
        seq * kv_seq <= usize::MAX,
        seq + pos_offset <= usize::MAX,
    ensures
        r@.len() == seq * kv_seq,
        forall|row: int, key: int|
            0 <= row < seq && 0 <= key < kv_seq ==> #[trigger] mask_cell(
                r@,
                kv_seq as int,
                row,
                key,
            ) == hidden(row as nat, key as nat, pos_offset as nat),
{
    let mut r: Vec<bool> = Vec::new();
    let mut row: usize = 0;
    assert(0 * kv_seq == 0) by (nonlinear_arith);
    while row < seq
        invariant
            row <= seq,
            seq + pos_offset <= usize::MAX,
            r@.len() == row * kv_seq,
            forall|i: int, j: int|
                0 <= i < row && 0 <= j < kv_seq ==> #[trigger] mask_cell(
                    r@,
                    kv_seq as int,
                    i,
                    j,
                ) == hidden(i as nat, j as nat, pos_offset as nat),
        decreases seq - row,
    {
        let ghost before = r@;
        let mut key: usize = 0;
        while key < kv_seq
            invariant
                key <= kv_seq,
                row < seq,
                seq + pos_offset <= usize::MAX,
                before.len() == row * kv_seq,
                r@.len() == before.len() + key,
                forall|n: int| 0 <= n < before.len() ==> #[trigger] r@[n] == before[n],
                forall|j: int|
                    0 <= j < key ==> #[trigger] r@[before.len() + j] == hidden(
                        row as nat,
                        j as nat,
                        pos_offset as nat,
                    ),
            decreases kv_seq - key,
        {
            r.push(key > row + pos_offset);
            key = key + 1;
        }
        proof {
            assert((row + 1) * kv_seq == row * kv_seq + kv_seq) by (nonlinear_arith);
            assert forall|i: int, j: int| 0 <= i < row + 1 && 0 <= j < kv_seq implies #[trigger]
                mask_cell(r@, kv_seq as int, i, j) == hidden(
                i as nat,
                j as nat,
                pos_offset as nat,
            ) by {
                if i < row {
                    assert(i * kv_seq + j < row * kv_seq && 0 <= i * kv_seq) by (nonlinear_arith)
                        requires
                            0 <= i < row,
                            0 <= j < kv_seq,
                    ;
                    assert(r@[i * kv_seq + j] == before[i * kv_seq + j]);
                    assert(mask_cell(before, kv_seq as int, i, j) == hidden(
                        i as nat,
                        j as nat,
                        pos_offset as nat,
                    ));
                } else {
                    assert(r@[before.len() + j] == hidden(row as nat, j as nat, pos_offset as nat));
                }
            }
        }
        row = row + 1;
    }
    r
}

/// The entry of a mask for a query row and a key.
pub open spec fn mask_cell(mask: Seq<bool>, kv_seq: int, row: int, key: int) -> bool {
    mask[row * kv_seq + key]
}

/// Decoding one position at a time sees what a full pass sees: the query at
/// position `t` has the same keys hidden from it, whether it is row `t` of a
/// pass from the start or row `t - offset` of a step that starts at `offset`.
pub proof fn cached_steps_see_the_same_keys(t: nat, offset: nat, key: nat)
    requires
        offset <= t,
    ensures
        hidden((t - offset) as nat, key, offset) == hidden(t, key, 0),
{
}

/// No position sees a later one.
pub proof fn attention_is_causal(t: nat, key: nat)
    ensures
        hidden(t, key, 0) <==> key > t,
{
}

proof fn cycle_visits(n_unique: nat, n_loops: nat, k: nat, q: nat, r: nat)
    requires
        k < n_unique,
        r <= n_unique,
    ensures
        visits(LayerSchedule::Cycle, n_unique, n_loops, k, q * n_unique + r) == q + if k < r {
            1nat
        } else {
            0
        },
    decreases q, r,
{
    if r > 0 {
        cycle_visits(n_unique, n_loops, k, q, (r - 1) as nat);
        let i = (q * n_unique + r - 1) as int;
        lemma_fundamental_div_mod_converse(i, n_unique as int, q as int, r - 1);
        assert((q * n_unique + r - 1) as nat == q * n_unique + (r - 1) as nat);
    } else if q > 0 {
        cycle_visits(n_unique, n_loops, k, (q - 1) as nat, n_unique);
        assert((q - 1) * n_unique + n_unique == q * n_unique) by (nonlinear_arith);
    } else {
        assert(0 * n_unique == 0) by (nonlinear_arith);
    }
}

proof fn blocked_visits(n_unique: nat, n_loops: nat, k: nat, q: nat, r: nat)
    requires
        n_loops > 0,
        r <= n_loops,
    ensures
        visits(LayerSchedule::Blocked, n_unique, n_loops, k, q * n_loops + r) == if k < q {
            n_loops
        } else if k == q {
            r
        } else {
            0
        },
    decreases q, r,
{
    if r > 0 {
        blocked_visits(n_unique, n_loops, k, q, (r - 1) as nat);
        let i = (q * n_loops + r - 1) as int;
        lemma_fundamental_div_mod_converse(i, n_loops as int, q as int, r - 1);
        assert((q * n_loops + r - 1) as nat == q * n_loops + (r - 1) as nat);
    } else if q > 0 {
        blocked_visits(n_unique, n_loops, k, (q - 1) as nat, n_loops);
        assert((q - 1) * n_loops + n_loops == q * n_loops) by (nonlinear_arith);
    } else {
        assert(0 * n_loops == 0) by (nonlinear_arith);
    }
}

/// Either schedule applies every unique layer exactly `n_loops` times in a
/// forward pass.
pub proof fn every_layer_runs_n_loops_times(
    schedule: LayerSchedule,
    n_unique: nat,
    n_loops: nat,
    k: nat,
)
    requires
        n_loops > 0,
        k < n_unique,
    ensures
        visits(schedule, n_unique, n_loops, k, n_unique * n_loops) == n_loops,
{
    match schedule {
        LayerSchedule::Cycle => {
            cycle_visits(n_unique, n_loops, k, n_loops, 0);
            assert(n_loops * n_unique + 0 == n_unique * n_loops) by (nonlinear_arith);
        },
        LayerSchedule::Blocked => {
            blocked_visits(n_unique, n_loops, k, n_unique, 0);
            assert(n_unique * n_loops + 0 == n_unique * n_loops);
        },
    }
}

/// Key/value heads are shared contiguously and evenly: a query head reads a
/// head that exists, and `n_rep` neighbours read the same one.
pub proof fn kv_heads_are_shared_evenly(n_heads: nat, n_kv_heads: nat, n_rep: nat, h: nat)
    requires
        n_rep > 0,
        n_rep * n_kv_heads == n_heads,
        h < n_heads,
    ensures
        h / n_rep < n_kv_heads,
        n_rep * (h / n_rep) <= h < n_rep * (h / n_rep) + n_rep,
{
    lemma_fundamental_div_mod(h as int, n_rep as int);
    let q = h / n_rep;
    assert(q < n_kv_heads) by (nonlinear_arith)
        requires
            n_rep * q <= h,
            h < n_rep * n_kv_heads,
            n_rep > 0,
    ;
}

} // verus!
