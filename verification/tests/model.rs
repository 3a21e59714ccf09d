use quark::config::{LayerSchedule, ModelConfig};
use quark::model::{
    causal_mask, layer_at, layer_schedule, plan_model, BlockPlan, GroupedQueryAttentionConfig,
    HeadPlan, LmPlan, Matrix, SwiGluFeedForwardConfig,
};
use quark::number::{Real, Real32};

fn size(m: &Matrix) -> usize {
    m.inputs * m.outputs
}

fn block_params(b: &BlockPlan) -> usize {
    let a = &b.attention;
    size(&a.wq)
        + size(&a.wk)
        + size(&a.wv)
        + size(&a.wo)
        + size(&b.ffn.gate)
        + size(&b.ffn.up)
        + size(&b.ffn.down)
        + 2 * b.norm
}

fn num_params(p: &LmPlan) -> usize {
    let head = match &p.head {
        HeadPlan::Tied(m) => size(m),
        HeadPlan::Untied(m) => size(m),
    };
    size(&p.token_embedding)
        + size(&p.embed_proj)
        + head
        + p.blocks.iter().map(block_params).sum::<usize>()
        + p.final_norm
}

fn attention(n_heads: usize, n_kv_heads: usize) -> GroupedQueryAttentionConfig {
    GroupedQueryAttentionConfig {
        d_model: 32,
        n_heads,
        n_kv_heads,
        max_seq_len: 64,
        rope_theta: Real32::new(10_000.0f32.to_bits(), "10000"),
        dropout: Real::new(0, "0"),
    }
}

#[test]
fn analytic_budget_matches_the_real_module() {
    for cfg in [
        ModelConfig::quark_3m(),
        ModelConfig::quark_3m_deep(),
        ModelConfig::quark_3m_dense(),
        ModelConfig::tiny(),
        ModelConfig {
            tie_embeddings: false,
            ..ModelConfig::tiny()
        },
    ] {
        let m = plan_model(&cfg).unwrap();
        assert_eq!(
            num_params(&m),
            cfg.param_count(),
            "analytic budget disagrees with the module for {cfg:?}"
        );
    }
}

#[test]
fn reference_model_is_under_three_million_params() {
    let m = plan_model(&ModelConfig::quark_3m()).unwrap();
    assert!(num_params(&m) <= 3_000_000, "got {}", num_params(&m));
}

#[test]
fn looping_a_shared_layer_adds_no_parameters() {
    let one = ModelConfig {
        n_loops: 1,
        ..ModelConfig::tiny()
    };
    let twelve = ModelConfig {
        n_loops: 12,
        ..ModelConfig::tiny()
    };
    let a = plan_model(&one).unwrap();
    let b = plan_model(&twelve).unwrap();
    assert_eq!(num_params(&a), num_params(&b));
}

#[test]
fn layer_schedules_visit_the_expected_layers() {
    let cycle = ModelConfig {
        n_unique_layers: 2,
        n_loops: 3,
        layer_schedule: LayerSchedule::Cycle,
        ..ModelConfig::tiny()
    };
    let visited: Vec<_> = (0..6).map(|i| layer_at(&cycle, i)).collect();
    assert_eq!(visited, vec![0, 1, 0, 1, 0, 1]);
    assert_eq!(layer_schedule(&cycle), visited);

    let blocked = ModelConfig {
        n_unique_layers: 2,
        n_loops: 3,
        layer_schedule: LayerSchedule::Blocked,
        ..ModelConfig::tiny()
    };
    let visited: Vec<_> = (0..6).map(|i| layer_at(&blocked, i)).collect();
    assert_eq!(visited, vec![0, 0, 0, 1, 1, 1]);
    assert_eq!(layer_schedule(&blocked), visited);
}

#[test]
fn parameter_count_matches_analytic_budget() {
    let cfg = ModelConfig::quark_3m();
    let plan = plan_model(&cfg).unwrap();
    let expected = cfg
        .budget()
        .iter()
        .find(|e| e.name == "layers")
        .unwrap()
        .params;
    assert_eq!(block_params(&plan.blocks[0]), expected / cfg.n_unique_layers);
}

#[test]
fn parameter_count_is_three_matrices() {
    let (d_model, d_ff) = (16, 48);
    let ffn = SwiGluFeedForwardConfig {
        d_model,
        d_ff,
        dropout: Real::new(0, "0"),
    }
    .init();
    assert_eq!(
        size(&ffn.gate) + size(&ffn.up) + size(&ffn.down),
        3 * d_model * d_ff
    );
    assert_eq!(
        ffn.down,
        Matrix {
            inputs: 48,
            outputs: 16
        }
    );
}

#[test]
fn mqa_uses_fewer_parameters_than_mha() {
    let count = |n_kv| {
        let a = attention(4, n_kv).init().unwrap();
        size(&a.wq) + size(&a.wk) + size(&a.wv) + size(&a.wo)
    };
    let (mqa, mha) = (count(1), count(4));
    assert!(mqa < mha, "MQA {mqa} should be cheaper than MHA {mha}");
    assert_eq!(mqa, 2 * 32 * 32 + 2 * 32 * 8);
}

#[test]
fn kv_expansion_groups_contiguously() {
    let attn = attention(4, 2).init().unwrap();
    let got: Vec<_> = (0..4).map(|h| attn.kv_head(h)).collect();
    assert_eq!(got, vec![0, 0, 1, 1], "GQA grouping must be contiguous");
}

#[test]
fn an_attention_block_that_cannot_be_built_says_why() {
    let err = |heads, kv| attention(heads, kv).init().unwrap_err();
    assert_eq!(err(5, 1), "d_model 32 not divisible by n_heads 5");
    assert_eq!(
        err(4, 3),
        "n_heads 4 must be a positive multiple of n_kv_heads 3"
    );
    assert_eq!(
        err(4, 0),
        "n_heads 4 must be a positive multiple of n_kv_heads 0"
    );
    assert_eq!(err(32, 1), "d_head 1 must be even for RoPE");
}

#[test]
fn a_model_that_cannot_be_built_lists_every_reason() {
    let err = plan_model(&ModelConfig {
        n_heads: 5,
        n_loops: 0,
        ..ModelConfig::quark_3m()
    })
    .unwrap_err();
    assert_eq!(
        err,
        "invalid ModelConfig:\n  - d_model (384) must be divisible by n_heads (5)\n  \
         - n_heads (5) must be a positive multiple of n_kv_heads (2)\n  - n_loops must be >= 1"
    );
}

#[test]
fn a_mask_hides_what_comes_later() {
    assert_eq!(
        causal_mask(3, 3, 0),
        vec![false, true, true, false, false, true, false, false, false]
    );
    // One step at position two sees what row two of a full pass sees.
    assert_eq!(causal_mask(1, 3, 2), vec![false, false, false]);
    assert_eq!(causal_mask(2, 4, 1), vec![false, false, true, true, false, false, false, true]);
}

#[test]
fn every_layer_application_names_a_unique_layer() {
    let plan = plan_model(&ModelConfig::quark_3m_deep()).unwrap();
    assert_eq!(plan.blocks.len(), 2);
    assert_eq!(plan.schedule.len(), 12);
    for layer in 0..2 {
        assert_eq!(plan.schedule.iter().filter(|&&l| l == layer).count(), 6);
    }
}

#[test]
fn every_layer_of_a_plan_has_the_shape_of_the_model() {
    let c = ModelConfig::quark_3m();
    let plan = plan_model(&c).unwrap();
    assert_eq!(plan.blocks.len(), c.n_unique_layers);
    for block in &plan.blocks {
        assert_eq!(block.attention.d_head, c.d_model / c.n_heads);
        assert_eq!(block.attention.n_rep, c.n_heads / c.n_kv_heads);
        assert_eq!(block.attention.wq, Matrix { inputs: c.d_model, outputs: c.d_model });
        assert_eq!(block.attention.wk.inputs, c.d_model);
        assert_eq!(block.attention.wk.outputs, c.n_kv_heads * c.d_model / c.n_heads);
        assert_eq!(block.attention.wv, block.attention.wk);
        assert_eq!(block.attention.wo, block.attention.wq);
        assert_eq!(block.ffn.gate, Matrix { inputs: c.d_model, outputs: c.d_ff });
        assert_eq!(block.ffn.up, block.ffn.gate);
        assert_eq!(block.ffn.down, Matrix { inputs: c.d_ff, outputs: c.d_model });
        assert_eq!(block.norm, c.d_model);
        assert_eq!(block.placement, c.norm_placement);
    }
}
