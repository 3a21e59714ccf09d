use quark::config::{
    fmt_thousands, BudgetEntry, LayerSchedule, ModelConfig, NormPlacement, EPS_1E_5, THETA_10_000,
};
use quark::number::{Real, Real32};

fn num(x: f64) -> Real {
    Real::new(x.to_bits(), &x.to_string())
}

#[test]
fn reference_config_fits_the_3m_budget() {
    let c = ModelConfig::quark_3m();
    let total = c.param_count();
    assert!(
        total <= 3_000_000,
        "quark_3m must fit the 3.0M budget, got {total}"
    );
    assert!(
        total >= 2_700_000,
        "quark_3m leaves too much budget unused: {total}"
    );
    assert_eq!(total, 2_868_352);
}

#[test]
fn all_reference_configs_are_valid_and_within_budget() {
    for (name, c) in [
        ("quark_3m", ModelConfig::quark_3m()),
        ("quark_3m_deep", ModelConfig::quark_3m_deep()),
        ("quark_3m_dense", ModelConfig::quark_3m_dense()),
        ("tiny", ModelConfig::tiny()),
    ] {
        c.validate()
            .unwrap_or_else(|e| panic!("{name} is invalid: {e:?}"));
        if name != "tiny" {
            assert!(
                c.param_count() <= 3_000_000,
                "{name} exceeds the 3.0M budget: {}",
                c.param_count()
            );
        }
    }
}

#[test]
fn sharing_saves_parameters_but_not_compute() {
    let c = ModelConfig::quark_3m();
    assert_eq!(c.n_layer_applications(), 12);
    assert!(c.compute_equivalent_params() > 6 * c.param_count());
}

#[test]
fn tying_embeddings_saves_the_lm_head() {
    let tied = ModelConfig::quark_3m();
    let untied = ModelConfig {
        tie_embeddings: false,
        ..tied.clone()
    };
    let saved = untied.param_count() - tied.param_count();
    assert_eq!(
        saved,
        tied.d_model * tied.vocab_size - tied.d_model * tied.d_emb
    );
    assert!(
        untied.param_count() > 3_000_000,
        "untying should blow the budget, which is why we tie"
    );
}

#[test]
fn softmax_rank_cap_tracks_tying() {
    let tied = ModelConfig::quark_3m();
    assert_eq!(tied.softmax_rank_cap(), 128);
    let untied = ModelConfig {
        tie_embeddings: false,
        ..tied
    };
    assert_eq!(untied.softmax_rank_cap(), 384);
}

#[test]
fn validate_rejects_structurally_broken_configs() {
    let bad = ModelConfig {
        n_heads: 5,
        ..ModelConfig::quark_3m()
    };
    assert!(bad.validate().is_err());

    let bad = ModelConfig {
        n_heads: 6,
        n_kv_heads: 4,
        ..ModelConfig::quark_3m()
    };
    assert!(bad.validate().is_err());

    let bad = ModelConfig {
        d_emb: 512,
        ..ModelConfig::quark_3m()
    };
    assert!(bad.validate().is_err());
}

#[test]
fn validate_rejects_an_odd_head_dimension() {
    let bad = ModelConfig {
        n_heads: 128,
        n_kv_heads: 2,
        ..ModelConfig::quark_3m()
    };
    let errs = bad.validate().expect_err("an odd d_head must be rejected");
    assert!(
        errs.iter().any(|e| e.contains("rotary")),
        "the diagnosis must name the rotary constraint, got {errs:?}"
    );
}

#[test]
fn validate_reports_zero_heads_rather_than_dividing_by_it() {
    let bad = ModelConfig {
        n_heads: 0,
        ..ModelConfig::quark_3m()
    };
    let errs = bad.validate().expect_err("n_heads = 0 must be rejected");
    assert!(
        errs.iter().any(|e| e.contains("n_heads")),
        "the diagnosis must name n_heads, got {errs:?}"
    );
}

#[test]
fn a_zero_head_config_still_reports_its_other_faults() {
    let bad = ModelConfig {
        n_heads: 0,
        d_emb: 512,
        ..ModelConfig::quark_3m()
    };
    let errs = bad
        .validate()
        .expect_err("this config is broken twice over");
    assert!(
        errs.iter().any(|e| e.contains("n_heads")),
        "the diagnosis must name n_heads, got {errs:?}"
    );
    assert!(
        errs.iter().any(|e| e.contains("d_emb")),
        "guarding n_heads must not swallow the unrelated d_emb fault, got {errs:?}"
    );
}

#[test]
fn thousands_formatting() {
    assert_eq!(fmt_thousands(0), "0");
    assert_eq!(fmt_thousands(999), "999");
    assert_eq!(fmt_thousands(1_000), "1,000");
    assert_eq!(fmt_thousands(2_868_352), "2,868,352");
}

#[test]
fn thousands_formatting_keeps_inner_zeros() {
    assert_eq!(fmt_thousands(1_000_001), "1,000,001");
    assert_eq!(fmt_thousands(20_050), "20,050");
    assert_eq!(fmt_thousands(usize::MAX), "18,446,744,073,709,551,615");
}

#[test]
fn reference_budgets_are_exact() {
    assert_eq!(ModelConfig::quark_3m_deep().param_count(), 2_865_568);
    assert_eq!(ModelConfig::quark_3m_dense().param_count(), 2_871_880);
    assert_eq!(
        ModelConfig::quark_3m().compute_equivalent_params(),
        20_643_840
    );
    // 6 per matmul weight, 12 per application, channel and position.
    assert_eq!(
        ModelConfig::quark_3m().flops_per_token(512),
        6 * 20_643_840 + 12 * 12 * 384 * 512
    );
}

#[test]
fn the_budget_is_itemized_in_order() {
    let entry = |name, params| BudgetEntry { name, params };
    assert_eq!(
        ModelConfig::quark_3m().budget(),
        vec![
            entry("token_embedding", 1_048_576),
            entry("embed_proj", 49_152),
            entry("unembed_proj", 49_152),
            entry("layers", 1_721_088),
            entry("final_norm", 384),
        ]
    );
    let untied = ModelConfig {
        tie_embeddings: false,
        ..ModelConfig::tiny()
    };
    assert_eq!(untied.budget()[2], entry("lm_head", 64 * 256));
}

#[test]
fn the_budget_table_is_laid_out_in_columns() {
    let table = ModelConfig::quark_3m().budget_table();
    let lines: Vec<&str> = table.lines().collect();
    assert_eq!(lines[0], "component                      params");
    assert_eq!(lines[1], "-".repeat(37));
    assert_eq!(lines[2], "token_embedding             1,048,576");
    assert_eq!(lines[8], "TOTAL                       2,868,352");
    assert_eq!(
        lines[9],
        "compute-equivalent         20,643,840   (drives FLOPs, not the budget)"
    );
    assert_eq!(
        lines[10],
        "output rank cap                   128   (softmax bottleneck)"
    );
    assert_eq!(lines.len(), 11);
    assert!(table.ends_with('\n'));
}

#[test]
fn every_model_rule_has_its_message() {
    let base = ModelConfig::quark_3m;
    let only = |c: ModelConfig| {
        let errs = c.validate().unwrap_err();
        assert_eq!(errs.len(), 1, "{errs:?}");
        errs[0].clone()
    };
    assert_eq!(
        only(ModelConfig { d_model: 385, ..base() }),
        "d_model (385) must be divisible by n_heads (6)"
    );
    assert_eq!(
        only(ModelConfig { d_model: 390, ..base() }),
        "d_head (65) must be even for rotary embeddings"
    );
    assert_eq!(
        only(ModelConfig { n_kv_heads: 4, ..base() }),
        "n_heads (6) must be a positive multiple of n_kv_heads (4)"
    );
    assert_eq!(
        only(ModelConfig { n_kv_heads: 0, ..base() }),
        "n_heads (6) must be a positive multiple of n_kv_heads (0)"
    );
    assert_eq!(
        only(ModelConfig { n_unique_layers: 0, ..base() }),
        "n_unique_layers must be >= 1"
    );
    assert_eq!(
        only(ModelConfig { n_loops: 0, ..base() }),
        "n_loops must be >= 1"
    );
    assert_eq!(
        only(ModelConfig { vocab_size: 0, ..base() }),
        "d_emb, d_model and vocab_size must all be >= 1"
    );
    assert_eq!(
        only(ModelConfig { d_emb: 512, ..base() }),
        "d_emb (512) > d_model (384): factorization would expand rather than compress"
    );
    assert_eq!(
        only(ModelConfig { norm_eps: num(0.0), ..base() }),
        "norm_eps must be > 0"
    );
    for bad in [1.0, -0.1, f64::NAN, f64::INFINITY] {
        assert_eq!(
            only(ModelConfig { dropout: num(bad), ..base() }),
            "dropout must be in [0, 1)"
        );
    }
    let twice = ModelConfig { n_kv_heads: 12, ..base() }.validate().unwrap_err();
    assert_eq!(
        twice,
        vec![
            "n_heads (6) must be a positive multiple of n_kv_heads (12)",
            "n_kv_heads (12) cannot exceed n_heads (6)",
        ]
    );
}

#[test]
fn a_negative_zero_and_nan_are_compared_as_numbers() {
    let base = ModelConfig::quark_3m;
    assert!(ModelConfig { dropout: num(-0.0), ..base() }.validate().is_ok());
    assert!(ModelConfig { norm_eps: num(-0.0), ..base() }.validate().is_err());
    assert!(ModelConfig { norm_eps: num(-1.0), ..base() }.validate().is_err());
    assert!(ModelConfig { norm_eps: num(f64::NAN), ..base() }.validate().is_ok());
    assert!(ModelConfig { norm_eps: num(f64::MIN_POSITIVE), ..base() }.validate().is_ok());
}

#[test]
fn the_reference_settings_are_the_numbers_they_stand_for() {
    let c = ModelConfig::default();
    assert_eq!(c, ModelConfig::quark_3m());
    assert_eq!(f64::from_bits(EPS_1E_5), 1e-5);
    assert_eq!(c.norm_eps, num(1e-5));
    assert_eq!(c.dropout, num(0.0));
    assert_eq!(f32::from_bits(THETA_10_000), 10_000.0);
    assert_eq!(
        c.rope_theta,
        Real32::new(10_000.0f32.to_bits(), &10_000.0f32.to_string())
    );
    assert_eq!(c.layer_schedule, LayerSchedule::Cycle);
    assert_eq!(c.norm_placement, NormPlacement::Pre);
    assert!(c.tie_embeddings);
}
