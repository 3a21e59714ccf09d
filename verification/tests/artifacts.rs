use quark::compress::CompressConfig;
use quark::config::ModelConfig;
use quark::eval::artifacts::{
    check_compressor_params, check_model_params, check_round_trips, compressor_report,
    describes_compressor, is_compress_config, join_path, missing_record_message, model_report,
    nearby_records, records_in, search_root,
    JsonKind, JsonOutline, Section,
};

fn names(items: &[&str]) -> Vec<String> {
    items.iter().map(|s| s.to_string()).collect()
}

#[test]
fn a_compressor_config_is_told_by_its_key() {
    assert!(is_compress_config(Some(r#"{"compress": {"n_slots": 4}, "seed": 1}"#)));
    assert!(!is_compress_config(Some(r#"{"compress": 4}"#)));
    assert!(!is_compress_config(Some(r#"{"model": {"compress": {}}}"#)));
    assert!(!is_compress_config(Some(r#"[{"compress": {}}]"#)));
    assert!(!is_compress_config(Some("not json")));
    assert!(!is_compress_config(Some(r#"{"compress": {}"#)));
    assert!(!is_compress_config(None));
    // Of two fields of one name the last one counts.
    assert!(is_compress_config(Some(r#"{"compress": 1, "compress": {}}"#)));
    assert!(!is_compress_config(Some(r#"{"compress": {}, "compress": 1}"#)));
}

#[test]
fn an_outline_decides_what_a_config_describes() {
    let outline = |kind, fields: &[(&str, JsonKind)]| JsonOutline {
        kind,
        fields: fields.iter().map(|(n, k)| (n.to_string(), *k)).collect(),
    };
    assert!(describes_compressor(&outline(
        JsonKind::Object,
        &[("a", JsonKind::Null), ("compress", JsonKind::Object)]
    )));
    assert!(!describes_compressor(&outline(
        JsonKind::Object,
        &[("compress", JsonKind::Array)]
    )));
    assert!(!describes_compressor(&outline(
        JsonKind::Array,
        &[("compress", JsonKind::Object)]
    )));
    assert!(!describes_compressor(&outline(JsonKind::Object, &[])));
}

#[test]
fn loading_a_record_whose_shape_contradicts_the_config_is_an_error() {
    let saved = ModelConfig::tiny();
    let mut wrong = saved.clone();
    wrong.d_model = 128;
    wrong.d_ff = 256;
    let err = check_model_params(
        "run/model",
        "run/wrong.json",
        saved.param_count(),
        wrong.param_count(),
    )
    .unwrap_err();
    assert!(
        err.contains("does not belong to these weights"),
        "got: {err}"
    );
    assert!(check_model_params("m", "c", 5, 5).is_ok());
    assert_eq!(
        check_model_params("m", "c", 5, 6).unwrap_err(),
        "the record at m holds 5 parameters but c describes a 6-parameter model: the config \
         does not belong to these weights. burn's recorder installs the record's shapes without \
         complaint, so this would otherwise be a wrong number rather than an error"
    );
}

#[test]
fn a_config_that_does_not_belong_to_the_weights_is_refused() {
    let c = CompressConfig::tiny();
    let loaded = c.param_count();
    check_compressor_params("run/model", loaded, c.param_count()).unwrap();
    let wrong = CompressConfig {
        n_slots: c.n_slots * 2,
        ..c
    };
    let err = check_compressor_params("run/model", loaded, wrong.param_count()).unwrap_err();
    assert!(
        err.contains("does not belong to these weights"),
        "got: {err}"
    );
}

#[test]
fn a_directory_of_checkpoints_is_answered_with_the_checkpoints_in_it() {
    let files = names(&["optim-4.mpk", "model-4.mpk", "scheduler-4.mpk", "model-3.mpk"]);
    let err = missing_record_message(
        true,
        "run/checkpoint",
        Some("run"),
        "run/checkpoint.mpk",
        "mpk",
        &files,
        &Vec::new(),
    );
    assert!(err.contains("is a directory"), "got: {err}");
    assert!(err.contains("checkpoint/model-3"), "got: {err}");
    assert!(err.contains("checkpoint/model-4"), "got: {err}");
    assert!(!err.contains("optim"), "got: {err}");
    assert!(!err.contains("model-4.mpk"), "got: {err}");
    assert_eq!(
        err,
        "run/checkpoint is a directory; `--model` wants the record itself, as a path without the \
         .mpk extension (the recorder sets it)\n\nrecords that do exist (pass one of these to \
         --model):\n  run/checkpoint/model-3\n  run/checkpoint/model-4"
    );
}

#[test]
fn records_of_a_directory_come_before_its_checkpoints() {
    let in_dir = names(&["model.mpk", "config.json", "model-best.mpk"]);
    let in_checkpoint = names(&["model-2.mpk", "optim-2.mpk", "model-1.mpk"]);
    assert_eq!(
        nearby_records("run", &in_dir, &in_checkpoint, "mpk"),
        vec!["run/model", "run/model-best", "run/checkpoint/model-1", "run/checkpoint/model-2"]
    );
    assert_eq!(
        nearby_records("", &in_dir, &in_checkpoint, "mpk"),
        vec!["model", "model-best", "checkpoint/model-1", "checkpoint/model-2"]
    );
    let err = missing_record_message(
        false,
        "run/mdoel",
        Some("run"),
        "run/mdoel.mpk",
        "mpk",
        &in_dir,
        &in_checkpoint,
    );
    assert!(err.ends_with(
        "\n  run/model\n  run/model-best\n  run/checkpoint/model-1\n  run/checkpoint/model-2"
    ));
    assert_eq!(join_path("/", "model"), "/model");
    assert_eq!(search_root(true, "run/x", Some("run")), "run/x");
    assert_eq!(search_root(false, "run/x", Some("run")), "run");
    assert_eq!(search_root(false, "/", None), "/");
}

#[test]
fn a_missing_record_names_the_file_it_looked_for_and_its_neighbours() {
    let err = missing_record_message(
        false,
        "run/mdoel",
        Some("run"),
        "run/mdoel.mpk",
        "mpk",
        &names(&["model.mpk"]),
        &Vec::new(),
    );
    assert!(err.contains("mdoel.mpk"), "got: {err}");
    assert!(err.contains("the .mpk extension"), "got: {err}");
    assert!(err.contains("model"), "got: {err}");
    assert_eq!(
        err,
        "no model record at run/mdoel.mpk (`--model` is a path *without* the .mpk extension, \
         which the recorder sets)\n\nrecords that do exist (pass one of these to --model):\n  \
         run/model"
    );
}

#[test]
fn a_missing_record_names_the_file_it_looked_for() {
    let err = missing_record_message(
        false,
        "run/mdoel",
        Some("run"),
        "run/mdoel.mpk",
        "mpk",
        &Vec::new(),
        &names(&["optim-1.mpk"]),
    );
    assert!(err.contains("mdoel.mpk"), "got: {err}");
    assert!(!err.contains("records that do exist"), "got: {err}");
}

#[test]
fn only_model_records_are_offered() {
    assert_eq!(
        records_in(
            &names(&[
                "model.mpk", "model", "model.mpk.gz", "amodel.mpk", ".mpk", "model.v2.mpk",
                "modelmpk", "model-10.mpk", "model-9.mpk",
            ]),
            "mpk"
        ),
        vec!["model", "model-10", "model-9", "model.v2"]
    );
    assert!(records_in(&Vec::new(), "mpk").is_empty());
}

#[test]
fn a_report_holds_what_was_asked_for() {
    let section = Some(Section {
        subject: "test.bin".to_string(),
        body: "numbers".to_string(),
    });
    assert_eq!(
        model_report("run/model", 10, 20, &section, Some("pairs"), Some("text")),
        "model run/model (10 parameters, 20 compute-equivalent)\n\n== corpus: test.bin ==\n\
         numbers\n\n== BLiMP ==\npairs\n== generation ==\ntext"
    );
    assert_eq!(
        model_report("run/model", 10, 20, &None, None, None),
        "model run/model (10 parameters, 20 compute-equivalent)\n\n"
    );
}

#[test]
fn a_compressor_report_says_what_it_skipped() {
    let c = CompressConfig::tiny();
    assert_eq!(
        compressor_report("run/model", 7, &c, "table\n", true, &None, None),
        "compressor run/model (7 parameters, 16 tokens -> 4 slots)\n\ntable\n\n\n== BLiMP ==\n\
         skipped: BLiMP is a language-model evaluation and this run is a compressor, which has \
         no next-token distribution to score a minimal pair with\n\nno --ppl shard given, so \
         nothing was reconstructed; pass the test shard to measure this compressor\n"
    );
    let section = Some(Section {
        subject: "t.bin".to_string(),
        body: "counts".to_string(),
    });
    assert_eq!(
        compressor_report("m", 7, &c, "table\n", false, &section, Some("spans")),
        "compressor m (7 parameters, 16 tokens -> 4 slots)\n\ntable\n\n\n== reconstruction: \
         t.bin ==\ncounts\n\n== round trips ==\nspans"
    );
    assert!(check_round_trips(true, true).is_ok());
    assert!(check_round_trips(false, false).is_ok());
    assert!(check_round_trips(true, false)
        .unwrap_err()
        .starts_with("--generate needs text to round-trip"));
}
