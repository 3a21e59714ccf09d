use quark::eval::generate::{Sample, StopReason};
use quark::infer::{
    check_inputs, continuation, ensure_tokenizer_fits, ensure_tokenizer_matches, text_report,
    CompressorMetrics,
    InferenceInput, InferenceOutput, LanguageModelMetrics, OutputFormat, SpanSweep,
};
use tokenizers::models::bpe::{BpeTrainerBuilder, BPE};
use tokenizers::models::TrainerWrapper;
use tokenizers::pre_tokenizers::byte_level::ByteLevel;
use tokenizers::{AddedToken, PaddingParams, Tokenizer};

fn tokenizer() -> Tokenizer {
    let byte_level = || ByteLevel::new(false, true, true);
    let mut trainer: TrainerWrapper = BpeTrainerBuilder::new()
        .show_progress(false)
        .vocab_size(300)
        .min_frequency(2)
        .special_tokens(vec![AddedToken::from(String::from("<|endoftext|>"), true)])
        .initial_alphabet(ByteLevel::alphabet().into_iter().collect())
        .build()
        .into();
    let mut tok = Tokenizer::new(BPE::default());
    tok.with_pre_tokenizer(Some(byte_level()))
        .with_post_processor(Some(byte_level()))
        .with_decoder(Some(byte_level()));
    let text = "the quick brown fox crosses the old bridge\n".repeat(100);
    tok.train(&mut trainer, text.split_inclusive('\n')).unwrap();
    tok
}

fn records() -> Vec<InferenceOutput> {
    vec![
        InferenceOutput::LanguageModel {
            source: "--text[0]".into(),
            input: "hello".into(),
            output: " world".into(),
            metrics: LanguageModelMetrics {
                prompt_tokens: 1,
                generated_tokens: 1,
                stop_reason: "limit".into(),
            },
        },
        InferenceOutput::Compressor {
            source: "sample.txt".into(),
            input: "abc".into(),
            output: "abd".into(),
            metrics: CompressorMetrics {
                input_tokens: 3,
                correct_tokens: 2,
                spans: 1,
                span_len: 16,
                accuracy_percent: format!("{:.4}", 2.0 / 3.0 * 100.0),
                token_ratio: format!("{:.2}", 4.0),
                bits_per_token: format!("{:.3}", 3.0),
            },
        },
    ]
}

#[test]
fn a_text_report_contains_results_and_metrics() {
    let text = text_report(&records());
    assert!(text.contains("world"));
    assert!(text.contains("tokens correct"));
    assert_eq!(
        text,
        "--- input 0: --text[0] (language model) ---\nin : hello\nout:  world\nmetrics: 1 prompt \
         tokens, 1 generated tokens, stopped: limit\n\n--- input 1: sample.txt (compressor) \
         ---\nin : abc\nout: abd\nmetrics: 2/3 tokens correct (66.6667%), 1 span(s) of 16, 4.00x \
         token ratio, 3.000 bits/token\n\n"
    );
    assert_ne!(OutputFormat::Json, OutputFormat::Jsonl);
}

#[test]
fn compressor_accepts_arbitrary_length_text_without_scoring_padding() {
    let tok = tokenizer();
    let span_len = 16;
    let mut text = "the quick brown fox crosses the old bridge twice; ".repeat(8);
    while tok.encode(text.as_str(), false).unwrap().get_ids().len() % span_len == 0 {
        text.push('x');
    }
    let ids = tok.encode(text.as_str(), false).unwrap().get_ids().to_vec();
    let expected_tokens = ids.len();
    let input = InferenceInput {
        source: "test".into(),
        text: text.clone(),
    };

    // A compressor that gives everything back but the first token of a span,
    // and says the separator over padding.
    let mut sweep = SpanSweep::begin(&tok, &input, span_len).unwrap();
    let mut n = 0;
    while let Some(mut span) = sweep.next_span() {
        assert_eq!(span.len(), span_len);
        span[0] += 1;
        sweep.absorb(&span);
        n += 1;
    }
    let (input_tokens, correct, spans) = sweep.counts();
    assert_eq!(input_tokens, expected_tokens);
    assert_eq!(spans, expected_tokens.div_ceil(span_len));
    assert_eq!(spans, n);
    assert!(spans > 1);
    assert_eq!(correct, expected_tokens - spans);
    assert_eq!(sweep.reconstructed.len(), expected_tokens);
}

#[test]
fn a_perfect_compressor_gives_the_text_back() {
    let tok = tokenizer();
    let input = InferenceInput {
        source: "test".into(),
        text: "the old fox crosses the quick bridge".into(),
    };
    let mut sweep = SpanSweep::begin(&tok, &input, 4).unwrap();
    assert_eq!(
        SpanSweep::try_begin(&tok, &input, 4),
        Some(Ok(sweep.clone()))
    );
    while let Some(span) = sweep.next_span() {
        sweep.absorb(&span);
    }
    let (input_tokens, correct, _) = sweep.counts();
    assert_eq!(input_tokens, correct);
    let record = sweep.finish(&tok, &input, "100.0000", "4.00", "3.024").unwrap();
    assert_eq!(
        sweep.try_finish(&tok, &input, "100.0000", "4.00", "3.024"),
        Some(Ok(record.clone()))
    );
    match record {
        InferenceOutput::Compressor { output, metrics, .. } => {
            assert_eq!(output, input.text);
            assert_eq!(metrics.correct_tokens, metrics.input_tokens);
            assert_eq!(metrics.bits_per_token, "3.024");
        }
        InferenceOutput::LanguageModel { .. } => panic!("wrong record kind"),
    }
}

#[test]
fn the_last_span_is_padded_with_the_separator() {
    let mut sweep = SpanSweep::start("x", vec![1, 2, 3, 4, 5], 4, 9).unwrap();
    assert_eq!(sweep.next_span(), Some(vec![1, 2, 3, 4]));
    sweep.absorb(&vec![1, 2, 7, 4]);
    assert_eq!(sweep.next_span(), Some(vec![5, 9, 9, 9]));
    sweep.absorb(&vec![5, 9, 9, 9]);
    assert_eq!(sweep.next_span(), None);
    assert_eq!(sweep.reconstructed, vec![1, 2, 7, 4, 5]);
    assert_eq!(sweep.counts(), (5, 4, 2));
    assert_eq!(
        SpanSweep::start("x", vec![], 4, 9).unwrap_err(),
        "x encoded to zero tokens"
    );
}

#[test]
fn a_request_needs_text() {
    let input = |text: &str| InferenceInput {
        source: "s".into(),
        text: text.into(),
    };
    assert_eq!(
        check_inputs(&Vec::new()).unwrap_err(),
        "no input text was provided"
    );
    assert_eq!(
        check_inputs(&vec![input("a"), input("")]).unwrap_err(),
        "input text must not be empty"
    );
    assert!(check_inputs(&vec![input("a"), input(" ")]).is_ok());
}

#[test]
fn a_foreign_tokenizer_is_refused() {
    assert!(ensure_tokenizer_matches(8192, 8192).is_ok());
    assert_eq!(
        ensure_tokenizer_matches(300, 8192).unwrap_err(),
        "tokenizer vocab 300 != model vocab 8192: token ids from this tokenizer mean something \
         else to the model"
    );
}

#[test]
fn a_continuation_names_its_stop_reason_in_lower_case() {
    let input = InferenceInput {
        source: "s".into(),
        text: "once".into(),
    };
    for (reason, name) in [
        (StopReason::Eos, "eos"),
        (StopReason::Limit, "limit"),
        (StopReason::ContextFull, "contextfull"),
    ] {
        let sample = Sample {
            prompt: "once".into(),
            completion: " upon".into(),
            n_new_tokens: 1,
            stop_reason: reason,
        };
        match continuation(&input, 3, &sample) {
            InferenceOutput::LanguageModel { output, metrics, .. } => {
                assert_eq!(output, " upon");
                assert_eq!(metrics.prompt_tokens, 3);
                assert_eq!(metrics.generated_tokens, 1);
                assert_eq!(metrics.stop_reason, name);
                assert_eq!(metrics.stop_reason, format!("{reason:?}").to_lowercase());
            }
            InferenceOutput::Compressor { .. } => panic!("wrong record kind"),
        }
    }
}

#[test]
fn a_sweep_starts_where_the_tokenizer_takes_everything() {
    let input = |text: &str| InferenceInput {
        source: "--text[0]".into(),
        text: text.into(),
    };
    let bare = Tokenizer::new(BPE::default());
    assert_eq!(
        SpanSweep::try_begin(&bare, &input("fox"), 4),
        Some(Err("--text[0] encoded to zero tokens".to_string()))
    );
    let one = BPE::builder()
        .vocab_and_merges([("a".to_string(), 0)], vec![])
        .build()
        .unwrap();
    let mut one = Tokenizer::new(one);
    assert_eq!(
        SpanSweep::try_begin(&one, &input("aa"), 4),
        Some(Err("tokenizer has no <|endoftext|> token".to_string()))
    );
    one.with_padding(Some(PaddingParams::default()));
    assert_eq!(SpanSweep::try_begin(&one, &input("aa"), 4), None);
}

#[test]
fn a_tokenizer_of_another_size_is_refused() {
    let tok = tokenizer();
    let n = tok.get_vocab_size(true);
    assert!(ensure_tokenizer_fits(&tok, n).is_ok());
    assert_eq!(
        ensure_tokenizer_fits(&tok, n + 1).unwrap_err(),
        format!(
            "tokenizer vocab {n} != model vocab {}: token ids from this tokenizer mean something \
             else to the model",
            n + 1
        )
    );
}
