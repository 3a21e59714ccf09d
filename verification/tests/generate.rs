use quark::eval::generate::{
    argmax, candidates, decode_picks, drawn, first_set, nucleus_cutoff, prompts, report, Decoding,
    GenerationConfig, Sample, StopReason,
};
use quark::number::Real;
use rand::{Rng, SeedableRng};
use rand_chacha::ChaCha8Rng;
use tokenizers::models::bpe::{BpeTrainerBuilder, BPE};
use tokenizers::models::TrainerWrapper;
use tokenizers::pre_tokenizers::byte_level::ByteLevel;
use tokenizers::{AddedToken, Tokenizer, TruncationParams};

fn num(x: f64) -> Real {
    Real::new(x.to_bits(), &x.to_string())
}

fn toy_tokenizer() -> Tokenizer {
    let byte_level = || ByteLevel::new(false, true, true);
    let mut trainer: TrainerWrapper = BpeTrainerBuilder::new()
        .show_progress(false)
        .vocab_size(256)
        .min_frequency(2)
        .special_tokens(vec![AddedToken::from(String::from("<|endoftext|>"), true)])
        .initial_alphabet(ByteLevel::alphabet().into_iter().collect())
        .build()
        .into();
    let mut tok = Tokenizer::new(BPE::default());
    tok.with_pre_tokenizer(Some(byte_level()))
        .with_post_processor(Some(byte_level()))
        .with_decoder(Some(byte_level()));
    let text = "the city begins with a bridge and three islands here\n".repeat(200);
    tok.train(&mut trainer, text.split_inclusive('\n')).unwrap();
    tok
}

/// The next token, with the arithmetic of the distribution done here.
fn pick(logits: &[f32], config: &GenerationConfig, rng: &mut ChaCha8Rng) -> u32 {
    let bits: Vec<u32> = logits.iter().map(|l| l.to_bits()).collect();
    if config.is_greedy() {
        return argmax(&bits);
    }
    let order = candidates(&bits, config.top_k);
    let temperature = f64::from_bits(config.temperature.bits);
    let top_p = f64::from_bits(config.top_p.bits);
    let max = logits[order[0]] as f64;
    let scaled: Vec<f64> = order
        .iter()
        .map(|&i| ((logits[i] as f64 - max) / temperature).exp())
        .collect();
    let total: f64 = scaled.iter().sum();
    let mut acc = 0.0;
    let enough: Vec<bool> = scaled
        .iter()
        .map(|s| {
            acc += s / total;
            config.cuts_nucleus() && acc >= top_p
        })
        .collect();
    let cutoff = nucleus_cutoff(&enough);
    let kept: f64 = scaled[..cutoff].iter().sum();
    let mut target = rng.random::<f64>() * kept;
    let spent: Vec<bool> = scaled[..cutoff]
        .iter()
        .map(|s| {
            target -= s;
            target <= 0.0
        })
        .collect();
    order[drawn(&spent)] as u32
}

fn start(max_new: usize, stop_at_eos: bool, prompt: Vec<u32>, max_seq_len: usize) -> Decoding {
    let config = GenerationConfig {
        max_new_tokens: max_new,
        stop_at_eos,
        ..Default::default()
    };
    Decoding::start(&config, 0, &prompt, max_seq_len).unwrap()
}

#[test]
fn top_k_of_one_is_greedy() {
    let mut logits = vec![0.0f32; 32];
    logits[9] = 5.0;
    let mut rng = ChaCha8Rng::seed_from_u64(0);
    let cfg = GenerationConfig {
        temperature: num(1.0),
        top_k: 1,
        top_p: num(1.0),
        ..Default::default()
    };
    assert_eq!(pick(&logits, &cfg, &mut rng), 9);
    let bits: Vec<u32> = logits.iter().map(|l| l.to_bits()).collect();
    assert_eq!(argmax(&bits), 9);
}

#[test]
fn top_p_never_empties_the_nucleus() {
    let mut logits = vec![0.0f32; 32];
    logits[4] = 3.0;
    let mut rng = ChaCha8Rng::seed_from_u64(0);
    let cfg = GenerationConfig {
        temperature: num(1.0),
        top_k: 0,
        top_p: num(0.0),
        ..Default::default()
    };
    assert_eq!(pick(&logits, &cfg, &mut rng), 4);
}

#[test]
fn the_largest_logit_is_found_in_the_total_order() {
    let bits = |v: &[f32]| v.iter().map(|x| x.to_bits()).collect::<Vec<u32>>();
    assert_eq!(argmax(&bits(&[1.0, 3.0, 2.0, 3.0])), 3);
    assert_eq!(argmax(&bits(&[-2.0, -1.0, -3.0])), 1);
    assert_eq!(argmax(&bits(&[0.0, -0.0])), 0);
    assert_eq!(argmax(&bits(&[1.0, f32::NAN, 2.0])), 1);
    assert_eq!(argmax(&bits(&[f32::NEG_INFINITY])), 0);
    assert_eq!(argmax(&Vec::new()), 0);
}

#[test]
fn candidates_come_largest_first() {
    let bits = |v: &[f32]| v.iter().map(|x| x.to_bits()).collect::<Vec<u32>>();
    let logits = bits(&[0.5, -1.0, 2.0, 0.5, f32::NEG_INFINITY, 7.0]);
    assert_eq!(candidates(&logits, 0), vec![5, 2, 0, 3, 1, 4]);
    assert_eq!(candidates(&logits, 3), vec![5, 2, 0]);
    assert_eq!(candidates(&logits, 100).len(), 6);
    let mut many: Vec<f32> = (0..1000).map(|i| ((i * 7919) % 1000) as f32).collect();
    let order = candidates(&bits(&many), 0);
    let sorted: Vec<f32> = order.iter().map(|&i| many[i]).collect();
    many.sort_by(|a, b| b.total_cmp(a));
    assert_eq!(sorted, many);
}

#[test]
fn the_nucleus_ends_where_it_is_enough() {
    assert_eq!(nucleus_cutoff(&vec![false, true, true]), 2);
    assert_eq!(nucleus_cutoff(&vec![false, false]), 2);
    assert_eq!(nucleus_cutoff(&vec![true]), 1);
    assert_eq!(drawn(&vec![false, true, true]), 1);
    assert_eq!(drawn(&vec![false, false]), 1);
    assert_eq!(first_set(&vec![false, false]), None);
}

#[test]
fn decoding_stops_at_the_limit() {
    let mut d = start(3, true, vec![5, 6], 64);
    assert_eq!(d.context, vec![0, 5, 6]);
    assert_eq!(decode_picks(&mut d, &vec![9, 8, 7, 6]), Some(StopReason::Limit));
    assert_eq!(d.generated, vec![9, 8, 7]);
    let mut none = start(0, true, vec![], 64);
    assert_eq!(decode_picks(&mut none, &vec![1]), Some(StopReason::Limit));
    assert!(none.generated.is_empty());
}

#[test]
fn decoding_stops_at_the_separator_and_leaves_it_out() {
    let mut d = start(10, true, vec![5], 64);
    assert_eq!(decode_picks(&mut d, &vec![4, 0, 3]), Some(StopReason::Eos));
    assert_eq!(d.generated, vec![4]);

    let mut through = start(10, false, vec![5], 64);
    assert_eq!(decode_picks(&mut through, &vec![4, 0, 3]), None);
    assert_eq!(through.generated, vec![4, 0, 3]);
}

#[test]
fn decoding_stops_when_the_context_is_full() {
    let mut d = start(10, true, vec![5, 5], 5);
    assert_eq!(d.accept(1), None);
    assert!(!d.at_limit());
    assert_eq!(d.accept(2), Some(StopReason::ContextFull));
    assert_eq!(d.generated, vec![1, 2]);
    // The context fills before the limit is looked at again.
    let mut both = start(2, true, vec![5, 5], 5);
    assert_eq!(decode_picks(&mut both, &vec![1, 2]), Some(StopReason::ContextFull));
}

#[test]
fn stopping_at_eos_is_recorded_and_the_separator_is_not_decoded() {
    let tok = toy_tokenizer();
    let cfg = GenerationConfig {
        max_new_tokens: 4,
        ..Default::default()
    };
    let city = tok.encode(" city", false).unwrap().get_ids().to_vec();
    let mut d = Decoding::begin(&cfg, &tok, "the city", 64).unwrap();
    assert_eq!(d.context[0], d.eos);
    let mut picks = city.clone();
    picks.truncate(3);
    picks.push(d.eos);
    let reason = decode_picks(&mut d, &picks).unwrap();
    let s = d.finish(&tok, "the city", reason).unwrap();
    assert_eq!(d.try_finish(&tok, "the city", reason), Some(Ok(s.clone())));
    assert!(!s.completion.contains("<|endoftext|>"));
    assert_eq!(s.stop_reason, StopReason::Eos);
    assert_eq!(s.n_new_tokens, picks.len() - 1);
    assert_eq!(s.completion, tok.decode(&picks[..picks.len() - 1], true).unwrap());
    assert_eq!(s.prompt, "the city");
}

#[test]
fn a_prompt_that_fills_the_context_is_an_error() {
    let tok = toy_tokenizer();
    let long = "the city begins with a bridge and three islands here ".repeat(40);
    let err = Decoding::begin(&Default::default(), &tok, &long, 64).unwrap_err();
    assert!(err.contains("no room to generate"), "got: {err}");
    let err = Decoding::start(&Default::default(), 0, &vec![1, 2, 3], 4).unwrap_err();
    assert_eq!(
        err,
        "the prompt is 4 tokens and the model's context is 4: there is no room to generate"
    );
}

#[test]
fn settings_that_name_no_distribution_are_refused() {
    let tok = toy_tokenizer();
    let begin = |c: GenerationConfig| Decoding::begin(&c, &tok, "x", 64).unwrap_err();
    assert_eq!(
        begin(GenerationConfig { temperature: num(-0.5), ..Default::default() }),
        "temperature -0.5 must not be negative"
    );
    assert_eq!(
        begin(GenerationConfig { top_p: num(1.5), ..Default::default() }),
        "top_p 1.5 must be in 0..=1"
    );
    assert_eq!(
        begin(GenerationConfig { top_p: num(f64::NAN), ..Default::default() }),
        "top_p NaN must be in 0..=1"
    );
    let bare = Tokenizer::new(BPE::default());
    assert_eq!(
        Decoding::begin(&Default::default(), &bare, "x", 64).unwrap_err(),
        "tokenizer has no <|endoftext|> token"
    );
    assert!(GenerationConfig { temperature: num(-0.0), ..Default::default() }.is_greedy());
    assert!(!GenerationConfig { temperature: num(f64::NAN), ..Default::default() }.is_greedy());
    assert_eq!(GenerationConfig::default().top_p, num(0.95));
    assert_eq!(GenerationConfig::default().temperature, num(0.0));
}

#[test]
fn the_prompt_set_is_frozen() {
    assert_eq!(prompts().len(), 6);
    assert_eq!(prompts()[0], "The history of the city begins");
}

#[test]
fn samples_are_reported_with_why_they_stopped() {
    let sample = |stop_reason| Sample {
        prompt: "In 1994 , the team won".to_string(),
        completion: " twice".to_string(),
        n_new_tokens: 2,
        stop_reason,
    };
    assert_eq!(
        report(&vec![sample(StopReason::Limit), sample(StopReason::ContextFull)]),
        "> In 1994 , the team won\n   twice\n  [2 tokens, Limit]\n\n\
         > In 1994 , the team won\n   twice\n  [2 tokens, ContextFull]\n\n"
    );
    assert_eq!(report(&Vec::new()), "");
}

#[test]
fn a_reader_never_meets_the_separator() {
    let sample = Sample {
        prompt: "a<|endoftext|>".to_string(),
        completion: "<|endoftext|>b<|endoftext|>c".to_string(),
        n_new_tokens: 4,
        stop_reason: StopReason::Eos,
    };
    let shown = report(&vec![sample.clone(), sample]);
    assert!(!shown.contains("<|endoftext|>"), "{shown}");
    assert_eq!(
        shown,
        "> a \n   b c\n  [4 tokens, Eos]\n\n> a \n   b c\n  [4 tokens, Eos]\n\n"
    );
}

#[test]
fn a_decoding_starts_where_the_tokenizer_takes_everything() {
    let mut tok = toy_tokenizer();
    let cfg = GenerationConfig::default();
    assert_eq!(
        Decoding::try_begin(&cfg, &tok, "the city", 64),
        Some(Decoding::begin(&cfg, &tok, "the city", 64))
    );
    let refused = GenerationConfig { top_p: num(1.5), ..Default::default() };
    assert_eq!(
        Decoding::try_begin(&refused, &tok, "the city", 64),
        Some(Err("top_p 1.5 must be in 0..=1".to_string()))
    );
    tok.with_truncation(Some(TruncationParams {
        max_length: 1,
        stride: 1,
        ..Default::default()
    }))
    .unwrap();
    assert_eq!(Decoding::try_begin(&cfg, &tok, "the city", 64), None);
}

#[test]
fn a_separator_comes_before_the_limit() {
    let cfg = GenerationConfig { max_new_tokens: 3, ..Default::default() };
    let start = || Decoding::start(&cfg, 0, &vec![4, 5], 8).unwrap();
    let mut d = start();
    assert_eq!(decode_picks(&mut d, &vec![7, 7, 0]), Some(StopReason::Eos));
    assert_eq!(d.generated.len(), 2);
    let mut d = start();
    assert_eq!(decode_picks(&mut d, &vec![7, 7, 7, 0]), Some(StopReason::Limit));
    assert_eq!(d.generated.len(), 3);
    assert_eq!((d.eos, d.stop_at_eos, d.max_new_tokens, d.max_seq_len), (0, true, 3, 8));
}
