use quark::eval::blimp::{
    chunk_ends, count_correct, encode_pairs, is_blank, is_correct, lay_out, lay_out_pairs, suite_files,
    try_encode_pairs, try_lay_out_pairs,
    BlimpRates, BlimpScore, BlimpSuite, FieldTotal, MinimalPair, Paradigm, ParadigmScore, RawPair,
};
use tokenizers::models::bpe::BPE;
use tokenizers::Tokenizer;

fn line(good: &str, bad: &str, uid: &str, field: &str) -> RawPair {
    RawPair {
        sentence_good: good.to_string(),
        sentence_bad: bad.to_string(),
        uid: uid.to_string(),
        field: field.to_string(),
    }
}

fn score(uid: &str, field: &str, n_pairs: usize, n_correct: usize) -> ParadigmScore {
    ParadigmScore {
        uid: uid.to_string(),
        field: field.to_string(),
        n_pairs,
        n_correct,
    }
}

fn quotient(correct: usize, pairs: usize) -> f64 {
    if pairs == 0 {
        f64::NAN
    } else {
        correct as f64 / pairs as f64
    }
}

fn percent(x: f64) -> String {
    format!("{:.2}", x * 100.0)
}

fn report(s: &BlimpScore) -> String {
    let totals = s.by_field();
    let (correct, pairs) = s.totals();
    let each = |p: &ParadigmScore| quotient(p.n_correct, p.n_pairs);
    let rates = BlimpRates {
        overall: percent(quotient(correct, pairs)),
        by_field: totals
            .iter()
            .map(|t| percent(quotient(t.n_correct, t.n_pairs)))
            .collect(),
        per_paradigm: s.per_paradigm.iter().map(|p| percent(each(p))).collect(),
        keys: s.per_paradigm.iter().map(|p| each(p).to_bits()).collect(),
    };
    assert!(s.keys_follow(&rates.keys));
    s.report(&totals, &rates)
}

#[test]
fn loading_groups_by_uid_and_ignores_other_files() {
    let names: Vec<String> = ["b.jsonl", "README.md", "a.jsonl"]
        .iter()
        .map(|s| s.to_string())
        .collect();
    assert_eq!(suite_files("blimp", &names).unwrap(), vec!["a.jsonl", "b.jsonl"]);

    let mut lines = Vec::new();
    for i in 0..3 {
        lines.push(line(
            &format!("the cat sleeps {i}"),
            &format!("the cat sleep {i}"),
            "agreement",
            "morphology",
        ));
    }
    lines.push(line("who left", "who leaved", "islands", "syntax"));
    let suite = BlimpSuite::from_lines(&lines);

    assert_eq!(suite.paradigms.len(), 2);
    assert_eq!(suite.n_pairs(), 4);
    assert_eq!(suite.paradigms[0].uid, "agreement");
    assert_eq!(suite.paradigms[0].pairs.len(), 3);
    assert_eq!(suite.paradigms[0].field, "morphology");
    assert_eq!(suite.paradigms[1].pairs[0].good, "who left");
}

#[test]
fn an_empty_directory_says_where_to_get_the_suite() {
    let err = suite_files("data/blimp", &vec!["notes.txt".to_string(), ".jsonl".to_string()])
        .unwrap_err();
    assert!(err.contains("github.com/alexwarstadt/blimp"), "got: {err}");
    assert!(err.starts_with("no .jsonl files in data/blimp: "), "{err}");
}

#[test]
fn lines_of_one_uid_stay_together_in_order() {
    let suite = BlimpSuite::from_lines(&vec![
        line("g1", "b1", "zeta", "late"),
        line("g2", "b2", "alpha", "early"),
        line("g3", "b3", "zeta", "ignored"),
        line("g4", "b4", "Zeta", "upper"),
        line("g5", "b5", "alphabet", "longer"),
    ]);
    let uids: Vec<&str> = suite.paradigms.iter().map(|p| p.uid.as_str()).collect();
    assert_eq!(uids, vec!["Zeta", "alpha", "alphabet", "zeta"]);
    let zeta = &suite.paradigms[3];
    assert_eq!(zeta.field, "late");
    assert_eq!(
        zeta.pairs,
        vec![
            MinimalPair { good: "g1".to_string(), bad: "b1".to_string() },
            MinimalPair { good: "g3".to_string(), bad: "b3".to_string() },
        ]
    );
    assert!(BlimpSuite::from_lines(&Vec::new()).paradigms.is_empty());
}

#[test]
fn blank_lines_are_skipped() {
    assert!(is_blank(" \t\u{3000}\n"));
    assert!(is_blank(""));
    assert!(!is_blank(" {} "));
}

#[test]
fn accuracy_is_pair_weighted_across_uneven_paradigms() {
    let s = BlimpScore {
        per_paradigm: vec![
            score("a", "syntax", 100, 90),
            score("b", "syntax", 900, 450),
        ],
    };
    let (correct, pairs) = s.totals();
    assert!((quotient(correct, pairs) - 0.54).abs() < 1e-9);
    let fields = s.by_field();
    assert_eq!(
        fields,
        vec![FieldTotal { field: "syntax".to_string(), n_correct: 540, n_pairs: 1000 }]
    );
}

#[test]
fn fields_are_sorted_and_those_without_pairs_are_left_out() {
    let s = BlimpScore {
        per_paradigm: vec![
            score("a", "syntax", 10, 5),
            score("b", "morphology", 4, 4),
            score("c", "empty", 0, 0),
            score("d", "syntax", 10, 6),
        ],
    };
    let fields: Vec<(String, usize, usize)> = s
        .by_field()
        .into_iter()
        .map(|t| (t.field, t.n_correct, t.n_pairs))
        .collect();
    assert_eq!(
        fields,
        vec![("morphology".to_string(), 4, 4), ("syntax".to_string(), 11, 20)]
    );
    assert_eq!(s.totals(), (15, 24));
}

#[test]
fn a_tie_is_wrong() {
    let bits = |x: f64| x.to_bits();
    assert!(is_correct(bits(-1.0), bits(-2.0)));
    assert!(!is_correct(bits(-2.0), bits(-1.0)));
    assert!(!is_correct(bits(-1.0), bits(-1.0)));
    assert!(!is_correct(bits(0.0), bits(-0.0)));
    assert!(!is_correct(bits(f64::NAN), bits(-1.0)));
    assert!(!is_correct(bits(-1.0), bits(f64::NAN)));
    assert!(is_correct(bits(-1e300), bits(f64::NEG_INFINITY)));
}

#[test]
fn a_paradigm_is_scored_pair_by_pair() {
    let pair = || MinimalPair { good: "g".to_string(), bad: "b".to_string() };
    let paradigm = Paradigm {
        uid: "u".to_string(),
        field: "f".to_string(),
        pairs: vec![pair(), pair(), pair()],
    };
    let scores: Vec<u64> = [-1.0, -2.0, -3.0, -3.0, -5.0, -4.0]
        .iter()
        .map(|x: &f64| x.to_bits())
        .collect();
    assert_eq!(ParadigmScore::of(&paradigm, &scores), score("u", "f", 3, 1));
    let halves = count_correct(&scores[..2].to_vec()) + count_correct(&scores[2..].to_vec());
    assert_eq!(halves, count_correct(&scores));
}

#[test]
fn chunks_cover_a_paradigm() {
    assert_eq!(chunk_ends(7, 4).unwrap(), vec![2, 4, 6, 7]);
    assert_eq!(chunk_ends(4, 4).unwrap(), vec![2, 4]);
    assert_eq!(chunk_ends(3, 1).unwrap(), vec![1, 2, 3]);
    assert_eq!(chunk_ends(0, 8).unwrap(), Vec::<usize>::new());
    assert_eq!(chunk_ends(3, 0).unwrap_err(), "batch_size must be positive");
}

#[test]
fn sentences_are_prefixed_padded_and_masked() {
    let b = lay_out(&vec![vec![3, 7, 11], vec![5]], 1, 64).unwrap();
    assert_eq!((b.batch, b.len), (2, 3));
    assert_eq!(b.input, vec![1, 3, 7, 1, 5, 0]);
    assert_eq!(b.target, vec![3, 7, 11, 5, 0, 0]);
    assert_eq!(b.mask, vec![true, true, true, true, false, false]);
}

#[test]
fn no_sentences_make_an_empty_batch() {
    let b = lay_out(&vec![], 1, 0).unwrap();
    assert_eq!((b.batch, b.len), (0, 0));
    assert!(b.input.is_empty() && b.target.is_empty() && b.mask.is_empty());
}

#[test]
fn the_masked_sum_of_a_sentence_does_not_depend_on_its_batch() {
    // Any value of a position that depends on the input up to there.
    let value = |input: &[i32], target: i32| {
        let prefix: i64 = input.iter().enumerate().map(|(i, x)| (i as i64 + 3) * *x as i64).sum();
        prefix * 31 + target as i64
    };
    let sum = |b: &quark::eval::blimp::PaddedBatch, r: usize| -> i64 {
        (0..b.len)
            .filter(|t| b.mask[r * b.len + t])
            .map(|t| value(&b.input[r * b.len..r * b.len + t + 1], b.target[r * b.len + t]))
            .sum()
    };
    let short = vec![3u32, 7, 11];
    let long = vec![4u32, 7, 11, 13, 17, 19, 23];
    let alone = lay_out(&vec![short.clone()], 2, 64).unwrap();
    let batch = lay_out(&vec![long.clone(), short], 2, 64).unwrap();
    assert_eq!(sum(&batch, 1), sum(&alone, 0));
    assert_eq!(sum(&batch, 0), sum(&lay_out(&vec![long], 2, 64).unwrap(), 0));
}

#[test]
fn padding_does_not_change_a_layout() {
    let short = vec![3u32, 7, 11];
    let long = vec![3u32, 7, 11, 13, 17, 19, 23];
    let alone = lay_out(&vec![short.clone()], 0, 64).unwrap();
    let padded = lay_out(&vec![short, long], 0, 64).unwrap();
    for t in 0..7 {
        if t < 3 {
            assert!(padded.mask[t]);
            assert_eq!(padded.input[t], alone.input[t]);
            assert_eq!(padded.target[t], alone.target[t]);
        } else {
            assert!(!padded.mask[t]);
        }
    }
}

#[test]
fn a_sentence_longer_than_the_context_is_an_error_not_a_truncation() {
    let long: Vec<u32> = (0..64 + 1).map(|i| i % 7).collect();
    let err = lay_out(&vec![long], 0, 64).unwrap_err();
    assert!(err.contains("past the model's context"), "got: {err}");
    assert_eq!(
        err,
        "a sentence tokenizes to 65 tokens, past the model's context of 64. Truncating would \
         compare two different sentences, so this is an error rather than a warning"
    );
    assert_eq!(
        lay_out(&vec![vec![], vec![]], 0, 64).unwrap_err(),
        "cannot score an empty sequence: it has no tokens to assign probability to"
    );
}

#[test]
fn pairs_are_encoded_good_and_bad_by_turns() {
    let bpe = BPE::builder()
        .vocab_and_merges(
            [("a".to_string(), 0), ("b".to_string(), 1), ("c".to_string(), 2)],
            vec![],
        )
        .build()
        .unwrap();
    let tok = Tokenizer::new(bpe);
    let pair = |g: &str, b: &str| MinimalPair { good: g.to_string(), bad: b.to_string() };
    let pairs = vec![pair("a", "b"), pair("ab", "c"), pair("cc", "ba")];
    assert_eq!(
        encode_pairs(&tok, &pairs, 1, 3).unwrap(),
        vec![vec![0, 1], vec![2], vec![2, 2], vec![1, 0]]
    );
    assert!(encode_pairs(&tok, &pairs, 2, 2).unwrap().is_empty());
    assert_eq!(
        try_encode_pairs(&tok, &pairs, 1, 3),
        Some(encode_pairs(&tok, &pairs, 1, 3))
    );
    let dropping = Tokenizer::new(BPE::builder().dropout(0.1).build().unwrap());
    assert_eq!(try_encode_pairs(&dropping, &pairs, 1, 3), None);
    let strict = BPE::builder()
        .vocab_and_merges([("a".to_string(), 0)], vec![])
        .unk_token("?".to_string())
        .build()
        .unwrap();
    let err = encode_pairs(&Tokenizer::new(strict), &pairs, 0, 1).unwrap_err();
    assert!(err.starts_with("encoding failed: "), "got: {err}");
}

#[test]
fn the_report_lists_the_ten_weakest_paradigms() {
    let mut per_paradigm: Vec<ParadigmScore> =
        (0..12).map(|i| score(&format!("p{i}"), "syntax", 10, 10 - i % 4)).collect();
    per_paradigm.push(score("none", "empty", 0, 0));
    let text = report(&BlimpScore { per_paradigm });
    let lines: Vec<&str> = text.lines().collect();
    assert_eq!(lines[0], "BLiMP accuracy   85.00%   (chance is 50.00%)");
    assert_eq!(lines[2], "by field:");
    assert_eq!(lines[3], "  syntax                        85.00%");
    assert_eq!(lines[5], "weakest paradigms:");
    assert_eq!(
        lines[6],
        "  p3                                            70.00%  (7/10)"
    );
    let order: Vec<&str> = lines[6..].iter().map(|l| l.split_whitespace().next().unwrap()).collect();
    assert_eq!(
        order,
        vec!["p3", "p7", "p11", "p2", "p6", "p10", "p1", "p5", "p9", "p0"]
    );
}

#[test]
fn an_empty_suite_is_reported_as_no_number() {
    let text = report(&BlimpScore { per_paradigm: vec![score("u", "f", 0, 0)] });
    assert_eq!(
        text,
        "BLiMP accuracy     NaN%   (chance is 50.00%)\n\nby field:\n\nweakest paradigms:\n  \
         u                                               NaN%  (0/0)\n"
    );
}

#[test]
fn keys_that_contradict_the_counts_are_told() {
    let s = BlimpScore {
        per_paradigm: vec![
            score("a", "f", 10, 5),
            score("b", "f", 4, 3),
            score("c", "f", 2, 1),
            score("none", "f", 0, 0),
        ],
    };
    let keys = |v: [f64; 4]| v.iter().map(|x| x.to_bits()).collect::<Vec<u64>>();
    assert!(s.keys_follow(&keys([0.5, 0.75, 0.5, f64::NAN])));
    assert!(s.keys_follow(&keys([0.5, 0.75, 0.5, -1.0])));
    assert!(!s.keys_follow(&keys([0.8, 0.75, 0.8, 0.0])));
    assert!(!s.keys_follow(&keys([0.5, 0.75, 0.6, 0.0])));
    assert!(!s.keys_follow(&keys([0.5, 0.75, 0.5, 0.0])[..3].to_vec()));
    let many = BlimpScore {
        per_paradigm: vec![score("a", "f", usize::MAX, usize::MAX), score("b", "f", usize::MAX, 1)],
    };
    assert!(many.keys_follow(&vec![1.0f64.to_bits(), 0.0f64.to_bits()]));
    assert!(!many.keys_follow(&vec![0.0f64.to_bits(), 1.0f64.to_bits()]));
}

#[test]
fn pairs_are_laid_out_behind_the_separator() {
    let vocab = [("a", 3), ("b", 4), ("<|endoftext|>", 9)].map(|(s, i)| (s.to_string(), i));
    let tok = Tokenizer::new(BPE::builder().vocab_and_merges(vocab, vec![]).build().unwrap());
    let pair = |g: &str, b: &str| MinimalPair { good: g.to_string(), bad: b.to_string() };
    let pairs = vec![pair("ab", "b"), pair("a", "ba")];
    let b = lay_out_pairs(&tok, &pairs, 0, 2, 8).unwrap();
    assert_eq!((b.batch, b.len), (4, 2));
    assert_eq!(b.input, vec![9, 3, 9, 4, 9, 3, 9, 4]);
    assert_eq!(b.target, vec![3, 4, 4, 0, 3, 0, 4, 3]);
    assert_eq!(try_lay_out_pairs(&tok, &pairs, 0, 2, 8), Some(Ok(b)));
    assert_eq!(lay_out_pairs(&tok, &pairs, 1, 1, 8).unwrap().batch, 0);
    assert!(lay_out_pairs(&tok, &pairs, 0, 2, 1)
        .unwrap_err()
        .contains("past the model's context of 1"));
    let bare = [("a", 3), ("b", 4)].map(|(s, i)| (s.to_string(), i));
    let bare = Tokenizer::new(BPE::builder().vocab_and_merges(bare, vec![]).build().unwrap());
    assert_eq!(
        lay_out_pairs(&bare, &pairs, 0, 2, 8).unwrap_err(),
        "tokenizer has no <|endoftext|> token"
    );
    let dropping = Tokenizer::new(BPE::builder().dropout(0.1).build().unwrap());
    assert_eq!(try_lay_out_pairs(&dropping, &pairs, 0, 2, 8), None);
    // The first sentence that is refused is reported.
    let strict = BPE::builder()
        .vocab_and_merges([("a".to_string(), 0)], vec![])
        .unk_token("?".to_string())
        .build()
        .unwrap();
    let err = lay_out_pairs(&Tokenizer::new(strict), &pairs, 0, 2, 8).unwrap_err();
    assert!(err.starts_with("encoding failed: "), "got: {err}");
}
