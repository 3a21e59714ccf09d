use quark::data::articles::split_wikitext_articles;
use quark::data::prepare::documents_of;
use quark::data::tokenizer::{
    check_training, clean, decode, decodes_all, encode, encodes_all, eos_id, explained, is_plain,
    separator, try_decode, try_encode, EncoderParts, EOS_TOKEN,
};
use quark::data::{
    count_words, prepare_shard, shard_of, try_prepare_shard, Shard, ShardMeta, TokenDataset,
};
use tokenizers::decoders::strip::Strip;
use tokenizers::models::bpe::{BpeTrainerBuilder, BPE};
use tokenizers::models::wordlevel::WordLevel;
use tokenizers::models::TrainerWrapper;
use tokenizers::normalizers::utils::Lowercase;
use tokenizers::pre_tokenizers::byte_level::ByteLevel;
use tokenizers::pre_tokenizers::whitespace::Whitespace;
use tokenizers::processors::bert::BertProcessing;
use tokenizers::{AddedToken, PaddingParams, Tokenizer, TruncationParams};

fn byte_level() -> ByteLevel {
    ByteLevel::new(false, true, true)
}

fn train(text: &str, vocab_size: usize) -> Tokenizer {
    let mut trainer: TrainerWrapper = BpeTrainerBuilder::new()
        .show_progress(false)
        .vocab_size(vocab_size)
        .min_frequency(2)
        .special_tokens(vec![AddedToken::from(String::from(EOS_TOKEN), true)])
        .initial_alphabet(ByteLevel::alphabet().into_iter().collect())
        .build()
        .into();
    let mut tokenizer = Tokenizer::new(BPE::default());
    tokenizer
        .with_pre_tokenizer(Some(byte_level()))
        .with_post_processor(Some(byte_level()))
        .with_decoder(Some(byte_level()));
    tokenizer
        .train(&mut trainer, text.split_inclusive('\n'))
        .unwrap();
    tokenizer
}

/// A corpus with enough repetition for BPE to find merges, and some non-ASCII
/// to show byte-level coverage.
fn small_corpus() -> String {
    let mut s = String::new();
    for _ in 0..200 {
        s.push_str("the quick brown fox jumps over the lazy dog\n");
        s.push_str("the quick brown cat sleeps under the lazy log\n");
        s.push_str("naïve café résumé — 日本語 🦀\n");
    }
    s
}

fn article_corpus() -> String {
    let mut s = String::from("\n");
    for i in 0..40 {
        s.push_str(&format!(" = Article {i} = \n\n"));
        s.push_str(" The quick brown fox jumps over the lazy dog .\n");
        s.push_str(" A tactical role @-@ playing game with naïve café prose .\n\n");
        s.push_str(" = = Section = = \n\n");
        s.push_str(" It was released in 2011 and sold well .\n\n");
    }
    s
}

struct Prepared {
    bytes: Vec<u8>,
    meta: ShardMeta,
    text: String,
}

impl Prepared {
    fn shard(&self) -> Shard<'_> {
        Shard::open("train.bin", &self.bytes, self.meta).unwrap()
    }
}

fn prepare() -> Prepared {
    let text = article_corpus();
    let tok = train(&text, 512);
    let (bytes, meta) = prepare_shard(&text, &tok, true).unwrap();
    Prepared { bytes, meta, text }
}

#[test]
fn roundtrips_ascii_and_unicode_losslessly() {
    let tok = train(&small_corpus(), 500);
    for text in [
        "the quick brown fox",
        "naïve café résumé — 日本語 🦀",
        "totally unseen \u{1F600} bytes: \u{0416}\u{0417}",
    ] {
        let ids = encode(&tok, text).unwrap();
        let back = tok.decode(&ids, false).unwrap();
        assert_eq!(back, text, "byte-level BPE must roundtrip losslessly");
        assert_eq!(decode(&tok, &ids).unwrap(), text);
    }
}

#[test]
fn never_emits_unk_on_unseen_bytes() {
    let tok = train(&small_corpus(), 500);
    let ids = encode(&tok, "Ω≈ç√∫˜µ≤≥÷").unwrap();
    assert!(!ids.is_empty());
    let back = tok.decode(&ids, false).unwrap();
    assert_eq!(back, "Ω≈ç√∫˜µ≤≥÷");
}

#[test]
fn eos_is_a_single_token() {
    let tok = train(&small_corpus(), 500);
    let id = eos_id(&tok).unwrap();
    let ids = encode(&tok, EOS_TOKEN).unwrap();
    assert_eq!(
        ids,
        vec![id],
        "{EOS_TOKEN} must encode to exactly one token"
    );
}

#[test]
fn saved_tokenizer_reloads_identically() {
    let tok = train(&small_corpus(), 500);
    let reloaded = Tokenizer::from_bytes(tok.to_string(false).unwrap()).unwrap();
    let text = "the quick brown fox — 日本語";
    assert_eq!(
        encode(&tok, text).unwrap(),
        encode(&reloaded, text).unwrap()
    );
}

#[test]
fn rejects_a_vocab_too_large_for_u16_shards() {
    let err = check_training(70_000, 1).unwrap_err();
    assert!(
        err.contains("u16"),
        "error should explain the u16 limit: {err}"
    );
    assert_eq!(
        err,
        "vocab_size 70000 exceeds 65536: shards store u16 token ids, so a larger vocab would \
         silently truncate"
    );
    assert_eq!(
        check_training(65_536, 0).unwrap_err(),
        "no input files to train the tokenizer on"
    );
    assert!(check_training(65_536, 1).is_ok());
}

#[test]
fn a_tokenizer_without_a_separator_is_reported() {
    let bare = Tokenizer::new(BPE::default());
    assert_eq!(
        eos_id(&bare).unwrap_err(),
        "tokenizer has no <|endoftext|> token"
    );
    assert_eq!(
        prepare_shard("some text", &bare, false).unwrap_err(),
        "tokenizer has no <|endoftext|> token"
    );
    assert_eq!(separator(Some(4)), Ok(4));
    assert!(separator(None).is_err());
}

#[test]
fn separators_are_dropped_from_decoded_text() {
    let tok = train(&small_corpus(), 500);
    let mut ids = encode(&tok, "the fox").unwrap();
    ids.push(eos_id(&tok).unwrap());
    assert_eq!(decode(&tok, &ids).unwrap(), "the fox");
    assert_eq!(decode(&tok, &[]).unwrap(), "");
}

#[test]
fn only_plain_decoders_are_known_to_take_everything() {
    let mut tok = train(&small_corpus(), 500);
    let ids = encode(&tok, "the lazy dog").unwrap();
    assert!(decodes_all(&tok));
    assert_eq!(try_decode(&tok, &ids), Some(Ok("the lazy dog".to_string())));
    tok.with_decoder(Some(Strip::new('x', 0, 9)));
    assert!(!decodes_all(&tok));
    assert_eq!(try_decode(&tok, &ids), None);
    assert!(decodes_all(&Tokenizer::new(BPE::default())));
}

#[test]
fn an_error_says_what_failed() {
    let failed: Result<u32, String> = Err("no such model".to_string());
    assert_eq!(
        explained("encoding failed: ", failed),
        Err("encoding failed: no such model".to_string())
    );
    assert_eq!(explained("encoding failed: ", Ok(7)), Ok(7));
}

#[test]
fn shard_word_count_describes_the_source_text() {
    let p = prepare();
    assert_eq!(
        p.shard().meta().n_words,
        count_words(&p.text),
        "article splitting must not add or drop words"
    );
}

#[test]
fn shard_byte_count_describes_the_source_text() {
    let p = prepare();
    assert!(p.shard().meta().n_bytes <= p.text.len());
    assert!(
        p.shard().meta().n_bytes > p.text.len() * 9 / 10,
        "trimming should shed only whitespace, not content: {} vs {}",
        p.shard().meta().n_bytes,
        p.text.len()
    );
}

#[test]
fn every_token_in_the_shard_is_within_the_vocabulary() {
    let p = prepare();
    let vocab = p.shard().meta().vocab_size;
    let tokens = p.shard().tokens(0..p.shard().len());
    assert!(!tokens.is_empty());
    assert!(
        tokens.iter().all(|&t| (t as usize) < vocab),
        "a token id outside the vocabulary would index the embedding table out of bounds"
    );
}

#[test]
fn documents_are_separated_by_exactly_one_eos_each() {
    let p = prepare();
    let eos = p.shard().meta().eos_id;
    let n = p
        .shard()
        .tokens(0..p.shard().len())
        .iter()
        .filter(|&&t| t == eos)
        .count();
    assert_eq!(n, 40, "one separator per article, no more");
}

#[test]
fn tokenizer_compresses_the_corpus() {
    let p = prepare();
    let bytes_per_token = p.shard().meta().n_bytes as f64 / p.shard().meta().n_tokens as f64;
    assert!(
        bytes_per_token > 2.0,
        "byte-level BPE should compress well past 2 bytes/token, got {bytes_per_token:.2}"
    );
}

#[test]
fn windows_cover_the_shard_and_batch_cleanly() {
    let p = prepare();
    let seq_len = 32;
    let ds = TokenDataset::train(p.shard(), seq_len);
    assert!(ds.len() > 1, "corpus should yield several windows");
    assert_eq!(ds.n_scored_tokens(), ds.len() * seq_len);

    let w = ds.get(0).unwrap();
    assert_eq!(w.input.len(), seq_len);
    assert_eq!(w.target.len(), seq_len);
    assert_eq!(
        w.input[1..],
        w.target[..seq_len - 1],
        "target trails input by one"
    );
}

#[test]
fn a_shard_holds_the_encodings_of_its_documents() {
    let text = article_corpus();
    let tok = train(&text, 512);
    let eos = eos_id(&tok).unwrap();
    for split in [true, false] {
        let (bytes, meta) = prepare_shard(&text, &tok, split).unwrap();
        let mut want = Vec::new();
        for doc in documents_of(&text, split) {
            want.extend(encode(&tok, doc).unwrap());
            want.push(eos);
        }
        let shard = Shard::open("train.bin", &bytes, meta).unwrap();
        assert_eq!(shard.tokens(0..shard.len()), want);
        assert_eq!(meta.vocab_size, tok.get_vocab_size(true));
        assert_eq!(meta.eos_id, eos);
    }
    assert_eq!(documents_of(&text, false), vec![text.as_str()]);
    assert_eq!(documents_of(&text, true), split_wikitext_articles(&text));
}

#[test]
fn a_blank_corpus_makes_an_empty_shard() {
    let tok = train(&small_corpus(), 500);
    let (bytes, meta) = prepare_shard(" \n\n ", &tok, true).unwrap();
    assert!(bytes.is_empty());
    assert_eq!((meta.n_tokens, meta.n_words, meta.n_bytes), (0, 0, 0));
}

/// A tokenizer of single characters with these ids.
fn letters<const N: usize>(ids: [(&str, u32); N]) -> Tokenizer {
    let vocab = ids.map(|(s, id)| (s.to_string(), id));
    let bpe = BPE::builder().vocab_and_merges(vocab, vec![]).build().unwrap();
    Tokenizer::new(bpe)
}

fn plain() -> EncoderParts {
    EncoderParts {
        truncates: false,
        pads: false,
        normalizes: false,
        pre_tokenizer: Some(true),
        post_processor: Some(true),
        bpe_drops: Some(false),
        added: vec![(false, false, false); 2],
    }
}

#[test]
fn plain_parts_are_told_from_others() {
    assert!(is_plain(&plain()));
    assert!(is_plain(&EncoderParts { pre_tokenizer: None, post_processor: None, ..plain() }));
    assert!(is_plain(&EncoderParts { added: vec![], ..plain() }));
    for parts in [
        EncoderParts { truncates: true, ..plain() },
        EncoderParts { pads: true, ..plain() },
        EncoderParts { normalizes: true, ..plain() },
        EncoderParts { pre_tokenizer: Some(false), ..plain() },
        EncoderParts { post_processor: Some(false), ..plain() },
        EncoderParts { bpe_drops: Some(true), ..plain() },
        EncoderParts { bpe_drops: None, ..plain() },
        EncoderParts { added: vec![(false, false, false), (true, false, false)], ..plain() },
        EncoderParts { added: vec![(false, true, false)], ..plain() },
        EncoderParts { added: vec![(false, false, true)], ..plain() },
    ] {
        assert!(!is_plain(&parts));
    }
}

#[test]
fn only_plain_encoders_are_known_to_take_everything() {
    let tok = train(&small_corpus(), 500);
    assert!(encodes_all(&tok));
    assert_eq!(
        try_encode(&tok, "the lazy dog"),
        Some(encode(&tok, "the lazy dog"))
    );
    assert!(encodes_all(&Tokenizer::new(BPE::default())));

    let refused = |t: &Tokenizer| !encodes_all(t) && try_encode(t, "the dog").is_none();
    let mut t = tok.clone();
    t.with_truncation(Some(TruncationParams {
        max_length: 2,
        stride: 2,
        ..Default::default()
    }))
    .unwrap();
    assert!(refused(&t));
    assert_eq!(try_prepare_shard("the dog", &t, true), None);
    let mut t = tok.clone();
    t.with_padding(Some(PaddingParams::default()));
    assert!(refused(&t));
    let mut t = tok.clone();
    t.with_normalizer(Some(Lowercase)).unwrap();
    assert!(refused(&t));
    let mut t = tok.clone();
    t.with_pre_tokenizer(Some(Whitespace {}));
    assert!(refused(&t));
    let mut t = tok.clone();
    t.with_post_processor(Some(BertProcessing::default()));
    assert!(refused(&t));
    let mut t = tok.clone();
    t.add_tokens([AddedToken::from("dog", true).rstrip(true)]).unwrap();
    assert!(refused(&t));
    let mut t = tok.clone();
    t.add_tokens([AddedToken::from("dog", false)]).unwrap();
    assert!(refused(&t));
    assert!(refused(&Tokenizer::new(
        BPE::builder().dropout(0.5).build().unwrap()
    )));
    assert!(refused(&Tokenizer::new(WordLevel::default())));
}

#[test]
fn a_new_training_forgets_the_old_merges() {
    let text = "the quick brown fox jumps over the lazy dog";
    let mut tok = train(&small_corpus(), 500);
    let before = encode(&tok, text).unwrap();
    let mut trainer: TrainerWrapper = BpeTrainerBuilder::new()
        .show_progress(false)
        .vocab_size(257)
        .special_tokens(vec![AddedToken::from(String::from(EOS_TOKEN), true)])
        .initial_alphabet(ByteLevel::alphabet().into_iter().collect())
        .build()
        .into();
    tok.train(&mut trainer, ["zzzz
"].iter()).unwrap();
    assert!(encodes_all(&tok));
    let after = encode(&tok, text).unwrap();
    assert!(after.len() > before.len());
    assert_eq!(decode(&tok, &after).unwrap(), text);
}

#[test]
fn a_text_that_cannot_be_encoded_is_reported() {
    let bpe = BPE::builder()
        .vocab_and_merges(
            [("a".to_string(), 0), (EOS_TOKEN.to_string(), 1)],
            vec![],
        )
        .unk_token("[UNK]".to_string())
        .build()
        .unwrap();
    let tok = Tokenizer::new(bpe);
    let err = try_encode(&tok, "b").unwrap().unwrap_err();
    assert!(err.starts_with("encoding failed: "), "got: {err}");
    assert!(err.contains("[UNK]"), "got: {err}");
    assert_eq!(prepare_shard("b", &tok, false).unwrap_err(), err);
    assert_eq!(try_prepare_shard("b", &tok, true), Some(Err(err)));
}

#[test]
fn ids_that_do_not_fit_stop_a_preparation() {
    let wide = letters([("a", 70_000), (EOS_TOKEN, 1)]);
    assert_eq!(
        prepare_shard("a", &wide, false).unwrap_err(),
        "token id 70000 does not fit u16; vocab_size is 2"
    );
    let far = letters([("a", 0), (EOS_TOKEN, 65_536)]);
    assert_eq!(
        prepare_shard("a", &far, false).unwrap_err(),
        "token id 65536 does not fit u16; vocab_size is 2"
    );
    assert_eq!(prepare_shard("  ", &far, true).unwrap().1.n_tokens, 0);
}

#[test]
fn a_shard_is_made_of_encodings_in_order() {
    let docs = vec!["one two", "three"];
    let (bytes, meta) = shard_of(&docs, &vec![vec![5, 6], vec![258]], 300, 7).unwrap();
    assert_eq!(bytes, vec![5, 0, 6, 0, 7, 0, 2, 1, 7, 0]);
    assert_eq!(
        meta,
        ShardMeta {
            n_tokens: 5,
            n_words: 3,
            n_bytes: 12,
            vocab_size: 300,
            eos_id: 7
        }
    );
    assert_eq!(
        shard_of(&docs, &vec![vec![5], vec![6, 65_536, 65_537]], 300, 7).unwrap_err(),
        "token id 65536 does not fit u16; vocab_size is 300"
    );
    assert_eq!(
        shard_of(&docs, &vec![vec![5], vec![6]], 300, 70_000).unwrap_err(),
        "token id 70000 does not fit u16; vocab_size is 300"
    );
    // The first document is at fault before the second one.
    assert_eq!(
        shard_of(&docs, &vec![vec![5], vec![99_999]], 300, 70_000).unwrap_err(),
        "token id 70000 does not fit u16; vocab_size is 300"
    );
    assert!(shard_of(&vec![], &vec![], 300, 70_000).unwrap().0.is_empty());
}

#[test]
fn a_preparation_is_the_shard_of_its_encodings() {
    let text = article_corpus();
    let tok = train(&text, 512);
    let docs = documents_of(&text, true);
    let encodings = docs.iter().map(|d| encode(&tok, d).unwrap()).collect();
    let made = shard_of(&docs, &encodings, tok.get_vocab_size(true), eos_id(&tok).unwrap());
    assert_eq!(prepare_shard(&text, &tok, true), made);
    assert_eq!(try_prepare_shard(&text, &tok, true), Some(made));
}

#[test]
fn a_cleaned_text_holds_no_separator() {
    for text in [
        "a<|endoftext|>b",
        "<|endoftext<|endoftext|>|>",
        "<|endoftext|><|endoftext|>",
    ] {
        assert!(!clean(text).contains(EOS_TOKEN));
    }
    assert_eq!(clean("<|endoftext<|endoftext|>|>"), "<|endoftext |>");
}

#[test]
fn documents_are_trimmed_headed_and_in_order() {
    let text = "  \n\tpreface\n = One = \n a\n = = Part = = \n\n = Two = \nb \n\n";
    let docs = split_wikitext_articles(text);
    assert_eq!(
        docs,
        vec!["preface", "= One = \n a\n = = Part = =", "= Two = \nb"]
    );
    let mut rest = text;
    for doc in &docs {
        assert_eq!(doc.trim(), *doc);
        let at = rest.find(doc).unwrap();
        assert!(rest[..at].trim().is_empty());
        rest = &rest[at + doc.len()..];
    }
    assert!(rest.trim().is_empty());
}

#[test]
fn encoding_and_preparing_twice_give_the_same() {
    let text = article_corpus();
    let tok = train(&text, 512);
    let first = try_encode(&tok, &text);
    assert!(matches!(first, Some(Ok(_))));
    assert_eq!(try_encode(&tok, &text), first);
    let reloaded = Tokenizer::from_bytes(tok.to_string(false).unwrap()).unwrap();
    assert_eq!(try_encode(&reloaded, &text), first);
    assert_eq!(
        try_prepare_shard(&text, &tok, true),
        try_prepare_shard(&text, &reloaded, true)
    );
}
