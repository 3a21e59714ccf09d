use quark::data::articles::is_article_heading;
use quark::data::{
    count_words, split_wikitext_articles, Shard, ShardMeta, ShardWriter, TokenBatcher,
    TokenDataset, TokenWindow,
};
use quark::words::{is_whitespace, trim};

const WIKITEXT: &str = "\n = Valkyria Chronicles III = \n\n Senjō no Valkyria 3 is a game .\n\n = = Gameplay = = \n\n It is a tactical RPG .\n\n = Tower Building = \n\n The Tower Building of the Little Rock Arsenal .\n";

fn write_shard(docs: &[(&str, &[u32])]) -> (Vec<u8>, ShardMeta) {
    let mut w = ShardWriter::create(8192, 0);
    for (text, tokens) in docs {
        w.push_document(text, tokens).unwrap();
    }
    w.finish()
}

/// A shard whose tokens are `1..n` and a separator, so a window's contents
/// identify its offset by inspection.
fn counting_shard(n: usize) -> (Vec<u8>, ShardMeta) {
    let tokens: Vec<u32> = (1..n as u32).collect();
    write_shard(&[("x", &tokens)])
}

#[test]
fn splits_on_article_headings_only() {
    let articles = split_wikitext_articles(WIKITEXT);
    assert_eq!(articles.len(), 2, "got {articles:#?}");
    assert!(articles[0].starts_with("= Valkyria Chronicles III ="));
    assert!(articles[0].contains("= = Gameplay = ="));
    assert!(articles[1].starts_with("= Tower Building ="));
}

#[test]
fn splitting_preserves_every_word() {
    let total: usize = split_wikitext_articles(WIKITEXT)
        .iter()
        .map(|a| count_words(a))
        .sum();
    assert_eq!(total, count_words(WIKITEXT));
}

#[test]
fn splitting_does_not_preserve_every_byte() {
    let total: usize = split_wikitext_articles(WIKITEXT)
        .iter()
        .map(|a| a.len())
        .sum();
    assert!(
        total < WIKITEXT.len(),
        "expected the trimmed documents to be shorter than the file, \
         got {total} vs {}",
        WIKITEXT.len()
    );
}

#[test]
fn text_without_headings_is_a_single_document() {
    let articles = split_wikitext_articles("just some prose\nover two lines\n");
    assert_eq!(articles, vec!["just some prose\nover two lines"]);
}

#[test]
fn empty_input_yields_no_documents() {
    assert!(split_wikitext_articles("").is_empty());
    assert!(split_wikitext_articles("\n\n  \n").is_empty());
}

#[test]
fn headings_are_level_one_only() {
    assert!(is_article_heading(" = Title = \n"));
    assert!(is_article_heading("= ="));
    assert!(!is_article_heading(" = = Section = = \n"));
    assert!(!is_article_heading("== Title =="));
    assert!(!is_article_heading(" = Title \n"));
    assert!(!is_article_heading(""));
}

#[test]
fn documents_that_share_a_line_break_are_split_at_the_heading() {
    assert_eq!(
        split_wikitext_articles("preamble\n= A =\nbody é\n= B =\nmore"),
        vec!["preamble", "= A =\nbody é", "= B =\nmore"]
    );
    assert_eq!(split_wikitext_articles("= A =\n= B ="), vec!["= A =", "= B ="]);
}

#[test]
fn whitespace_is_what_std_says_it_is() {
    for c in (0..=0x10ffffu32).filter_map(char::from_u32) {
        assert_eq!(is_whitespace(c), c.is_whitespace(), "{:x}", c as u32);
    }
    for s in ["", "  ", "a", " \u{a0}a b\u{3000}\n", "\u{2003}é\u{85}"] {
        assert_eq!(trim(s), s.trim());
        assert_eq!(count_words(s), s.split_whitespace().count());
    }
}

#[test]
fn word_counting_matches_the_published_convention() {
    assert_eq!(count_words("the quick   brown\nfox ,"), 5);
    assert_eq!(count_words(""), 0);
    assert_eq!(count_words("   \n  "), 0);
}

#[test]
fn roundtrips_tokens_through_the_mapping() {
    let (bytes, meta) = write_shard(&[("a b", &[1, 2, 3]), ("c", &[4])]);
    let shard = Shard::open("train.bin", &bytes, meta).unwrap();
    assert_eq!(shard.tokens(0..shard.len()), vec![1, 2, 3, 0, 4, 0]);
}

#[test]
fn separators_count_as_tokens_but_not_as_words_or_bytes() {
    let (_, meta) = write_shard(&[("one two", &[1, 2]), ("three", &[3])]);
    assert_eq!(
        meta.n_tokens, 5,
        "three document tokens plus two separators"
    );
    assert_eq!(meta.n_words, 3);
    assert_eq!(meta.n_bytes, "one two".len() + "three".len());
}

#[test]
fn metadata_survives_a_roundtrip() {
    let (bytes, written) = write_shard(&[("hello world", &[7, 8])]);
    assert_eq!(
        Shard::open("train.bin", &bytes, written).unwrap().meta(),
        &written
    );
}

#[test]
fn a_bin_that_disagrees_with_its_sidecar_is_rejected() {
    let (bytes, mut meta) = write_shard(&[("a", &[1])]);
    meta.n_tokens += 100;

    let err = Shard::open("train.bin", &bytes, meta).unwrap_err();
    assert!(err.contains("out of sync"), "{err}");
    assert_eq!(
        err,
        "shard train.bin is 4 bytes but its metadata claims 102 tokens (204 bytes); \
         the pair is out of sync"
    );
}

#[test]
fn a_token_too_large_for_u16_is_rejected_rather_than_truncated() {
    let mut w = ShardWriter::create(8192, 0);
    let err = w.push_document("x", &[65_536]).unwrap_err();
    assert!(err.contains("u16"), "{err}");
    assert_eq!(err, "token id 65536 does not fit u16; vocab_size is 8192");
}

#[test]
fn a_refused_document_leaves_its_fitting_tokens_uncounted() {
    let mut w = ShardWriter::create(8192, 0);
    w.push_document("a", &[1]).unwrap();
    w.push_document("b", &[2, 3, 70_000, 4]).unwrap_err();
    assert_eq!(w.meta().n_tokens, 2);
    assert_eq!(w.take_bytes(), vec![1, 0, 0, 0, 2, 0, 3, 0]);

    let mut w = ShardWriter::create(8192, 70_000);
    w.push_document("a b", &[258]).unwrap_err();
    assert_eq!(w.meta().n_tokens, 1);
    assert_eq!(w.meta().n_words, 0);
    assert_eq!(w.take_bytes(), vec![2, 1]);
}

#[test]
fn bytes_can_be_taken_out_as_they_come() {
    let mut w = ShardWriter::create(8192, 9);
    w.push_document("a", &[256]).unwrap();
    assert_eq!(w.take_bytes(), vec![0, 1, 9, 0]);
    assert!(w.take_bytes().is_empty());
    w.push_document("b", &[5]).unwrap();
    let (rest, meta) = w.finish();
    assert_eq!(rest, vec![5, 0, 9, 0]);
    assert_eq!(meta.n_tokens, 4);
}

#[test]
fn training_windows_are_disjoint_and_shifted_by_one() {
    let (bytes, meta) = counting_shard(13);
    let ds = TokenDataset::train(Shard::open("t.bin", &bytes, meta).unwrap(), 4);
    assert_eq!(ds.len(), 3);

    let w0 = ds.get(0).unwrap();
    assert_eq!(w0.input, vec![1, 2, 3, 4]);
    assert_eq!(
        w0.target,
        vec![2, 3, 4, 5],
        "target is input shifted by one"
    );
    assert_eq!(w0.score_from, 0);

    let w1 = ds.get(1).unwrap();
    assert_eq!(w1.input, vec![5, 6, 7, 8]);
    assert_eq!(w1.target, vec![6, 7, 8, 9]);
}

#[test]
fn disjoint_windows_score_every_token_but_the_first() {
    let n = 13;
    let (bytes, meta) = counting_shard(n);
    let ds = TokenDataset::train(Shard::open("t.bin", &bytes, meta).unwrap(), 4);

    let scored: Vec<u32> = (0..ds.len())
        .flat_map(|i| ds.get(i).unwrap().target)
        .collect();
    assert_eq!(
        scored,
        (2..=12).chain(std::iter::once(0)).collect::<Vec<_>>()
    );
    assert_eq!(ds.n_scored_tokens(), scored.len());
    assert_eq!(ds.n_scored_tokens(), n - 1);
}

#[test]
fn strided_windows_overlap_but_score_each_token_once() {
    let (bytes, meta) = counting_shard(13);
    let ds = TokenDataset::with_stride(Shard::open("t.bin", &bytes, meta).unwrap(), 4, 2);

    let w0 = ds.get(0).unwrap();
    assert_eq!(
        w0.score_from, 0,
        "the first window has no earlier context to defer to"
    );

    let w1 = ds.get(1).unwrap();
    assert_eq!(w1.input, vec![3, 4, 5, 6], "stride 2 moves the window by 2");
    assert_eq!(w1.score_from, 2);

    let mut scored = Vec::new();
    for i in 0..ds.len() {
        let w = ds.get(i).unwrap();
        scored.extend_from_slice(&w.target[w.score_from..]);
    }
    let mut sorted = scored.clone();
    sorted.sort_unstable();
    sorted.dedup();
    assert_eq!(
        sorted.len(),
        scored.len(),
        "a token was scored twice: {scored:?}"
    );
    assert_eq!(ds.n_scored_tokens(), scored.len());
}

#[test]
fn a_shard_shorter_than_one_window_yields_nothing() {
    let (bytes, meta) = counting_shard(4);
    let ds = TokenDataset::train(Shard::open("t.bin", &bytes, meta).unwrap(), 4);
    assert_eq!(ds.len(), 0);
    assert!(ds.get(0).is_none());
}

#[test]
fn batcher_stacks_windows_and_marks_scored_positions() {
    let windows = vec![
        TokenWindow {
            input: vec![1, 2, 3],
            target: vec![2, 3, 4],
            score_from: 0,
        },
        TokenWindow {
            input: vec![5, 6, 7],
            target: vec![6, 7, 8],
            score_from: 2,
        },
    ];
    let b = TokenBatcher.batch(&windows);

    assert_eq!((b.batch, b.seq), (2, 3));
    assert_eq!(b.input, vec![1, 2, 3, 5, 6, 7]);
    assert_eq!(b.target, vec![2, 3, 4, 6, 7, 8]);
    assert_eq!(b.score_mask, vec![true, true, true, false, false, true]);
    assert_eq!(b.n_scored(), 4);
}

#[test]
fn the_masks_count_what_the_layout_predicts() {
    let (bytes, meta) = counting_shard(100);
    let ds = TokenDataset::with_stride(Shard::open("t.bin", &bytes, meta).unwrap(), 16, 5);
    let windows: Vec<TokenWindow> = (0..ds.len()).map(|i| ds.get(i).unwrap()).collect();
    assert_eq!(TokenBatcher.batch(&windows).n_scored(), ds.n_scored_tokens());
    assert_eq!(ds.seq_len(), 16);
    assert_eq!(ds.start(2), 10);
}

#[test]
fn a_token_id_keeps_its_bits_as_a_tensor_element() {
    let w = TokenWindow {
        input: vec![u32::MAX, 0x8000_0000, 7],
        target: vec![0, 1, 2],
        score_from: 3,
    };
    let b = TokenBatcher.batch(&vec![w]);
    assert_eq!(b.input, vec![u32::MAX as i32, i32::MIN, 7]);
    assert_eq!(b.score_mask, vec![false, false, false]);
}
