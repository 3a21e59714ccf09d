//! Tokenizing a corpus into a shard.

use vstd::prelude::*;

use vstd::string::*;
use vstd::utf8::*;

use tokenizers::Tokenizer;

use crate::data::articles::{
    articles, documents_bound_bytes, slices, split_wikitext_articles, splitting_preserves_words,
    total_bytes, total_words,
};
use crate::data::shard::{
    all_fit, decoded, documents_survive_a_shard, encoded, encoded_concat, fitting, fitting_stops,
    misfit, separated, ShardMeta, ShardWriter,
};
use crate::data::tokenizer::{
    encode, encode_returns, encodes_all, eos_id, may_encode, may_refuse, one_outcome,
    plain_encoder, vocab_size, vocabulary, vocabulary_size, EOS_TOKEN,
};
use crate::words::{word_count, word_count_bounded};

verus! {

/// The documents of a corpus: its articles, or the whole text as one.
pub open spec fn corpus_documents(text: Seq<char>, split_articles: bool) -> Seq<Seq<char>> {
    if split_articles {
        articles(text)
    } else {
        seq![text]
    }
}

/// What is reported when the tokens outgrow their count.
pub open spec fn too_many_tokens() -> Seq<char> {
    "the corpus encodes to more tokens than can be counted"@
}

/// The ids of encodings.
pub open spec fn rows(encodings: Seq<Vec<u32>>) -> Seq<Seq<u32>> {
    Seq::new(encodings.len(), |i: int| encodings[i]@)
}

/// Whether documents with these encodings can be stored: every id fits `u16`,
/// the separator too where there is a document, and the tokens can be counted.
pub open spec fn in_order(ids: Seq<Seq<u32>>, eos: u32) -> bool {
    &&& forall|i: int| 0 <= i < ids.len() ==> all_fit(#[trigger] ids[i])
    &&& ids.len() > 0 ==> eos <= 0xffff
    &&& separated(ids, eos).len() <= usize::MAX
}

/// What is reported of a document with this encoding, behind `before` tokens.
pub open spec fn document_fault(ids: Seq<u32>, before: nat, vocab: usize, eos: u32) -> Option<
    Seq<char>,
> {
    if before + ids.len() + 1 > usize::MAX {
        Some(too_many_tokens())
    } else if !all_fit(ids) {
        Some(misfit(ids[fitting(ids) as int], vocab))
    } else if eos > 0xffff {
        Some(misfit(eos, vocab))
    } else {
        None
    }
}

/// What is reported of documents with these encodings: the fault of the first
/// one that has one.
pub open spec fn shard_fault(ids: Seq<Seq<u32>>, vocab: usize, eos: u32) -> Option<Seq<char>>
    decreases ids.len(),
{
    if ids.len() == 0 {
        None
    } else {
        match shard_fault(ids.drop_last(), vocab, eos) {
            Some(e) => Some(e),
            None => document_fault(
                ids.last(),
                separated(ids.drop_last(), eos).len(),
                vocab,
                eos,
            ),
        }
    }
}

/// There is a fault exactly where something is out of order.
pub proof fn faultless_in_order(ids: Seq<Seq<u32>>, vocab: usize, eos: u32)
    ensures
        shard_fault(ids, vocab, eos) is None <==> in_order(ids, eos),
    decreases ids.len(),
{
    if ids.len() > 0 {
        let front = ids.drop_last();
        faultless_in_order(front, vocab, eos);
        assert(separated(ids, eos).len() == separated(front, eos).len() + ids.last().len() + 1);
        assert(forall|i: int| 0 <= i < front.len() ==> front[i] == #[trigger] ids[i]);
        if in_order(ids, eos) {
            assert forall|i: int| 0 <= i < front.len() implies all_fit(#[trigger] front[i]) by {
                assert(all_fit(ids[i]));
            }
            assert(all_fit(ids[ids.len() - 1]));
        }
        if shard_fault(ids, vocab, eos) is None {
            assert forall|i: int| 0 <= i < ids.len() implies all_fit(#[trigger] ids[i]) by {
                if i < front.len() {
                    assert(all_fit(front[i]));
                }
            }
        }
    }
}

/// Whether a shard holds documents with these encodings, and counts them.
pub open spec fn is_shard(
    bytes: Seq<u8>,
    meta: ShardMeta,
    docs: Seq<Seq<char>>,
    ids: Seq<Seq<u32>>,
) -> bool {
    &&& bytes == encoded(separated(ids, meta.eos_id))
    &&& meta.n_tokens == separated(ids, meta.eos_id).len()
    &&& meta.n_words == total_words(docs)
    &&& meta.n_bytes == total_bytes(docs)
}

/// Whether a tokenizer may encode the first documents like this, as many of
/// them as there are encodings.
pub open spec fn encodes_first(
    tokenizer: Tokenizer,
    docs: Seq<Seq<char>>,
    ids: Seq<Seq<u32>>,
) -> bool {
    &&& ids.len() <= docs.len()
    &&& forall|i: int|
        0 <= i < ids.len() ==> may_encode(tokenizer, docs[i], #[trigger] ids[i])
}

/// Whether a shard holds every document, in an encoding that the tokenizer may
/// give it, and counts them.
pub open spec fn is_shard_of(
    bytes: Seq<u8>,
    meta: ShardMeta,
    tokenizer: Tokenizer,
    docs: Seq<Seq<char>>,
    ids: Seq<Seq<u32>>,
) -> bool {
    &&& ids.len() == docs.len()
    &&& encodes_first(tokenizer, docs, ids)
    &&& in_order(ids, meta.eos_id)
    &&& is_shard(bytes, meta, docs, ids)
}

/// Whether preparing documents may fail with this error once the first of them
/// have these encodings: the last of those is at fault, or the document after
/// them cannot be encoded.
pub open spec fn is_failure(
    e: Seq<char>,
    tokenizer: Tokenizer,
    docs: Seq<Seq<char>>,
    ids: Seq<Seq<u32>>,
) -> bool {
    let vocab = vocabulary_size(tokenizer) as usize;
    let eos = vocabulary(tokenizer)[EOS_TOKEN@];
    &&& encodes_first(tokenizer, docs, ids)
    &&& {
        ||| shard_fault(ids, vocab, eos) == Some(e)
        ||| {
            &&& shard_fault(ids, vocab, eos) is None
            &&& ids.len() < docs.len()
            &&& exists|why: Seq<char>|
                #[trigger] may_refuse(tokenizer, docs[ids.len() as int], why) && e
                    == "encoding failed: "@ + why
        }
    }
}

/// Whether an outcome is one that preparing these documents may have.
pub open spec fn is_preparation(
    r: Result<(Vec<u8>, ShardMeta), String>,
    tokenizer: Tokenizer,
    docs: Seq<Seq<char>>,
) -> bool {
    if !vocabulary(tokenizer).dom().contains(EOS_TOKEN@) {
        r is Err && r->Err_0@ == "tokenizer has no "@ + EOS_TOKEN@ + " token"@
    } else {
        match r {
            Ok(shard) => {
                &&& shard.1.eos_id == vocabulary(tokenizer)[EOS_TOKEN@]
                &&& shard.1.vocab_size == vocabulary_size(tokenizer)
                &&& exists|ids: Seq<Seq<u32>>|
                    #[trigger] is_shard_of(shard.0@, shard.1, tokenizer, docs, ids)
            },
            Err(e) => exists|ids: Seq<Seq<u32>>|
                #[trigger] is_failure(e@, tokenizer, docs, ids),
        }
    }
}

/// Whether a tokenizer encodes every document, to ids or to an error.
pub open spec fn all_encode(tokenizer: Tokenizer, docs: Seq<Seq<char>>) -> bool {
    forall|i: int| 0 <= i < docs.len() ==> encode_returns(tokenizer, #[trigger] docs[i])
}

/// The documents of a corpus.
pub fn documents_of<'a>(text: &'a str, split_articles: bool) -> (r: Vec<&'a str>)
    ensures
        slices(r@) == corpus_documents(text@, split_articles),
        total_words(slices(r@)) == word_count(text@),
        total_bytes(slices(r@)) <= encode_utf8(text@).len(),
{
    if split_articles {
        proof {
            splitting_preserves_words(text@);
            documents_bound_bytes(text@);
        }
        split_wikitext_articles(text)
    } else {
        let mut r: Vec<&'a str> = Vec::new();
        r.push(text);
        proof {
            assert(slices(r@) =~= seq![text@]);
            reveal_with_fuel(total_words, 2);
            reveal_with_fuel(total_bytes, 2);
            assert(seq![text@].drop_first() =~= Seq::<Seq<char>>::empty());
        }
        r
    }
}

proof fn totals_of_prefix(docs: Seq<Seq<char>>, n: int)
    requires
        0 <= n < docs.len(),
    ensures
        total_words(docs.take(n + 1)) == total_words(docs.take(n)) + word_count(docs[n]),
        total_bytes(docs.take(n + 1)) == total_bytes(docs.take(n)) + encode_utf8(docs[n]).len(),
        total_words(docs.take(n + 1)) <= total_words(docs),
        total_bytes(docs.take(n + 1)) <= total_bytes(docs),
    decreases docs.len(),
{
    let rest = docs.drop_first();
    reveal_with_fuel(total_words, 2);
    reveal_with_fuel(total_bytes, 2);
    if n == 0 {
        assert(docs.take(0) =~= Seq::<Seq<char>>::empty());
        assert(docs.take(1) =~= seq![docs[0]]);
        assert(seq![docs[0]].drop_first() =~= Seq::<Seq<char>>::empty());
    } else {
        totals_of_prefix(rest, n - 1);
        assert(docs.take(n + 1).drop_first() =~= rest.take(n));
        assert(docs.take(n).drop_first() =~= rest.take(n - 1));
    }
}

/// Whether a writer holds documents with these encodings, and counts them.
spec fn in_hand(
    writer: ShardWriter,
    docs: Seq<Seq<char>>,
    ids: Seq<Seq<u32>>,
    vocab: usize,
    eos: u32,
) -> bool {
    &&& writer.stored() == Seq::<u8>::empty()
    &&& writer.counts().eos_id == eos
    &&& writer.counts().vocab_size == vocab
    &&& is_shard(writer.stream(), writer.counts(), docs, ids)
}

fn new_writer(vocab: usize, eos: u32) -> (w: ShardWriter)
    ensures
        in_hand(w, Seq::empty(), Seq::empty(), vocab, eos),
{
    let w = ShardWriter::create(vocab, eos);
    assert(encoded(separated(Seq::empty(), eos)) =~= Seq::<u8>::empty());
    w
}

/// Adds the next document, unless it is at fault.
fn add_document(
    writer: &mut ShardWriter,
    docs: &Vec<&str>,
    i: usize,
    tokens: &[u32],
    Ghost(ids): Ghost<Seq<Seq<u32>>>,
) -> (r: Result<(), String>)
    requires
        i < docs@.len(),
        ids.len() == i,
        shard_fault(ids, old(writer).counts().vocab_size, old(writer).counts().eos_id) is None,
        in_hand(
            *old(writer),
            slices(docs@).take(i as int),
            ids,
            old(writer).counts().vocab_size,
            old(writer).counts().eos_id,
        ),
        total_words(slices(docs@)) <= usize::MAX,
        total_bytes(slices(docs@)) <= usize::MAX,
    ensures
        match shard_fault(
            ids.push(tokens@),
            old(writer).counts().vocab_size,
            old(writer).counts().eos_id,
        ) {
            Some(e) => r is Err && r->Err_0@ == e,
            None => r is Ok && in_hand(
                *final(writer),
                slices(docs@).take(i + 1),
                ids.push(tokens@),
                old(writer).counts().vocab_size,
                old(writer).counts().eos_id,
            ),
        },
{
    let ghost all = slices(docs@);
    let ghost next = ids.push(tokens@);
    let ghost eos = writer.counts().eos_id;
    proof {
        assert(next.drop_last() =~= ids);
        assert(all[i as int] == docs@[i as int]@);
        totals_of_prefix(all, i as int);
        fitting_stops(tokens@);
        encoded_concat(separated(ids, eos), tokens@.push(eos));
        assert(separated(next, eos) =~= separated(ids, eos) + tokens@.push(eos));
    }
    if tokens.len() >= usize::MAX - writer.meta().n_tokens {
        return Err("the corpus encodes to more tokens than can be counted".to_owned());
    }
    writer.push_document(docs[i], tokens)
}

fn written(writer: ShardWriter) -> (r: (Vec<u8>, ShardMeta))
    requires
        writer.stored() == Seq::<u8>::empty(),
    ensures
        r.0@ == writer.stream(),
        r.1 == writer.counts(),
{
    let shard = writer.finish();
    assert(Seq::<u8>::empty() + shard.0@ =~= shard.0@);
    shard
}

/// The shard of documents whose encodings are at hand: its bytes and its counts.
///
/// It comes out exactly where the encodings are in order. Otherwise the error is
/// that of the first document at fault.
pub fn shard_of(docs: &Vec<&str>, encodings: &Vec<Vec<u32>>, vocab: usize, eos: u32) -> (r: Result<
    (Vec<u8>, ShardMeta),
    String,
>)
    requires
        docs@.len() == encodings@.len(),
        total_words(slices(docs@)) <= usize::MAX,
        total_bytes(slices(docs@)) <= usize::MAX,
    ensures
        r is Ok <==> in_order(rows(encodings@), eos),
        r is Ok ==> r->Ok_0.1.vocab_size == vocab && r->Ok_0.1.eos_id == eos && is_shard(
            r->Ok_0.0@,
            r->Ok_0.1,
            slices(docs@),
            rows(encodings@),
        ),
        r is Err ==> shard_fault(rows(encodings@), vocab, eos) == Some(r->Err_0@),
{
    let mut writer = new_writer(vocab, eos);
    let ghost all = slices(docs@);
    let ghost ids = rows(encodings@);
    let mut i: usize = 0;
    proof {
        assert(all.take(0) =~= Seq::<Seq<char>>::empty());
        assert(ids.take(0) =~= Seq::<Seq<u32>>::empty());
        faultless_in_order(ids, vocab, eos);
    }
    while i < docs.len()
        invariant
            i <= docs@.len(),
            docs@.len() == encodings@.len(),
            all == slices(docs@),
            ids == rows(encodings@),
            total_words(all) <= usize::MAX,
            total_bytes(all) <= usize::MAX,
            shard_fault(ids, vocab, eos) is None <==> in_order(ids, eos),
            in_hand(writer, all.take(i as int), ids.take(i as int), vocab, eos),
            shard_fault(ids.take(i as int), vocab, eos) is None,
        decreases docs@.len() - i,
    {
        let added = add_document(
            &mut writer,
            docs,
            i,
            encodings[i].as_slice(),
            Ghost(ids.take(i as int)),
        );
        proof {
            assert(ids[i as int] == encodings@[i as int]@);
            assert(ids.take(i as int).push(ids[i as int]) =~= ids.take(i + 1));
        }
        match added {
            Ok(()) => {},
            Err(e) => {
                proof {
                    fault_stands(ids, i + 1, vocab, eos);
                }
                return Err(e);
            },
        }
        i = i + 1;
    }
    proof {
        assert(all.take(all.len() as int) =~= all);
        assert(ids.take(ids.len() as int) =~= ids);
    }
    Ok(written(writer))
}

/// A fault of the first documents is that of all of them.
proof fn fault_stands(ids: Seq<Seq<u32>>, n: int, vocab: usize, eos: u32)
    requires
        0 <= n <= ids.len(),
        shard_fault(ids.take(n), vocab, eos) is Some,
    ensures
        shard_fault(ids, vocab, eos) == shard_fault(ids.take(n), vocab, eos),
    decreases ids.len(),
{
    if n == ids.len() {
        assert(ids.take(n) =~= ids);
    } else {
        assert(ids.drop_last().take(n) =~= ids.take(n));
        fault_stands(ids.drop_last(), n, vocab, eos);
    }
}

/// Tokenize a corpus into a shard: its bytes and its counts.
///
/// The encodings are the tokenizer's. Whatever they are, the outcome is that of
/// [`shard_of`] on them.
pub fn prepare_shard(text: &str, tokenizer: &Tokenizer, split_articles: bool) -> (r: Result<
    (Vec<u8>, ShardMeta),
    String,
>)
    requires
        all_encode(*tokenizer, corpus_documents(text@, split_articles)),
    ensures
        is_preparation(r, *tokenizer, corpus_documents(text@, split_articles)),
{
    let docs = documents_of(text, split_articles);
    let eos: u32 = match eos_id(tokenizer) {
        Ok(id) => id,
        Err(e) => {
            return Err(e);
        },
    };
    let vocab: usize = vocab_size(tokenizer);
    let mut writer = new_writer(vocab, eos);
    let chars: usize = text.unicode_len();
    let bytes: usize = text.as_bytes().len();
    let ghost all = slices(docs@);
    let ghost mut ids: Seq<Seq<u32>> = Seq::empty();
    let mut i: usize = 0;
    proof {
        word_count_bounded(text@);
        assert(all.take(0) =~= Seq::<Seq<char>>::empty());
    }
    while i < docs.len()
        invariant
            i <= docs@.len(),
            all == slices(docs@),
            all == corpus_documents(text@, split_articles),
            all_encode(*tokenizer, all),
            vocabulary(*tokenizer).dom().contains(EOS_TOKEN@),
            eos == vocabulary(*tokenizer)[EOS_TOKEN@],
            vocab == vocabulary_size(*tokenizer),
            total_words(all) <= chars,
            total_bytes(all) <= bytes,
            ids.len() == i,
            encodes_first(*tokenizer, all, ids),
            shard_fault(ids, vocab, eos) is None,
            in_hand(writer, all.take(i as int), ids, vocab, eos),
        decreases docs@.len() - i,
    {
        let doc: &str = docs[i];
        assert(all[i as int] == doc@);
        let tokens = match encode(tokenizer, doc) {
            Ok(tokens) => tokens,
            Err(e) => {
                let out: Result<(Vec<u8>, ShardMeta), String> = Err(e);
                assert(is_failure(out->Err_0@, *tokenizer, all, ids));
                return out;
            },
        };
        let added = add_document(&mut writer, &docs, i, tokens.as_slice(), Ghost(ids));
        proof {
            ids = ids.push(tokens@);
        }
        match added {
            Ok(()) => {},
            Err(e) => {
                let out: Result<(Vec<u8>, ShardMeta), String> = Err(e);
                assert(is_failure(out->Err_0@, *tokenizer, all, ids));
                return out;
            },
        }
        i = i + 1;
    }
    proof {
        assert(all.take(all.len() as int) =~= all);
        faultless_in_order(ids, vocab, eos);
    }
    let done: Result<(Vec<u8>, ShardMeta), String> = Ok(written(writer));
    assert(is_shard_of(done->Ok_0.0@, done->Ok_0.1, *tokenizer, all, ids));
    done
}

/// Tokenize a corpus, as [`prepare_shard`], where the tokenizer is known to
/// encode every text; `None` where it is not.
pub fn try_prepare_shard(text: &str, tokenizer: &Tokenizer, split_articles: bool) -> (r: Option<
    Result<(Vec<u8>, ShardMeta), String>,
>)
    ensures
        r is Some <==> plain_encoder(*tokenizer),
        r is Some ==> one_outcome(*tokenizer),
        r is Some ==> is_preparation(
            r->Some_0,
            *tokenizer,
            corpus_documents(text@, split_articles),
        ),
{
    if encodes_all(tokenizer) {
        Some(prepare_shard(text, tokenizer, split_articles))
    } else {
        None
    }
}

/// A shard comes out where every encoding that the tokenizer may give the
/// documents is in order and it refuses none of them.
pub proof fn sound_encodings_prepare(
    r: Result<(Vec<u8>, ShardMeta), String>,
    tokenizer: Tokenizer,
    docs: Seq<Seq<char>>,
)
    requires
        is_preparation(r, tokenizer, docs),
        vocabulary(tokenizer).dom().contains(EOS_TOKEN@),
        forall|i: int, e: Seq<char>|
            0 <= i < docs.len() ==> !#[trigger] may_refuse(tokenizer, docs[i], e),
        forall|ids: Seq<Seq<u32>>| #[trigger]
            encodes_first(tokenizer, docs, ids) ==> in_order(
                ids,
                vocabulary(tokenizer)[EOS_TOKEN@],
            ),
    ensures
        r is Ok,
{
    if r is Err {
        let ids = choose|ids: Seq<Seq<u32>>| #[trigger]
            is_failure(r->Err_0@, tokenizer, docs, ids);
        let vocab = vocabulary_size(tokenizer) as usize;
        faultless_in_order(ids, vocab, vocabulary(tokenizer)[EOS_TOKEN@]);
    }
}

proof fn first_encodings_agree(
    tokenizer: Tokenizer,
    docs: Seq<Seq<char>>,
    a: Seq<Seq<u32>>,
    b: Seq<Seq<u32>>,
)
    requires
        one_outcome(tokenizer),
        encodes_first(tokenizer, docs, a),
        encodes_first(tokenizer, docs, b),
        a.len() <= b.len(),
    ensures
        b.take(a.len() as int) == a,
{
    assert forall|i: int| 0 <= i < a.len() implies a[i] == b[i] by {
        assert(may_encode(tokenizer, docs[i], a[i]));
        assert(may_encode(tokenizer, docs[i], b[i]));
    }
    assert(b.take(a.len() as int) =~= a);
}

proof fn failures_agree(
    d: Seq<char>,
    e: Seq<char>,
    tokenizer: Tokenizer,
    docs: Seq<Seq<char>>,
    a: Seq<Seq<u32>>,
    b: Seq<Seq<u32>>,
)
    requires
        one_outcome(tokenizer),
        is_failure(d, tokenizer, docs, a),
        is_failure(e, tokenizer, docs, b),
        a.len() <= b.len(),
    ensures
        d == e,
{
    let vocab = vocabulary_size(tokenizer) as usize;
    let eos = vocabulary(tokenizer)[EOS_TOKEN@];
    let n = a.len() as int;
    first_encodings_agree(tokenizer, docs, a, b);
    if shard_fault(a, vocab, eos) is Some {
        fault_stands(b, n, vocab, eos);
    } else if b.len() > n {
        assert(may_encode(tokenizer, docs[n], b[n]));
    } else {
        assert(b.take(n) =~= b);
    }
}

/// Preparation is deterministic where a text has one outcome: two runs on the
/// same documents give the same bytes and counts, or the same error.
pub proof fn preparations_agree(
    a: Result<(Vec<u8>, ShardMeta), String>,
    b: Result<(Vec<u8>, ShardMeta), String>,
    tokenizer: Tokenizer,
    docs: Seq<Seq<char>>,
)
    requires
        one_outcome(tokenizer),
        is_preparation(a, tokenizer, docs),
        is_preparation(b, tokenizer, docs),
    ensures
        match (a, b) {
            (Ok(x), Ok(y)) => x.0@ == y.0@ && x.1 == y.1,
            (Err(x), Err(y)) => x@ == y@,
            _ => false,
        },
{
    if vocabulary(tokenizer).dom().contains(EOS_TOKEN@) {
        if a is Ok && b is Ok {
            let x = a->Ok_0;
            let y = b->Ok_0;
            let ids = choose|ids: Seq<Seq<u32>>| #[trigger]
                is_shard_of(x.0@, x.1, tokenizer, docs, ids);
            let other = choose|ids: Seq<Seq<u32>>| #[trigger]
                is_shard_of(y.0@, y.1, tokenizer, docs, ids);
            first_encodings_agree(tokenizer, docs, ids, other);
            assert(other.take(ids.len() as int) =~= other);
        } else if a is Err && b is Err {
            let ids = choose|ids: Seq<Seq<u32>>| #[trigger]
                is_failure(a->Err_0@, tokenizer, docs, ids);
            let other = choose|ids: Seq<Seq<u32>>| #[trigger]
                is_failure(b->Err_0@, tokenizer, docs, ids);
            if ids.len() <= other.len() {
                failures_agree(a->Err_0@, b->Err_0@, tokenizer, docs, ids, other);
            } else {
                failures_agree(b->Err_0@, a->Err_0@, tokenizer, docs, other, ids);
            }
        } else if a is Ok {
            no_failure_beside(a->Ok_0, b->Err_0@, tokenizer, docs);
        } else {
            no_failure_beside(b->Ok_0, a->Err_0@, tokenizer, docs);
        }
    }
}

/// Documents that can be prepared do not fail.
proof fn no_failure_beside(
    shard: (Vec<u8>, ShardMeta),
    e: Seq<char>,
    tokenizer: Tokenizer,
    docs: Seq<Seq<char>>,
)
    requires
        one_outcome(tokenizer),
        shard.1.eos_id == vocabulary(tokenizer)[EOS_TOKEN@],
        exists|ids: Seq<Seq<u32>>| #[trigger]
            is_shard_of(shard.0@, shard.1, tokenizer, docs, ids),
    ensures
        !exists|ids: Seq<Seq<u32>>| #[trigger] is_failure(e, tokenizer, docs, ids),
{
    let vocab = vocabulary_size(tokenizer) as usize;
    let eos = vocabulary(tokenizer)[EOS_TOKEN@];
    let whole = choose|ids: Seq<Seq<u32>>| #[trigger]
        is_shard_of(shard.0@, shard.1, tokenizer, docs, ids);
    faultless_in_order(whole, vocab, eos);
    assert forall|ids: Seq<Seq<u32>>| !#[trigger] is_failure(e, tokenizer, docs, ids) by {
        if is_failure(e, tokenizer, docs, ids) {
            let n = ids.len() as int;
            first_encodings_agree(tokenizer, docs, ids, whole);
            if shard_fault(ids, vocab, eos) is Some {
                fault_stands(whole, n, vocab, eos);
            } else {
                assert(may_encode(tokenizer, docs[n], whole[n]));
            }
        }
    }
}

/// A prepared shard reads back as the encodings of its documents, in order, each
/// followed by the separator.
pub proof fn prepared_shard_reads_back(
    bytes: Seq<u8>,
    meta: ShardMeta,
    tokenizer: Tokenizer,
    docs: Seq<Seq<char>>,
    ids: Seq<Seq<u32>>,
)
    requires
        is_shard_of(bytes, meta, tokenizer, docs, ids),
    ensures
        decoded(bytes) == separated(ids, meta.eos_id),
        meta.n_tokens == separated(ids, meta.eos_id).len(),
{
    if ids.len() > 0 {
        documents_survive_a_shard(ids, meta.eos_id);
    } else {
        assert(decoded(bytes) =~= separated(ids, meta.eos_id));
    }
}

/// The counts of a prepared shard describe the source text: as many words, and
/// no more bytes. Splitting sheds whitespace and nothing else.
pub proof fn prepared_counts_describe_the_text(
    bytes: Seq<u8>,
    meta: ShardMeta,
    tokenizer: Tokenizer,
    text: Seq<char>,
    split_articles: bool,
    ids: Seq<Seq<u32>>,
)
    requires
        is_shard_of(bytes, meta, tokenizer, corpus_documents(text, split_articles), ids),
    ensures
        meta.n_words == word_count(text),
        meta.n_bytes <= encode_utf8(text).len(),
        !split_articles ==> meta.n_bytes == encode_utf8(text).len(),
{
    if split_articles {
        splitting_preserves_words(text);
        documents_bound_bytes(text);
    } else {
        reveal_with_fuel(total_words, 2);
        reveal_with_fuel(total_bytes, 2);
        assert(seq![text].drop_first() =~= Seq::<Seq<char>>::empty());
    }
}

} // verus!
