//! The tokenizer: byte-level BPE, trained on the target corpus.
//!
//! Byte-level, so that every byte sequence has an encoding and no text maps to
//! an unknown token; without a normalizer, so that the byte length of a text is
//! that of what was encoded.

use vstd::prelude::*;

use vstd::string::*;

use tokenizers::{
    DecoderWrapper, ModelWrapper, PostProcessorWrapper, PreTokenizerWrapper, Tokenizer,
};

use crate::chars::{absent, replace, replaced, replaced_is_absent};
use crate::text::{around_two, decimal, ending_in};

verus! {

/// The separator between documents.
pub const EOS_TOKEN: &'static str = "<|endoftext|>";

/// The number of token ids that fit `u16`, which shards store.
pub const MAX_VOCAB_SIZE: usize = 65536;

/// `tokenizers::Tokenizer`, which Verus does not look into.
#[verifier::external_type_specification]
#[verifier::external_body]
pub struct ExTokenizer(tokenizers::Tokenizer);

/// The tokens that a tokenizer knows by name, each with its id.
pub uninterp spec fn vocabulary(t: Tokenizer) -> Map<Seq<char>, u32>;

/// The number of tokens that a tokenizer has, added ones included.
pub uninterp spec fn vocabulary_size(t: Tokenizer) -> nat;

/// Whether encoding a text by the tokenizer's tables may end this way: in ids, or
/// in an error with this text. A BPE model with dropout has several encodings of
/// a text and picks one at random.
pub uninterp spec fn may_end(
    t: Tokenizer,
    text: Seq<char>,
    outcome: Result<Seq<u32>, Seq<char>>,
) -> bool;

/// Whether a tokenizer encodes this text by its tables, to ids or to an error.
/// Truncation and some added tokens make it panic. So may a thread that
/// remembers words from before the tokenizer's last training, or it hands out
/// what they were encoded as then.
pub uninterp spec fn encode_returns(t: Tokenizer, text: Seq<char>) -> bool;

/// Whether the parts of a tokenizer that encoding runs through are plain ones,
/// as [`plain_parts`] says.
pub uninterp spec fn plain_encoder(t: Tokenizer) -> bool;

/// The text that a tokenizer decodes ids to, without the special tokens, or
/// its error.
pub uninterp spec fn decoding(t: Tokenizer, ids: Seq<u32>) -> Result<Seq<char>, Seq<char>>;

/// Whether a tokenizer decodes these ids at all, to a text or to an error. Some
/// decoders panic on a short token or on none.
pub uninterp spec fn decode_returns(t: Tokenizer, ids: Seq<u32>) -> bool;

/// Whether a tokenizer has no decoder, or the byte-level one.
pub uninterp spec fn plain_decoder(t: Tokenizer) -> bool;

/// `Tokenizer::token_to_id` looks a token up in the vocabulary: first among the
/// added tokens, then in the model's own table. Nothing else enters into it.
#[verifier::external_body]
fn token_to_id(tokenizer: &Tokenizer, token: &str) -> (r: Option<u32>)
    ensures
        r == if vocabulary(*tokenizer).dom().contains(token@) {
            Some(vocabulary(*tokenizer)[token@])
        } else {
            None
        },
{
    tokenizer.token_to_id(token)
}

/// `Tokenizer::get_vocab_size`, with the added tokens: the size of the model's
/// vocabulary and the added tokens that are not in it.
#[verifier::external_body]
pub(crate) fn vocab_size(tokenizer: &Tokenizer) -> (r: usize)
    ensures
        r == vocabulary_size(*tokenizer),
{
    tokenizer.get_vocab_size(true)
}

/// Whether a tokenizer may encode a text as these ids.
pub open spec fn may_encode(t: Tokenizer, text: Seq<char>, ids: Seq<u32>) -> bool {
    may_end(t, text, Ok(ids))
}

/// Whether a tokenizer may fail to encode a text with this error.
pub open spec fn may_refuse(t: Tokenizer, text: Seq<char>, e: Seq<char>) -> bool {
    may_end(t, text, Err(e))
}

/// Whether an outcome is one that encoding a text may have, an error with what
/// failed before it.
pub open spec fn is_encoding(
    r: Result<Vec<u32>, String>,
    t: Tokenizer,
    text: Seq<char>,
) -> bool {
    match r {
        Ok(ids) => may_encode(t, text, ids@),
        Err(said) => exists|e: Seq<char>|
            #[trigger] may_refuse(t, text, e) && said@ == "encoding failed: "@ + e,
    }
}

/// The parts of a tokenizer that encoding runs through.
#[derive(Debug, Clone, PartialEq, Eq)]
pub struct EncoderParts {
    pub truncates: bool,
    pub pads: bool,
    pub normalizes: bool,
    /// Of a pre-tokenizer, whether it is the byte-level one.
    pub pre_tokenizer: Option<bool>,
    /// Of a post-processor, whether it is the byte-level one.
    pub post_processor: Option<bool>,
    /// Of a BPE model, whether it may drop merges at random; `None` of another.
    pub bpe_drops: Option<bool>,
    /// Of each added token, whether it takes in the whitespace before it, the
    /// whitespace after it, and whether it is matched in normalized text.
    pub added: Vec<(bool, bool, bool)>,
}

/// Whether an added token is matched as it stands, and nothing around it.
pub open spec fn plain_token(flags: (bool, bool, bool)) -> bool {
    !flags.0 && !flags.1 && !flags.2
}

/// Whether the parts are those of a BPE model on bytes or on characters, with
/// nothing that cuts, pads or rewrites.
pub open spec fn plain_parts(parts: EncoderParts) -> bool {
    &&& !parts.truncates
    &&& !parts.pads
    &&& !parts.normalizes
    &&& parts.pre_tokenizer != Some(false)
    &&& parts.post_processor != Some(false)
    &&& parts.bpe_drops == Some(false)
    &&& forall|i: int| 0 <= i < parts.added@.len() ==> plain_token(#[trigger] parts.added@[i])
}

/// Whether a tokenizer has one outcome for each text: two encodings agree.
pub open spec fn one_outcome(t: Tokenizer) -> bool {
    forall|
        text: Seq<char>,
        a: Result<Seq<u32>, Seq<char>>,
        b: Result<Seq<u32>, Seq<char>>,
    | #[trigger] may_end(t, text, a) && #[trigger] may_end(t, text, b) ==> a == b
}

/// `Tokenizer::encode` without special tokens: the ids, or the text of the
/// error. A BPE model with dropout merges at random, so two calls on one text
/// can differ: the outcome is one of those that the tokenizer may give the
/// text, and nothing is said of which.
#[verifier::external_body]
fn encoded_ids(tokenizer: &Tokenizer, text: &str) -> (r: Result<Vec<u32>, String>)
    requires
        encode_returns(*tokenizer, text@),
    ensures
        match r {
            Ok(ids) => may_end(*tokenizer, text@, Ok(ids@)),
            Err(e) => may_end(*tokenizer, text@, Err(e@)),
        },
{
    match tokenizer.encode(text, false) {
        Ok(encoding) => Ok(encoding.get_ids().to_vec()),
        Err(e) => Err(e.to_string()),
    }
}

/// The parts that `Tokenizer::encode` runs through, by the tokenizer's getters.
/// Where they are plain, `encode` returns on every text: it cuts the text at the
/// added tokens, which then lie side by side, splits it with one fixed pattern,
/// looks characters up, merges by table, and returns an error where a lookup
/// fails. Nothing in that is left to chance, so the text has one outcome. What a
/// thread remembers of a BPE model outlives a new training of it, so
/// `BPE::clear_cache` has it forgotten; from then on words are remembered as the
/// tables have them.
#[verifier::external_body]
fn encoder_parts(tokenizer: &Tokenizer) -> (r: EncoderParts)
    ensures
        plain_parts(r) == plain_encoder(*tokenizer),
        plain_parts(r) ==> forall|text: Seq<char>| #[trigger] encode_returns(*tokenizer, text),
        plain_parts(r) ==> one_outcome(*tokenizer),
{
    let bpe = match tokenizer.get_model() {
        ModelWrapper::BPE(bpe) => Some(bpe),
        _ => None,
    };
    if let Some(m) = bpe { m.clear_cache(); }
    let added = tokenizer.get_added_tokens_decoder().into_values();
    EncoderParts {
        truncates: tokenizer.get_truncation().is_some(),
        pads: tokenizer.get_padding().is_some(),
        normalizes: tokenizer.get_normalizer().is_some(),
        pre_tokenizer: tokenizer.get_pre_tokenizer().map(|p| matches!(p, PreTokenizerWrapper::ByteLevel(_))),
        post_processor: tokenizer.get_post_processor().map(|p| matches!(p, PostProcessorWrapper::ByteLevel(_))),
        bpe_drops: bpe.map(|m| m.dropout.is_some()),
        added: added.map(|t| (t.lstrip, t.rstrip, t.normalized)).collect(),
    }
}

/// `Tokenizer::get_decoder`: whether there is none, or the byte-level one. Then
/// `Tokenizer::decode` returns on every list of ids: it joins the tokens, or
/// maps their characters to bytes and reads those as text.
#[verifier::external_body]
fn has_plain_decoder(tokenizer: &Tokenizer) -> (r: bool)
    ensures
        r == plain_decoder(*tokenizer),
        r ==> forall|ids: Seq<u32>| #[trigger] decode_returns(*tokenizer, ids),
{
    match tokenizer.get_decoder() {
        None => true,
        Some(decoder) => matches!(decoder, DecoderWrapper::ByteLevel(_)),
    }
}

/// `Tokenizer::decode` without special tokens: the text, or the text of the
/// error. It looks each id up and runs the decoder over the tokens, so it
/// depends on the tokenizer and the ids alone.
#[verifier::external_body]
fn decoded_text(tokenizer: &Tokenizer, ids: &[u32]) -> (r: Result<String, String>)
    requires
        decode_returns(*tokenizer, ids@),
    ensures
        match r {
            Ok(s) => decoding(*tokenizer, ids@) == Ok::<Seq<char>, Seq<char>>(s@),
            Err(e) => decoding(*tokenizer, ids@) == Err::<Seq<char>, Seq<char>>(e@),
        },
{
    match tokenizer.decode(ids, true) {
        Ok(text) => Ok(text),
        Err(e) => Err(e.to_string()),
    }
}

/// Whether a tokenizer of `vocab_size` tokens can be trained on `n_files`
/// files; the error says why not.
pub fn check_training(vocab_size: usize, n_files: usize) -> (r: Result<(), String>)
    ensures
        r is Ok <==> vocab_size <= MAX_VOCAB_SIZE && n_files > 0,
        vocab_size > MAX_VOCAB_SIZE ==> r is Err && r->Err_0@ == "vocab_size "@ + decimal(
            vocab_size as nat,
        ) + " exceeds "@ + decimal(MAX_VOCAB_SIZE as nat)
            + ": shards store u16 token ids, so a larger vocab would silently truncate"@,
        vocab_size <= MAX_VOCAB_SIZE && n_files == 0 ==> r is Err && r->Err_0@
            == "no input files to train the tokenizer on"@,
{
    if vocab_size > MAX_VOCAB_SIZE {
        return Err(
            around_two(
                "vocab_size ",
                vocab_size,
                " exceeds ",
                MAX_VOCAB_SIZE,
                ": shards store u16 token ids, so a larger vocab would silently truncate",
            ),
        );
    }
    if n_files == 0 {
        return Err("no input files to train the tokenizer on".to_owned());
    }
    Ok(())
}

/// The id of the separator, which callers need in order to separate documents.
pub fn eos_id(tokenizer: &Tokenizer) -> (r: Result<u32, String>)
    ensures
        r is Ok <==> vocabulary(*tokenizer).dom().contains(EOS_TOKEN@),
        r is Ok ==> r->Ok_0 == vocabulary(*tokenizer)[EOS_TOKEN@],
        r is Err ==> r->Err_0@ == "tokenizer has no "@ + EOS_TOKEN@ + " token"@,
{
    separator(token_to_id(tokenizer, EOS_TOKEN))
}

/// The id of the separator, from what the vocabulary says of it.
pub fn separator(found: Option<u32>) -> (r: Result<u32, String>)
    ensures
        r is Ok <==> found is Some,
        r is Ok ==> r->Ok_0 == found->Some_0,
        r is Err ==> r->Err_0@ == "tokenizer has no "@ + EOS_TOKEN@ + " token"@,
{
    match found {
        Some(id) => Ok(id),
        None => {
            let mut s = "tokenizer has no ".to_owned();
            s.append(EOS_TOKEN);
            s.append(" token");
            Err(s)
        },
    }
}

/// An outcome whose error says what failed.
pub fn explained<T>(what: &str, outcome: Result<T, String>) -> (r: Result<T, String>)
    ensures
        outcome is Ok ==> r == outcome,
        outcome is Err ==> r is Err && r->Err_0@ == what@ + outcome->Err_0@,
{
    match outcome {
        Ok(value) => Ok(value),
        Err(e) => Err(ending_in(what, &e)),
    }
}

/// A text with a space in place of every document separator.
pub open spec fn cleaned(text: Seq<char>) -> Seq<char> {
    replaced(text, EOS_TOKEN@, seq![' '])
}

/// The text without document separators, which a reader should never meet.
pub fn clean(text: &str) -> (r: String)
    ensures
        r@ == cleaned(text@),
{
    proof {
        reveal_strlit("<|endoftext|>");
        reveal_strlit(" ");
        assert(" "@ =~= seq![' ']);
    }
    replace(text, EOS_TOKEN, " ")
}

/// No separator is left in a cleaned text.
pub proof fn cleaning_hides_the_separator(text: Seq<char>)
    ensures
        absent(cleaned(text), EOS_TOKEN@),
{
    reveal_strlit("<|endoftext|>");
    replaced_is_absent(text, EOS_TOKEN@, ' ');
}

/// Encode without special tokens; separators are inserted when a shard is
/// written.
pub fn encode(tokenizer: &Tokenizer, text: &str) -> (r: Result<Vec<u32>, String>)
    requires
        encode_returns(*tokenizer, text@),
    ensures
        is_encoding(r, *tokenizer, text@),
{
    let outcome = encoded_ids(tokenizer, text);
    let ghost seen = outcome;
    let r = explained("encoding failed: ", outcome);
    proof {
        if seen is Err {
            assert(may_refuse(*tokenizer, text@, seen->Err_0@));
        }
    }
    r
}

/// Whether the parts are plain, as [`plain_parts`] says.
pub fn is_plain(parts: &EncoderParts) -> (r: bool)
    ensures
        r == plain_parts(*parts),
{
    if parts.truncates || parts.pads || parts.normalizes {
        return false;
    }
    match (parts.pre_tokenizer, parts.post_processor, parts.bpe_drops) {
        (Some(false), _, _) => {
            return false;
        },
        (_, Some(false), _) => {
            return false;
        },
        (_, _, Some(false)) => {},
        _ => {
            return false;
        },
    }
    let mut i: usize = 0;
    while i < parts.added.len()
        invariant
            i <= parts.added@.len(),
            forall|j: int| 0 <= j < i ==> plain_token(#[trigger] parts.added@[j]),
        decreases parts.added@.len() - i,
    {
        let flags = parts.added[i];
        if flags.0 || flags.1 || flags.2 {
            assert(!plain_token(parts.added@[i as int]));
            return false;
        }
        i = i + 1;
    }
    true
}

/// Whether a tokenizer is known to encode every text, and always in one way, as
/// the byte-level BPE ones are.
pub fn encodes_all(tokenizer: &Tokenizer) -> (r: bool)
    ensures
        r == plain_encoder(*tokenizer),
        r ==> forall|text: Seq<char>| #[trigger] encode_returns(*tokenizer, text),
        r ==> one_outcome(*tokenizer),
{
    is_plain(&encoder_parts(tokenizer))
}

/// Encode, as [`encode`], where the tokenizer is known to encode every text;
/// `None` where it is not.
pub fn try_encode(tokenizer: &Tokenizer, text: &str) -> (r: Option<Result<Vec<u32>, String>>)
    ensures
        r is Some <==> plain_encoder(*tokenizer),
        r is Some ==> encode_returns(*tokenizer, text@) && is_encoding(
            r->Some_0,
            *tokenizer,
            text@,
        ),
        r is Some ==> one_outcome(*tokenizer),
{
    if encodes_all(tokenizer) {
        Some(encode(tokenizer, text))
    } else {
        None
    }
}

/// Two outcomes with the same value: equal ids, or errors with equal texts.
pub open spec fn same_ids(a: Result<Vec<u32>, String>, b: Result<Vec<u32>, String>) -> bool {
    match (a, b) {
        (Ok(x), Ok(y)) => x@ == y@,
        (Err(x), Err(y)) => x@ == y@,
        _ => false,
    }
}

/// Encoding is deterministic where a text has one outcome.
pub proof fn encodings_agree(
    t: Tokenizer,
    text: Seq<char>,
    a: Result<Vec<u32>, String>,
    b: Result<Vec<u32>, String>,
)
    requires
        one_outcome(t),
        is_encoding(a, t, text),
        is_encoding(b, t, text),
    ensures
        same_ids(a, b),
{
    if a is Ok {
        assert(may_end(t, text, Ok(a->Ok_0@)));
    }
    if b is Ok {
        assert(may_end(t, text, Ok(b->Ok_0@)));
    }
}

/// Ids back to text, dropping the separator and other special tokens.
pub fn decode(tokenizer: &Tokenizer, ids: &[u32]) -> (r: Result<String, String>)
    requires
        decode_returns(*tokenizer, ids@),
    ensures
        match decoding(*tokenizer, ids@) {
            Ok(text) => r is Ok && r->Ok_0@ == text,
            Err(e) => r is Err && r->Err_0@ == "decoding failed: "@ + e,
        },
{
    explained("decoding failed: ", decoded_text(tokenizer, ids))
}

/// Whether a tokenizer is known to decode every list of ids, as the byte-level
/// ones are.
pub fn decodes_all(tokenizer: &Tokenizer) -> (r: bool)
    ensures
        r == plain_decoder(*tokenizer),
        r ==> forall|ids: Seq<u32>| #[trigger] decode_returns(*tokenizer, ids),
{
    has_plain_decoder(tokenizer)
}

/// Ids back to text, as [`decode`], where the tokenizer is known to decode every
/// list of ids; `None` where it is not.
pub fn try_decode(tokenizer: &Tokenizer, ids: &[u32]) -> (r: Option<Result<String, String>>)
    ensures
        r is Some <==> plain_decoder(*tokenizer),
        r is Some ==> decode_returns(*tokenizer, ids@) && match decoding(*tokenizer, ids@) {
            Ok(text) => r->Some_0 is Ok && r->Some_0->Ok_0@ == text,
            Err(e) => r->Some_0 is Err && r->Some_0->Err_0@ == "decoding failed: "@ + e,
        },
{
    if decodes_all(tokenizer) {
        Some(decode(tokenizer, ids))
    } else {
        None
    }
}

} // verus!
