//! A tokenized corpus: a flat stream of `u16` tokens and its counts.
//!
//! The counts carry `n_words` and `n_bytes` alongside `n_tokens`: word-level
//! perplexity and bits-per-byte divide by properties of the text, which cannot
//! be recovered from the token stream, so they are counted while the text is
//! still in hand. Tokens are written little-endian, whatever the host.

use vstd::prelude::*;

use vstd::string::*;
use vstd::utf8::*;

use crate::text::{append_decimal, around_one, decimal};
pub use crate::words::count_words;
use crate::words::word_count;

verus! {

/// Counts describing one shard.
#[derive(Debug, Clone, Copy, PartialEq, Eq, Structural)]
pub struct ShardMeta {
    /// Number of `u16` tokens in the stream.
    pub n_tokens: usize,
    /// Whitespace-delimited words in the source text, separators excluded. The
    /// denominator of word-level perplexity.
    pub n_words: usize,
    /// UTF-8 bytes of the source text. The denominator of bits-per-byte.
    pub n_bytes: usize,
    /// The vocabulary that the tokens belong to.
    pub vocab_size: usize,
    /// The token that separates documents.
    pub eos_id: u32,
}

/// The tokens of a byte stream: two bytes each, the low one first.
pub open spec fn decoded(bytes: Seq<u8>) -> Seq<u32> {
    Seq::new(
        bytes.len() / 2,
        |i: int| (bytes[2 * i] as nat + 256 * bytes[2 * i + 1] as nat) as u32,
    )
}

/// The bytes of a token stream: two per token, the low one first.
pub open spec fn encoded(tokens: Seq<u32>) -> Seq<u8> {
    Seq::new(
        2 * tokens.len(),
        |i: int|
            if i % 2 == 0 {
                (tokens[i / 2] as nat % 256) as u8
            } else {
                (tokens[i / 2] as nat / 256) as u8
            },
    )
}

/// Whether every token fits `u16`.
pub open spec fn all_fit(tokens: Seq<u32>) -> bool {
    forall|i: int| 0 <= i < tokens.len() ==> #[trigger] tokens[i] <= 0xffff
}

/// The number of leading tokens that fit `u16`.
pub open spec fn fitting(tokens: Seq<u32>) -> nat
    decreases tokens.len(),
{
    if tokens.len() == 0 || tokens[0] > 0xffff {
        0
    } else {
        1 + fitting(tokens.drop_first())
    }
}

/// What is reported of a token that does not fit `u16`.
pub open spec fn misfit(token: u32, vocab_size: usize) -> Seq<char> {
    "token id "@ + decimal(token as nat) + " does not fit u16; vocab_size is "@ + decimal(
        vocab_size as nat,
    )
}

proof fn fitting_is(tokens: Seq<u32>, n: int)
    requires
        0 <= n <= tokens.len(),
        forall|i: int| 0 <= i < n ==> #[trigger] tokens[i] <= 0xffff,
        n == tokens.len() || tokens[n] > 0xffff,
    ensures
        fitting(tokens) == n,
    decreases tokens.len(),
{
    if n > 0 {
        let rest = tokens.drop_first();
        assert(tokens[0] <= 0xffff);
        assert forall|i: int| 0 <= i < n - 1 implies #[trigger] rest[i] <= 0xffff by {
            assert(tokens[i + 1] <= 0xffff);
        }
        fitting_is(rest, n - 1);
    }
}

/// The tokens counted by [`fitting`] fit; what follows them does not.
pub proof fn fitting_stops(tokens: Seq<u32>)
    ensures
        fitting(tokens) <= tokens.len(),
        fitting(tokens) < tokens.len() ==> tokens[fitting(tokens) as int] > 0xffff,
        fitting(tokens) == tokens.len() <==> all_fit(tokens),
    decreases tokens.len(),
{
    if tokens.len() > 0 {
        let rest = tokens.drop_first();
        fitting_stops(rest);
        if tokens[0] <= 0xffff {
            if all_fit(rest) {
                assert forall|i: int| 0 <= i < tokens.len() implies #[trigger] tokens[i]
                    <= 0xffff by {
                    if i > 0 {
                        assert(rest[i - 1] <= 0xffff);
                    }
                }
            } else {
                assert(!all_fit(tokens)) by {
                    let n = fitting(rest) as int;
                    assert(tokens[n + 1] == rest[n]);
                }
            }
        }
    }
}

/// Streams tokens while tallying the counts.
///
/// The bytes that the stream has grown by can be taken out at any time, to be
/// stored.
pub struct ShardWriter {
    out: Vec<u8>,
    taken: Ghost<Seq<u8>>,
    meta: ShardMeta,
}

impl ShardWriter {
    /// Every byte of the stream, taken out or not.
    pub closed spec fn stream(&self) -> Seq<u8> {
        self.taken@ + self.out@
    }

    /// The bytes that were taken out.
    pub closed spec fn stored(&self) -> Seq<u8> {
        self.taken@
    }

    /// The counts so far.
    pub closed spec fn counts(&self) -> ShardMeta {
        self.meta
    }

    /// Whether the counts describe the stream: two bytes for each token.
    pub open spec fn in_step(&self) -> bool {
        self.stream().len() == 2 * self.counts().n_tokens
    }

    /// An empty stream.
    pub fn create(vocab_size: usize, eos_id: u32) -> (w: Self)
        ensures
            w.stream() == Seq::<u8>::empty(),
            w.stored() == Seq::<u8>::empty(),
            w.counts() == (ShardMeta {
                n_tokens: 0,
                n_words: 0,
                n_bytes: 0,
                vocab_size,
                eos_id,
            }),
            w.in_step(),
    {
        let w = ShardWriter {
            out: Vec::new(),
            taken: Ghost(Seq::empty()),
            meta: ShardMeta { n_tokens: 0, n_words: 0, n_bytes: 0, vocab_size, eos_id },
        };
        assert(w.stream() =~= Seq::<u8>::empty());
        w
    }

    /// Append one document: its tokens, then a separator.
    ///
    /// `text` is passed alongside `tokens` because the byte and word counts
    /// describe the original text. The separator counts toward neither.
    ///
    /// A token that does not fit `u16` is an error. The tokens before it are in
    /// the stream by then and are not counted, so the shard is not usable.
    pub fn push_document(&mut self, text: &str, tokens: &[u32]) -> (r: Result<(), String>)
        requires
            old(self).counts().n_tokens + tokens@.len() + 1 <= usize::MAX,
            old(self).counts().n_words + word_count(text@) <= usize::MAX,
            old(self).counts().n_bytes + encode_utf8(text@).len() <= usize::MAX,
        ensures
            final(self).stored() == old(self).stored(),
            r is Ok <==> all_fit(tokens@) && old(self).counts().eos_id <= 0xffff,
            r is Ok ==> final(self).stream() == old(self).stream() + encoded(
                tokens@.push(old(self).counts().eos_id),
            ),
            r is Ok ==> final(self).counts() == (ShardMeta {
                n_tokens: (old(self).counts().n_tokens + tokens@.len() + 1) as usize,
                n_words: (old(self).counts().n_words + word_count(text@)) as usize,
                n_bytes: (old(self).counts().n_bytes + encode_utf8(text@).len()) as usize,
                ..old(self).counts()
            }),
            r is Ok && old(self).in_step() ==> final(self).in_step(),
            !all_fit(tokens@) ==> {
                let n = fitting(tokens@) as int;
                &&& n < tokens@.len()
                &&& r is Err
                &&& r->Err_0@ == misfit(tokens@[n], old(self).counts().vocab_size)
                &&& final(self).stream() == old(self).stream() + encoded(tokens@.take(n))
                &&& final(self).counts() == old(self).counts()
            },
            all_fit(tokens@) && old(self).counts().eos_id > 0xffff ==> {
                &&& r is Err
                &&& r->Err_0@ == misfit(
                    old(self).counts().eos_id,
                    old(self).counts().vocab_size,
                )
                &&& final(self).stream() == old(self).stream() + encoded(tokens@)
                &&& final(self).counts() == (ShardMeta {
                    n_tokens: (old(self).counts().n_tokens + tokens@.len()) as usize,
                    ..old(self).counts()
                })
            },
    {
        proof {
            if all_fit(tokens@) {
                fitting_is(tokens@, tokens@.len() as int);
                assert(tokens@.take(tokens@.len() as int) =~= tokens@);
            }
        }
        match self.write_tokens(tokens) {
            Ok(()) => {},
            Err(e) => {
                return Err(e);
            },
        }
        let eos: [u32; 1] = [self.meta.eos_id];
        let ghost sep = eos@;
        match self.write_tokens(eos.as_slice()) {
            Ok(()) => {},
            Err(e) => {
                proof {
                    assert(sep[0] > 0xffff);
                    assert(sep.take(0) =~= Seq::<u32>::empty());
                    assert(encoded(sep.take(0)) =~= Seq::<u8>::empty());
                    assert(self.stream() =~= old(self).stream() + encoded(tokens@));
                }
                return Err(e);
            },
        }
        proof {
            assert(sep[0] <= 0xffff);
            assert(tokens@.push(sep[0]) =~= tokens@ + sep);
            encoded_concat(tokens@, sep);
            assert(self.stream() =~= old(self).stream() + encoded(
                tokens@.push(old(self).counts().eos_id),
            ));
        }
        let bytes: usize = text.as_bytes().len();
        self.meta.n_words = self.meta.n_words + count_words(text);
        self.meta.n_bytes = self.meta.n_bytes + bytes;
        Ok(())
    }

    fn write_tokens(&mut self, tokens: &[u32]) -> (r: Result<(), String>)
        requires
            old(self).counts().n_tokens + tokens@.len() <= usize::MAX,
        ensures
            final(self).stored() == old(self).stored(),
            final(self).stream() == old(self).stream() + encoded(
                tokens@.take(fitting(tokens@) as int),
            ),
            r is Ok <==> all_fit(tokens@),
            r is Ok ==> fitting(tokens@) == tokens@.len() && final(self).counts() == (ShardMeta {
                n_tokens: (old(self).counts().n_tokens + tokens@.len()) as usize,
                ..old(self).counts()
            }),
            r is Err ==> fitting(tokens@) < tokens@.len() && r->Err_0@ == misfit(
                tokens@[fitting(tokens@) as int],
                old(self).counts().vocab_size,
            ) && final(self).counts() == old(self).counts(),
    {
        let mut i: usize = 0;
        proof {
            assert(encoded(tokens@.take(0)) =~= Seq::<u8>::empty());
            assert(self.stream() =~= old(self).stream() + encoded(tokens@.take(0)));
        }
        while i < tokens.len()
            invariant
                i <= tokens@.len(),
                forall|j: int| 0 <= j < i ==> #[trigger] tokens@[j] <= 0xffff,
                self.stored() == old(self).stored(),
                self.counts() == old(self).counts(),
                self.stream() == old(self).stream() + encoded(tokens@.take(i as int)),
            decreases tokens@.len() - i,
        {
            let t: u32 = tokens[i];
            if t > 0xffff {
                proof {
                    fitting_is(tokens@, i as int);
                    assert(!all_fit(tokens@));
                }
                let vocab: usize = self.meta.vocab_size;
                let mut s = around_one(
                    "token id ",
                    t as usize,
                    " does not fit u16; vocab_size is ",
                );
                append_decimal(&mut s, vocab);
                return Err(s);
            }
            let ghost before = self.stream();
            self.out.push((t % 256) as u8);
            self.out.push((t / 256) as u8);
            proof {
                let next = tokens@.take(i + 1);
                assert(next =~= tokens@.take(i as int) + seq![t]);
                encoded_concat(tokens@.take(i as int), seq![t]);
                assert(self.stream() =~= before + encoded(seq![t]));
                assert(self.stream() =~= old(self).stream() + encoded(next));
            }
            i = i + 1;
        }
        proof {
            fitting_is(tokens@, i as int);
            assert(tokens@.take(i as int) =~= tokens@);
        }
        self.meta.n_tokens = self.meta.n_tokens + tokens.len();
        Ok(())
    }

    /// The counts so far.
    pub fn meta(&self) -> (r: &ShardMeta)
        ensures
            *r == self.counts(),
    {
        &self.meta
    }

    /// Takes out the bytes that were not taken out yet.
    pub fn take_bytes(&mut self) -> (r: Vec<u8>)
        ensures
            final(self).stream() == old(self).stream(),
            final(self).stored() == old(self).stream(),
            final(self).counts() == old(self).counts(),
            old(self).stored() + r@ == final(self).stored(),
    {
        let mut r: Vec<u8> = Vec::new();
        core::mem::swap(&mut r, &mut self.out);
        self.taken = Ghost(self.taken@ + r@);
        assert(self.stream() =~= old(self).stream());
        r
    }

    /// The rest of the stream and the counts.
    pub fn finish(self) -> (r: (Vec<u8>, ShardMeta))
        ensures
            self.stored() + r.0@ == self.stream(),
            r.1 == self.counts(),
    {
        (self.out, self.meta)
    }
}

/// The bytes of a concatenation.
pub proof fn encoded_concat(a: Seq<u32>, b: Seq<u32>)
    ensures
        encoded(a + b) == encoded(a) + encoded(b),
{
    assert forall|i: int| 0 <= i < 2 * (a + b).len() implies #[trigger] encoded(a + b)[i] == (
    encoded(a) + encoded(b))[i] by {
        if i >= 2 * a.len() {
            assert(i / 2 - a.len() == (i - 2 * a.len()) / 2);
            assert((i - 2 * a.len()) % 2 == i % 2);
        }
    }
    assert(encoded(a + b) =~= encoded(a) + encoded(b));
}

/// A shard for reading: a byte stream that agrees with its counts.
#[derive(Debug, Clone, Copy)]
pub struct Shard<'a> {
    bytes: &'a [u8],
    meta: ShardMeta,
}

/// The tokens of the shard.
impl<'a> View for Shard<'a> {
    type V = Seq<u32>;

    closed spec fn view(&self) -> Seq<u32> {
        decoded(self.bytes@)
    }
}

impl<'a> Shard<'a> {
    #[verifier::type_invariant]
    spec fn agrees(&self) -> bool {
        self.bytes@.len() == 2 * self.meta.n_tokens
    }

    /// The counts of the shard.
    pub closed spec fn counts(&self) -> ShardMeta {
        self.meta
    }

    /// What is reported of a stream of `n_bytes` that disagrees with its counts.
    pub open spec fn out_of_sync(bin: Seq<char>, n_bytes: nat, n_tokens: nat) -> Seq<char> {
        "shard "@ + bin + " is "@ + decimal(n_bytes) + " bytes but its metadata claims "@ + decimal(
            n_tokens,
        ) + " tokens ("@ + decimal(2 * n_tokens) + " bytes); the pair is out of sync"@
    }

    /// The shard of a byte stream and its counts, when the two agree. `bin`
    /// names the stream in the error.
    pub fn open(bin: &str, bytes: &'a [u8], meta: ShardMeta) -> (r: Result<Self, String>)
        requires
            2 * meta.n_tokens <= usize::MAX,
        ensures
            r is Ok <==> bytes@.len() == 2 * meta.n_tokens,
            r is Ok ==> r->Ok_0@ == decoded(bytes@) && r->Ok_0.counts() == meta,
            r is Err ==> r->Err_0@ == Self::out_of_sync(
                bin@,
                bytes@.len(),
                meta.n_tokens as nat,
            ),
    {
        let expected: usize = meta.n_tokens * 2;
        if bytes.len() != expected {
            let mut s = "shard ".to_owned();
            s.append(bin);
            s.append(" is ");
            append_decimal(&mut s, bytes.len());
            s.append(" bytes but its metadata claims ");
            append_decimal(&mut s, meta.n_tokens);
            s.append(" tokens (");
            append_decimal(&mut s, expected);
            s.append(" bytes); the pair is out of sync");
            return Err(s);
        }
        Ok(Shard { bytes, meta })
    }

    /// The counts of the shard.
    pub fn meta(&self) -> (r: &ShardMeta)
        ensures
            *r == self.counts(),
    {
        &self.meta
    }

    /// The number of tokens.
    pub fn len(&self) -> (r: usize)
        ensures
            r == self@.len(),
            r == self.counts().n_tokens,
            2 * r <= usize::MAX,
    {
        proof {
            use_type_invariant(self);
        }
        self.bytes.len() / 2
    }

    /// Whether the shard holds no token.
    pub fn is_empty(&self) -> (r: bool)
        ensures
            r == (self@.len() == 0),
    {
        self.len() == 0
    }

    /// The tokens in `range`.
    pub fn tokens(&self, range: core::ops::Range<usize>) -> (r: Vec<u32>)
        requires
            range.start <= range.end <= self@.len(),
        ensures
            r@ == self@.subrange(range.start as int, range.end as int),
            all_fit(r@),
    {
        let start: usize = range.start;
        let end: usize = range.end;
        proof {
            use_type_invariant(self);
        }
        let n: usize = self.len();
        let mut out: Vec<u32> = Vec::new();
        let mut i: usize = start;
        while i < end
            invariant
                start <= i <= end <= n,
                n == self@.len(),
                self.bytes@.len() == 2 * n,
                2 * n <= usize::MAX,
                self@ == decoded(self.bytes@),
                out@ == self@.subrange(start as int, i as int),
                all_fit(out@),
            decreases end - i,
        {
            let low: u8 = self.bytes[2 * i];
            let high: u8 = self.bytes[2 * i + 1];
            let t: u32 = low as u32 + 256 * high as u32;
            out.push(t);
            proof {
                assert(self@[i as int] == t);
                assert(out@ =~= self@.subrange(start as int, i + 1));
            }
            i = i + 1;
        }
        out
    }
}

/// Reading gives back what was written: tokens that fit `u16` come out of
/// their bytes unchanged.
pub proof fn reading_gives_back_writing(tokens: Seq<u32>)
    requires
        all_fit(tokens),
    ensures
        decoded(encoded(tokens)) == tokens,
{
    assert forall|i: int| 0 <= i < tokens.len() implies #[trigger] decoded(encoded(tokens))[i]
        == tokens[i] by {
        let b = encoded(tokens);
        assert(tokens[i] <= 0xffff);
        assert(b[2 * i] == (tokens[i] as nat % 256) as u8);
        assert((2 * i + 1) / 2 == i);
        assert(b[2 * i + 1] == (tokens[i] as nat / 256) as u8);
    }
    assert(decoded(encoded(tokens)) =~= tokens);
}

/// The tokens of documents, each followed by the separator.
pub open spec fn separated(docs: Seq<Seq<u32>>, eos_id: u32) -> Seq<u32>
    decreases docs.len(),
{
    if docs.len() == 0 {
        Seq::empty()
    } else {
        separated(docs.drop_last(), eos_id) + docs.last().push(eos_id)
    }
}

/// Documents and separators that fit make a stream that fits.
pub proof fn separated_fits(docs: Seq<Seq<u32>>, eos_id: u32)
    requires
        eos_id <= 0xffff,
        forall|i: int| 0 <= i < docs.len() ==> all_fit(#[trigger] docs[i]),
    ensures
        all_fit(separated(docs, eos_id)),
    decreases docs.len(),
{
    if docs.len() > 0 {
        let before = docs.drop_last();
        assert forall|i: int| 0 <= i < before.len() implies all_fit(#[trigger] before[i]) by {
            assert(all_fit(docs[i]));
        }
        separated_fits(before, eos_id);
        assert(all_fit(docs[docs.len() - 1]));
    }
}

/// A shard made of documents that fit reads back as those documents, in order,
/// each followed by its separator.
pub proof fn documents_survive_a_shard(docs: Seq<Seq<u32>>, eos_id: u32)
    requires
        eos_id <= 0xffff,
        forall|i: int| 0 <= i < docs.len() ==> all_fit(#[trigger] docs[i]),
    ensures
        decoded(encoded(separated(docs, eos_id))) == separated(docs, eos_id),
{
    separated_fits(docs, eos_id);
    reading_gives_back_writing(separated(docs, eos_id));
}

} // verus!
