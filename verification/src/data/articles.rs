//! The documents of a WikiText-style corpus.
//!
//! WikiText is one flat file whose articles are delimited by ` = Title = `
//! headings. Splitting on them matters: the separator between documents tells a
//! model where one ends.

use vstd::prelude::*;

use vstd::std_specs::iter::IteratorSpec;
use vstd::string::*;
use vstd::utf8::*;

use crate::chars::{
    chars_of, encode_concat, encode_push, ends_with, prefix_ends_at_boundary, split_at_char,
    starts_with, utf8_width,
};
use crate::words::{
    trim, trimmed, trimmed_bytes, word_count, word_count_concat, word_count_trimmed,
};

verus! {

/// The length of the first line, its line break included.
pub open spec fn line_len(s: Seq<char>) -> nat
    decreases s.len(),
{
    if s.len() == 0 {
        0
    } else if s[0] == '\n' {
        1
    } else {
        1 + line_len(s.drop_first())
    }
}

/// Whether a line is an article heading: `= Title =`, with exactly one leading
/// `=`. Section headings (`= = Title = =`) are not.
pub open spec fn is_heading(line: Seq<char>) -> bool {
    let t = trimmed(line);
    "= "@.is_prefix_of(t) && " ="@.is_suffix_of(t) && !"= = "@.is_prefix_of(t)
}

/// The pieces of `open + s`, where `open` is the piece begun before `s`: each
/// heading line of `s` that has text before it begins a new piece.
pub open spec fn pieces(open: Seq<char>, s: Seq<char>) -> Seq<Seq<char>>
    decreases s.len(),
    via pieces_shrink
{
    if s.len() == 0 {
        if open.len() == 0 {
            Seq::empty()
        } else {
            seq![open]
        }
    } else {
        let n = line_len(s) as int;
        if is_heading(s.take(n)) && open.len() > 0 {
            seq![open] + pieces(s.take(n), s.skip(n))
        } else {
            pieces(open + s.take(n), s.skip(n))
        }
    }
}

#[verifier::inline]
pub open spec fn is_line(s: Seq<char>, n: int) -> bool {
    &&& 1 <= n <= s.len()
    &&& forall|i: int| 0 <= i < n - 1 ==> #[trigger] s[i] != '\n'
    &&& n == s.len() || s[n - 1] == '\n'
}

pub(crate) proof fn line_len_is(s: Seq<char>)
    requires
        s.len() > 0,
    ensures
        is_line(s, line_len(s) as int),
    decreases s.len(),
{
    if s[0] != '\n' {
        let rest = s.drop_first();
        if rest.len() > 0 {
            line_len_is(rest);
            assert forall|i: int| 0 <= i < line_len(s) - 1 implies #[trigger] s[i] != '\n' by {
                if i > 0 {
                    assert(rest[i - 1] != '\n');
                }
            }
        }
    }
}

pub(crate) proof fn line_len_unique(s: Seq<char>, n: int)
    requires
        is_line(s, n),
    ensures
        n == line_len(s),
{
    line_len_is(s);
    let m = line_len(s) as int;
    if n < m {
        assert(s[n - 1] != '\n');
    }
    if m < n {
        assert(s[m - 1] != '\n');
    }
}

#[via_fn]
proof fn pieces_shrink(open: Seq<char>, s: Seq<char>) {
    if s.len() > 0 {
        line_len_is(s);
    }
}

/// The pieces trimmed, without those of which nothing is left.
pub open spec fn documents(pieces: Seq<Seq<char>>) -> Seq<Seq<char>>
    decreases pieces.len(),
{
    if pieces.len() == 0 {
        Seq::empty()
    } else {
        let t = trimmed(pieces[0]);
        (if t.len() == 0 {
            Seq::empty()
        } else {
            seq![t]
        }) + documents(pieces.drop_first())
    }
}

/// The documents of a corpus.
pub open spec fn articles(s: Seq<char>) -> Seq<Seq<char>> {
    documents(pieces(Seq::empty(), s))
}

/// The texts of a list of slices.
pub open spec fn slices(v: Seq<&str>) -> Seq<Seq<char>> {
    v.map_values(|s: &str| s@)
}

/// Whether a line is an article heading.
pub fn is_article_heading(line: &str) -> (r: bool)
    ensures
        r == is_heading(line@),
{
    let t = chars_of(trim(line));
    starts_with(&t, "= ") && ends_with(&t, " =") && !starts_with(&t, "= = ")
}

/// The bytes of the first line.
fn first_line_bytes(s: &str) -> (bytes: usize)
    requires
        s@.len() > 0,
    ensures
        bytes == encode_utf8(s@.take(line_len(s@) as int)).len(),
        1 <= line_len(s@) <= s@.len(),
        bytes > 0,
{
    let limit: usize = s.as_bytes().len();
    let mut rest = s.chars();
    let mut bytes: usize = 0;
    let ghost mut n: int = 0;
    loop
        invariant_except_break
            rest.remaining() == s@.skip(n),
            forall|i: int| 0 <= i < n ==> #[trigger] s@[i] != '\n',
        invariant
            0 <= n <= s@.len(),
            s@.len() > 0,
            limit == encode_utf8(s@).len(),
            bytes == encode_utf8(s@.take(n)).len(),
            bytes >= n,
        ensures
            is_line(s@, n),
            bytes == encode_utf8(s@.take(n)).len(),
            bytes >= n,
        decreases s@.len() - n,
    {
        match rest.next() {
            Some(c) => {
                proof {
                    assert(c == s@[n]);
                    assert(s@.take(n + 1) =~= s@.take(n).push(c));
                    encode_push(s@.take(n), c);
                    prefix_ends_at_boundary(s@, n + 1);
                    assert(s@.skip(n + 1) =~= s@.skip(n).drop_first());
                }
                bytes = bytes + utf8_width(c);
                proof {
                    n = n + 1;
                }
                if c == '\n' {
                    break ;
                }
            },
            None => {
                break ;
            },
        }
    }
    proof {
        line_len_unique(s@, n);
    }
    bytes
}

/// Appends a document to the list, trimmed, unless nothing is left of it.
fn keep<'a>(out: &mut Vec<&'a str>, piece: &'a str)
    ensures
        slices(final(out)@) == slices(old(out)@) + documents(seq![piece@]),
{
    let t = trim(piece);
    proof {
        reveal_with_fuel(documents, 2);
        assert(seq![piece@].drop_first() =~= Seq::<Seq<char>>::empty());
    }
    if !t.is_empty() {
        out.push(t);
        assert(slices(out@) =~= slices(old(out)@) + documents(seq![piece@]));
    } else {
        assert(slices(out@) =~= slices(old(out)@) + documents(seq![piece@]));
    }
}

/// The documents of what follows a piece.
proof fn documents_cons(piece: Seq<char>, more: Seq<Seq<char>>)
    ensures
        documents(seq![piece] + more) == documents(seq![piece]) + documents(more),
{
    reveal_with_fuel(documents, 2);
    assert((seq![piece] + more).drop_first() =~= more);
    assert(seq![piece].drop_first() =~= Seq::<Seq<char>>::empty());
    assert(documents(seq![piece] + more) =~= documents(seq![piece]) + documents(more));
}

/// The documents of a WikiText-style corpus.
pub fn split_wikitext_articles<'a>(text: &'a str) -> (r: Vec<&'a str>)
    ensures
        slices(r@) == articles(text@),
{
    let mut out: Vec<&'a str> = Vec::new();
    let total: usize = text.as_bytes().len();
    // `open` is the text from the start of the current piece, `rest` the text
    // from the current line; `bytes` is how far they are apart.
    let mut open: &'a str = text;
    let mut rest: &'a str = text;
    let mut bytes: usize = 0;
    let ghost mut k: int = 0;
    proof {
        assert(open@.take(0) =~= Seq::<char>::empty());
        assert(slices(out@) =~= Seq::<Seq<char>>::empty());
        assert(slices(out@) + documents(pieces(open@.take(0), rest@)) =~= articles(text@));
        assert(open@.skip(0) =~= open@);
    }
    while !rest.is_empty()
        invariant
            0 <= k <= open@.len(),
            open@.skip(k) == rest@,
            bytes == encode_utf8(open@.take(k)).len(),
            bytes == 0 <==> k == 0,
            encode_utf8(open@).len() <= total,
            slices(out@) + documents(pieces(open@.take(k), rest@)) == articles(text@),
        decreases rest@.len(),
    {
        let step: usize = first_line_bytes(rest);
        let ghost n = line_len(rest@) as int;
        let halves = split_at_char(rest, step, Ghost(n));
        let ghost before = open@.take(k);
        let ghost tail = pieces(rest@.take(n), rest@.skip(n));
        if is_article_heading(halves.0) && bytes > 0 {
            let piece = split_at_char(open, bytes, Ghost(k)).0;
            let ghost kept = slices(out@);
            keep(&mut out, piece);
            proof {
                documents_cons(before, tail);
                assert(slices(out@) + documents(tail) =~= kept + documents(seq![before] + tail));
                prefix_ends_at_boundary(open@, k);
            }
            open = rest;
            bytes = step;
            proof {
                k = n;
            }
        } else {
            proof {
                assert(open@.take(k + n) =~= before + rest@.take(n));
                encode_concat(before, rest@.take(n));
                prefix_ends_at_boundary(open@, k + n);
                assert(open@.skip(k + n) =~= rest@.skip(n));
            }
            bytes = bytes + step;
            proof {
                k = k + n;
            }
        }
        rest = halves.1;
    }
    assert(open@.take(k) =~= open@);
    if bytes > 0 {
        keep(&mut out, open);
    } else {
        assert(documents(pieces(open@, rest@)) =~= Seq::empty());
        assert(slices(out@) =~= articles(text@));
    }
    out
}

/// The texts run together.
pub open spec fn run_together(v: Seq<Seq<char>>) -> Seq<char>
    decreases v.len(),
{
    if v.len() == 0 {
        Seq::empty()
    } else {
        v[0] + run_together(v.drop_first())
    }
}

/// The words of all texts together.
pub open spec fn total_words(v: Seq<Seq<char>>) -> nat
    decreases v.len(),
{
    if v.len() == 0 {
        0
    } else {
        word_count(v[0]) + total_words(v.drop_first())
    }
}

/// The UTF-8 bytes of all texts together.
pub open spec fn total_bytes(v: Seq<Seq<char>>) -> nat
    decreases v.len(),
{
    if v.len() == 0 {
        0
    } else {
        encode_utf8(v[0]).len() + total_bytes(v.drop_first())
    }
}

/// Whether no line of `s` is an article heading.
pub open spec fn no_headings(s: Seq<char>) -> bool
    decreases s.len(),
    via no_headings_shrink
{
    s.len() == 0 || {
        let n = line_len(s) as int;
        !is_heading(s.take(n)) && no_headings(s.skip(n))
    }
}

#[via_fn]
proof fn no_headings_shrink(s: Seq<char>) {
    if s.len() > 0 {
        line_len_is(s);
    }
}

/// Splitting only inserts boundaries: the pieces, run together, are the text.
pub proof fn splitting_loses_nothing(open: Seq<char>, s: Seq<char>)
    ensures
        run_together(pieces(open, s)) == open + s,
    decreases s.len(),
{
    reveal_with_fuel(run_together, 2);
    if s.len() == 0 {
        assert(seq![open].drop_first() =~= Seq::<Seq<char>>::empty());
        assert(run_together(pieces(open, s)) =~= open + s);
    } else {
        line_len_is(s);
        let n = line_len(s) as int;
        let line = s.take(n);
        let rest = s.skip(n);
        assert(line + rest =~= s);
        if is_heading(line) && open.len() > 0 {
            splitting_loses_nothing(line, rest);
            assert((seq![open] + pieces(line, rest)).drop_first() =~= pieces(line, rest));
        } else {
            splitting_loses_nothing(open + line, rest);
            assert((open + line) + rest =~= open + s);
        }
    }
}

proof fn pieces_keep_words(open: Seq<char>, s: Seq<char>)
    requires
        open.len() == 0 || s.len() == 0 || open.last() == '\n',
    ensures
        total_words(documents(pieces(open, s))) == word_count(open + s),
    decreases s.len(),
{
    if s.len() == 0 {
        assert(open + s =~= open);
        if open.len() > 0 {
            one_piece_keeps(open);
        } else {
            assert(documents(pieces(open, s)) =~= Seq::empty());
        }
    } else {
        line_len_is(s);
        let n = line_len(s) as int;
        let line = s.take(n);
        let rest = s.skip(n);
        assert(line + rest =~= s);
        if is_heading(line) && open.len() > 0 {
            pieces_keep_words(line, rest);
            documents_cons(open, pieces(line, rest));
            one_piece_keeps(open);
            totals_concat(documents(seq![open]), documents(pieces(line, rest)));
            word_count_concat(open, s);
        } else {
            pieces_keep_words(open + line, rest);
            assert((open + line) + rest =~= open + s);
        }
    }
}

proof fn one_piece_keeps(piece: Seq<char>)
    ensures
        total_words(documents(seq![piece])) == word_count(piece),
        total_bytes(documents(seq![piece])) <= encode_utf8(piece).len(),
{
    reveal_with_fuel(documents, 2);
    reveal_with_fuel(total_words, 2);
    reveal_with_fuel(total_bytes, 2);
    let t = trimmed(piece);
    word_count_trimmed(piece);
    trimmed_bytes(piece);
    assert(seq![piece].drop_first() =~= Seq::<Seq<char>>::empty());
    if t.len() == 0 {
        assert(documents(seq![piece]) =~= Seq::empty());
    } else {
        assert(documents(seq![piece]) =~= seq![t]);
        assert(seq![t].drop_first() =~= Seq::<Seq<char>>::empty());
    }
}

proof fn totals_concat(a: Seq<Seq<char>>, b: Seq<Seq<char>>)
    ensures
        total_words(a + b) == total_words(a) + total_words(b),
        total_bytes(a + b) == total_bytes(a) + total_bytes(b),
    decreases a.len(),
{
    if a.len() == 0 {
        assert(a + b =~= b);
    } else {
        totals_concat(a.drop_first(), b);
        assert((a + b).drop_first() =~= a.drop_first() + b);
    }
}

proof fn pieces_bound_bytes(open: Seq<char>, s: Seq<char>)
    ensures
        total_bytes(documents(pieces(open, s))) <= encode_utf8(open + s).len(),
    decreases s.len(),
{
    if s.len() == 0 {
        assert(open + s =~= open);
        if open.len() > 0 {
            one_piece_keeps(open);
        } else {
            assert(documents(pieces(open, s)) =~= Seq::empty());
        }
    } else {
        line_len_is(s);
        let n = line_len(s) as int;
        let line = s.take(n);
        let rest = s.skip(n);
        assert(line + rest =~= s);
        if is_heading(line) && open.len() > 0 {
            pieces_bound_bytes(line, rest);
            documents_cons(open, pieces(line, rest));
            one_piece_keeps(open);
            totals_concat(documents(seq![open]), documents(pieces(line, rest)));
            encode_concat(open, s);
        } else {
            pieces_bound_bytes(open + line, rest);
            assert((open + line) + rest =~= open + s);
        }
    }
}

/// The documents of a corpus hold as many words as the corpus: splitting drops
/// none and makes none, so word-level perplexity keeps its denominator.
pub proof fn splitting_preserves_words(s: Seq<char>)
    ensures
        total_words(articles(s)) == word_count(s),
{
    pieces_keep_words(Seq::empty(), s);
    assert(Seq::<char>::empty() + s =~= s);
}

/// The documents of a corpus hold no more bytes than the corpus.
pub proof fn documents_bound_bytes(s: Seq<char>)
    ensures
        total_bytes(articles(s)) <= encode_utf8(s).len(),
{
    pieces_bound_bytes(Seq::empty(), s);
    assert(Seq::<char>::empty() + s =~= s);
}

/// Every piece but the first begins with an article heading.
pub proof fn pieces_begin_with_headings(open: Seq<char>, s: Seq<char>, i: int)
    requires
        open.len() == 0 || open.last() == '\n' || s.len() == 0,
        0 < i < pieces(open, s).len(),
    ensures
        ({
            let piece = pieces(open, s)[i];
            is_heading(piece.take(line_len(piece) as int))
        }),
    decreases s.len(),
{
    if s.len() > 0 {
        line_len_is(s);
        let n = line_len(s) as int;
        let line = s.take(n);
        let rest = s.skip(n);
        if is_heading(line) && open.len() > 0 {
            let more = pieces(line, rest);
            assert(pieces(open, s)[i] == more[i - 1]);
            if i > 1 {
                pieces_begin_with_headings(line, rest, i - 1);
            } else {
                first_piece_begins(line, rest);
                let piece = more[0];
                line_len_unique(line, n);
                assert(piece.take(n) =~= line);
                line_len_is(piece);
                if line[n - 1] == '\n' {
                    assert(forall|j: int| 0 <= j < n ==> #[trigger] piece[j] == line[j]);
                    line_len_unique(piece, n);
                } else {
                    assert(rest.len() == 0);
                    assert(piece =~= line);
                }
                assert(piece.take(line_len(piece) as int) =~= line);
            }
        } else {
            pieces_begin_with_headings(open + line, rest, i);
        }
    }
}

proof fn first_piece_begins(open: Seq<char>, s: Seq<char>)
    requires
        open.len() > 0,
    ensures
        pieces(open, s).len() > 0,
        open.is_prefix_of(pieces(open, s)[0]),
        s.len() == 0 ==> pieces(open, s)[0] == open,
    decreases s.len(),
{
    if s.len() > 0 {
        line_len_is(s);
        let n = line_len(s) as int;
        if !is_heading(s.take(n)) {
            first_piece_begins(open + s.take(n), s.skip(n));
            let piece = pieces(open, s)[0];
            assert(piece.subrange(0, open.len() as int) =~= (open + s.take(n)).subrange(
                0,
                open.len() as int,
            ));
            assert((open + s.take(n)).subrange(0, open.len() as int) =~= open);
        }
    }
}

proof fn one_piece(open: Seq<char>, s: Seq<char>)
    requires
        no_headings(s),
        open.len() + s.len() > 0,
    ensures
        pieces(open, s) == seq![open + s],
    decreases s.len(),
{
    if s.len() == 0 {
        assert(open + s =~= open);
    } else {
        line_len_is(s);
        let n = line_len(s) as int;
        one_piece(open + s.take(n), s.skip(n));
        assert((open + s.take(n)) + s.skip(n) =~= open + s);
    }
}

/// A text without headings is a single document.
pub proof fn plain_text_is_one_document(s: Seq<char>)
    requires
        no_headings(s),
        trimmed(s).len() > 0,
    ensures
        articles(s) == seq![trimmed(s)],
{
    reveal_with_fuel(documents, 2);
    one_piece(Seq::empty(), s);
    assert(Seq::<char>::empty() + s =~= s);
    assert(seq![s].drop_first() =~= Seq::<Seq<char>>::empty());
    assert(articles(s) =~= seq![trimmed(s)]);
}

} // verus!
