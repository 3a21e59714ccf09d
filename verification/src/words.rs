//! Words and surrounding whitespace.

use vstd::prelude::*;

use vstd::std_specs::iter::IteratorSpec;
use vstd::string::*;
use vstd::utf8::*;

use crate::chars::{encode_concat, encode_push, prefix_ends_at_boundary, split_at_char, utf8_width};

verus! {

/// The characters with the Unicode property `White_Space`.
pub open spec fn is_space(c: char) -> bool {
    ||| '\u{9}' <= c <= '\u{d}'
    ||| c == '\u{20}'
    ||| c == '\u{85}'
    ||| c == '\u{a0}'
    ||| c == '\u{1680}'
    ||| '\u{2000}' <= c <= '\u{200a}'
    ||| c == '\u{2028}'
    ||| c == '\u{2029}'
    ||| c == '\u{202f}'
    ||| c == '\u{205f}'
    ||| c == '\u{3000}'
}

/// Whether a word starts at position `i`: a character that is no whitespace,
/// at the start of the text or behind whitespace.
pub open spec fn starts_word(s: Seq<char>, i: int) -> bool {
    !is_space(s[i]) && (i == 0 || is_space(s[i - 1]))
}

/// The number of whitespace-delimited words: the positions where one starts.
pub open spec fn word_count(s: Seq<char>) -> nat
    decreases s.len(),
{
    if s.len() == 0 {
        0
    } else {
        word_count(s.drop_last()) + if starts_word(s, s.len() - 1) {
            1nat
        } else {
            0
        }
    }
}

/// The text without the whitespace at its ends.
pub open spec fn trimmed(s: Seq<char>) -> Seq<char>
    decreases s.len(),
{
    if s.len() == 0 {
        s
    } else if is_space(s[0]) {
        trimmed(s.drop_first())
    } else if is_space(s.last()) {
        trimmed(s.drop_last())
    } else {
        s
    }
}

/// Whether a character is whitespace.
pub fn is_whitespace(c: char) -> (r: bool)
    ensures
        r == is_space(c),
{
    ('\u{9}' <= c && c <= '\u{d}') || c == '\u{20}' || c == '\u{85}' || c == '\u{a0}' || c
        == '\u{1680}' || ('\u{2000}' <= c && c <= '\u{200a}') || c == '\u{2028}' || c == '\u{2029}'
        || c == '\u{202f}' || c == '\u{205f}' || c == '\u{3000}'
}

/// What is left between the first and the last character that is no whitespace.
pub(crate) proof fn trimmed_between(s: Seq<char>, b: int, e: int)
    requires
        0 <= b < e <= s.len(),
        forall|i: int| 0 <= i < b ==> is_space(#[trigger] s[i]),
        forall|i: int| e <= i < s.len() ==> is_space(#[trigger] s[i]),
        !is_space(s[b]),
        !is_space(s[e - 1]),
    ensures
        trimmed(s) == s.subrange(b, e),
    decreases s.len(),
{
    if b > 0 {
        trimmed_between(s.drop_first(), b - 1, e - 1);
        assert(s.drop_first().subrange(b - 1, e - 1) =~= s.subrange(b, e));
    } else if e < s.len() {
        assert(is_space(s[s.len() - 1]));
        trimmed_between(s.drop_last(), b, e);
        assert(s.drop_last().subrange(b, e) =~= s.subrange(b, e));
    } else {
        assert(s.subrange(b, e) =~= s);
    }
}

/// Nothing is left of whitespace.
pub(crate) proof fn trimmed_blank(s: Seq<char>)
    requires
        forall|i: int| 0 <= i < s.len() ==> is_space(#[trigger] s[i]),
    ensures
        trimmed(s) == Seq::<char>::empty(),
    decreases s.len(),
{
    if s.len() == 0 {
        assert(s =~= Seq::empty());
    } else {
        trimmed_blank(s.drop_first());
    }
}

/// Words of a concatenation, when no word runs over the seam.
pub proof fn word_count_concat(a: Seq<char>, b: Seq<char>)
    requires
        a.len() == 0 || b.len() == 0 || is_space(a.last()) || is_space(b[0]),
    ensures
        word_count(a + b) == word_count(a) + word_count(b),
    decreases b.len(),
{
    if b.len() == 0 {
        assert(a + b =~= a);
    } else {
        word_count_concat(a, b.drop_last());
        assert((a + b).drop_last() =~= a + b.drop_last());
    }
}

/// Trimming keeps every word.
pub proof fn word_count_trimmed(s: Seq<char>)
    ensures
        word_count(trimmed(s)) == word_count(s),
    decreases s.len(),
{
    if s.len() == 0 {
    } else if is_space(s[0]) {
        word_count_trimmed(s.drop_first());
        assert(s =~= seq![s[0]] + s.drop_first());
        word_count_concat(seq![s[0]], s.drop_first());
        assert(seq![s[0]].drop_last() =~= Seq::<char>::empty());
        assert(word_count(seq![s[0]]) == 0) by {
            reveal_with_fuel(word_count, 2);
        }
    } else if is_space(s.last()) {
        word_count_trimmed(s.drop_last());
    }
}

/// A text has no more words than characters.
pub proof fn word_count_bounded(s: Seq<char>)
    ensures
        word_count(s) <= s.len(),
    decreases s.len(),
{
    if s.len() > 0 {
        word_count_bounded(s.drop_last());
    }
}

/// Trimming does not lengthen the encoding.
pub proof fn trimmed_bytes(s: Seq<char>)
    ensures
        encode_utf8(trimmed(s)).len() <= encode_utf8(s).len(),
    decreases s.len(),
{
    if s.len() == 0 {
    } else if is_space(s[0]) {
        trimmed_bytes(s.drop_first());
    } else if is_space(s.last()) {
        trimmed_bytes(s.drop_last());
        assert(s =~= s.drop_last() + seq![s.last()]);
        encode_concat(s.drop_last(), seq![s.last()]);
    }
}

/// The text without the whitespace at its ends.
pub fn trim<'a>(s: &'a str) -> (r: &'a str)
    ensures
        r@ == trimmed(s@),
{
    let limit: usize = s.as_bytes().len();
    let mut rest = s.chars();
    // Where the first character that is no whitespace starts, and where the
    // last one ends; `found` once there is one.
    let mut found: bool = false;
    let mut begin: usize = 0;
    let mut end: usize = 0;
    let mut bytes: usize = 0;
    let ghost mut b: int = 0;
    let ghost mut e: int = 0;
    let ghost mut n: int = 0;
    loop
        invariant
            0 <= n <= s@.len(),
            rest.remaining() == s@.skip(n),
            limit == encode_utf8(s@).len(),
            bytes == encode_utf8(s@.take(n)).len(),
            0 <= b <= e <= n,
            begin == encode_utf8(s@.take(b)).len(),
            end == encode_utf8(s@.take(e)).len(),
            found ==> b < e && !is_space(s@[b]) && !is_space(s@[e - 1]),
            !found ==> b == 0 && e == 0,
            found ==> forall|i: int| 0 <= i < b ==> is_space(#[trigger] s@[i]),
            forall|i: int| e <= i < n ==> is_space(#[trigger] s@[i]),
        ensures
            n == s@.len(),
        decreases s@.len() - n,
    {
        match rest.next() {
            Some(c) => {
                proof {
                    assert(c == s@[n]);
                    assert(s@.take(n + 1) =~= s@.take(n).push(c));
                    encode_push(s@.take(n), c);
                    prefix_ends_at_boundary(s@, n + 1);
                }
                let next: usize = bytes + utf8_width(c);
                if !is_whitespace(c) {
                    if !found {
                        found = true;
                        begin = bytes;
                        proof {
                            b = n;
                        }
                    }
                    end = next;
                    proof {
                        e = n + 1;
                    }
                }
                bytes = next;
                proof {
                    assert(s@.skip(n + 1) =~= s@.skip(n).drop_first());
                    n = n + 1;
                }
            },
            None => {
                break ;
            },
        }
    }
    let head = split_at_char(s, end, Ghost(e)).0;
    proof {
        assert(s@.take(e).take(b) =~= s@.take(b));
    }
    let r = split_at_char(head, begin, Ghost(b)).1;
    proof {
        assert(s@.take(e).skip(b) =~= s@.subrange(b, e));
        if found {
            trimmed_between(s@, b, e);
        } else {
            trimmed_blank(s@);
            assert(r@ =~= Seq::<char>::empty());
        }
    }
    r
}

/// Words as whitespace separates them.
///
/// This is the crudest definition, and the one that published word counts use:
/// a finer one would change the denominator of word-level perplexity.
pub fn count_words(text: &str) -> (r: usize)
    ensures
        r == word_count(text@),
{
    let limit: usize = text.unicode_len();
    let mut rest = text.chars();
    let mut count: usize = 0;
    let mut boundary: bool = true;
    let ghost mut n: int = 0;
    loop
        invariant
            0 <= n <= text@.len(),
            limit == text@.len(),
            rest.remaining() == text@.skip(n),
            count == word_count(text@.take(n)),
            boundary == (n == 0 || is_space(text@[n - 1])),
        ensures
            n == text@.len(),
        decreases text@.len() - n,
    {
        match rest.next() {
            Some(c) => {
                proof {
                    assert(c == text@[n]);
                    assert(text@.take(n + 1).drop_last() =~= text@.take(n));
                    word_count_bounded(text@.take(n + 1));
                    assert(text@.skip(n + 1) =~= text@.skip(n).drop_first());
                }
                let space: bool = is_whitespace(c);
                if !space && boundary {
                    count = count + 1;
                }
                boundary = space;
                proof {
                    n = n + 1;
                }
            },
            None => {
                break ;
            },
        }
    }
    assert(text@.take(n) =~= text@);
    count
}

} // verus!
