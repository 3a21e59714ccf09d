//! Words, whitespace and what trimming leaves.

use vstd::prelude::*;

use crate::words::{is_space, trimmed, word_count, word_count_concat};

verus! {

/// Whitespace is what has the Unicode property `White_Space`.
pub proof fn whitespace_is_that_of_unicode(c: char)
    ensures
        is_space(c) <==> {
            let u = c as u32;
            ||| 0x09 <= u <= 0x0d
            ||| u == 0x20
            ||| u == 0x85
            ||| u == 0xa0
            ||| u == 0x1680
            ||| 0x2000 <= u <= 0x200a
            ||| u == 0x2028
            ||| u == 0x2029
            ||| u == 0x202f
            ||| u == 0x205f
            ||| u == 0x3000
        },
{
}

/// A text that is not empty and holds no whitespace is one word.
pub proof fn unbroken_text_is_one_word(s: Seq<char>)
    requires
        s.len() > 0,
        forall|i: int| 0 <= i < s.len() ==> !is_space(#[trigger] s[i]),
    ensures
        word_count(s) == 1,
    decreases s.len(),
{
    reveal_with_fuel(word_count, 2);
    let front = s.drop_last();
    if front.len() > 0 {
        assert forall|i: int| 0 <= i < front.len() implies !is_space(#[trigger] front[i]) by {
            assert(!is_space(s[i]));
        }
        unbroken_text_is_one_word(front);
        assert(!is_space(s[s.len() - 2]));
    }
    assert(!is_space(s[s.len() - 1]));
}

/// Whitespace holds no word.
pub proof fn whitespace_holds_no_word(s: Seq<char>)
    requires
        forall|i: int| 0 <= i < s.len() ==> is_space(#[trigger] s[i]),
    ensures
        word_count(s) == 0,
    decreases s.len(),
{
    if s.len() > 0 {
        let front = s.drop_last();
        assert forall|i: int| 0 <= i < front.len() implies is_space(#[trigger] front[i]) by {
            assert(is_space(s[i]));
        }
        whitespace_holds_no_word(front);
        assert(is_space(s[s.len() - 1]));
    }
}

/// Whitespace parts words: a text, whitespace and another text hold the words of
/// the two.
pub proof fn whitespace_parts_words(a: Seq<char>, gap: Seq<char>, b: Seq<char>)
    requires
        gap.len() > 0,
        forall|i: int| 0 <= i < gap.len() ==> is_space(#[trigger] gap[i]),
    ensures
        word_count(a + gap + b) == word_count(a) + word_count(b),
{
    whitespace_holds_no_word(gap);
    assert(is_space(gap[0]));
    assert(is_space(gap[gap.len() - 1]));
    word_count_concat(a, gap);
    word_count_concat(a + gap, b);
}

/// A character behind another one that is no whitespace makes no new word.
pub proof fn a_word_goes_on(s: Seq<char>, c: char)
    requires
        s.len() > 0,
        !is_space(s.last()),
    ensures
        word_count(s.push(c)) == word_count(s),
{
    assert(s.push(c).drop_last() =~= s);
}

/// Trimming takes away whitespace at the ends, all of it, and nothing else.
pub proof fn trimming_takes_the_ends(s: Seq<char>)
    ensures
        exists|b: int, e: int|
            0 <= b <= e <= s.len() && trimmed(s) == #[trigger] s.subrange(b, e) && (forall|i: int|
                0 <= i < b || e <= i < s.len() ==> is_space(#[trigger] s[i])),
        trimmed(s).len() > 0 ==> !is_space(trimmed(s)[0]) && !is_space(trimmed(s).last()),
        trimmed(trimmed(s)) == trimmed(s),
    decreases s.len(),
{
    if s.len() == 0 {
        assert(s.subrange(0, 0) =~= s);
    } else if is_space(s[0]) {
        let rest = s.drop_first();
        trimming_takes_the_ends(rest);
        let (b, e) = choose|b: int, e: int|
            0 <= b <= e <= rest.len() && trimmed(rest) == #[trigger] rest.subrange(b, e) && (
            forall|i: int| 0 <= i < b || e <= i < rest.len() ==> is_space(#[trigger] rest[i]));
        assert(s.subrange(b + 1, e + 1) =~= rest.subrange(b, e));
        assert forall|i: int| 0 <= i < b + 1 || e + 1 <= i < s.len() implies is_space(
            #[trigger] s[i],
        ) by {
            if i > 0 {
                assert(is_space(rest[i - 1]));
            }
        }
    } else if is_space(s.last()) {
        let rest = s.drop_last();
        trimming_takes_the_ends(rest);
        let (b, e) = choose|b: int, e: int|
            0 <= b <= e <= rest.len() && trimmed(rest) == #[trigger] rest.subrange(b, e) && (
            forall|i: int| 0 <= i < b || e <= i < rest.len() ==> is_space(#[trigger] rest[i]));
        assert(s.subrange(b, e) =~= rest.subrange(b, e));
        assert forall|i: int| 0 <= i < b || e <= i < s.len() implies is_space(
            #[trigger] s[i],
        ) by {
            if i < rest.len() {
                assert(is_space(rest[i]));
            }
        }
    } else {
        assert(s.subrange(0, s.len() as int) =~= s);
    }
}

} // verus!
