//! Character positions in UTF-8 text.

use vstd::prelude::*;

use vstd::std_specs::iter::IteratorSpec;
use vstd::string::*;
use vstd::utf8::*;

verus! {

/// The encoding of a concatenation is the concatenation of the encodings.
pub proof fn encode_concat(a: Seq<char>, b: Seq<char>)
    ensures
        encode_utf8(a + b) == encode_utf8(a) + encode_utf8(b),
    decreases a.len(),
{
    if a.len() == 0 {
        assert(a + b =~= b);
        assert(encode_utf8(a) + encode_utf8(b) =~= encode_utf8(b));
    } else {
        encode_concat(a.drop_first(), b);
        assert((a + b).drop_first() =~= a.drop_first() + b);
        assert(encode_utf8(a + b) =~= encode_utf8(a) + encode_utf8(b));
    }
}

/// The encoding of a prefix ends at a character boundary of the whole.
pub proof fn prefix_ends_at_boundary(s: Seq<char>, k: int)
    requires
        0 <= k <= s.len(),
    ensures
        is_char_boundary(encode_utf8(s), encode_utf8(s.take(k)).len() as int),
        encode_utf8(s).take(encode_utf8(s.take(k)).len() as int) == encode_utf8(s.take(k)),
        encode_utf8(s).skip(encode_utf8(s.take(k)).len() as int) == encode_utf8(s.skip(k)),
        encode_utf8(s.take(k)).len() <= encode_utf8(s).len(),
    decreases k,
{
    assert(s =~= s.take(k) + s.skip(k));
    encode_concat(s.take(k), s.skip(k));
    assert(encode_utf8(s).take(encode_utf8(s.take(k)).len() as int) =~= encode_utf8(s.take(k)));
    assert(encode_utf8(s).skip(encode_utf8(s.take(k)).len() as int) =~= encode_utf8(s.skip(k)));
    encode_utf8_valid_utf8(s);
    if k > 0 {
        let bytes = encode_utf8(s);
        let rest = s.drop_first();
        encode_utf8_first_scalar(s);
        assert(pop_first_scalar(bytes) =~= encode_utf8(rest));
        prefix_ends_at_boundary(rest, k - 1);
        assert(s.take(k).drop_first() =~= rest.take(k - 1));
        assert(encode_utf8(s.take(k)).len() == encode_scalar(s[0] as u32).len() + encode_utf8(
            rest.take(k - 1),
        ).len());
    }
}

/// One more character lengthens the encoding by its width.
pub proof fn encode_push(s: Seq<char>, c: char)
    ensures
        encode_utf8(s.push(c)).len() == encode_utf8(s).len() + encode_scalar(c as u32).len(),
{
    assert(s.push(c) =~= s + seq![c]);
    encode_concat(s, seq![c]);
    assert(seq![c].drop_first() =~= Seq::<char>::empty());
    reveal_with_fuel(encode_utf8, 2);
}

/// The number of bytes that encode a character.
pub fn utf8_width(c: char) -> (n: usize)
    ensures
        n == encode_scalar(c as u32).len(),
        1 <= n <= 4,
{
    proof {
        char_is_scalar(c);
    }
    let v: u32 = c as u32;
    if v <= 0x7f {
        1
    } else if v <= 0x7ff {
        2
    } else if v <= 0xffff {
        3
    } else {
        4
    }
}

/// The two halves of `s` around its `k`-th character, whose byte offset is
/// `bytes`.
pub(crate) fn split_at_char<'a>(s: &'a str, bytes: usize, Ghost(k): Ghost<int>) -> (r: (&'a str, &'a str))
    requires
        0 <= k <= s@.len(),
        bytes == encode_utf8(s@.take(k)).len(),
    ensures
        r.0@ == s@.take(k),
        r.1@ == s@.skip(k),
{
    proof {
        prefix_ends_at_boundary(s@, k);
    }
    let r = s.split_at(bytes);
    proof {
        let whole = s.spec_bytes();
        assert(whole.subrange(0, bytes as int) =~= whole.take(bytes as int));
        assert(whole.subrange(bytes as int, whole.len() as int) =~= whole.skip(bytes as int));
        encode_utf8_decode_utf8(r.0@);
        encode_utf8_decode_utf8(s@.take(k));
        encode_utf8_decode_utf8(r.1@);
        encode_utf8_decode_utf8(s@.skip(k));
    }
    r
}

/// The characters of a text.
pub fn chars_of(s: &str) -> (v: Vec<char>)
    ensures
        v@ == s@,
{
    let mut v: Vec<char> = Vec::new();
    let mut rest = s.chars();
    loop
        invariant
            v@ + rest.remaining() == s@,
        ensures
            v@ == s@,
        decreases s@.len() - v@.len(),
    {
        let ghost before = rest.remaining();
        match rest.next() {
            Some(c) => {
                v.push(c);
                assert(v@ + rest.remaining() =~= v@.drop_last() + before);
            },
            None => {
                assert(v@ + rest.remaining() =~= v@);
                break ;
            },
        }
    }
    v
}

/// Whether `w` occurs in `v` at position `at`.
pub open spec fn occurs_at(v: Seq<char>, w: Seq<char>, at: int) -> bool {
    0 <= at && at + w.len() <= v.len() && v.subrange(at, at + w.len()) == w
}

/// Whether `w` occurs in `v` at position `at`.
pub fn matches_at(v: &Vec<char>, w: &Vec<char>, at: usize) -> (r: bool)
    ensures
        r == occurs_at(v@, w@, at as int),
{
    if at > v.len() || w.len() > v.len() - at {
        return false;
    }
    let mut i: usize = 0;
    while i < w.len()
        invariant
            i <= w.len(),
            at + w.len() <= v.len(),
            forall|j: int| 0 <= j < i ==> v@[at + j] == #[trigger] w@[j],
        decreases w.len() - i,
    {
        if v[at + i] != w[i] {
            proof {
                assert(v@.subrange(at as int, at + w@.len())[i as int] == v@[at + i]);
            }
            return false;
        }
        i = i + 1;
    }
    assert(v@.subrange(at as int, at + w@.len()) =~= w@);
    true
}

/// Whether a text starts with `prefix`.
pub fn starts_with(v: &Vec<char>, prefix: &str) -> (r: bool)
    ensures
        r == prefix@.is_prefix_of(v@),
{
    matches_at(v, &chars_of(prefix), 0)
}

/// Whether a text ends with `suffix`.
pub fn ends_with(v: &Vec<char>, suffix: &str) -> (r: bool)
    ensures
        r == suffix@.is_suffix_of(v@),
{
    let w = chars_of(suffix);
    w.len() <= v.len() && matches_at(v, &w, v.len() - w.len())
}

/// Whether every character is a decimal digit.
pub open spec fn all_digits(s: Seq<char>) -> bool {
    forall|i: int| 0 <= i < s.len() ==> '0' <= #[trigger] s[i] <= '9'
}

/// The number that decimal digits write.
pub open spec fn number(s: Seq<char>) -> nat
    decreases s.len(),
{
    if s.len() == 0 {
        0
    } else {
        (number(s.drop_last()) * 10 + (s.last() as nat - 48)) as nat
    }
}

/// The digits of an unsigned number: what follows an optional plus sign.
pub open spec fn unsigned_digits(s: Seq<char>) -> Seq<char> {
    if s.len() > 1 && s[0] == '+' {
        s.skip(1)
    } else {
        s
    }
}

/// The machine number that a text writes, when it writes one.
pub open spec fn parsed(s: Seq<char>) -> Option<usize> {
    let d = unsigned_digits(s);
    if d.len() > 0 && all_digits(d) && number(d) <= usize::MAX {
        Some(number(d) as usize)
    } else {
        None
    }
}

proof fn number_grows(s: Seq<char>, n: int)
    requires
        0 <= n <= s.len(),
        all_digits(s),
    ensures
        number(s.take(n)) <= number(s),
    decreases s.len() - n,
{
    if n < s.len() {
        number_grows(s, n + 1);
        assert(s.take(n + 1).drop_last() =~= s.take(n));
        assert('0' <= s[n]);
    } else {
        assert(s.take(n) =~= s);
    }
}

/// The machine number that a text writes, when it writes one: an optional plus
/// sign and decimal digits.
pub fn parse_usize(v: &Vec<char>) -> (r: Option<usize>)
    ensures
        r == parsed(v@),
{
    let first: usize = if v.len() > 1 && v[0] == '+' {
        1
    } else {
        0
    };
    let ghost d = unsigned_digits(v@);
    if v.len() == 0 {
        return None;
    }
    let mut value: usize = 0;
    let mut i: usize = first;
    assert(d.take(0) =~= Seq::<char>::empty());
    while i < v.len()
        invariant
            first <= i <= v.len(),
            first <= 1,
            d == unsigned_digits(v@),
            first == v@.len() - d.len(),
            d =~= v@.skip(first as int),
            forall|j: int| 0 <= j < i - first ==> '0' <= #[trigger] d[j] <= '9',
            value == number(d.take(i - first)),
        decreases v.len() - i,
    {
        let c: char = v[i];
        proof {
            assert(d[i - first] == c);
            assert(d.take(i - first + 1).drop_last() =~= d.take(i - first));
            if all_digits(d) {
                number_grows(d, i - first + 1);
            }
        }
        if c < '0' || c > '9' {
            return None;
        }
        let digit: usize = (c as u32 - 48) as usize;
        if value > (usize::MAX - digit) / 10 {
            proof {
                assert(value * 10 + digit > usize::MAX);
            }
            return None;
        }
        value = value * 10 + digit;
        i = i + 1;
    }
    proof {
        assert(d.take(d.len() as int) =~= d);
    }
    Some(value)
}

/// `s` with every occurrence of `p`, read from the left, turned into `w`.
pub open spec fn replaced(s: Seq<char>, p: Seq<char>, w: Seq<char>) -> Seq<char>
    decreases s.len(),
{
    if p.len() == 0 || s.len() < p.len() {
        s
    } else if occurs_at(s, p, 0) {
        w + replaced(s.skip(p.len() as int), p, w)
    } else {
        seq![s[0]] + replaced(s.skip(1), p, w)
    }
}

/// Whether `w` occurs nowhere in `v`.
pub open spec fn absent(v: Seq<char>, w: Seq<char>) -> bool {
    forall|k: int| !#[trigger] occurs_at(v, w, k)
}

/// What lacks one of its characters does not occur.
pub proof fn absent_without(v: Seq<char>, w: Seq<char>, c: char)
    requires
        w.contains(c),
        !v.contains(c),
    ensures
        absent(v, w),
{
    let j = w.index_of(c);
    assert forall|k: int| !#[trigger] occurs_at(v, w, k) by {
        if occurs_at(v, w, k) {
            assert(v.subrange(k, k + w.len())[j] == c);
            assert(v[k + j] == c);
        }
    }
}

/// What occurs in neither of two texts does not occur across them, where the
/// character on one side of the seam is not of it.
pub proof fn absent_across(a: Seq<char>, b: Seq<char>, w: Seq<char>)
    requires
        absent(a, w),
        absent(b, w),
        a.len() == 0 || !w.contains(a.last()) || b.len() == 0 || !w.contains(b[0]),
    ensures
        absent(a + b, w),
{
    let v = a + b;
    assert forall|k: int| !#[trigger] occurs_at(v, w, k) by {
        if occurs_at(v, w, k) {
            let n = a.len();
            if k + w.len() <= n {
                assert(a.subrange(k, k + w.len()) =~= v.subrange(k, k + w.len()));
                assert(occurs_at(a, w, k));
            } else if k >= n {
                assert(b.subrange(k - n, k - n + w.len()) =~= v.subrange(k, k + w.len()));
                assert(occurs_at(b, w, k - n));
            } else {
                assert(w[n - 1 - k] == v.subrange(k, k + w.len())[n - 1 - k]);
                assert(w[n - k] == v.subrange(k, k + w.len())[n - k]);
                assert(w[n - 1 - k] == a.last());
                assert(w[n - k] == b[0]);
            }
        }
    }
}

proof fn replaced_keeps(s: Seq<char>, p: Seq<char>, c: char, m: int)
    requires
        p.len() > 0,
        0 <= m <= replaced(s, p, seq![c]).len(),
        !replaced(s, p, seq![c]).take(m).contains(c),
    ensures
        m <= s.len(),
        replaced(s, p, seq![c]).take(m) == s.take(m),
    decreases s.len(),
{
    let r = replaced(s, p, seq![c]);
    if m == 0 {
        assert(r.take(0) =~= s.take(0));
    } else if s.len() >= p.len() {
        if occurs_at(s, p, 0) {
            assert(r.take(m)[0] == c);
        } else {
            let rest = replaced(s.skip(1), p, seq![c]);
            assert forall|i: int| 0 <= i < m - 1 implies #[trigger] rest.take(m - 1)[i] != c by {
                assert(r.take(m)[i + 1] == rest[i]);
            }
            replaced_keeps(s.skip(1), p, c, m - 1);
            assert(r.take(m) =~= seq![s[0]] + rest.take(m - 1));
            assert(s.take(m) =~= seq![s[0]] + s.skip(1).take(m - 1));
        }
    }
}

/// What is replaced by a character that is not of it does not occur afterwards.
pub proof fn replaced_is_absent(s: Seq<char>, p: Seq<char>, c: char)
    requires
        p.len() > 0,
        !p.contains(c),
    ensures
        absent(replaced(s, p, seq![c]), p),
    decreases s.len(),
{
    let r = replaced(s, p, seq![c]);
    if s.len() >= p.len() {
        if occurs_at(s, p, 0) {
            let rest = replaced(s.skip(p.len() as int), p, seq![c]);
            replaced_is_absent(s.skip(p.len() as int), p, c);
            assert(!seq![c].contains(p[0]));
            absent_without(seq![c], p, p[0]);
            absent_across(seq![c], rest, p);
        } else {
            let rest = replaced(s.skip(1), p, seq![c]);
            replaced_is_absent(s.skip(1), p, c);
            assert forall|k: int| !#[trigger] occurs_at(r, p, k) by {
                let n = p.len() as int;
                if occurs_at(r, p, k) {
                    if k == 0 {
                        assert(p =~= r.take(n));
                        replaced_keeps(s, p, c, n);
                        assert(s.subrange(0, n) =~= p);
                    } else {
                        assert(rest.subrange(k - 1, k - 1 + n) =~= r.subrange(k, k + n));
                        assert(occurs_at(rest, p, k - 1));
                    }
                }
            }
        }
    }
}

/// The text with every occurrence of `pattern`, read from the left, turned into
/// `with`.
pub fn replace(text: &str, pattern: &str, with: &str) -> (r: String)
    requires
        pattern@.len() > 0,
    ensures
        r@ == replaced(text@, pattern@, with@),
{
    let v = chars_of(text);
    let p = chars_of(pattern);
    let mut out = String::new();
    let mut i: usize = 0;
    assert(v@.skip(0) =~= v@);
    assert(out@ + replaced(v@.skip(0), p@, with@) =~= replaced(v@, p@, with@));
    while i < v.len() && v.len() - i >= p.len()
        invariant
            i <= v.len(),
            p@.len() > 0,
            out@ + replaced(v@.skip(i as int), p@, with@) == replaced(v@, p@, with@),
        decreases v.len() - i,
    {
        let ghost rest = v@.skip(i as int);
        let ghost before = out@;
        proof {
            assert(rest.subrange(0, p@.len() as int) =~= v@.subrange(i as int, i + p@.len()));
        }
        if matches_at(&v, &p, i) {
            out.append(with);
            proof {
                assert(rest.skip(p@.len() as int) =~= v@.skip(i + p@.len()));
                assert(out@ + replaced(v@.skip(i + p@.len()), p@, with@) =~= before + replaced(
                    rest,
                    p@,
                    with@,
                ));
            }
            i = i + p.len();
        } else {
            out.push(v[i]);
            proof {
                assert(rest.skip(1) =~= v@.skip(i + 1));
                assert(out@ + replaced(v@.skip(i + 1), p@, with@) =~= before + replaced(
                    rest,
                    p@,
                    with@,
                ));
            }
            i = i + 1;
        }
    }
    let ghost tail = v@.skip(i as int);
    let ghost before = out@;
    let mut j: usize = i;
    assert(tail.take(0) =~= Seq::<char>::empty());
    assert(out@ =~= before + tail.take(0));
    while j < v.len()
        invariant
            i <= j <= v.len(),
            tail == v@.skip(i as int),
            out@ == before + tail.take(j - i),
        decreases v.len() - j,
    {
        out.push(v[j]);
        j = j + 1;
        assert(out@ =~= before + tail.take(j - i));
    }
    assert(tail.take(j - i) =~= tail);
    out
}

} // verus!
