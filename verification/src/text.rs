//! Text building: decimal numbers, padding and joined lines.

use vstd::prelude::*;

use vstd::string::*;

verus! {

/// `String::push` appends one character.
pub assume_specification[ String::push ](s: &mut String, c: char)
    ensures
        final(s)@ == old(s)@.push(c),
;

/// The strings of a list, as character sequences.
pub open spec fn texts(v: Seq<String>) -> Seq<Seq<char>> {
    v.map_values(|s: String| s@)
}

/// The character that stands for a decimal digit.
pub open spec fn digit(d: nat) -> char {
    (d + 48) as char
}

/// `n` in decimal, without leading zeros.
pub open spec fn decimal(n: nat) -> Seq<char>
    decreases n,
{
    if n < 10 {
        seq![digit(n)]
    } else {
        decimal(n / 10).push(digit(n % 10))
    }
}

/// A decimal is made of digits.
pub proof fn decimal_is_digits(n: nat)
    ensures
        forall|i: int| 0 <= i < decimal(n).len() ==> '0' <= #[trigger] decimal(n)[i] <= '9',
    decreases n,
{
    let last = digit(n % 10);
    assert(last as u32 == n % 10 + 48);
    assert('0' <= last <= '9');
    if n >= 10 {
        let front = decimal(n / 10);
        decimal_is_digits(n / 10);
        assert forall|i: int| 0 <= i < decimal(n).len() implies '0' <= #[trigger] decimal(n)[i]
            <= '9' by {
            if i < front.len() {
                assert(decimal(n)[i] == front[i]);
            }
        }
    } else {
        assert(decimal(n) =~= seq![last]);
    }
}

/// `c`, `n` times over.
pub open spec fn repeated(c: char, n: nat) -> Seq<char> {
    Seq::new(n, |i: int| c)
}

/// The blanks that bring a text of `len` characters up to `width`.
pub open spec fn fill(len: nat, width: nat) -> Seq<char> {
    repeated(' ', if len < width { (width - len) as nat } else { 0 })
}

/// `s` at the left of a column of `width` characters.
pub open spec fn left_aligned(s: Seq<char>, width: nat) -> Seq<char> {
    s + fill(s.len(), width)
}

/// `s` at the right of a column of `width` characters.
pub open spec fn right_aligned(s: Seq<char>, width: nat) -> Seq<char> {
    fill(s.len(), width) + s
}

/// The items joined, with `sep` between neighbours.
pub open spec fn joined(items: Seq<Seq<char>>, sep: Seq<char>) -> Seq<char>
    decreases items.len(),
{
    if items.len() == 0 {
        Seq::empty()
    } else if items.len() == 1 {
        items[0]
    } else {
        joined(items.drop_last(), sep) + sep + items.last()
    }
}

/// Each item behind a prefix.
pub open spec fn prefixed(prefix: Seq<char>, items: Seq<Seq<char>>) -> Seq<Seq<char>> {
    items.map_values(|s: Seq<char>| prefix + s)
}

/// One item when `found`, none otherwise.
#[verifier::opaque]
pub open spec fn noted<T>(found: bool, item: T) -> Seq<T> {
    if found {
        seq![item]
    } else {
        Seq::empty()
    }
}

/// A noted item counts when it was found.
pub broadcast proof fn noted_len<T>(found: bool, item: T)
    ensures
        #[trigger] noted(found, item).len() == if found {
            1int
        } else {
            0
        },
{
    reveal(noted);
}

/// An item that was not found leaves no trace.
pub proof fn noted_absent<T>(a: T, b: T)
    ensures
        noted(false, a) == noted(false, b),
{
    reveal(noted);
}

/// The character of a decimal digit.
pub fn digit_char(d: u8) -> (c: char)
    requires
        d < 10,
    ensures
        c == digit(d as nat),
{
    (d + 48) as char
}

/// Appends `n` in decimal.
pub fn append_decimal(out: &mut String, n: usize)
    ensures
        final(out)@ == old(out)@ + decimal(n as nat),
    decreases n,
{
    if n >= 10 {
        append_decimal(out, n / 10);
    }
    let d: u8 = (n % 10) as u8;
    out.push(digit_char(d));
    assert(out@ =~= old(out)@ + decimal(n as nat));
}

/// `n` in decimal.
pub fn decimal_string(n: usize) -> (s: String)
    ensures
        s@ == decimal(n as nat),
{
    let mut s = String::new();
    append_decimal(&mut s, n);
    assert(s@ =~= decimal(n as nat));
    s
}

/// Appends `c`, `n` times over.
pub fn append_repeated(out: &mut String, c: char, n: usize)
    ensures
        final(out)@ == old(out)@ + repeated(c, n as nat),
{
    let mut i: usize = 0;
    while i < n
        invariant
            i <= n,
            out@ =~= old(out)@ + repeated(c, i as nat),
        decreases n - i,
    {
        out.push(c);
        i = i + 1;
        assert(repeated(c, i as nat) =~= repeated(c, (i - 1) as nat).push(c));
    }
}

/// Appends `s` at the left of a column of `width` characters.
pub fn append_left_aligned(out: &mut String, s: &str, width: usize)
    ensures
        final(out)@ == old(out)@ + left_aligned(s@, width as nat),
{
    let len: usize = s.unicode_len();
    out.append(s);
    if len < width {
        append_repeated(out, ' ', width - len);
    }
    assert(out@ =~= old(out)@ + left_aligned(s@, width as nat));
}

/// Appends `s` at the right of a column of `width` characters.
pub fn append_right_aligned(out: &mut String, s: &str, width: usize)
    ensures
        final(out)@ == old(out)@ + right_aligned(s@, width as nat),
{
    let len: usize = s.unicode_len();
    if len < width {
        append_repeated(out, ' ', width - len);
    }
    out.append(s);
    assert(out@ =~= old(out)@ + right_aligned(s@, width as nat));
}

/// Appends a text to a list of texts.
pub fn push_text(items: &mut Vec<String>, s: String)
    ensures
        final(items)@ == old(items)@.push(s),
        texts(final(items)@) == texts(old(items)@) + seq![s@],
{
    items.push(s);
    assert(texts(items@) =~= texts(old(items)@) + seq![s@]);
}

/// Appends a text to a list of texts when it was `found` to apply.
pub fn note(items: &mut Vec<String>, found: bool, s: String)
    ensures
        texts(final(items)@) == texts(old(items)@) + noted(found, s@),
{
    reveal(noted);
    if found {
        push_text(items, s);
    } else {
        assert(texts(items@) =~= texts(old(items)@) + noted(found, s@));
    }
}

/// Appends every item behind a prefix.
pub fn note_prefixed(out: &mut Vec<String>, prefix: &str, items: &Vec<String>)
    ensures
        texts(final(out)@) == texts(old(out)@) + prefixed(prefix@, texts(items@)),
{
    let mut i: usize = 0;
    let ghost added = prefixed(prefix@, texts(items@));
    assert(texts(out@) =~= texts(old(out)@) + added.take(0));
    while i < items.len()
        invariant
            i <= items.len(),
            added == prefixed(prefix@, texts(items@)),
            texts(out@) == texts(old(out)@) + added.take(i as int),
        decreases items.len() - i,
    {
        let mut s = prefix.to_owned();
        s.append(items[i].as_str());
        push_text(out, s);
        proof {
            assert(added[i as int] == s@);
            assert(added.take(i + 1) =~= added.take(i as int) + seq![s@]);
            assert(texts(out@) =~= texts(old(out)@) + added.take(i + 1));
        }
        i = i + 1;
    }
    assert(added.take(items@.len() as int) =~= added);
}

/// A sentence around one number.
pub fn around_one(a: &str, x: usize, b: &str) -> (s: String)
    ensures
        s@ == a@ + decimal(x as nat) + b@,
{
    let mut s = a.to_owned();
    append_decimal(&mut s, x);
    s.append(b);
    s
}

/// A sentence that ends in a value.
pub fn ending_in(a: &str, value: &String) -> (s: String)
    ensures
        s@ == a@ + value@,
{
    let mut s = a.to_owned();
    s.append(value.as_str());
    s
}

/// A sentence around two numbers.
pub fn around_two(a: &str, x: usize, b: &str, y: usize, c: &str) -> (s: String)
    ensures
        s@ == a@ + decimal(x as nat) + b@ + decimal(y as nat) + c@,
{
    let mut s = around_one(a, x, b);
    append_decimal(&mut s, y);
    s.append(c);
    s
}

/// Joins texts, with `sep` between neighbours.
pub fn join(items: &Vec<String>, sep: &str) -> (s: String)
    ensures
        s@ == joined(texts(items@), sep@),
{
    let mut s = String::new();
    let mut i: usize = 0;
    proof {
        assert(texts(items@.take(0)) =~= Seq::<Seq<char>>::empty());
    }
    while i < items.len()
        invariant
            i <= items.len(),
            s@ == joined(texts(items@.take(i as int)), sep@),
        decreases items.len() - i,
    {
        let ghost so_far = texts(items@.take(i as int));
        let ghost upto = texts(items@.take(i + 1));
        proof {
            assert(upto =~= so_far.push(items@[i as int]@));
            assert(upto.drop_last() =~= so_far);
        }
        if i > 0 {
            s.append(sep);
        }
        s.append(items[i].as_str());
        proof {
            if i == 0 {
                assert(s@ =~= items@[0]@);
            }
        }
        i = i + 1;
    }
    assert(items@.take(items@.len() as int) =~= items@);
    s
}

} // verus!
