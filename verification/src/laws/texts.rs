//! How numbers and lists are written, read and ordered as text.

use vstd::prelude::*;

use vstd::string::*;

use crate::chars::{absent, all_digits, number, occurs_at, parsed, replaced};
use crate::config::thousands;
use crate::order::{
    ascending, before, before_irreflexive, before_total, before_transitive, placed, sorted,
};
use crate::text::{
    decimal, decimal_is_digits, digit, joined, left_aligned, noted, prefixed, right_aligned,
};

verus! {

/// A decimal ends in the last digit of the number, behind the decimal of the rest.
pub proof fn decimals_end_in_the_last_digit(n: nat)
    ensures
        decimal(n).len() > 0,
        decimal(n).last() as u32 == 48 + n % 10,
        n < 10 ==> decimal(n).len() == 1,
        n >= 10 ==> decimal(n).drop_last() == decimal(n / 10),
{
    let d = n % 10;
    assert(digit(d) as u32 == 48 + d);
    if n >= 10 {
        assert(decimal(n).drop_last() =~= decimal(n / 10));
    }
}

/// A decimal has no leading zero.
pub proof fn decimals_have_no_leading_zero(n: nat)
    requires
        n > 0,
    ensures
        decimal(n)[0] != '0',
    decreases n,
{
    if n >= 10 {
        decimals_have_no_leading_zero(n / 10);
        decimals_end_in_the_last_digit(n / 10);
    } else {
        assert(digit(n) as u32 == 48 + n);
    }
}

/// A decimal reads back as its number.
pub proof fn decimals_read_back(n: nat)
    ensures
        number(decimal(n)) == n,
        n <= usize::MAX ==> parsed(decimal(n)) == Some(n as usize),
        n <= usize::MAX ==> parsed(seq!['+'] + decimal(n)) == Some(n as usize),
        n > usize::MAX ==> parsed(decimal(n)) is None,
    decreases n,
{
    reveal_with_fuel(number, 2);
    decimals_end_in_the_last_digit(n);
    decimal_is_digits(n);
    if n >= 10 {
        decimals_read_back(n / 10);
    } else {
        assert(decimal(n).drop_last() =~= Seq::<char>::empty());
    }
    let d = decimal(n);
    assert('0' <= d[0] <= '9');
    assert((seq!['+'] + d).skip(1) =~= d);
}

/// One more digit is ten times the number and the digit.
pub proof fn digits_are_worth_ten_times(s: Seq<char>, c: char)
    requires
        '0' <= c <= '9',
    ensures
        number(Seq::<char>::empty()) == 0,
        number(s.push(c)) == number(s) * 10 + (c as u32 - 48),
{
    assert(s.push(c).drop_last() =~= s);
}

/// What is read as a number is digits, with at most a plus sign before them, and
/// at least one.
pub proof fn only_digits_are_read(s: Seq<char>)
    ensures
        parsed(s) is Some ==> s.len() > 0,
        parsed(s) is Some ==> forall|i: int|
            0 <= i < s.len() ==> ('0' <= #[trigger] s[i] <= '9' || (i == 0 && s[i] == '+'
                && s.len() > 1)),
        all_digits(s) && s.len() > 0 && number(s) <= usize::MAX ==> parsed(s) == Some(
            number(s) as usize,
        ),
        all_digits(s) <==> forall|i: int| 0 <= i < s.len() ==> '0' <= #[trigger] s[i] <= '9',
{
    if parsed(s) is Some {
        if s.len() > 1 && s[0] == '+' {
            assert forall|i: int| 0 < i < s.len() implies '0' <= #[trigger] s[i] <= '9' by {
                assert(s.skip(1)[i - 1] == s[i]);
            }
        }
    }
    if all_digits(s) && s.len() > 0 {
        assert('0' <= s[0]);
    }
}

/// Digits are grouped by three from the right, with a comma between groups.
pub proof fn digits_are_grouped_by_three(n: nat)
    ensures
        n < 1000 ==> thousands(n) == decimal(n),
        n >= 1000 ==> {
            let t = thousands(n);
            let k = t.len() - 4;
            &&& k >= 1
            &&& t.take(k) == thousands(n / 1000)
            &&& t[k] == ','
            &&& t[k + 1] as u32 == 48 + n / 100 % 10
            &&& t[k + 2] as u32 == 48 + n / 10 % 10
            &&& t[k + 3] as u32 == 48 + n % 10
        },
    decreases n,
{
    if n >= 1000 {
        let front = thousands(n / 1000);
        digits_are_grouped_by_three(n / 1000);
        decimals_end_in_the_last_digit(n / 1000);
        assert(thousands(n).take(front.len() as int) =~= front);
        assert(digit(n / 100 % 10) as u32 == 48 + n / 100 % 10);
        assert(digit(n / 10 % 10) as u32 == 48 + n / 10 % 10);
        assert(digit(n % 10) as u32 == 48 + n % 10);
    }
}

/// A text in a column stands at its edge, with blanks up to the width.
pub proof fn columns_are_filled_with_blanks(s: Seq<char>, width: nat)
    ensures
        left_aligned(s, width).len() == if s.len() < width {
            width
        } else {
            s.len()
        },
        right_aligned(s, width).len() == left_aligned(s, width).len(),
        left_aligned(s, width).take(s.len() as int) == s,
        right_aligned(s, width).skip(right_aligned(s, width).len() - s.len()) == s,
        forall|i: int|
            s.len() <= i < left_aligned(s, width).len() ==> #[trigger] left_aligned(s, width)[i]
                == ' ',
        forall|i: int|
            0 <= i < right_aligned(s, width).len() - s.len() ==> #[trigger] right_aligned(
                s,
                width,
            )[i] == ' ',
{
    assert(left_aligned(s, width).take(s.len() as int) =~= s);
    assert(right_aligned(s, width).skip(right_aligned(s, width).len() - s.len()) =~= s);
}

/// A separator stands between neighbours and nowhere else.
pub proof fn separators_stand_between(items: Seq<Seq<char>>, item: Seq<char>, sep: Seq<char>)
    ensures
        joined(Seq::<Seq<char>>::empty(), sep) == Seq::<char>::empty(),
        joined(seq![item], sep) == item,
        items.len() > 0 ==> joined(items.push(item), sep) == joined(items, sep) + sep + item,
{
    assert(items.push(item).drop_last() =~= items);
}

/// Every item stands behind the prefix, in its place; what was not found leaves
/// nothing.
pub proof fn items_stand_behind_the_prefix(
    prefix: Seq<char>,
    items: Seq<Seq<char>>,
    i: int,
    item: Seq<char>,
)
    requires
        0 <= i < items.len(),
    ensures
        prefixed(prefix, items).len() == items.len(),
        prefixed(prefix, items)[i] == prefix + items[i],
        noted(true, item) == seq![item],
        noted(false, item) == Seq::<Seq<char>>::empty(),
{
    reveal(noted);
}

/// A text comes before its continuations, and the first character that differs
/// decides.
pub proof fn the_first_difference_decides(
    p: Seq<char>,
    x: char,
    y: char,
    a: Seq<char>,
    b: Seq<char>,
)
    requires
        x != y,
    ensures
        before(p, p + seq![x] + a),
        !before(p + seq![x] + a, p),
        before(p + seq![x] + a, p + seq![y] + b) <==> x < y,
    decreases p.len(),
{
    let s = p + seq![x] + a;
    let t = p + seq![y] + b;
    if p.len() > 0 {
        let q = p.drop_first();
        the_first_difference_decides(q, x, y, a, b);
        assert(s.drop_first() =~= q + seq![x] + a);
        assert(t.drop_first() =~= q + seq![y] + b);
    } else {
        assert(s[0] == x);
        assert(t[0] == y);
    }
}

proof fn placing_keeps_order(list: Seq<Seq<char>>, s: Seq<char>)
    requires
        ascending(list),
    ensures
        ascending(placed(list, s)),
        placed(list, s).to_multiset() == list.to_multiset().insert(s),
        forall|i: int|
            0 <= i < placed(list, s).len() ==> (#[trigger] placed(list, s)[i] == s
                || list.contains(placed(list, s)[i])),
        placed(list, s).len() == list.len() + 1,
    decreases list.len(),
{
    broadcast use vstd::seq_lib::group_to_multiset_ensures;

    let now = placed(list, s);
    if list.len() == 0 || !before(s, list.last()) {
        assert forall|i: int, j: int| 0 <= i < j < now.len() implies !before(
            #[trigger] now[j],
            #[trigger] now[i],
        ) by {
            if j == list.len() {
                let last = list.last();
                if before(s, list[i]) {
                    if i < list.len() - 1 {
                        assert(!before(list[list.len() - 1], list[i]));
                        before_total(last, list[i]);
                        if last != list[i] {
                            before_transitive(s, list[i], last);
                        }
                    }
                }
            } else {
                assert(!before(list[j], list[i]));
            }
        }
        assert forall|i: int| 0 <= i < now.len() implies (#[trigger] now[i] == s
            || list.contains(now[i])) by {
            if i < list.len() {
                assert(list[i] == now[i]);
            }
        }
    } else {
        let front = list.drop_last();
        let last = list.last();
        assert forall|i: int, j: int| 0 <= i < j < front.len() implies !before(
            #[trigger] front[j],
            #[trigger] front[i],
        ) by {
            assert(!before(list[j], list[i]));
        }
        placing_keeps_order(front, s);
        let inner = placed(front, s);
        assert(list =~= front.push(last));
        assert forall|i: int| 0 <= i < now.len() implies (#[trigger] now[i] == s
            || list.contains(now[i])) by {
            if i < inner.len() {
                assert(now[i] == inner[i]);
                if inner[i] != s {
                    let k = choose|k: int| 0 <= k < front.len() && front[k] == inner[i];
                    assert(list[k] == inner[i]);
                }
            } else {
                assert(list[list.len() - 1] == now[i]);
            }
        }
        assert forall|i: int, j: int| 0 <= i < j < now.len() implies !before(
            #[trigger] now[j],
            #[trigger] now[i],
        ) by {
            if j < inner.len() {
                assert(!before(inner[j], inner[i]));
            } else {
                assert(now[j] == last);
                assert(now[i] == inner[i]);
                if inner[i] == s {
                    if before(last, s) {
                        before_transitive(s, last, s);
                        before_irreflexive(s);
                    }
                } else {
                    let k = choose|k: int| 0 <= k < front.len() && front[k] == inner[i];
                    assert(!before(list[list.len() - 1], list[k]));
                }
            }
        }
    }
}

/// Sorting puts every text where none behind it comes before it, and keeps each
/// as often as it was there.
pub proof fn sorting_orders_and_keeps(v: Seq<Seq<char>>)
    ensures
        sorted(v).to_multiset() == v.to_multiset(),
        forall|i: int, j: int|
            0 <= i < j < sorted(v).len() ==> !before(#[trigger] sorted(v)[j], #[trigger] sorted(
                v,
            )[i]),
    decreases v.len(),
{
    broadcast use vstd::seq_lib::group_to_multiset_ensures;

    if v.len() == 0 {
        assert(sorted(v) =~= v);
    } else {
        let front = v.drop_last();
        sorting_orders_and_keeps(front);
        placing_keeps_order(sorted(front), v.last());
        assert(v =~= front.push(v.last()));
    }
}

/// A pattern occurs where its characters stand one by one.
pub proof fn patterns_occur_character_by_character(v: Seq<char>, w: Seq<char>, at: int)
    ensures
        occurs_at(v, w, at) <==> (0 <= at && at + w.len() <= v.len() && forall|i: int|
            0 <= i < w.len() ==> v[at + i] == #[trigger] w[i]),
        absent(v, w) <==> forall|k: int| !#[trigger] occurs_at(v, w, k),
{
    if occurs_at(v, w, at) {
        assert forall|i: int| 0 <= i < w.len() implies v[at + i] == #[trigger] w[i] by {
            assert(v.subrange(at, at + w.len())[i] == w[i]);
        }
    } else if 0 <= at && at + w.len() <= v.len() {
        if forall|i: int| 0 <= i < w.len() ==> v[at + i] == #[trigger] w[i] {
            assert(v.subrange(at, at + w.len()) =~= w);
        }
    }
}

/// A text without the pattern is left as it is.
pub proof fn replacing_nothing_changes_nothing(s: Seq<char>, p: Seq<char>, w: Seq<char>)
    requires
        p.len() > 0,
        absent(s, p),
    ensures
        replaced(s, p, w) == s,
    decreases s.len(),
{
    if s.len() >= p.len() {
        let rest = s.skip(1);
        assert(!occurs_at(s, p, 0));
        assert forall|k: int| !#[trigger] occurs_at(rest, p, k) by {
            if occurs_at(rest, p, k) {
                assert(rest.subrange(k, k + p.len()) =~= s.subrange(k + 1, k + 1 + p.len()));
                assert(occurs_at(s, p, k + 1));
            }
        }
        replacing_nothing_changes_nothing(rest, p, w);
        assert(seq![s[0]] + rest =~= s);
    }
}

/// The first occurrence of the pattern is replaced, and what is behind it on its
/// own.
pub proof fn the_first_occurrence_is_replaced(
    a: Seq<char>,
    p: Seq<char>,
    b: Seq<char>,
    w: Seq<char>,
)
    requires
        p.len() > 0,
        forall|k: int| 0 <= k < a.len() ==> !#[trigger] occurs_at(a + p + b, p, k),
    ensures
        replaced(a + p + b, p, w) == a + w + replaced(b, p, w),
    decreases a.len(),
{
    let s = a + p + b;
    let n = p.len() as int;
    if a.len() == 0 {
        assert(s.subrange(0, n) =~= p);
        assert(s.skip(n) =~= b);
        assert(a + w + replaced(b, p, w) =~= w + replaced(b, p, w));
    } else {
        let front = a.drop_first();
        assert(s.skip(1) =~= front + p + b);
        assert(!occurs_at(s, p, 0));
        assert forall|k: int| 0 <= k < front.len() implies !#[trigger] occurs_at(
            front + p + b,
            p,
            k,
        ) by {
            let rest = front + p + b;
            if occurs_at(rest, p, k) {
                assert(rest.subrange(k, k + n) =~= s.subrange(k + 1, k + 1 + n));
                assert(occurs_at(s, p, k + 1));
            }
        }
        the_first_occurrence_is_replaced(front, p, b, w);
        assert(seq![s[0]] + (front + w + replaced(b, p, w)) =~= a + w + replaced(b, p, w));
    }
}

} // verus!
