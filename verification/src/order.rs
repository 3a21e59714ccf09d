//! Orders: texts by their characters, positions by their keys.

use vstd::prelude::*;

use vstd::string::*;

use crate::chars::chars_of;
use crate::number::{total_order, total_order64};
use crate::text::texts;

verus! {

/// Whether `a` comes before `b`: the first character that differs decides, and
/// a text comes before its continuations.
pub open spec fn before(a: Seq<char>, b: Seq<char>) -> bool
    decreases a.len(),
{
    if b.len() == 0 {
        false
    } else if a.len() == 0 {
        true
    } else if a[0] != b[0] {
        a[0] < b[0]
    } else {
        before(a.drop_first(), b.drop_first())
    }
}

/// No text comes before itself.
pub proof fn before_irreflexive(a: Seq<char>)
    ensures
        !before(a, a),
    decreases a.len(),
{
    if a.len() > 0 {
        before_irreflexive(a.drop_first());
    }
}

/// The order is transitive.
pub proof fn before_transitive(a: Seq<char>, b: Seq<char>, c: Seq<char>)
    requires
        before(a, b),
        before(b, c),
    ensures
        before(a, c),
    decreases a.len(),
{
    if a.len() > 0 && a[0] == b[0] && b[0] == c[0] {
        before_transitive(a.drop_first(), b.drop_first(), c.drop_first());
    }
}

/// Of two different texts, one comes before the other.
pub proof fn before_total(a: Seq<char>, b: Seq<char>)
    ensures
        a == b || before(a, b) || before(b, a),
    decreases a.len(),
{
    if a.len() == 0 || b.len() == 0 {
        if a.len() == b.len() {
            assert(a =~= b);
        }
    } else if a[0] == b[0] {
        before_total(a.drop_first(), b.drop_first());
        if a.drop_first() == b.drop_first() {
            assert(a =~= seq![a[0]] + a.drop_first());
            assert(b =~= seq![b[0]] + b.drop_first());
        }
    }
}

/// Whether `a` comes before `b`.
pub fn comes_before(a: &str, b: &str) -> (r: bool)
    ensures
        r == before(a@, b@),
{
    let x = chars_of(a);
    let y = chars_of(b);
    let mut i: usize = 0;
    assert(x@.skip(0) =~= x@);
    assert(y@.skip(0) =~= y@);
    loop
        invariant
            i <= x@.len(),
            i <= y@.len(),
            x@ == a@,
            y@ == b@,
            before(x@.skip(i as int), y@.skip(i as int)) == before(a@, b@),
        decreases x@.len() - i,
    {
        if i >= y.len() {
            return false;
        }
        if i >= x.len() {
            return true;
        }
        if x[i] != y[i] {
            return x[i] < y[i];
        }
        proof {
            assert(x@.skip(i as int).drop_first() =~= x@.skip(i + 1));
            assert(y@.skip(i as int).drop_first() =~= y@.skip(i + 1));
        }
        i = i + 1;
    }
}

/// Whether no text comes before an earlier one.
pub open spec fn ascending(v: Seq<Seq<char>>) -> bool {
    forall|i: int, j: int| 0 <= i < j < v.len() ==> !before(#[trigger] v[j], #[trigger] v[i])
}

/// A text put in its place in an ascending list: behind everything that does not
/// come after it.
pub open spec fn placed(list: Seq<Seq<char>>, s: Seq<char>) -> Seq<Seq<char>>
    decreases list.len(),
{
    if list.len() == 0 || !before(s, list.last()) {
        list.push(s)
    } else {
        placed(list.drop_last(), s).push(list.last())
    }
}

/// The texts in ascending order.
pub open spec fn sorted(v: Seq<Seq<char>>) -> Seq<Seq<char>>
    decreases v.len(),
{
    if v.len() == 0 {
        Seq::empty()
    } else {
        placed(sorted(v.drop_last()), v.last())
    }
}

proof fn placed_at(list: Seq<Seq<char>>, s: Seq<char>, i: int)
    requires
        0 <= i <= list.len(),
        i > 0 ==> !before(s, list[i - 1]),
        forall|j: int| i <= j < list.len() ==> before(s, #[trigger] list[j]),
    ensures
        placed(list, s) == list.insert(i, s),
    decreases list.len(),
{
    if i < list.len() {
        assert(before(s, list[list.len() - 1]));
        placed_at(list.drop_last(), s, i);
        assert(list.drop_last().insert(i, s).push(list.last()) =~= list.insert(i, s));
    } else {
        assert(list.push(s) =~= list.insert(i, s));
    }
}

/// Puts a text in its place in an ascending list.
fn insert_text(list: &mut Vec<String>, s: String)
    requires
        ascending(texts(old(list)@)),
    ensures
        texts(final(list)@) == placed(texts(old(list)@), s@),
        ascending(texts(final(list)@)),
        texts(final(list)@).to_multiset() == texts(old(list)@).to_multiset().insert(s@),
{
    let ghost old_texts = texts(list@);
    let mut i: usize = list.len();
    while i > 0 && comes_before(s.as_str(), list[i - 1].as_str())
        invariant
            i <= list@.len(),
            old_texts == texts(list@),
            forall|j: int| i <= j < list@.len() ==> before(s@, #[trigger] old_texts[j]),
        decreases i,
    {
        i = i - 1;
        assert(before(s@, old_texts[i as int]));
    }
    let ghost t = s@;
    list.insert(i, s);
    proof {
        let now = texts(list@);
        assert(now =~= old_texts.insert(i as int, t));
        placed_at(old_texts, t, i as int);
        old_texts.to_multiset_ensures();
        vstd::seq_lib::to_multiset_insert(old_texts, i as int, t);
        assert forall|a: int, b: int| 0 <= a < b < now.len() implies !before(
            #[trigger] now[b],
            #[trigger] now[a],
        ) by {
            let a0 = if a < i { a } else { a - 1 };
            let b0 = if b < i { b } else { b - 1 };
            if a == i {
                assert(before(t, old_texts[b0]));
                if before(now[b], t) {
                    before_transitive(now[b], t, now[b]);
                    before_irreflexive(now[b]);
                }
            } else if b == i {
                assert(!before(t, old_texts[i - 1]));
                if before(t, now[a]) {
                    if a < i - 1 {
                        assert(!before(old_texts[i - 1], old_texts[a]));
                        before_total(old_texts[i - 1], old_texts[a]);
                        if old_texts[i - 1] != old_texts[a] {
                            before_transitive(t, old_texts[a], old_texts[i - 1]);
                        }
                    }
                }
            } else {
                assert(now[a] == old_texts[a0]);
                assert(now[b] == old_texts[b0]);
            }
        }
    }
}

/// The texts in ascending order.
pub fn sorted_texts(names: Vec<String>) -> (r: Vec<String>)
    ensures
        texts(r@) == sorted(texts(names@)),
        ascending(texts(r@)),
        texts(r@).to_multiset() == texts(names@).to_multiset(),
{
    let mut r: Vec<String> = Vec::new();
    let mut i: usize = 0;
    proof {
        assert(texts(r@) =~= texts(names@.take(0)));
    }
    while i < names.len()
        invariant
            i <= names@.len(),
            texts(r@) == sorted(texts(names@.take(i as int))),
            ascending(texts(r@)),
            texts(r@).to_multiset() == texts(names@.take(i as int)).to_multiset(),
        decreases names@.len() - i,
    {
        let ghost t = texts(names@.take(i as int));
        insert_text(&mut r, names[i].clone());
        proof {
            let next = texts(names@.take(i + 1));
            assert(next =~= t.push(names@[i as int]@));
            assert(next.drop_last() =~= t);
            t.to_multiset_ensures();
        }
        i = i + 1;
    }
    assert(names@.take(i as int) =~= names@);
    r
}

/// Whether position `a` comes before position `b` when positions are ordered by
/// their keys and, among equal keys, by themselves.
pub open spec fn ranks_before(keys: Seq<i64>, a: int, b: int) -> bool {
    keys[a] < keys[b] || (keys[a] == keys[b] && a < b)
}

/// Whether `r` lists the positions from `lo` up to `hi` in that order, each once.
pub open spec fn ranks_range(keys: Seq<i64>, r: Seq<usize>, lo: int, hi: int) -> bool {
    &&& r.len() == hi - lo
    &&& forall|i: int| 0 <= i < r.len() ==> lo <= #[trigger] r[i] < hi
    &&& forall|i: int, j: int|
        0 <= i < j < r.len() ==> ranks_before(
            keys,
            (#[trigger] r[i]) as int,
            (#[trigger] r[j]) as int,
        )
    &&& forall|k: usize| lo <= k < hi ==> #[trigger] r.contains(k)
}

/// Whether `r` lists the positions of the keys in ascending order of the keys,
/// equal keys in their own order, each position once.
pub open spec fn is_ranking(keys: Seq<i64>, r: Seq<usize>) -> bool {
    ranks_range(keys, r, 0, keys.len() as int)
}

/// Merges the rankings of two neighbouring ranges.
fn merge_rankings(
    keys: &Vec<i64>,
    a: &Vec<usize>,
    b: &Vec<usize>,
    Ghost(lo): Ghost<int>,
    Ghost(mid): Ghost<int>,
    Ghost(hi): Ghost<int>,
) -> (r: Vec<usize>)
    requires
        0 <= lo <= mid <= hi <= keys@.len(),
        ranks_range(keys@, a@, lo, mid),
        ranks_range(keys@, b@, mid, hi),
    ensures
        ranks_range(keys@, r@, lo, hi),
{
    let mut r: Vec<usize> = Vec::new();
    let mut i: usize = 0;
    let mut j: usize = 0;
    while i < a.len() || j < b.len()
        invariant
            0 <= lo <= mid <= hi <= keys@.len(),
            ranks_range(keys@, a@, lo, mid),
            ranks_range(keys@, b@, mid, hi),
            i <= a@.len(),
            j <= b@.len(),
            r@.len() == i + j,
            forall|p: int| 0 <= p < r@.len() ==> lo <= #[trigger] r@[p] < hi,
            forall|p: int, q: int|
                0 <= p < q < r@.len() ==> ranks_before(
                    keys@,
                    (#[trigger] r@[p]) as int,
                    (#[trigger] r@[q]) as int,
                ),
            forall|p: int, q: int|
                0 <= p < r@.len() && i <= q < a@.len() ==> ranks_before(
                    keys@,
                    (#[trigger] r@[p]) as int,
                    (#[trigger] a@[q]) as int,
                ),
            forall|p: int, q: int|
                0 <= p < r@.len() && j <= q < b@.len() ==> ranks_before(
                    keys@,
                    (#[trigger] r@[p]) as int,
                    (#[trigger] b@[q]) as int,
                ),
            forall|q: int| 0 <= q < i ==> r@.contains(#[trigger] a@[q]),
            forall|q: int| 0 <= q < j ==> r@.contains(#[trigger] b@[q]),
        decreases a@.len() - i + b@.len() - j,
    {
        let ghost old_r = r@;
        let left: bool = i < a.len() && (j >= b.len() || keys[a[i]] <= keys[b[j]]);
        if left {
            let x: usize = a[i];
            r.push(x);
            proof {
                assert forall|q: int| 0 <= q < i + 1 implies r@.contains(#[trigger] a@[q]) by {
                    if q < i {
                        kept_in(old_r, x, a@[q]);
                    } else {
                        assert(r@[old_r.len() as int] == x);
                    }
                }
                assert forall|q: int| 0 <= q < j implies r@.contains(#[trigger] b@[q]) by {
                    kept_in(old_r, x, b@[q]);
                }
                assert forall|p: int, q: int|
                    0 <= p < r@.len() && j <= q < b@.len() implies ranks_before(
                    keys@,
                    (#[trigger] r@[p]) as int,
                    (#[trigger] b@[q]) as int,
                ) by {
                    if p == old_r.len() {
                        if q > j {
                            assert(ranks_before(keys@, b@[j as int] as int, b@[q] as int));
                        }
                    } else {
                        assert(r@[p] == old_r[p]);
                    }
                }
                assert forall|p: int, q: int|
                    0 <= p < r@.len() && i + 1 <= q < a@.len() implies ranks_before(
                    keys@,
                    (#[trigger] r@[p]) as int,
                    (#[trigger] a@[q]) as int,
                ) by {
                    if p < old_r.len() {
                        assert(r@[p] == old_r[p]);
                    } else {
                        assert(ranks_before(keys@, a@[i as int] as int, a@[q] as int));
                    }
                }
            }
            i = i + 1;
        } else {
            let y: usize = b[j];
            r.push(y);
            proof {
                assert forall|q: int| 0 <= q < j + 1 implies r@.contains(#[trigger] b@[q]) by {
                    if q < j {
                        kept_in(old_r, y, b@[q]);
                    } else {
                        assert(r@[old_r.len() as int] == y);
                    }
                }
                assert forall|q: int| 0 <= q < i implies r@.contains(#[trigger] a@[q]) by {
                    kept_in(old_r, y, a@[q]);
                }
                assert forall|p: int, q: int|
                    0 <= p < r@.len() && i <= q < a@.len() implies ranks_before(
                    keys@,
                    (#[trigger] r@[p]) as int,
                    (#[trigger] a@[q]) as int,
                ) by {
                    if p == old_r.len() {
                        if q > i {
                            assert(ranks_before(keys@, a@[i as int] as int, a@[q] as int));
                        }
                    } else {
                        assert(r@[p] == old_r[p]);
                    }
                }
                assert forall|p: int, q: int|
                    0 <= p < r@.len() && j + 1 <= q < b@.len() implies ranks_before(
                    keys@,
                    (#[trigger] r@[p]) as int,
                    (#[trigger] b@[q]) as int,
                ) by {
                    if p < old_r.len() {
                        assert(r@[p] == old_r[p]);
                    } else {
                        assert(ranks_before(keys@, b@[j as int] as int, b@[q] as int));
                    }
                }
            }
            j = j + 1;
        }
    }
    proof {
        assert forall|k: usize| lo <= k < hi implies #[trigger] r@.contains(k) by {
            if k < mid {
                assert(a@.contains(k));
                let q = choose|q: int| 0 <= q < a@.len() && a@[q] == k;
                assert(r@.contains(a@[q]));
            } else {
                assert(b@.contains(k));
                let q = choose|q: int| 0 <= q < b@.len() && b@[q] == k;
                assert(r@.contains(b@[q]));
            }
        }
    }
    r
}

/// What a list holds, it holds with one more item.
proof fn kept_in(s: Seq<usize>, x: usize, y: usize)
    requires
        s.contains(y),
    ensures
        s.push(x).contains(y),
{
    let p = choose|p: int| 0 <= p < s.len() && s[p] == y;
    assert(s.push(x)[p] == y);
}

/// The ranking of the positions from `lo` up to `hi`.
fn rank_range(keys: &Vec<i64>, lo: usize, hi: usize) -> (r: Vec<usize>)
    requires
        lo <= hi <= keys@.len(),
    ensures
        ranks_range(keys@, r@, lo as int, hi as int),
    decreases hi - lo,
{
    if hi - lo == 0 {
        Vec::new()
    } else if hi - lo == 1 {
        let mut r: Vec<usize> = Vec::new();
        r.push(lo);
        assert(r@[0] == lo);
        r
    } else {
        let mid: usize = lo + (hi - lo) / 2;
        let a = rank_range(keys, lo, mid);
        let b = rank_range(keys, mid, hi);
        merge_rankings(keys, &a, &b, Ghost(lo as int), Ghost(mid as int), Ghost(hi as int))
    }
}

/// The positions of the keys in ascending order of the keys; equal keys keep
/// their order.
pub fn ranked(keys: &Vec<i64>) -> (r: Vec<usize>)
    ensures
        is_ranking(keys@, r@),
{
    rank_range(keys, 0, keys.len())
}

/// The integers that order double-precision bit patterns totally.
pub open spec fn total_orders(bits: Seq<u64>) -> Seq<i64> {
    bits.map_values(|b: u64| total_order64(b) as i64)
}

/// The positions of double-precision numbers, given by their bits, in ascending
/// order; equal ones keep their order.
pub fn ranked_numbers(bits: &Vec<u64>) -> (r: Vec<usize>)
    ensures
        is_ranking(total_orders(bits@), r@),
{
    let mut keys: Vec<i64> = Vec::new();
    let mut i: usize = 0;
    while i < bits.len()
        invariant
            i <= bits@.len(),
            keys@ =~= total_orders(bits@).take(i as int),
        decreases bits@.len() - i,
    {
        keys.push(total_order(bits[i]));
        i = i + 1;
    }
    assert(keys@ =~= total_orders(bits@));
    ranked(&keys)
}

/// There is one ranking.
pub proof fn ranking_is_unique(keys: Seq<i64>, a: Seq<usize>, b: Seq<usize>)
    requires
        is_ranking(keys, a),
        is_ranking(keys, b),
    ensures
        a == b,
{
    assert forall|n: int| 0 <= n <= a.len() implies #[trigger] a.take(n) == b.take(n) by {
        rankings_agree(keys, a, b, n);
    }
    assert(a.take(a.len() as int) =~= a);
    assert(b.take(a.len() as int) =~= b);
}

proof fn rankings_agree(keys: Seq<i64>, a: Seq<usize>, b: Seq<usize>, n: int)
    requires
        is_ranking(keys, a),
        is_ranking(keys, b),
        0 <= n <= a.len(),
    ensures
        a.take(n) == b.take(n),
    decreases n,
{
    if n > 0 {
        rankings_agree(keys, a, b, n - 1);
        assert forall|p: int| 0 <= p < n - 1 implies #[trigger] a[p] == b[p] by {
            assert(a.take(n - 1)[p] == b.take(n - 1)[p]);
        }
        let x = a[n - 1];
        let y = b[n - 1];
        if x != y {
            assert(b.contains(x));
            assert(a.contains(y));
            let q = choose|q: int| 0 <= q < b.len() && b[q] == x;
            let p = choose|p: int| 0 <= p < a.len() && a[p] == y;
            if q < n - 1 {
                assert(a[q] == x);
                assert(ranks_before(keys, a[q] as int, a[n - 1] as int));
            }
            if p < n - 1 {
                assert(b[p] == y);
                assert(ranks_before(keys, b[p] as int, b[n - 1] as int));
            }
            assert(ranks_before(keys, b[n - 1] as int, b[q] as int));
            assert(ranks_before(keys, a[n - 1] as int, a[p] as int));
        }
        assert(a.take(n) =~= b.take(n));
    }
}

} // verus!
