//! What the documents of a corpus are to the corpus.

use vstd::prelude::*;

use crate::data::articles::{
    articles, documents, is_heading, is_line, line_len, line_len_is, line_len_unique, pieces,
    pieces_begin_with_headings, run_together, splitting_loses_nothing,
};
use crate::words::{is_space, trimmed, trimmed_between, trimmed_blank};

verus! {

/// Whether a text is whitespace.
pub open spec fn blank(s: Seq<char>) -> bool {
    forall|i: int| 0 <= i < s.len() ==> is_space(#[trigger] s[i])
}

/// The line that begins at position `i`, its line break included.
pub open spec fn line_at(s: Seq<char>, i: int) -> Seq<char> {
    s.skip(i).take(line_len(s.skip(i)) as int)
}

/// Whether a line begins at position `i`, behind another one.
pub open spec fn later_line(s: Seq<char>, i: int) -> bool {
    0 < i < s.len() && s[i - 1] == '\n'
}

/// Whether no line but the first is an article heading.
pub open spec fn headed_at_most_once(s: Seq<char>) -> bool {
    forall|i: int| #[trigger] later_line(s, i) ==> !is_heading(line_at(s, i))
}

/// Texts with gaps before, between and behind them.
pub open spec fn woven(gaps: Seq<Seq<char>>, texts: Seq<Seq<char>>) -> Seq<char>
    decreases texts.len(),
{
    if texts.len() == 0 {
        gaps[0]
    } else {
        gaps[0] + texts[0] + woven(gaps.drop_first(), texts.drop_first())
    }
}

/// Where the text begins and ends once the whitespace at its ends is gone.
proof fn trimmed_bounds(s: Seq<char>) -> (r: (int, int))
    ensures
        0 <= r.0 <= r.1 <= s.len(),
        trimmed(s) == s.subrange(r.0, r.1),
        blank(s.take(r.0)),
        blank(s.skip(r.1)),
        r.0 < r.1 ==> !is_space(s[r.0]) && !is_space(s[r.1 - 1]),
        r.0 == r.1 ==> blank(s),
    decreases s.len(),
{
    if s.len() == 0 {
        assert(trimmed(s) =~= s.subrange(0, 0));
        (0, 0)
    } else if is_space(s[0]) {
        let rest = s.drop_first();
        let q = trimmed_bounds(rest);
        let r = (q.0 + 1, q.1 + 1);
        assert(rest.subrange(q.0, q.1) =~= s.subrange(r.0, r.1));
        assert forall|i: int| 0 <= i < r.0 implies is_space(#[trigger] s.take(r.0)[i]) by {
            if i > 0 {
                assert(is_space(rest.take(q.0)[i - 1]));
            }
        }
        assert(s.skip(r.1) =~= rest.skip(q.1));
        if r.0 == r.1 {
            assert forall|i: int| 0 <= i < s.len() implies is_space(#[trigger] s[i]) by {
                if i > 0 {
                    assert(is_space(rest[i - 1]));
                }
            }
        }
        r
    } else if is_space(s.last()) {
        let rest = s.drop_last();
        let q = trimmed_bounds(rest);
        assert(rest.subrange(q.0, q.1) =~= s.subrange(q.0, q.1));
        assert(s.take(q.0) =~= rest.take(q.0));
        assert forall|i: int| 0 <= i < s.skip(q.1).len() implies is_space(
            #[trigger] s.skip(q.1)[i],
        ) by {
            if i < rest.skip(q.1).len() {
                assert(is_space(rest.skip(q.1)[i]));
            }
        }
        if q.0 == q.1 {
            assert(is_space(rest[0]));
        }
        q
    } else {
        assert(trimmed(s) =~= s.subrange(0, s.len() as int));
        (0, s.len() as int)
    }
}

/// Whitespace around a text does not matter to what is left of it.
proof fn trimmed_amid(before: Seq<char>, s: Seq<char>, after: Seq<char>)
    requires
        blank(before),
        blank(after),
    ensures
        trimmed(before + s + after) == trimmed(s),
{
    let whole = before + s + after;
    let r = trimmed_bounds(s);
    let n = before.len() as int;
    assert forall|i: int| 0 <= i < n + r.0 implies is_space(#[trigger] whole[i]) by {
        if i < n {
            assert(whole[i] == before[i]);
        } else {
            assert(whole[i] == s.take(r.0)[i - n]);
        }
    }
    assert forall|i: int| n + r.1 <= i < whole.len() implies is_space(#[trigger] whole[i]) by {
        if i < n + s.len() {
            assert(whole[i] == s.skip(r.1)[i - n - r.1]);
        } else {
            assert(whole[i] == after[i - n - s.len()]);
        }
    }
    if r.0 == r.1 {
        trimmed_blank(whole);
        assert(trimmed(s) =~= Seq::<char>::empty());
    } else {
        assert(whole[n + r.0] == s[r.0]);
        assert(whole[n + r.1 - 1] == s[r.1 - 1]);
        trimmed_between(whole, n + r.0, n + r.1);
        assert(whole.subrange(n + r.0, n + r.1) =~= s.subrange(r.0, r.1));
    }
}

/// A line of a text without the whitespace at its ends is a line of the text,
/// but for whitespace.
proof fn line_of_trimmed(p: Seq<char>, r: (int, int), i: int)
    requires
        0 <= r.0 < r.1 <= p.len(),
        0 <= i < r.1 - r.0,
        blank(p.skip(r.1)),
        !is_space(p[r.1 - 1]),
    ensures
        trimmed(line_at(p.subrange(r.0, r.1), i)) == trimmed(line_at(p, r.0 + i)),
{
    let t = p.subrange(r.0, r.1);
    let from = r.0 + i;
    let long = p.skip(from);
    let short = t.skip(i);
    line_len_is(long);
    line_len_is(short);
    let n = line_len(long) as int;
    let m = short.len() as int;
    assert(forall|j: int| 0 <= j < m ==> #[trigger] short[j] == long[j]);
    assert('\n' != p[r.1 - 1]);
    if n <= m {
        line_len_unique(short, n);
        assert(short.take(n) =~= long.take(n));
    } else {
        assert forall|j: int| 0 <= j < m - 1 implies #[trigger] short[j] != '\n' by {
            assert(long[j] != '\n');
        }
        line_len_unique(short, m);
        let after = long.take(n).skip(m);
        assert forall|j: int| 0 <= j < after.len() implies is_space(#[trigger] after[j]) by {
            assert(after[j] == p.skip(r.1)[j]);
        }
        let none = Seq::<char>::empty();
        assert(none + short.take(m) + after =~= long.take(n));
        trimmed_amid(none, short.take(m), after);
    }
}

/// Trimming a piece leaves its heading where it was.
proof fn trimming_keeps_headings(p: Seq<char>)
    requires
        headed_at_most_once(p),
        trimmed(p).len() > 0,
    ensures
        headed_at_most_once(trimmed(p)),
        is_heading(line_at(p, 0)) ==> is_heading(line_at(trimmed(p), 0)),
{
    let r = trimmed_bounds(p);
    let t = trimmed(p);
    assert forall|i: int| #[trigger] later_line(t, i) implies !is_heading(line_at(t, i)) by {
        assert(later_line(p, r.0 + i));
        line_of_trimmed(p, r, i);
    }
    if is_heading(line_at(p, 0)) {
        let line = line_at(p, 0);
        assert(p.skip(0) =~= p);
        line_len_is(p);
        let n = line_len(p) as int;
        if n <= r.0 {
            assert forall|i: int| 0 <= i < line.len() implies is_space(#[trigger] line[i]) by {
                assert(line[i] == p.take(r.0)[i]);
            }
            trimmed_blank(line);
            reveal_strlit("= ");
        } else {
            let rest = p.skip(r.0);
            assert forall|i: int| 0 <= i < n - r.0 - 1 implies #[trigger] rest[i] != '\n' by {
                assert(p[r.0 + i] != '\n');
            }
            line_len_unique(rest, n - r.0);
            let none = Seq::<char>::empty();
            assert(p.take(r.0) + line_at(p, r.0) + none =~= line);
            trimmed_amid(p.take(r.0), line_at(p, r.0), none);
            line_of_trimmed(p, r, 0);
        }
    }
}

/// One more line below a piece.
proof fn headed_with_line(open: Seq<char>, line: Seq<char>)
    requires
        headed_at_most_once(open),
        open.len() == 0 || open.last() == '\n',
        is_line(line, line.len() as int),
        open.len() > 0 ==> !is_heading(line),
    ensures
        headed_at_most_once(open + line),
{
    let whole = open + line;
    let n = open.len() as int;
    assert forall|i: int| #[trigger] later_line(whole, i) implies !is_heading(
        line_at(whole, i),
    ) by {
        if i < n {
            assert(later_line(open, i));
            let long = whole.skip(i);
            let short = open.skip(i);
            line_len_is(short);
            let m = line_len(short) as int;
            assert(short.last() == '\n');
            assert(short[m - 1] == '\n');
            assert(forall|j: int| 0 <= j < short.len() ==> #[trigger] long[j] == short[j]);
            line_len_unique(long, m);
            assert(long.take(m) =~= short.take(m));
        } else if i == n {
            assert(whole.skip(n) =~= line);
            line_len_unique(line, line.len() as int);
            assert(line.take(line.len() as int) =~= line);
        } else {
            assert(line[i - 1 - n] == '\n');
        }
    }
}

proof fn pieces_headed(open: Seq<char>, s: Seq<char>, k: int)
    requires
        headed_at_most_once(open),
        open.len() == 0 || s.len() == 0 || open.last() == '\n',
        0 <= k < pieces(open, s).len(),
    ensures
        headed_at_most_once(pieces(open, s)[k]),
    decreases s.len(),
{
    if s.len() > 0 {
        line_len_is(s);
        let n = line_len(s) as int;
        let line = s.take(n);
        let rest = s.skip(n);
        assert(is_line(line, n));
        if is_heading(line) && open.len() > 0 {
            let none = Seq::<char>::empty();
            assert(none + line =~= line);
            headed_with_line(none, line);
            if k > 0 {
                assert(pieces(open, s)[k] == pieces(line, rest)[k - 1]);
                pieces_headed(line, rest, k - 1);
            }
        } else {
            headed_with_line(open, line);
            pieces_headed(open + line, rest, k);
        }
    }
}

/// The piece that a document is left of.
proof fn piece_of(ps: Seq<Seq<char>>, j: int) -> (k: int)
    requires
        0 <= j < documents(ps).len(),
    ensures
        j <= k < ps.len(),
        documents(ps)[j] == trimmed(ps[k]),
        trimmed(ps[k]).len() > 0,
    decreases ps.len(),
{
    let rest = ps.drop_first();
    if trimmed(ps[0]).len() == 0 {
        assert(documents(ps) =~= documents(rest));
        piece_of(rest, j) + 1
    } else if j == 0 {
        0
    } else {
        assert(documents(ps)[j] == documents(rest)[j - 1]);
        piece_of(rest, j - 1) + 1
    }
}

/// No document is empty, and none has whitespace at its ends.
pub proof fn articles_are_trimmed(s: Seq<char>, j: int)
    requires
        0 <= j < articles(s).len(),
    ensures
        articles(s)[j].len() > 0,
        trimmed(articles(s)[j]) == articles(s)[j],
{
    let ps = pieces(Seq::empty(), s);
    let k = piece_of(ps, j);
    let r = trimmed_bounds(ps[k]);
}

/// A document has an article heading as its first line or nowhere, and every
/// document but the first has one.
pub proof fn articles_begin_with_headings(s: Seq<char>, j: int)
    requires
        0 <= j < articles(s).len(),
    ensures
        headed_at_most_once(articles(s)[j]),
        j > 0 ==> is_heading(line_at(articles(s)[j], 0)),
{
    let none = Seq::<char>::empty();
    let ps = pieces(none, s);
    let k = piece_of(ps, j);
    pieces_headed(none, s, k);
    if k > 0 {
        pieces_begin_with_headings(none, s, k);
        assert(ps[k].skip(0) =~= ps[k]);
    }
    trimming_keeps_headings(ps[k]);
}

proof fn woven_behind(gap: Seq<char>, gaps: Seq<Seq<char>>, texts: Seq<Seq<char>>) -> (wider: Seq<
    Seq<char>,
>)
    requires
        gaps.len() == texts.len() + 1,
        forall|i: int| 0 <= i < gaps.len() ==> blank(#[trigger] gaps[i]),
        blank(gap),
    ensures
        wider.len() == gaps.len(),
        forall|i: int| 0 <= i < wider.len() ==> blank(#[trigger] wider[i]),
        woven(wider, texts) == gap + woven(gaps, texts),
{
    let first = gap + gaps[0];
    let wider = gaps.update(0, first);
    assert forall|i: int| 0 <= i < first.len() implies is_space(#[trigger] first[i]) by {
        if i >= gap.len() {
            assert(first[i] == gaps[0][i - gap.len()]);
        }
    }
    assert(wider.drop_first() =~= gaps.drop_first());
    assert(woven(wider, texts) =~= gap + woven(gaps, texts));
    wider
}

proof fn gaps_between(ps: Seq<Seq<char>>) -> (gaps: Seq<Seq<char>>)
    ensures
        gaps.len() == documents(ps).len() + 1,
        forall|i: int| 0 <= i < gaps.len() ==> blank(#[trigger] gaps[i]),
        run_together(ps) == woven(gaps, documents(ps)),
    decreases ps.len(),
{
    if ps.len() == 0 {
        seq![Seq::<char>::empty()]
    } else {
        let p = ps[0];
        let rest = ps.drop_first();
        let later = gaps_between(rest);
        let r = trimmed_bounds(p);
        if r.0 == r.1 {
            assert(trimmed(p).len() == 0);
            assert(documents(ps) =~= documents(rest));
            woven_behind(p, later, documents(rest))
        } else {
            let behind = woven_behind(p.skip(r.1), later, documents(rest));
            let gaps = seq![p.take(r.0)] + behind;
            assert(gaps.drop_first() =~= behind);
            assert(documents(ps) =~= seq![trimmed(p)] + documents(rest));
            assert(documents(ps).drop_first() =~= documents(rest));
            assert(p =~= p.take(r.0) + trimmed(p) + p.skip(r.1));
            assert(run_together(ps) =~= woven(gaps, documents(ps)));
            gaps
        }
    }
}

/// The documents lie in the corpus one behind another, and what is around them
/// is whitespace.
pub proof fn articles_cover_the_text(s: Seq<char>)
    ensures
        exists|gaps: Seq<Seq<char>>|
            gaps.len() == articles(s).len() + 1 && (forall|i: int|
                0 <= i < gaps.len() ==> blank(#[trigger] gaps[i])) && #[trigger] woven(
                gaps,
                articles(s),
            ) == s,
{
    let none = Seq::<char>::empty();
    splitting_loses_nothing(none, s);
    assert(none + s =~= s);
    let gaps = gaps_between(pieces(none, s));
    assert(woven(gaps, articles(s)) == s);
}

} // verus!
