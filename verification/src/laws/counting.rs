//! What is counted as right, and how counts add up.

use vstd::prelude::*;

use crate::eval::blimp::score::{correct_pairs, field_tally, suite_tally, tally, ParadigmScore};
use crate::infer::matching;
use crate::number::less64;

verus! {

/// One paradigm counts its own pairs; the paradigms of two lists count those of
/// both.
pub proof fn suite_counts_add_up(a: Seq<ParadigmScore>, b: Seq<ParadigmScore>, p: ParadigmScore)
    ensures
        suite_tally(Seq::<ParadigmScore>::empty()) == (0nat, 0nat),
        suite_tally(seq![p]) == (p.n_correct as nat, p.n_pairs as nat),
        suite_tally(a + b).0 == suite_tally(a).0 + suite_tally(b).0,
        suite_tally(a + b).1 == suite_tally(a).1 + suite_tally(b).1,
{
    let every = |f: Seq<char>| true;
    tally_concat(a, b, every);
    reveal_with_fuel(tally, 2);
    assert(seq![p].drop_last() =~= Seq::<ParadigmScore>::empty());
}

/// A paradigm counts its pairs in its own field and in no other; the paradigms of
/// two lists count those of both.
pub proof fn field_counts_add_up(
    a: Seq<ParadigmScore>,
    b: Seq<ParadigmScore>,
    p: ParadigmScore,
    field: Seq<char>,
)
    ensures
        field_tally(Seq::<ParadigmScore>::empty(), field) == (0nat, 0nat),
        p.field@ == field ==> field_tally(seq![p], field) == (
            p.n_correct as nat,
            p.n_pairs as nat,
        ),
        p.field@ != field ==> field_tally(seq![p], field) == (0nat, 0nat),
        field_tally(a + b, field).0 == field_tally(a, field).0 + field_tally(b, field).0,
        field_tally(a + b, field).1 == field_tally(a, field).1 + field_tally(b, field).1,
{
    assert forall|counts: spec_fn(Seq<char>) -> bool| #[trigger] tally(a + b, counts) == (
        tally(a, counts).0 + tally(b, counts).0,
        tally(a, counts).1 + tally(b, counts).1,
    ) by {
        tally_concat(a, b, counts);
    }
    reveal_with_fuel(tally, 2);
    assert(seq![p].drop_last() =~= Seq::<ParadigmScore>::empty());
}

proof fn tally_concat(
    a: Seq<ParadigmScore>,
    b: Seq<ParadigmScore>,
    counts: spec_fn(Seq<char>) -> bool,
)
    ensures
        tally(a + b, counts).0 == tally(a, counts).0 + tally(b, counts).0,
        tally(a + b, counts).1 == tally(a, counts).1 + tally(b, counts).1,
    decreases b.len(),
{
    if b.len() == 0 {
        assert(a + b =~= a);
    } else {
        tally_concat(a, b.drop_last(), counts);
        assert((a + b).drop_last() =~= a + b.drop_last());
    }
}

/// A pair is right where the good sentence is the more probable one, and pairs
/// count one each.
pub proof fn right_pairs_count_one_each(scores: Seq<u64>, good: u64, bad: u64)
    requires
        scores.len() % 2 == 0,
    ensures
        correct_pairs(Seq::<u64>::empty()) == 0,
        correct_pairs(scores + seq![good, bad]) == correct_pairs(scores) + if less64(bad, good) {
            1nat
        } else {
            0
        },
{
    let all = scores + seq![good, bad];
    assert(all.take(all.len() - 2) =~= scores);
}

/// A token counts where it is the token of the text at its position, and nowhere
/// else.
pub proof fn tokens_match_where_they_are_equal(a: Seq<u32>, b: Seq<u32>, t: u32)
    ensures
        matching(Seq::<u32>::empty(), b) == 0,
        a.len() < b.len() && t == b[a.len() as int] ==> matching(a.push(t), b) == matching(a, b)
            + 1,
        a.len() < b.len() && t != b[a.len() as int] ==> matching(a.push(t), b) == matching(a, b),
        a.len() >= b.len() ==> matching(a.push(t), b) == matching(a, b),
{
    assert(a.push(t).drop_last() =~= a);
}

/// Everything counts only where everything is equal.
pub proof fn full_marks_mean_equal(a: Seq<u32>, b: Seq<u32>)
    requires
        a.len() <= b.len(),
    ensures
        matching(a, b) <= a.len(),
        matching(a, b) == a.len() <==> a == b.take(a.len() as int),
    decreases a.len(),
{
    if a.len() == 0 {
        assert(a =~= b.take(0));
    } else {
        let front = a.drop_last();
        let n = front.len() as int;
        full_marks_mean_equal(front, b);
        if matching(a, b) == a.len() {
            assert(a =~= b.take(a.len() as int)) by {
                assert(front == b.take(n));
                assert forall|i: int| 0 <= i < a.len() implies a[i] == b[i] by {
                    if i < n {
                        assert(front[i] == b.take(n)[i]);
                    }
                }
            }
        }
        if a == b.take(a.len() as int) {
            assert(front =~= b.take(n));
            assert(a.last() == b[n]);
        }
    }
}

} // verus!
