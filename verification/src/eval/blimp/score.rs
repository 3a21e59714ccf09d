//! Counting right pairs, by paradigm, by field and over the suite.

use vstd::prelude::*;

use vstd::string::*;

use crate::eval::blimp::suite::Paradigm;
use crate::number::{is_nan64, less, less64, total_order, total_order64};
use crate::order::{
    before, before_total, before_transitive, comes_before, is_ranking, ranked_numbers,
    ranks_before, total_orders,
};
use crate::text::{
    append_decimal, append_left_aligned, append_right_aligned, decimal, left_aligned,
    right_aligned, texts,
};

verus! {

/// Did the model get this pair right? The arguments are the bits of the two
/// log-probabilities.
///
/// A tie counts as wrong: a degenerate model ties on every pair, and the rule
/// that flatters a broken model is the wrong rule.
pub fn is_correct(good: u64, bad: u64) -> (r: bool)
    ensures
        r == less64(bad, good),
{
    less(bad, good)
}

/// How many of the pairs of log-probabilities, good and bad by turns, the model
/// got right.
pub open spec fn correct_pairs(scores: Seq<u64>) -> nat
    decreases scores.len(),
{
    if scores.len() < 2 {
        0
    } else {
        correct_pairs(scores.take(scores.len() - 2)) + if less64(
            scores[scores.len() - 1],
            scores[scores.len() - 2],
        ) {
            1nat
        } else {
            0
        }
    }
}

/// How many of the pairs of log-probabilities, good and bad by turns, the model
/// got right.
pub fn count_correct(scores: &Vec<u64>) -> (r: usize)
    requires
        scores@.len() % 2 == 0,
    ensures
        r == correct_pairs(scores@),
        2 * r <= scores@.len(),
{
    let mut n: usize = 0;
    let mut i: usize = 0;
    while i < scores.len()
        invariant
            i <= scores@.len(),
            i % 2 == 0,
            scores@.len() % 2 == 0,
            n == correct_pairs(scores@.take(i as int)),
            2 * n <= i,
        decreases scores@.len() - i,
    {
        proof {
            assert(scores@.take(i + 2).take(i as int) =~= scores@.take(i as int));
        }
        if is_correct(scores[i], scores[i + 1]) {
            n = n + 1;
        }
        i = i + 2;
    }
    assert(scores@.take(i as int) =~= scores@);
    n
}

/// Scores of one part after another count as the scores of the whole, so the
/// size of the batches does not matter.
pub proof fn correct_pairs_concat(a: Seq<u64>, b: Seq<u64>)
    requires
        a.len() % 2 == 0,
        b.len() % 2 == 0,
    ensures
        correct_pairs(a + b) == correct_pairs(a) + correct_pairs(b),
    decreases b.len(),
{
    if b.len() < 2 {
        assert(a + b =~= a);
    } else {
        let shorter = b.take(b.len() - 2);
        correct_pairs_concat(a, shorter);
        assert((a + b).take((a + b).len() - 2) =~= a + shorter);
    }
}

/// A model that ties on a pair, or whose log-probability is NaN, is wrong on it.
pub proof fn ties_are_wrong(good: u64, bad: u64)
    requires
        good == bad || is_nan64(good) || is_nan64(bad),
    ensures
        !less64(bad, good),
{
}

/// The pairs that the model got right in one paradigm.
#[derive(Debug, Clone, PartialEq, Eq)]
pub struct ParadigmScore {
    pub uid: String,
    pub field: String,
    pub n_pairs: usize,
    pub n_correct: usize,
}

impl ParadigmScore {
    /// The score of a paradigm, from the log-probabilities of its sentences:
    /// good and bad by turns, pair by pair.
    pub fn of(paradigm: &Paradigm, scores: &Vec<u64>) -> (r: Self)
        requires
            scores@.len() == 2 * paradigm.pairs@.len(),
        ensures
            r.uid@ == paradigm.uid@,
            r.field@ == paradigm.field@,
            r.n_pairs == paradigm.pairs@.len(),
            r.n_correct == correct_pairs(scores@),
            r.n_correct <= r.n_pairs,
    {
        ParadigmScore {
            uid: paradigm.uid.clone(),
            field: paradigm.field.clone(),
            n_pairs: paradigm.pairs.len(),
            n_correct: count_correct(scores),
        }
    }
}

/// The score of a suite.
#[derive(Debug, Clone, PartialEq, Eq)]
pub struct BlimpScore {
    pub per_paradigm: Vec<ParadigmScore>,
}

/// The pairs of one field, and how many the model got right.
#[derive(Debug, Clone, PartialEq, Eq)]
pub struct FieldTotal {
    pub field: String,
    pub n_correct: usize,
    pub n_pairs: usize,
}

/// The right pairs and all pairs of the paradigms that `counts`.
pub open spec fn tally(scores: Seq<ParadigmScore>, counts: spec_fn(Seq<char>) -> bool) -> (nat, nat)
    decreases scores.len(),
{
    if scores.len() == 0 {
        (0, 0)
    } else {
        let (c, n) = tally(scores.drop_last(), counts);
        let last = scores.last();
        if counts(last.field@) {
            (c + last.n_correct as nat, n + last.n_pairs as nat)
        } else {
            (c, n)
        }
    }
}

/// The right pairs and all pairs of a suite.
pub open spec fn suite_tally(scores: Seq<ParadigmScore>) -> (nat, nat) {
    tally(scores, |f: Seq<char>| true)
}

/// The right pairs and all pairs of one field.
pub open spec fn field_tally(scores: Seq<ParadigmScore>, field: Seq<char>) -> (nat, nat) {
    tally(scores, |f: Seq<char>| f == field)
}

/// The tally of a prefix, and of fewer paradigms, is no larger.
proof fn tally_grows(
    scores: Seq<ParadigmScore>,
    counts: spec_fn(Seq<char>) -> bool,
    n: int,
)
    requires
        0 <= n <= scores.len(),
    ensures
        tally(scores.take(n), counts).0 <= suite_tally(scores).0,
        tally(scores.take(n), counts).1 <= suite_tally(scores).1,
    decreases scores.len(), scores.len() - n,
{
    if n < scores.len() {
        tally_grows(scores, counts, n + 1);
        assert(scores.take(n + 1).drop_last() =~= scores.take(n));
    } else {
        assert(scores.take(n) =~= scores);
        if scores.len() > 0 {
            let shorter = scores.drop_last();
            tally_grows(shorter, counts, shorter.len() as int);
            assert(shorter.take(shorter.len() as int) =~= shorter);
        }
    }
}

/// Whether one of the paradigms has this field.
pub open spec fn has_field(scores: Seq<ParadigmScore>, field: Seq<char>) -> bool {
    exists|i: int| 0 <= i < scores.len() && (#[trigger] scores[i]).field@ == field
}

/// Whether the texts are in strictly ascending order.
pub open spec fn strictly_ascending(v: Seq<Seq<char>>) -> bool {
    forall|i: int, j: int| 0 <= i < j < v.len() ==> before(#[trigger] v[i], #[trigger] v[j])
}

/// The fields of a list of totals.
pub open spec fn fields(totals: Seq<FieldTotal>) -> Seq<Seq<char>> {
    totals.map_values(|t: FieldTotal| t.field@)
}

/// Whether the totals are those of the fields that have pairs, in ascending
/// order of the fields.
pub open spec fn is_by_field(totals: Seq<FieldTotal>, scores: Seq<ParadigmScore>) -> bool {
    &&& strictly_ascending(fields(totals))
    &&& forall|i: int|
        0 <= i < totals.len() ==> {
            let t = #[trigger] totals[i];
            t.n_pairs > 0 && (t.n_correct as nat, t.n_pairs as nat) == field_tally(
                scores,
                t.field@,
            )
        }
    &&& forall|field: Seq<char>|
        field_tally(scores, field).1 > 0 ==> #[trigger] fields(totals).contains(field)
}

/// Whether `x` is one of the first `n` names.
spec fn among(x: Seq<char>, names: Seq<Seq<char>>, n: int) -> bool {
    exists|j: int| 0 <= j < n && x == #[trigger] names[j]
}

/// A field without a paradigm has no pairs.
proof fn absent_field(scores: Seq<ParadigmScore>, field: Seq<char>)
    requires
        !has_field(scores, field),
    ensures
        field_tally(scores, field) == (0nat, 0nat),
    decreases scores.len(),
{
    if scores.len() > 0 {
        let shorter = scores.drop_last();
        if has_field(shorter, field) {
            let i = choose|i: int| 0 <= i < shorter.len() && (#[trigger] shorter[i]).field@ == field;
            assert(scores[i].field@ == field);
        }
        assert(scores[scores.len() - 1].field@ != field);
        absent_field(shorter, field);
    }
}

impl BlimpScore {
    /// The machine limit: the pairs can be counted.
    pub open spec fn countable(&self) -> bool {
        suite_tally(self.per_paradigm@).0 <= usize::MAX && suite_tally(self.per_paradigm@).1
            <= usize::MAX
    }

    /// The right pairs and all pairs of the suite. Accuracy is their quotient:
    /// every pair weighs the same, whatever the size of its paradigm.
    pub fn totals(&self) -> (r: (usize, usize))
        requires
            self.countable(),
        ensures
            (r.0 as nat, r.1 as nat) == suite_tally(self.per_paradigm@),
    {
        let mut correct: usize = 0;
        let mut pairs: usize = 0;
        let mut i: usize = 0;
        let ghost all = self.per_paradigm@;
        let ghost every = |f: Seq<char>| true;
        assert(all.take(0) =~= Seq::<ParadigmScore>::empty());
        while i < self.per_paradigm.len()
            invariant
                i <= self.per_paradigm@.len(),
                all == self.per_paradigm@,
                every == (|f: Seq<char>| true),
                self.countable(),
                (correct as nat, pairs as nat) == tally(all.take(i as int), every),
            decreases self.per_paradigm@.len() - i,
        {
            proof {
                assert(all.take(i + 1).drop_last() =~= all.take(i as int));
                tally_grows(all, every, i + 1);
            }
            correct = correct + self.per_paradigm[i].n_correct;
            pairs = pairs + self.per_paradigm[i].n_pairs;
            i = i + 1;
        }
        assert(all.take(i as int) =~= all);
        (correct, pairs)
    }

    fn totals_of(&self, field: &str) -> (r: (usize, usize))
        requires
            self.countable(),
        ensures
            (r.0 as nat, r.1 as nat) == field_tally(self.per_paradigm@, field@),
    {
        let mut correct: usize = 0;
        let mut pairs: usize = 0;
        let mut i: usize = 0;
        let ghost all = self.per_paradigm@;
        let ghost this = |f: Seq<char>| f == field@;
        let name = field.to_owned();
        assert(all.take(0) =~= Seq::<ParadigmScore>::empty());
        while i < self.per_paradigm.len()
            invariant
                i <= self.per_paradigm@.len(),
                all == self.per_paradigm@,
                this == (|f: Seq<char>| f == field@),
                name@ == field@,
                self.countable(),
                (correct as nat, pairs as nat) == tally(all.take(i as int), this),
            decreases self.per_paradigm@.len() - i,
        {
            proof {
                assert(all.take(i + 1).drop_last() =~= all.take(i as int));
                tally_grows(all, this, i + 1);
            }
            if self.per_paradigm[i].field == name {
                correct = correct + self.per_paradigm[i].n_correct;
                pairs = pairs + self.per_paradigm[i].n_pairs;
            }
            i = i + 1;
        }
        assert(all.take(i as int) =~= all);
        (correct, pairs)
    }

    /// The fields of the paradigms, each once, in ascending order.
    fn field_names(&self) -> (r: Vec<String>)
        ensures
            strictly_ascending(texts(r@)),
            forall|field: Seq<char>|
                #[trigger] has_field(self.per_paradigm@, field) ==> texts(r@).contains(field),
    {
        let mut r: Vec<String> = Vec::new();
        let mut i: usize = 0;
        let ghost all = self.per_paradigm@;
        while i < self.per_paradigm.len()
            invariant
                i <= self.per_paradigm@.len(),
                all == self.per_paradigm@,
                strictly_ascending(texts(r@)),
                forall|field: Seq<char>| #[trigger]
                    has_field(all.take(i as int), field) ==> texts(r@).contains(field),
            decreases self.per_paradigm@.len() - i,
        {
            let ghost old_r = texts(r@);
            insert_new(&mut r, self.per_paradigm[i].field.as_str());
            proof {
                let now = all.take(i + 1);
                assert forall|field: Seq<char>| #[trigger] has_field(now, field) implies texts(
                    r@,
                ).contains(field) by {
                    let j = choose|j: int|
                        0 <= j < now.len() && (#[trigger] now[j]).field@ == field;
                    if j < i {
                        assert(all.take(i as int)[j].field@ == field);
                        assert(has_field(all.take(i as int), field));
                        assert(old_r.contains(field));
                    }
                }
            }
            i = i + 1;
        }
        assert(all.take(i as int) =~= all);
        r
    }

    /// The right pairs and all pairs of each broad phenomenon that has pairs,
    /// in ascending order of its name.
    pub fn by_field(&self) -> (r: Vec<FieldTotal>)
        requires
            self.countable(),
        ensures
            is_by_field(r@, self.per_paradigm@),
    {
        let names = self.field_names();
        let mut r: Vec<FieldTotal> = Vec::new();
        let mut i: usize = 0;
        let ghost all = self.per_paradigm@;
        while i < names.len()
            invariant
                i <= names@.len(),
                all == self.per_paradigm@,
                self.countable(),
                strictly_ascending(texts(names@)),
                strictly_ascending(fields(r@)),
                forall|k: int|
                    0 <= k < r@.len() ==> among(
                        #[trigger] fields(r@)[k],
                        texts(names@),
                        i as int,
                    ),
                forall|k: int|
                    0 <= k < r@.len() ==> {
                        let t = #[trigger] r@[k];
                        t.n_pairs > 0 && (t.n_correct as nat, t.n_pairs as nat) == field_tally(
                            all,
                            t.field@,
                        )
                    },
                forall|j: int|
                    0 <= j < i && field_tally(all, #[trigger] texts(names@)[j]).1 > 0 ==> fields(
                        r@,
                    ).contains(texts(names@)[j]),
            decreases names@.len() - i,
        {
            let ghost old_r = r@;
            let ghost name = names@[i as int]@;
            let t = self.totals_of(names[i].as_str());
            proof {
                assert(texts(names@)[i as int] == name);
            }
            if t.1 > 0 {
                r.push(FieldTotal { field: names[i].clone(), n_correct: t.0, n_pairs: t.1 });
                proof {
                    assert(fields(r@) =~= fields(old_r).push(name));
                    assert forall|a: int, b: int| 0 <= a < b < r@.len() implies before(
                        #[trigger] fields(r@)[a],
                        #[trigger] fields(r@)[b],
                    ) by {
                        if b == old_r.len() {
                            assert(among(fields(old_r)[a], texts(names@), i as int));
                            let j = choose|j: int|
                                0 <= j < i && fields(old_r)[a] == #[trigger] texts(names@)[j];
                            assert(before(texts(names@)[j], texts(names@)[i as int]));
                        } else {
                            assert(before(fields(old_r)[a], fields(old_r)[b]));
                        }
                    }
                    assert forall|k: int| 0 <= k < r@.len() implies among(
                        #[trigger] fields(r@)[k],
                        texts(names@),
                        i + 1,
                    ) by {
                        if k < old_r.len() {
                            assert(among(fields(old_r)[k], texts(names@), i as int));
                            let j = choose|j: int|
                                0 <= j < i && fields(old_r)[k] == #[trigger] texts(names@)[j];
                            assert(fields(r@)[k] == texts(names@)[j]);
                        } else {
                            assert(fields(r@)[k] == texts(names@)[i as int]);
                        }
                    }
                    assert forall|j: int|
                        0 <= j < i + 1 && field_tally(all, #[trigger] texts(names@)[j]).1
                            > 0 implies fields(r@).contains(texts(names@)[j]) by {
                        if j == i {
                            assert(fields(r@)[old_r.len() as int] == name);
                        } else {
                            assert(fields(old_r).contains(texts(names@)[j]));
                            let k = choose|k: int|
                                0 <= k < fields(old_r).len() && fields(old_r)[k] == texts(
                                    names@,
                                )[j];
                            assert(fields(r@)[k] == texts(names@)[j]);
                        }
                    }
                }
            }
            i = i + 1;
        }
        proof {
            assert forall|field: Seq<char>| field_tally(all, field).1 > 0 implies #[trigger] fields(
                r@,
            ).contains(field) by {
                if !has_field(all, field) {
                    absent_field(all, field);
                }
                assert(texts(names@).contains(field));
                let j = choose|j: int| 0 <= j < names@.len() && texts(names@)[j] == field;
                assert(fields(r@).contains(texts(names@)[j]));
            }
        }
        r
    }
}

/// Puts a text into a strictly ascending list, unless it is there.
fn insert_new(list: &mut Vec<String>, s: &str)
    requires
        strictly_ascending(texts(old(list)@)),
    ensures
        strictly_ascending(texts(final(list)@)),
        texts(final(list)@).contains(s@),
        forall|t: Seq<char>|
            texts(old(list)@).contains(t) ==> #[trigger] texts(final(list)@).contains(t),
{
    let ghost old_t = texts(list@);
    let name = s.to_owned();
    let n: usize = list.len();
    let mut i: usize = 0;
    while i < n && comes_before(list[i].as_str(), s)
        invariant
            i <= n,
            n == list@.len(),
            old_t == texts(list@),
            name@ == s@,
            forall|j: int| 0 <= j < i ==> before(#[trigger] old_t[j], s@),
        decreases n - i,
    {
        assert(old_t[i as int] == list@[i as int]@);
        i = i + 1;
    }
    if i < n && list[i] == name {
        assert(old_t[i as int] == s@);
        return ;
    }
    list.insert(i, name);
    proof {
        let now = texts(list@);
        assert(now =~= old_t.insert(i as int, s@));
        assert forall|j: int| i <= j < n implies before(s@, #[trigger] old_t[j]) by {
            before_total(old_t[i as int], s@);
            if j > i {
                assert(before(old_t[i as int], old_t[j]));
                before_transitive(s@, old_t[i as int], old_t[j]);
            }
        }
        assert forall|a: int, b: int| 0 <= a < b < now.len() implies before(
            #[trigger] now[a],
            #[trigger] now[b],
        ) by {
            let a0 = if a < i {
                a
            } else {
                a - 1
            };
            let b0 = if b < i {
                b
            } else {
                b - 1
            };
            if a == i {
                assert(now[b] == old_t[b0]);
            } else if b == i {
                assert(now[a] == old_t[a0]);
            } else {
                assert(before(old_t[a0], old_t[b0]));
            }
        }
        assert(now[i as int] == s@);
        assert forall|t: Seq<char>| old_t.contains(t) implies #[trigger] now.contains(t) by {
            let k = choose|k: int| 0 <= k < old_t.len() && old_t[k] == t;
            if k < i {
                assert(now[k] == t);
            } else {
                assert(now[k + 1] == t);
            }
        }
    }
}

/// The line of a field; `percent` is its accuracy.
pub open spec fn field_line(field: Seq<char>, percent: Seq<char>) -> Seq<char> {
    "  "@ + left_aligned(field, 28) + " "@ + right_aligned(percent, 6) + "%\n"@
}

/// The lines of all fields.
pub open spec fn field_lines(totals: Seq<FieldTotal>, percents: Seq<Seq<char>>) -> Seq<char>
    decreases totals.len(),
{
    if totals.len() == 0 {
        Seq::empty()
    } else {
        field_lines(totals.drop_last(), percents) + field_line(
            totals.last().field@,
            percents[totals.len() - 1],
        )
    }
}

/// The line of a paradigm; `percent` is its accuracy.
pub open spec fn paradigm_line(p: ParadigmScore, percent: Seq<char>) -> Seq<char> {
    "  "@ + left_aligned(p.uid@, 44) + " "@ + right_aligned(percent, 6) + "%  ("@ + decimal(
        p.n_correct as nat,
    ) + "/"@ + decimal(p.n_pairs as nat) + ")\n"@
}

/// The lines of the first `n` paradigms of a ranking.
pub open spec fn paradigm_lines(
    scores: Seq<ParadigmScore>,
    percents: Seq<Seq<char>>,
    ranking: Seq<usize>,
    n: int,
) -> Seq<char>
    decreases n,
{
    if n <= 0 {
        Seq::empty()
    } else {
        paradigm_lines(scores, percents, ranking, n - 1) + paradigm_line(
            scores[ranking[n - 1] as int],
            percents[ranking[n - 1] as int],
        )
    }
}

/// The accuracies of a suite: in decimal, in percent, and by their bits.
#[derive(Debug, Clone, PartialEq, Eq)]
pub struct BlimpRates {
    /// The accuracy of the suite, in percent.
    pub overall: String,
    /// The accuracy of each field, in percent.
    pub by_field: Vec<String>,
    /// The accuracy of each paradigm, in percent.
    pub per_paradigm: Vec<String>,
    /// The bits of the accuracy of each paradigm.
    pub keys: Vec<u64>,
}

/// How many paradigms the report lists.
pub open spec fn listed(n: nat) -> nat {
    if n < 10 {
        n
    } else {
        10
    }
}

/// Whether the accuracy of one paradigm is at most that of another, both with
/// pairs: their quotients, compared without dividing.
pub open spec fn no_better(a: ParadigmScore, b: ParadigmScore) -> bool {
    a.n_correct as nat * b.n_pairs as nat <= b.n_correct as nat * a.n_pairs as nat
}

/// Whether numbers, given by their bits, follow the accuracies of the paradigms
/// that have pairs: none is above that of a paradigm at least as accurate.
pub open spec fn follows_accuracy(scores: Seq<ParadigmScore>, keys: Seq<u64>) -> bool {
    &&& keys.len() == scores.len()
    &&& forall|i: int, j: int|
        0 <= i < scores.len() && 0 <= j < scores.len() && (#[trigger] scores[i]).n_pairs > 0 && (
        #[trigger] scores[j]).n_pairs > 0 && no_better(scores[i], scores[j]) ==> total_order64(
            keys[i],
        ) <= total_order64(keys[j])
}

fn is_no_better(a: &ParadigmScore, b: &ParadigmScore) -> (r: bool)
    ensures
        r == no_better(*a, *b),
{
    proof {
        let most = u64::MAX as nat;
        let x = a.n_correct as nat;
        let y = b.n_pairs as nat;
        let z = b.n_correct as nat;
        let w = a.n_pairs as nat;
        assert(x * y <= most * most && z * w <= most * most) by (nonlinear_arith)
            requires
                x <= most,
                y <= most,
                z <= most,
                w <= most,
        ;
        assert(most * most <= u128::MAX) by (nonlinear_arith)
            requires
                most == u64::MAX,
        ;
    }
    a.n_correct as u128 * b.n_pairs as u128 <= b.n_correct as u128 * a.n_pairs as u128
}

impl BlimpScore {
    /// Whether numbers follow the accuracies of the paradigms.
    pub fn keys_follow(&self, keys: &Vec<u64>) -> (r: bool)
        ensures
            r == follows_accuracy(self.per_paradigm@, keys@),
    {
        let n: usize = self.per_paradigm.len();
        if keys.len() != n {
            return false;
        }
        let ghost all = self.per_paradigm@;
        let mut i: usize = 0;
        while i < n
            invariant
                i <= n,
                n == all.len(),
                n == keys@.len(),
                all == self.per_paradigm@,
                forall|a: int, b: int|
                    0 <= a < i && 0 <= b < n && (#[trigger] all[a]).n_pairs > 0 && (
                    #[trigger] all[b]).n_pairs > 0 && no_better(all[a], all[b])
                        ==> total_order64(keys@[a]) <= total_order64(keys@[b]),
            decreases n - i,
        {
            let mut j: usize = 0;
            while j < n
                invariant
                    j <= n,
                    i < n,
                    n == all.len(),
                    n == keys@.len(),
                    all == self.per_paradigm@,
                    forall|b: int|
                        0 <= b < j && all[i as int].n_pairs > 0 && (#[trigger] all[b]).n_pairs > 0
                            && no_better(all[i as int], all[b]) ==> total_order64(keys@[i as int])
                            <= total_order64(keys@[b]),
                decreases n - j,
            {
                let a = &self.per_paradigm[i];
                let b = &self.per_paradigm[j];
                if a.n_pairs > 0 && b.n_pairs > 0 && is_no_better(a, b) && total_order(keys[i])
                    > total_order(keys[j]) {
                    assert(all[i as int].n_pairs > 0 && all[j as int].n_pairs > 0);
                    return false;
                }
                j = j + 1;
            }
            i = i + 1;
        }
        true
    }

    /// The accuracies for a reader, with the paradigms of `ranking`.
    pub open spec fn summary(
        &self,
        totals: Seq<FieldTotal>,
        rates: BlimpRates,
        ranking: Seq<usize>,
    ) -> Seq<char> {
        "BLiMP accuracy "@ + right_aligned(rates.overall@, 7)
            + "%   (chance is 50.00%)\n\nby field:\n"@ + field_lines(totals, texts(rates.by_field@))
            + "\nweakest paradigms:\n"@ + paradigm_lines(
            self.per_paradigm@,
            texts(rates.per_paradigm@),
            ranking,
            listed(self.per_paradigm@.len()) as int,
        )
    }

    /// Renders the accuracies for a reader: the suite, the fields, and the ten
    /// weakest paradigms, the weakest first and equal ones in order. The totals
    /// are those of [`BlimpScore::by_field`]. The accuracies are quotients of the
    /// counts; they come with the call, and what they are ranked by follows the
    /// counts.
    pub fn report(&self, totals: &Vec<FieldTotal>, rates: &BlimpRates) -> (s: String)
        requires
            is_by_field(totals@, self.per_paradigm@),
            rates.by_field@.len() == totals@.len(),
            rates.per_paradigm@.len() == self.per_paradigm@.len(),
            follows_accuracy(self.per_paradigm@, rates.keys@),
        ensures
            exists|ranking: Seq<usize>|
                is_ranking(total_orders(rates.keys@), ranking) && s@ == #[trigger] self.summary(
                    totals@,
                    *rates,
                    ranking,
                ),
    {
        let ranking = ranked_numbers(&rates.keys);
        let mut s = "BLiMP accuracy ".to_owned();
        append_right_aligned(&mut s, rates.overall.as_str(), 7);
        s.append("%   (chance is 50.00%)\n\nby field:\n");
        let ghost head = s@;
        let mut i: usize = 0;
        assert(s@ =~= head + field_lines(totals@.take(0), texts(rates.by_field@)));
        while i < totals.len()
            invariant
                i <= totals@.len(),
                rates.by_field@.len() == totals@.len(),
                s@ == head + field_lines(totals@.take(i as int), texts(rates.by_field@)),
            decreases totals@.len() - i,
        {
            let ghost before = s@;
            s.append("  ");
            append_left_aligned(&mut s, totals[i].field.as_str(), 28);
            s.append(" ");
            append_right_aligned(&mut s, rates.by_field[i].as_str(), 6);
            s.append("%\n");
            proof {
                let line = field_line(totals@[i as int].field@, rates.by_field@[i as int]@);
                assert(s@ =~= before + line);
                assert(totals@.take(i + 1).drop_last() =~= totals@.take(i as int));
                assert(s@ =~= head + field_lines(totals@.take(i + 1), texts(rates.by_field@)));
            }
            i = i + 1;
        }
        assert(totals@.take(i as int) =~= totals@);
        s.append("\nweakest paradigms:\n");
        let ghost upper = s@;
        let n: usize = self.per_paradigm.len();
        let rows: usize = if n < 10 {
            n
        } else {
            10
        };
        let mut k: usize = 0;
        let ghost percents = texts(rates.per_paradigm@);
        assert(s@ =~= upper + paradigm_lines(self.per_paradigm@, percents, ranking@, 0));
        while k < rows
            invariant
                k <= rows <= n,
                n == self.per_paradigm@.len(),
                n == rates.per_paradigm@.len(),
                n == rates.keys@.len(),
                percents == texts(rates.per_paradigm@),
                is_ranking(total_orders(rates.keys@), ranking@),
                s@ == upper + paradigm_lines(self.per_paradigm@, percents, ranking@, k as int),
            decreases rows - k,
        {
            let ghost before = s@;
            let at: usize = ranking[k];
            let p = &self.per_paradigm[at];
            s.append("  ");
            append_left_aligned(&mut s, p.uid.as_str(), 44);
            s.append(" ");
            append_right_aligned(&mut s, rates.per_paradigm[at].as_str(), 6);
            s.append("%  (");
            append_decimal(&mut s, p.n_correct);
            s.append("/");
            append_decimal(&mut s, p.n_pairs);
            s.append(")\n");
            proof {
                assert(s@ =~= before + paradigm_line(*p, rates.per_paradigm@[at as int]@));
                assert(percents[at as int] == rates.per_paradigm@[at as int]@);
                assert(s@ =~= upper + paradigm_lines(
                    self.per_paradigm@,
                    percents,
                    ranking@,
                    k + 1,
                ));
            }
            k = k + 1;
        }
        assert(s@ =~= self.summary(totals@, *rates, ranking@));
        s
    }
}

/// The weakest come first: of two paradigms with pairs, the one that is listed
/// earlier is no more accurate, or the two are ranked as equal and keep their
/// order. Paradigms of one accuracy always keep their order.
pub proof fn weakest_come_first(
    scores: Seq<ParadigmScore>,
    keys: Seq<u64>,
    ranking: Seq<usize>,
    p: int,
    q: int,
)
    requires
        follows_accuracy(scores, keys),
        is_ranking(total_orders(keys), ranking),
        0 <= p < q < ranking.len(),
        scores[ranking[p] as int].n_pairs > 0,
        scores[ranking[q] as int].n_pairs > 0,
    ensures
        ({
            let a = scores[ranking[p] as int];
            let b = scores[ranking[q] as int];
            let same = total_order64(keys[ranking[p] as int]) == total_order64(
                keys[ranking[q] as int],
            );
            &&& no_better(a, b) || same
            &&& same ==> ranking[p] < ranking[q]
            &&& no_better(a, b) && no_better(b, a) ==> same
        }),
{
    let i = ranking[p] as int;
    let j = ranking[q] as int;
    let orders = total_orders(keys);
    assert(ranks_before(orders, i, j));
    assert(orders[i] == total_order64(keys[i]));
    assert(orders[j] == total_order64(keys[j]));
    if !no_better(scores[i], scores[j]) {
        assert(no_better(scores[j], scores[i]));
    }
}

} // verus!
