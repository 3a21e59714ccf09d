//! The paradigms of a suite, grouped from the lines of its files.

use vstd::prelude::*;

use vstd::string::*;

use crate::chars::{chars_of, ends_with};
use crate::order::{
    ascending, before, before_irreflexive, before_total, before_transitive, comes_before,
    sorted, sorted_texts,
};
use crate::text::texts;
use crate::words::{trim, trimmed};

verus! {

/// One line of a suite's file.
#[derive(Debug, Clone, PartialEq, Eq)]
pub struct RawPair {
    pub sentence_good: String,
    pub sentence_bad: String,
    /// Identifies the paradigm.
    pub uid: String,
    /// The broad phenomenon.
    pub field: String,
}

/// A good and a bad sentence.
#[derive(Debug, Clone, PartialEq, Eq)]
pub struct MinimalPair {
    pub good: String,
    pub bad: String,
}

/// The pairs that test one thing.
#[derive(Debug, Clone, PartialEq, Eq)]
pub struct Paradigm {
    pub uid: String,
    pub field: String,
    pub pairs: Vec<MinimalPair>,
}

/// A suite of paradigms.
#[derive(Debug, Clone, PartialEq, Eq)]
pub struct BlimpSuite {
    pub paradigms: Vec<Paradigm>,
}

/// A pair as two texts.
pub open spec fn pair_texts(p: MinimalPair) -> (Seq<char>, Seq<char>) {
    (p.good@, p.bad@)
}

/// The pairs of a paradigm as texts.
pub open spec fn pairs_texts(pairs: Seq<MinimalPair>) -> Seq<(Seq<char>, Seq<char>)> {
    pairs.map_values(|p: MinimalPair| pair_texts(p))
}

/// The pairs of the lines with this uid, in order.
pub open spec fn pairs_of(lines: Seq<RawPair>, uid: Seq<char>) -> Seq<(Seq<char>, Seq<char>)>
    decreases lines.len(),
{
    if lines.len() == 0 {
        Seq::empty()
    } else {
        let rest = pairs_of(lines.drop_last(), uid);
        if lines.last().uid@ == uid {
            rest.push((lines.last().sentence_good@, lines.last().sentence_bad@))
        } else {
            rest
        }
    }
}

/// The field of the first line with this uid.
pub open spec fn field_of(lines: Seq<RawPair>, uid: Seq<char>) -> Seq<char>
    decreases lines.len(),
{
    if lines.len() == 0 {
        Seq::empty()
    } else if lines[0].uid@ == uid {
        lines[0].field@
    } else {
        field_of(lines.drop_first(), uid)
    }
}

/// Whether one of the lines has this uid.
pub open spec fn mentions(lines: Seq<RawPair>, uid: Seq<char>) -> bool {
    exists|i: int| 0 <= i < lines.len() && (#[trigger] lines[i]).uid@ == uid
}

/// Whether one of the paradigms has this uid.
pub open spec fn has_paradigm(paradigms: Seq<Paradigm>, uid: Seq<char>) -> bool {
    exists|i: int| 0 <= i < paradigms.len() && (#[trigger] paradigms[i]).uid@ == uid
}

/// Whether the paradigms are in strictly ascending order of their uids.
pub open spec fn uids_ascend(paradigms: Seq<Paradigm>) -> bool {
    forall|i: int, j: int|
        0 <= i < j < paradigms.len() ==> before(
            (#[trigger] paradigms[i]).uid@,
            (#[trigger] paradigms[j]).uid@,
        )
}

/// Whether a paradigm holds what the lines say of its uid.
pub open spec fn holds_lines(p: Paradigm, lines: Seq<RawPair>) -> bool {
    &&& mentions(lines, p.uid@)
    &&& p.field@ == field_of(lines, p.uid@)
    &&& pairs_texts(p.pairs@) == pairs_of(lines, p.uid@)
}

/// Whether the paradigms are the lines, grouped by uid.
pub open spec fn is_grouping(paradigms: Seq<Paradigm>, lines: Seq<RawPair>) -> bool {
    &&& uids_ascend(paradigms)
    &&& forall|i: int| 0 <= i < paradigms.len() ==> holds_lines(#[trigger] paradigms[i], lines)
    &&& forall|uid: Seq<char>| #[trigger] mentions(lines, uid) ==> has_paradigm(paradigms, uid)
}

proof fn field_of_push(lines: Seq<RawPair>, line: RawPair, uid: Seq<char>)
    ensures
        mentions(lines, uid) ==> field_of(lines.push(line), uid) == field_of(lines, uid),
        !mentions(lines, uid) && line.uid@ == uid ==> field_of(lines.push(line), uid)
            == line.field@,
        mentions(lines.push(line), uid) <==> mentions(lines, uid) || line.uid@ == uid,
    decreases lines.len(),
{
    let now = lines.push(line);
    if mentions(lines, uid) {
        let i = choose|i: int| 0 <= i < lines.len() && (#[trigger] lines[i]).uid@ == uid;
        assert(now[i].uid@ == uid);
    }
    if line.uid@ == uid {
        assert(now[lines.len() as int].uid@ == uid);
    }
    if mentions(now, uid) && line.uid@ != uid {
        let i = choose|i: int| 0 <= i < now.len() && (#[trigger] now[i]).uid@ == uid;
        assert(lines[i].uid@ == uid);
    }
    if lines.len() > 0 {
        let rest = lines.drop_first();
        field_of_push(rest, line, uid);
        assert(now.drop_first() =~= rest.push(line));
        if lines[0].uid@ != uid {
            if mentions(lines, uid) {
                let i = choose|i: int| 0 <= i < lines.len() && (#[trigger] lines[i]).uid@ == uid;
                assert(rest[i - 1].uid@ == uid);
            } else if mentions(rest, uid) {
                let i = choose|i: int| 0 <= i < rest.len() && (#[trigger] rest[i]).uid@ == uid;
                assert(lines[i + 1].uid@ == uid);
            }
        } else {
            assert(mentions(lines, uid));
        }
    } else {
        assert(now.drop_first() =~= Seq::<RawPair>::empty());
    }
}

proof fn pairs_of_push(lines: Seq<RawPair>, line: RawPair, uid: Seq<char>)
    ensures
        pairs_of(lines.push(line), uid) == if line.uid@ == uid {
            pairs_of(lines, uid).push((line.sentence_good@, line.sentence_bad@))
        } else {
            pairs_of(lines, uid)
        },
{
    assert(lines.push(line).drop_last() =~= lines);
}

proof fn pairs_of_absent(lines: Seq<RawPair>, uid: Seq<char>)
    requires
        !mentions(lines, uid),
    ensures
        pairs_of(lines, uid) == Seq::<(Seq<char>, Seq<char>)>::empty(),
    decreases lines.len(),
{
    if lines.len() > 0 {
        let rest = lines.drop_last();
        if mentions(rest, uid) {
            let i = choose|i: int| 0 <= i < rest.len() && (#[trigger] rest[i]).uid@ == uid;
            assert(lines[i].uid@ == uid);
        }
        assert(lines[lines.len() - 1].uid@ != uid);
        pairs_of_absent(rest, uid);
    }
}

/// A paradigm that another line does not concern holds what it held.
proof fn other_line_leaves(p: Paradigm, lines: Seq<RawPair>, line: RawPair)
    requires
        holds_lines(p, lines),
        line.uid@ != p.uid@,
    ensures
        holds_lines(p, lines.push(line)),
{
    field_of_push(lines, line, p.uid@);
    pairs_of_push(lines, line, p.uid@);
}

impl BlimpSuite {
    /// Adds the pair of a line to its paradigm, which is made when it is the
    /// first with its uid.
    fn add(&mut self, line: &RawPair, Ghost(lines): Ghost<Seq<RawPair>>)
        requires
            is_grouping(old(self).paradigms@, lines),
        ensures
            is_grouping(final(self).paradigms@, lines.push(*line)),
    {
        let ghost old_p = self.paradigms@;
        let ghost uid = line.uid@;
        let ghost next = lines.push(*line);
        let n: usize = self.paradigms.len();
        let mut i: usize = 0;
        while i < n && comes_before(self.paradigms[i].uid.as_str(), line.uid.as_str())
            invariant
                i <= n,
                n == self.paradigms@.len(),
                self.paradigms@ == old_p,
                uid == line.uid@,
                forall|j: int| 0 <= j < i ==> before((#[trigger] old_p[j]).uid@, uid),
            decreases n - i,
        {
            i = i + 1;
        }
        proof {
            field_of_push(lines, *line, uid);
            pairs_of_push(lines, *line, uid);
            assert forall|j: int| i < j < n implies before(
                uid,
                (#[trigger] old_p[j]).uid@,
            ) by {
                before_total(old_p[i as int].uid@, uid);
                assert(before(old_p[i as int].uid@, old_p[j].uid@));
                if old_p[i as int].uid@ != uid {
                    before_transitive(uid, old_p[i as int].uid@, old_p[j].uid@);
                }
            }
        }
        let pair = MinimalPair {
            good: line.sentence_good.clone(),
            bad: line.sentence_bad.clone(),
        };
        if i < n && self.paradigms[i].uid == line.uid {
            let ghost held = old_p[i as int];
            self.paradigms[i].pairs.push(pair);
            proof {
                let now = self.paradigms@;
                assert(now[i as int].uid == held.uid);
                assert(now[i as int].field == held.field);
                assert(now[i as int].pairs@ == held.pairs@.push(pair));
                assert(forall|j: int| 0 <= j < n && j != i ==> now[j] == old_p[j]);
                assert(holds_lines(held, lines));
                assert(pairs_texts(now[i as int].pairs@) =~= pairs_texts(held.pairs@).push(
                    pair_texts(pair),
                ));
                assert(holds_lines(now[i as int], next));
                assert forall|j: int| 0 <= j < now.len() implies holds_lines(
                    #[trigger] now[j],
                    next,
                ) by {
                    if j != i {
                        assert(holds_lines(old_p[j], lines));
                        if old_p[j].uid@ == uid {
                            before_irreflexive(uid);
                        }
                        other_line_leaves(old_p[j], lines, *line);
                    }
                }
                assert forall|u: Seq<char>| #[trigger] mentions(next, u) implies has_paradigm(
                    now,
                    u,
                ) by {
                    field_of_push(lines, *line, u);
                    if u == uid {
                        assert(now[i as int].uid@ == u);
                    } else {
                        assert(has_paradigm(old_p, u));
                        let j = choose|j: int|
                            0 <= j < old_p.len() && (#[trigger] old_p[j]).uid@ == u;
                        assert(now[j].uid@ == u);
                    }
                }
                assert forall|a: int, b: int| 0 <= a < b < now.len() implies before(
                    (#[trigger] now[a]).uid@,
                    (#[trigger] now[b]).uid@,
                ) by {
                    assert(now[a].uid == old_p[a].uid && now[b].uid == old_p[b].uid);
                    assert(before(old_p[a].uid@, old_p[b].uid@));
                }
            }
        } else {
            let mut pairs: Vec<MinimalPair> = Vec::new();
            pairs.push(pair);
            let fresh = Paradigm { uid: line.uid.clone(), field: line.field.clone(), pairs };
            self.paradigms.insert(i, fresh);
            proof {
                let now = self.paradigms@;
                assert(now =~= old_p.insert(i as int, fresh));
                assert(fresh.uid@ == uid);
                if i < n {
                    before_total(old_p[i as int].uid@, uid);
                    assert(before(uid, old_p[i as int].uid@));
                }
                assert(!has_paradigm(old_p, uid)) by {
                    if has_paradigm(old_p, uid) {
                        let j = choose|j: int|
                            0 <= j < old_p.len() && (#[trigger] old_p[j]).uid@ == uid;
                        before_irreflexive(uid);
                        assert(j < i || j == i || j > i);
                    }
                }
                assert(!mentions(lines, uid));
                pairs_of_absent(lines, uid);
                assert(pairs_texts(fresh.pairs@) =~= Seq::empty().push(pair_texts(pair)));
                assert(holds_lines(fresh, next));
                assert forall|j: int| 0 <= j < now.len() implies holds_lines(
                    #[trigger] now[j],
                    next,
                ) by {
                    if j != i {
                        let j0 = if j < i {
                            j
                        } else {
                            j - 1
                        };
                        assert(now[j] == old_p[j0]);
                        assert(holds_lines(old_p[j0], lines));
                        assert(old_p[j0].uid@ != uid);
                        other_line_leaves(old_p[j0], lines, *line);
                    }
                }
                assert forall|u: Seq<char>| #[trigger] mentions(next, u) implies has_paradigm(
                    now,
                    u,
                ) by {
                    field_of_push(lines, *line, u);
                    if u == uid {
                        assert(now[i as int].uid@ == u);
                    } else {
                        assert(has_paradigm(old_p, u));
                        let j = choose|j: int|
                            0 <= j < old_p.len() && (#[trigger] old_p[j]).uid@ == u;
                        if j < i {
                            assert(now[j].uid@ == u);
                        } else {
                            assert(now[j + 1].uid@ == u);
                        }
                    }
                }
                assert forall|a: int, b: int| 0 <= a < b < now.len() implies before(
                    (#[trigger] now[a]).uid@,
                    (#[trigger] now[b]).uid@,
                ) by {
                    let a0 = if a < i {
                        a
                    } else {
                        a - 1
                    };
                    let b0 = if b < i {
                        b
                    } else {
                        b - 1
                    };
                    if a == i {
                        assert(now[b] == old_p[b0]);
                    } else if b == i {
                        assert(now[a] == old_p[a0]);
                    } else {
                        assert(now[a] == old_p[a0] && now[b] == old_p[b0]);
                        assert(before(old_p[a0].uid@, old_p[b0].uid@));
                    }
                }
            }
        }
    }

    /// The suite that lines make: grouped by uid, the paradigms in ascending
    /// order of their uids, the pairs in the order of the lines. A paradigm's
    /// field is that of its first line.
    pub fn from_lines(lines: &Vec<RawPair>) -> (r: Self)
        ensures
            is_grouping(r.paradigms@, lines@),
    {
        let mut suite = BlimpSuite { paradigms: Vec::new() };
        let mut i: usize = 0;
        while i < lines.len()
            invariant
                i <= lines@.len(),
                is_grouping(suite.paradigms@, lines@.take(i as int)),
            decreases lines@.len() - i,
        {
            proof {
                assert(lines@.take(i + 1) =~= lines@.take(i as int).push(lines@[i as int]));
            }
            suite.add(&lines[i], Ghost(lines@.take(i as int)));
            i = i + 1;
        }
        assert(lines@.take(i as int) =~= lines@);
        suite
    }
}

/// The pairs of all paradigms.
pub open spec fn pair_total(paradigms: Seq<Paradigm>) -> nat
    decreases paradigms.len(),
{
    if paradigms.len() == 0 {
        0
    } else {
        pair_total(paradigms.drop_last()) + paradigms.last().pairs@.len()
    }
}

proof fn pair_total_grows(paradigms: Seq<Paradigm>, n: int)
    requires
        0 <= n <= paradigms.len(),
    ensures
        pair_total(paradigms.take(n)) <= pair_total(paradigms),
    decreases paradigms.len() - n,
{
    if n < paradigms.len() {
        pair_total_grows(paradigms, n + 1);
        assert(paradigms.take(n + 1).drop_last() =~= paradigms.take(n));
    } else {
        assert(paradigms.take(n) =~= paradigms);
    }
}

impl BlimpSuite {
    /// The number of pairs in the suite.
    pub fn n_pairs(&self) -> (r: usize)
        requires
            pair_total(self.paradigms@) <= usize::MAX,
        ensures
            r == pair_total(self.paradigms@),
    {
        let mut sum: usize = 0;
        let mut i: usize = 0;
        while i < self.paradigms.len()
            invariant
                i <= self.paradigms@.len(),
                pair_total(self.paradigms@) <= usize::MAX,
                sum == pair_total(self.paradigms@.take(i as int)),
            decreases self.paradigms@.len() - i,
        {
            proof {
                let all = self.paradigms@;
                assert(all.take(i + 1).drop_last() =~= all.take(i as int));
                pair_total_grows(all, i + 1);
            }
            sum = sum + self.paradigms[i].pairs.len();
            i = i + 1;
        }
        assert(self.paradigms@.take(i as int) =~= self.paradigms@);
        sum
    }
}

/// Whether a line holds nothing but whitespace.
pub fn is_blank(line: &str) -> (r: bool)
    ensures
        r == (trimmed(line@).len() == 0),
{
    trim(line).is_empty()
}

/// Whether a file name has the extension `jsonl`.
pub open spec fn names_jsonl(name: Seq<char>) -> bool {
    ".jsonl"@.is_suffix_of(name) && name.len() > ".jsonl"@.len()
}

/// The names with the extension `jsonl`, in order.
pub open spec fn jsonl_names(names: Seq<Seq<char>>) -> Seq<Seq<char>>
    decreases names.len(),
{
    if names.len() == 0 {
        Seq::empty()
    } else if names_jsonl(names.last()) {
        jsonl_names(names.drop_last()).push(names.last())
    } else {
        jsonl_names(names.drop_last())
    }
}

/// The files of a suite among the names in `dir`, in ascending order. A
/// directory without one is an error that says where to get the suite.
pub fn suite_files(dir: &str, names: &Vec<String>) -> (r: Result<Vec<String>, String>)
    ensures
        r is Ok <==> jsonl_names(texts(names@)).len() > 0,
        r is Ok ==> texts(r->Ok_0@) == sorted(jsonl_names(texts(names@))),
        r is Ok ==> ascending(texts(r->Ok_0@)) && texts(r->Ok_0@).to_multiset() == jsonl_names(
            texts(names@),
        ).to_multiset(),
        r is Err ==> r->Err_0@ == "no .jsonl files in "@ + dir@
            + ": download the suite from https://github.com/alexwarstadt/blimp (data/ directory)"@,
{
    let suffix: usize = chars_of(".jsonl").len();
    let mut found: Vec<String> = Vec::new();
    let mut i: usize = 0;
    assert(texts(names@).take(0) =~= Seq::<Seq<char>>::empty());
    assert(texts(found@) =~= Seq::<Seq<char>>::empty());
    while i < names.len()
        invariant
            i <= names@.len(),
            suffix == ".jsonl"@.len(),
            texts(found@) == jsonl_names(texts(names@).take(i as int)),
        decreases names@.len() - i,
    {
        let v = chars_of(names[i].as_str());
        proof {
            let all = texts(names@);
            assert(all.take(i + 1).drop_last() =~= all.take(i as int));
            assert(all[i as int] == names@[i as int]@);
        }
        if ends_with(&v, ".jsonl") && v.len() > suffix {
            let ghost before = texts(found@);
            found.push(names[i].clone());
            assert(texts(found@) =~= before.push(names@[i as int]@));
        }
        i = i + 1;
    }
    assert(texts(names@).take(i as int) =~= texts(names@));
    if found.len() == 0 {
        let mut s = "no .jsonl files in ".to_owned();
        s.append(dir);
        s.append(
            ": download the suite from https://github.com/alexwarstadt/blimp (data/ directory)",
        );
        return Err(s);
    }
    assert(texts(found@).len() == found@.len());
    Ok(sorted_texts(found))
}

/// The uids of paradigms.
pub open spec fn uids(paradigms: Seq<Paradigm>) -> Seq<Seq<char>> {
    paradigms.map_values(|p: Paradigm| p.uid@)
}

/// The pairs of the lines with these uids, uid by uid.
spec fn pairs_by_uid(uids: Seq<Seq<char>>, lines: Seq<RawPair>) -> nat
    decreases uids.len(),
{
    if uids.len() == 0 {
        0
    } else {
        pairs_by_uid(uids.drop_last(), lines) + pairs_of(lines, uids.last()).len()
    }
}

/// How often a uid occurs.
spec fn occurrences(uids: Seq<Seq<char>>, uid: Seq<char>) -> nat
    decreases uids.len(),
{
    if uids.len() == 0 {
        0
    } else {
        occurrences(uids.drop_last(), uid) + if uids.last() == uid {
            1nat
        } else {
            0
        }
    }
}

proof fn one_more_line(uids: Seq<Seq<char>>, lines: Seq<RawPair>, line: RawPair)
    ensures
        pairs_by_uid(uids, lines.push(line)) == pairs_by_uid(uids, lines) + occurrences(
            uids,
            line.uid@,
        ),
    decreases uids.len(),
{
    if uids.len() > 0 {
        one_more_line(uids.drop_last(), lines, line);
        pairs_of_push(lines, line, uids.last());
    }
}

proof fn occurs_once(uids: Seq<Seq<char>>, uid: Seq<char>)
    requires
        forall|i: int, j: int|
            0 <= i < j < uids.len() ==> before(#[trigger] uids[i], #[trigger] uids[j]),
    ensures
        occurrences(uids, uid) == if uids.contains(uid) {
            1nat
        } else {
            0
        },
    decreases uids.len(),
{
    if uids.len() > 0 {
        let rest = uids.drop_last();
        assert forall|i: int, j: int| 0 <= i < j < rest.len() implies before(
            #[trigger] rest[i],
            #[trigger] rest[j],
        ) by {
            assert(before(uids[i], uids[j]));
        }
        occurs_once(rest, uid);
        if uids.last() == uid {
            assert(uids[uids.len() - 1] == uid);
            if rest.contains(uid) {
                let i = choose|i: int| 0 <= i < rest.len() && rest[i] == uid;
                assert(before(uids[i], uids[uids.len() - 1]));
                before_irreflexive(uid);
            }
        } else if uids.contains(uid) {
            let i = choose|i: int| 0 <= i < uids.len() && uids[i] == uid;
            assert(rest[i] == uid);
        } else if rest.contains(uid) {
            let i = choose|i: int| 0 <= i < rest.len() && rest[i] == uid;
            assert(uids[i] == uid);
        }
    }
}

proof fn every_line_is_somewhere(uids: Seq<Seq<char>>, lines: Seq<RawPair>)
    requires
        forall|i: int, j: int|
            0 <= i < j < uids.len() ==> before(#[trigger] uids[i], #[trigger] uids[j]),
        forall|i: int| 0 <= i < lines.len() ==> uids.contains((#[trigger] lines[i]).uid@),
    ensures
        pairs_by_uid(uids, lines) == lines.len(),
    decreases lines.len(),
{
    if lines.len() == 0 {
        no_lines(uids, lines);
    } else {
        let rest = lines.drop_last();
        assert forall|i: int| 0 <= i < rest.len() implies uids.contains(
            (#[trigger] rest[i]).uid@,
        ) by {
            assert(uids.contains(lines[i].uid@));
        }
        every_line_is_somewhere(uids, rest);
        assert(lines =~= rest.push(lines.last()));
        one_more_line(uids, rest, lines.last());
        assert(uids.contains(lines[lines.len() - 1].uid@));
        occurs_once(uids, lines.last().uid@);
    }
}

proof fn no_lines(uids: Seq<Seq<char>>, lines: Seq<RawPair>)
    requires
        lines.len() == 0,
    ensures
        pairs_by_uid(uids, lines) == 0,
    decreases uids.len(),
{
    if uids.len() > 0 {
        no_lines(uids.drop_last(), lines);
    }
}

proof fn totals_by_uid(paradigms: Seq<Paradigm>, lines: Seq<RawPair>)
    requires
        forall|i: int| 0 <= i < paradigms.len() ==> holds_lines(#[trigger] paradigms[i], lines),
    ensures
        pair_total(paradigms) == pairs_by_uid(uids(paradigms), lines),
    decreases paradigms.len(),
{
    if paradigms.len() > 0 {
        let rest = paradigms.drop_last();
        assert forall|i: int| 0 <= i < rest.len() implies holds_lines(
            #[trigger] rest[i],
            lines,
        ) by {
            assert(holds_lines(paradigms[i], lines));
        }
        totals_by_uid(rest, lines);
        assert(uids(paradigms).drop_last() =~= uids(rest));
        let last = paradigms[paradigms.len() - 1];
        assert(holds_lines(last, lines));
        assert(pairs_texts(last.pairs@).len() == last.pairs@.len());
    }
}

/// Grouping keeps every pair: a suite has as many pairs as its files have lines.
pub proof fn grouping_keeps_every_pair(paradigms: Seq<Paradigm>, lines: Seq<RawPair>)
    requires
        is_grouping(paradigms, lines),
    ensures
        pair_total(paradigms) == lines.len(),
{
    let names = uids(paradigms);
    totals_by_uid(paradigms, lines);
    assert forall|i: int, j: int| 0 <= i < j < names.len() implies before(
        #[trigger] names[i],
        #[trigger] names[j],
    ) by {
        assert(before(paradigms[i].uid@, paradigms[j].uid@));
    }
    assert forall|i: int| 0 <= i < lines.len() implies names.contains(
        (#[trigger] lines[i]).uid@,
    ) by {
        let uid = lines[i].uid@;
        assert(mentions(lines, uid));
        assert(has_paradigm(paradigms, uid));
        let k = choose|k: int| 0 <= k < paradigms.len() && (#[trigger] paradigms[k]).uid@ == uid;
        assert(names[k] == uid);
    }
    every_line_is_somewhere(names, lines);
}

} // verus!
