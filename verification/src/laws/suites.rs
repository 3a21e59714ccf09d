//! Minimal pairs: how they are grouped, laid out and scored.

use vstd::prelude::*;

use vstd::string::*;

use crate::data::dataset::element;
use crate::eval::blimp::layout::{
    input_row, longest, mask_row, pairs_at_once, scoring_fault, sentence_at, target_row,
};
use crate::eval::blimp::score::{
    field_tally, fields, follows_accuracy, is_by_field, listed, no_better, FieldTotal,
    ParadigmScore,
};
use crate::eval::blimp::suite::{
    field_of, is_grouping, jsonl_names, names_jsonl, mentions, pair_total, pairs_of, pairs_texts,
    MinimalPair, Paradigm, RawPair,
};
use crate::laws::counting::field_counts_add_up;
use crate::number::total_order64;
use crate::order::{before, before_irreflexive};

verus! {

/// A line adds its pair to its own paradigm, behind the pairs before it, and to
/// no other.
pub proof fn lines_add_to_their_paradigm(lines: Seq<RawPair>, line: RawPair, uid: Seq<char>)
    ensures
        pairs_of(Seq::<RawPair>::empty(), uid) == Seq::<(Seq<char>, Seq<char>)>::empty(),
        line.uid@ == uid ==> pairs_of(lines.push(line), uid) == pairs_of(lines, uid).push(
            (line.sentence_good@, line.sentence_bad@),
        ),
        line.uid@ != uid ==> pairs_of(lines.push(line), uid) == pairs_of(lines, uid),
{
    assert(lines.push(line).drop_last() =~= lines);
}

/// The first line of a paradigm says its field.
pub proof fn the_first_line_says_the_field(
    before_it: Seq<RawPair>,
    line: RawPair,
    rest: Seq<RawPair>,
)
    requires
        forall|i: int| 0 <= i < before_it.len() ==> (#[trigger] before_it[i]).uid@ != line.uid@,
    ensures
        field_of(before_it.push(line) + rest, line.uid@) == line.field@,
    decreases before_it.len(),
{
    let all = before_it.push(line) + rest;
    if before_it.len() == 0 {
        assert(all[0] == line);
    } else {
        let front = before_it.drop_first();
        assert(all[0] == before_it[0]);
        assert forall|i: int| 0 <= i < front.len() implies (#[trigger] front[i]).uid@
            != line.uid@ by {
            assert(before_it[i + 1].uid@ != line.uid@);
        }
        the_first_line_says_the_field(front, line, rest);
        assert(all.drop_first() =~= front.push(line) + rest);
    }
}

/// Every line belongs to exactly one paradigm, and every paradigm has a line; the
/// paradigms are in ascending order and hold the pairs of their lines.
pub proof fn every_line_has_one_paradigm(
    paradigms: Seq<Paradigm>,
    lines: Seq<RawPair>,
    i: int,
    p: int,
    q: int,
)
    requires
        is_grouping(paradigms, lines),
        0 <= i < lines.len(),
        0 <= p < paradigms.len(),
    ensures
        p < q < paradigms.len() ==> before(paradigms[p].uid@, paradigms[q].uid@)
            && paradigms[p].uid@ != paradigms[q].uid@,
        exists|k: int|
            0 <= k < paradigms.len() && (#[trigger] paradigms[k]).uid@ == lines[i].uid@,
        exists|k: int| 0 <= k < lines.len() && (#[trigger] lines[k]).uid@ == paradigms[p].uid@,
        pairs_texts(paradigms[p].pairs@) == pairs_of(lines, paradigms[p].uid@),
        paradigms[p].field@ == field_of(lines, paradigms[p].uid@),
{
    assert(mentions(lines, lines[i].uid@));
    if p < q < paradigms.len() && paradigms[p].uid@ == paradigms[q].uid@ {
        before_irreflexive(paradigms[p].uid@);
    }
    assert(mentions(lines, paradigms[p].uid@));
}

/// A paradigm keeps the good and the bad sentence of each of its pairs.
pub proof fn pairs_keep_their_sentences(pairs: Seq<MinimalPair>, i: int)
    requires
        0 <= i < pairs.len(),
    ensures
        pairs_texts(pairs).len() == pairs.len(),
        pairs_texts(pairs)[i].0 == pairs[i].good@,
        pairs_texts(pairs)[i].1 == pairs[i].bad@,
{
}

/// A suite has the pairs of all its paradigms.
pub proof fn suites_count_all_pairs(paradigms: Seq<Paradigm>, p: Paradigm)
    ensures
        pair_total(Seq::<Paradigm>::empty()) == 0,
        pair_total(paradigms.push(p)) == pair_total(paradigms) + p.pairs@.len(),
{
    assert(paradigms.push(p).drop_last() =~= paradigms);
}

/// The files of a suite are those whose name ends in `.jsonl` behind something.
pub proof fn suite_files_end_in_jsonl(names: Seq<Seq<char>>, name: Seq<char>)
    ensures
        names_jsonl(name) <==> name.len() > 6 && name.skip(name.len() - 6) == seq![
            '.',
            'j',
            's',
            'o',
            'n',
            'l',
        ],
        jsonl_names(Seq::<Seq<char>>::empty()) == Seq::<Seq<char>>::empty(),
        names_jsonl(name) ==> jsonl_names(names.push(name)) == jsonl_names(names).push(name),
        !names_jsonl(name) ==> jsonl_names(names.push(name)) == jsonl_names(names),
{
    reveal_strlit(".jsonl");
    assert(".jsonl"@ =~= seq!['.', 'j', 's', 'o', 'n', 'l']);
    assert(names.push(name).drop_last() =~= names);
    if name.len() > 6 {
        assert(name.skip(name.len() - 6) =~= name.subrange(
            name.len() - 6,
            name.len() as int,
        ));
    }
}

/// Of a sentence in a row, position `t` is read behind the start token, predicted
/// at `t`, and counted; behind the sentence nothing is.
pub proof fn rows_hold_the_sentence(seq: Seq<u32>, bos: u32, len: nat, t: int)
    requires
        seq.len() <= len,
        0 <= t < len,
    ensures
        input_row(seq, bos, len).len() == len,
        target_row(seq, len).len() == len,
        mask_row(seq, len).len() == len,
        input_row(seq, bos, len)[0] == element(bos),
        t < seq.len() ==> target_row(seq, len)[t] == element(seq[t]),
        t < seq.len() && t + 1 < len ==> input_row(seq, bos, len)[t + 1] == element(seq[t]),
        t >= seq.len() ==> target_row(seq, len)[t] == 0,
        t > seq.len() ==> input_row(seq, bos, len)[t] == 0,
        mask_row(seq, len)[t] <==> t < seq.len(),
{
}

/// The longest sentence is one of them, and none is longer.
pub proof fn none_is_longer(sequences: Seq<Vec<u32>>)
    ensures
        forall|i: int|
            0 <= i < sequences.len() ==> (#[trigger] sequences[i])@.len() <= longest(sequences),
        sequences.len() > 0 ==> exists|i: int|
            0 <= i < sequences.len() && (#[trigger] sequences[i])@.len() == longest(sequences),
        sequences.len() == 0 ==> longest(sequences) == 0,
    decreases sequences.len(),
{
    if sequences.len() > 0 {
        let front = sequences.drop_last();
        none_is_longer(front);
        let last = sequences.last();
        assert forall|i: int| 0 <= i < sequences.len() implies (#[trigger] sequences[i])@.len()
            <= longest(sequences) by {
            if i < front.len() {
                assert(front[i]@.len() <= longest(front));
            }
        }
        if last@.len() > longest(front) || front.len() == 0 {
            assert(sequences[sequences.len() - 1]@.len() == longest(sequences));
        } else {
            let i = choose|i: int|
                0 <= i < front.len() && (#[trigger] front[i])@.len() == longest(front);
            assert(sequences[i]@.len() == longest(sequences));
        }
    }
}

/// Sentences can be scored exactly where there are none, or one has a token and
/// all fit the context.
pub proof fn what_can_be_scored(sequences: Seq<Vec<u32>>, max_seq_len: nat)
    ensures
        scoring_fault(sequences, max_seq_len) is None <==> sequences.len() == 0 || {
            &&& exists|i: int| 0 <= i < sequences.len() && (#[trigger] sequences[i])@.len() > 0
            &&& forall|i: int|
                0 <= i < sequences.len() ==> (#[trigger] sequences[i])@.len() <= max_seq_len
        },
{
    none_is_longer(sequences);
}

/// Both sentences of a pair go through together, and no more sentences than the
/// batch holds, where it holds a pair.
pub proof fn pairs_fill_the_batch(batch_size: nat)
    ensures
        pairs_at_once(batch_size) >= 1,
        batch_size >= 2 ==> 2 * pairs_at_once(batch_size) <= batch_size < 2 * pairs_at_once(
            batch_size,
        ) + 2,
        batch_size < 2 ==> pairs_at_once(batch_size) == 1,
{
}

/// Sentences go by pairs, the good one first.
pub proof fn good_comes_before_bad(pairs: Seq<MinimalPair>, from: int, k: int)
    requires
        k >= 0,
    ensures
        sentence_at(pairs, from, 2 * k) == pairs[from + k].good@,
        sentence_at(pairs, from, 2 * k + 1) == pairs[from + k].bad@,
{
}

/// The totals by field are in ascending order of the fields, each with pairs and
/// with the counts of its field.
pub proof fn totals_count_their_field(
    totals: Seq<FieldTotal>,
    scores: Seq<ParadigmScore>,
    a: int,
    b: int,
)
    requires
        is_by_field(totals, scores),
        0 <= a < totals.len(),
    ensures
        a < b < totals.len() ==> before(totals[a].field@, totals[b].field@),
        totals[a].n_pairs > 0,
        totals[a].n_correct == field_tally(scores, totals[a].field@).0,
        totals[a].n_pairs == field_tally(scores, totals[a].field@).1,
{
    if a < b < totals.len() {
        assert(before(fields(totals)[a], fields(totals)[b]));
    }
}

/// The field of a paradigm with pairs has a total.
pub proof fn fields_with_pairs_are_totalled(
    totals: Seq<FieldTotal>,
    scores: Seq<ParadigmScore>,
    i: int,
)
    requires
        is_by_field(totals, scores),
        0 <= i < scores.len(),
        scores[i].n_pairs > 0,
    ensures
        exists|k: int| 0 <= k < totals.len() && (#[trigger] totals[k]).field@ == scores[i].field@,
{
    let field = scores[i].field@;
    let front = scores.take(i);
    let p = scores[i];
    let rest = scores.skip(i + 1);
    assert(scores =~= (front + seq![p]) + rest);
    field_counts_add_up(front + seq![p], rest, p, field);
    field_counts_add_up(front, seq![p], p, field);
    assert(fields(totals).contains(field));
    let k = choose|k: int| 0 <= k < fields(totals).len() && fields(totals)[k] == field;
    assert(totals[k].field@ == field);
}

/// The report lists ten paradigms, or all of fewer.
pub proof fn ten_are_listed(n: nat)
    ensures
        listed(n) <= 10,
        listed(n) <= n,
        listed(n) == 10 || listed(n) == n,
{
}

/// One accuracy is at most another exactly where its quotient is: with as many
/// pairs the right ones decide, and a common factor does not matter.
pub proof fn accuracies_compare_as_quotients(a: ParadigmScore, b: ParadigmScore)
    ensures
        a.n_pairs == b.n_pairs && a.n_pairs > 0 ==> (no_better(a, b) <==> a.n_correct
            <= b.n_correct),
        no_better(a, b) || no_better(b, a),
        a.n_correct * b.n_pairs == b.n_correct * a.n_pairs <==> no_better(a, b) && no_better(b, a),
{
    let x = a.n_correct as int;
    let y = b.n_correct as int;
    let n = a.n_pairs as int;
    if n > 0 {
        assert(x * n <= y * n <==> x <= y) by (nonlinear_arith)
            requires
                n > 0,
        ;
    }
}

/// Keys follow the accuracies exactly where no paradigm with pairs has a key above
/// that of one whose quotient is not below its own.
pub proof fn keys_follow_the_quotients(scores: Seq<ParadigmScore>, keys: Seq<u64>)
    requires
        keys.len() == scores.len(),
        forall|i: int, j: int|
            0 <= i < scores.len() && 0 <= j < scores.len() && (#[trigger] scores[i]).n_pairs > 0
                && (#[trigger] scores[j]).n_pairs > 0 && scores[i].n_correct * scores[j].n_pairs
                <= scores[j].n_correct * scores[i].n_pairs ==> total_order64(keys[i])
                <= total_order64(keys[j]),
    ensures
        follows_accuracy(scores, keys),
{
}

} // verus!
