//! The epochs of a run: which are recorded, and which is best.

use vstd::prelude::*;

use vstd::string::*;

use crate::chars::{chars_of, parse_usize, parsed, starts_with};
use crate::number::{is_nan64, nan, order, order64};
use crate::text::{append_decimal, decimal, texts};

verus! {

/// The epoch that a directory name records, when it records one: `epoch-<n>`.
pub open spec fn epoch_of(name: Seq<char>) -> Option<usize> {
    if "epoch-"@.is_prefix_of(name) {
        parsed(name.skip("epoch-"@.len() as int))
    } else {
        None
    }
}

/// Whether one of the names records epoch `n`.
pub open spec fn records(names: Seq<Seq<char>>, n: usize) -> bool {
    exists|i: int| 0 <= i < names.len() && #[trigger] epoch_of(names[i]) == Some(n)
}

/// Whether `r` is the highest epoch that the names record.
pub open spec fn is_highest(names: Seq<Seq<char>>, r: Option<usize>) -> bool {
    match r {
        Some(m) => records(names, m) && forall|n: usize| #[trigger] records(names, n) ==> n <= m,
        None => forall|n: usize| !#[trigger] records(names, n),
    }
}

/// The epoch that a directory name records.
pub fn epoch_number(name: &str) -> (r: Option<usize>)
    ensures
        r == epoch_of(name@),
{
    let v = chars_of(name);
    if !starts_with(&v, "epoch-") {
        return None;
    }
    let skip: usize = chars_of("epoch-").len();
    let mut rest: Vec<char> = Vec::new();
    let mut i: usize = skip;
    while i < v.len()
        invariant
            skip <= i <= v.len(),
            rest@ == v@.subrange(skip as int, i as int),
        decreases v.len() - i,
    {
        rest.push(v[i]);
        i = i + 1;
        assert(rest@ =~= v@.subrange(skip as int, i as int));
    }
    assert(rest@ =~= name@.skip(skip as int));
    parse_usize(&rest)
}

/// The highest epoch number recorded among the names of epoch directories.
pub fn recorded_epochs(names: &Vec<String>) -> (r: Option<usize>)
    ensures
        is_highest(texts(names@), r),
{
    let mut best: Option<usize> = None;
    let mut i: usize = 0;
    while i < names.len()
        invariant
            i <= names.len(),
            is_highest(texts(names@).take(i as int), best),
        decreases names.len() - i,
    {
        let ghost all = texts(names@);
        let ghost before = all.take(i as int);
        let ghost now = all.take(i + 1);
        let found = epoch_number(names[i].as_str());
        proof {
            assert(now[i as int] == names@[i as int]@);
            assert forall|n: usize| #[trigger] records(now, n) implies records(before, n) || found
                == Some(n) by {
                let j = choose|j: int|
                    0 <= j < now.len() && #[trigger] epoch_of(now[j]) == Some(n);
                if j < i {
                    assert(epoch_of(before[j]) == Some(n));
                }
            }
            assert forall|n: usize| #[trigger] records(before, n) implies records(now, n) by {
                let j = choose|j: int|
                    0 <= j < before.len() && #[trigger] epoch_of(before[j]) == Some(n);
                assert(epoch_of(now[j]) == Some(n));
            }
            if let Some(n) = found {
                assert(epoch_of(now[i as int]) == Some(n));
                assert(records(now, n));
            }
        }
        if let Some(n) = found {
            best = match best {
                Some(m) => if m < n {
                    Some(n)
                } else {
                    Some(m)
                },
                None => Some(n),
            };
        }
        i = i + 1;
    }
    assert(texts(names@).take(names@.len() as int) =~= texts(names@));
    best
}

/// What is reported of a directory that holds `epochs` epochs of another run.
pub open spec fn merge_refusal(artifact_dir: Seq<char>, epochs: usize) -> Seq<char> {
    artifact_dir + " already holds metric logs for "@ + decimal(epochs as nat)
        + " epoch(s) from an earlier run. Training into it would merge the two: burn reads every `epoch-<n>` it finds, so the summary would report both runs as one, and the best-checkpoint search could select -- and load -- a checkpoint from the earlier model. Remove the directory, point --artifact-dir somewhere else, or pass --resume-from-epoch to continue that run deliberately."@
}

/// Refuse to start a fresh run in a directory that already holds one; `names`
/// are the epoch directories in it.
///
/// A shorter run into a used directory would overwrite the epochs it reaches
/// and leave the rest, and both would be read as one run. Resuming wants the
/// earlier logs: they are the same run.
pub fn refuse_to_merge_runs(
    artifact_dir: &str,
    names: &Vec<String>,
    resume_from_epoch: Option<usize>,
) -> (r: Result<(), String>)
    ensures
        r is Ok <==> resume_from_epoch is Some || forall|n: usize|
            !#[trigger] records(texts(names@), n),
        r is Err ==> exists|n: usize|
            is_highest(texts(names@), Some(n)) && r->Err_0@ == #[trigger] merge_refusal(
                artifact_dir@,
                n,
            ),
{
    if resume_from_epoch.is_some() {
        return Ok(());
    }
    match recorded_epochs(names) {
        Some(epochs) => {
            let mut s = artifact_dir.to_owned();
            s.append(" already holds metric logs for ");
            append_decimal(&mut s, epochs);
            s.append(
                " epoch(s) from an earlier run. Training into it would merge the two: burn reads every `epoch-<n>` it finds, so the summary would report both runs as one, and the best-checkpoint search could select -- and load -- a checkpoint from the earlier model. Remove the directory, point --artifact-dir somewhere else, or pass --resume-from-epoch to continue that run deliberately.",
            );
            assert(records(texts(names@), epochs));
            assert(s@ == merge_refusal(artifact_dir@, epochs));
            Err(s)
        },
        None => Ok(()),
    }
}

/// Whether entry `i` has the lowest loss of all entries that have one, and is
/// the first that does.
pub open spec fn is_best(entries: Seq<(usize, u64)>, i: int) -> bool {
    &&& 0 <= i < entries.len()
    &&& !is_nan64(entries[i].1)
    &&& forall|j: int|
        0 <= j < entries.len() && !is_nan64(#[trigger] entries[j].1) ==> order64(entries[i].1)
            <= order64(entries[j].1) && (j < i ==> order64(entries[i].1) < order64(entries[j].1))
}

/// The epoch whose mean validation loss was lowest. An entry is an epoch and
/// the bits of its loss.
///
/// An epoch that diverged to NaN is not a candidate, and of equal losses the
/// first one counts. `None` when no epoch can be named.
pub fn best_valid_loss_epoch(entries: &Vec<(usize, u64)>) -> (r: Option<usize>)
    ensures
        r is None <==> forall|j: int|
            0 <= j < entries@.len() ==> is_nan64(#[trigger] entries@[j].1),
        r is Some ==> exists|i: int| #[trigger] is_best(entries@, i) && r == Some(entries@[i].0),
{
    let mut best: Option<usize> = None;
    let mut i: usize = 0;
    while i < entries.len()
        invariant
            i <= entries.len(),
            best is None ==> forall|j: int| 0 <= j < i ==> is_nan64(#[trigger] entries@[j].1),
            best is Some ==> best->Some_0 < i && is_best(
                entries@.take(i as int),
                best->Some_0 as int,
            ),
        decreases entries.len() - i,
    {
        let ghost before = entries@.take(i as int);
        let ghost now = entries@.take(i + 1);
        proof {
            assert(forall|j: int| 0 <= j < i ==> now[j] == before[j]);
        }
        let bits: u64 = entries[i].1;
        if !nan(bits) {
            let better: bool = match best {
                Some(b) => order(bits) < order(entries[b].1),
                None => true,
            };
            if better {
                best = Some(i);
            }
        }
        i = i + 1;
    }
    assert(entries@.take(entries@.len() as int) =~= entries@);
    match best {
        Some(b) => {
            assert(is_best(entries@, b as int));
            Some(entries[b].0)
        },
        None => None,
    }
}

/// The highest recorded epoch is one: two answers agree.
pub proof fn highest_is_unique(names: Seq<Seq<char>>, a: Option<usize>, b: Option<usize>)
    requires
        is_highest(names, a),
        is_highest(names, b),
    ensures
        a == b,
{
}

} // verus!
