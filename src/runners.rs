use vstd::prelude::*;

use rayon::iter::{IndexedParallelIterator, IntoParallelRefIterator, ParallelIterator};

use crate::report::{
    all_counted, counted, fails_first_at, lemma_first_failure_unique, report, report_view,
    RunError, WorkResult,
};
use crate::source::{outcome, outcomes, Source, SourceError};
use crate::words::Matcher;

verus! {

/// Counts the sources one after another on the calling thread, in list order, and
/// stops at the first source that fails.
pub fn run_sequential(sources: &Vec<Source>, m: &Matcher) -> (r: Result<Vec<WorkResult>, RunError>)
    ensures
        report_view(r) == report(outcomes(sources@, m@)),
{
    let ghost o = outcomes(sources@, m@);
    let mut out: Vec<WorkResult> = Vec::new();
    for i in 0..sources.len()
        invariant
            o == outcomes(sources@, m@),
            forall|j: int| 0 <= j < i ==> o[j] is Ok,
            out@ == counted(o, i as int),
    {
        match sources[i].count(m) {
            Ok(c) => {
                out.push(WorkResult { index: i, count: c });
                assert(out@ =~= counted(o, i + 1));
            },
            Err(e) => {
                proof {
                    assert(fails_first_at(o, i as int));
                    lemma_first_failure_unique(o, i as int);
                }
                return Err(RunError::Source { index: i, error: e });
            },
        }
    }
    assert(all_counted(o));
    Ok(out)
}

/// `tagged` holds each position below `o.len()` exactly once, beside the outcome `o`
/// has there: what the tasks of a fan-out hand back, in whatever order they finished.
pub open spec fn is_placement(
    tagged: Seq<(usize, Result<usize, SourceError>)>,
    o: Seq<Result<usize, SourceError>>,
) -> bool {
    &&& tagged.len() == o.len()
    &&& forall|k: int| 0 <= k < tagged.len() ==> (tagged[k].0 as int) < o.len()
    &&& forall|k: int| 0 <= k < tagged.len() ==> o[tagged[k].0 as int] == tagged[k].1
    &&& forall|k1: int, k2: int|
        0 <= k1 < tagged.len() && 0 <= k2 < tagged.len() && k1 != k2 ==> tagged[k1].0
            != tagged[k2].0
    &&& forall|i: int| 0 <= i < o.len() ==> #[trigger] has_tag(tagged, i)
}

/// Some task of `tagged` carries the position `i`.
pub open spec fn has_tag(tagged: Seq<(usize, Result<usize, SourceError>)>, i: int) -> bool {
    exists|k: int| 0 <= k < tagged.len() && tagged[k].0 == i
}

/// Relies on rayon: `par_iter().enumerate()` pairs each source with its position, and
/// `map(..).collect()` into a `Vec` keeps exactly one item per source. The order in
/// which the items come back is not relied on.
#[verifier::external_body]
fn fan_out(sources: &Vec<Source>, m: &Matcher) -> (r: Vec<(usize, Result<usize, SourceError>)>)
    ensures
        is_placement(r@, outcomes(sources@, m@)),
{
    sources.par_iter().enumerate().map(|(i, s)| (i, s.count(m))).collect()
}

/// The fan-in: puts the tagged outcomes of `n` tasks back into source order and
/// reports them as a run does, whatever order they arrived in. A missing, repeated
/// or out-of-range position is a `TaskFailure`.
pub fn collect_in_order(tagged: &Vec<(usize, Result<usize, SourceError>)>, n: usize) -> (r: Result<
    Vec<WorkResult>,
    RunError,
>)
    ensures
        forall|o: Seq<Result<usize, SourceError>>|
            #![auto]
            o.len() == n && is_placement(tagged@, o) ==> report_view(r) == report(o),
        (forall|o: Seq<Result<usize, SourceError>>|
            #![auto]
            o.len() == n ==> !is_placement(tagged@, o)) ==> r == Err::<Vec<WorkResult>, RunError>(
            RunError::TaskFailure,
        ),
{
    if tagged.len() != n {
        return Err(RunError::TaskFailure);
    }
    let mut slots: Vec<Option<Result<usize, SourceError>>> = Vec::new();
    for i in 0..n
        invariant
            slots.len() == i,
            forall|j: int| 0 <= j < i ==> slots@[j] is None,
    {
        slots.push(None);
    }
    for k in 0..n
        invariant
            tagged.len() == n,
            slots.len() == n,
            forall|j: int| 0 <= j < k ==> (tagged@[j].0 as int) < n,
            forall|j: int|
                0 <= j < k ==> slots@[tagged@[j].0 as int] == Some::<Result<usize, SourceError>>(
                    tagged@[j].1,
                ),
            forall|j1: int, j2: int| 0 <= j1 < k && 0 <= j2 < k && j1 != j2 ==> tagged@[j1].0
                != tagged@[j2].0,
            forall|i: int|
                0 <= i < n && slots@[i] is Some ==> exists|j: int| 0 <= j < k && tagged@[j].0 == i,
    {
        let (i, v) = tagged[k];
        if i >= n {
            assert(!is_placement(tagged@, seq![]));
            return Err(RunError::TaskFailure);
        }
        if slots[i].is_some() {
            proof {
                let j = choose|j: int| 0 <= j < k && tagged@[j].0 == i;
                assert(tagged@[j].0 == tagged@[k as int].0);
            }
            return Err(RunError::TaskFailure);
        }
        slots.set(i, Some(v));
    }
    let mut o: Vec<Result<usize, SourceError>> = Vec::new();
    for i in 0..n
        invariant
            slots.len() == n,
            tagged.len() == n,
            forall|j: int| 0 <= j < n ==> (tagged@[j].0 as int) < n,
            forall|j: int|
                0 <= j < n ==> slots@[tagged@[j].0 as int] == Some::<Result<usize, SourceError>>(
                    tagged@[j].1,
                ),
            forall|j1: int, j2: int| 0 <= j1 < n && 0 <= j2 < n && j1 != j2 ==> tagged@[j1].0
                != tagged@[j2].0,
            forall|i: int|
                0 <= i < n && slots@[i] is Some ==> exists|j: int| 0 <= j < n && tagged@[j].0 == i,
            o.len() == i,
            forall|j: int| 0 <= j < i ==> slots@[j] == Some::<Result<usize, SourceError>>(o@[j]),
    {
        match slots[i] {
            Some(v) => o.push(v),
            None => {
                proof {
                    assert forall|p: Seq<Result<usize, SourceError>>|
                        #![auto]
                        p.len() == n implies !is_placement(tagged@, p) by {
                        if is_placement(tagged@, p) {
                            assert(has_tag(tagged@, i as int));
                            let j = choose|j: int| 0 <= j < tagged.len() && tagged@[j].0 == i;
                        }
                    }
                }
                return Err(RunError::TaskFailure);
            },
        }
    }
    proof {
        assert forall|k: int| 0 <= k < tagged.len() implies o@[tagged@[k].0 as int]
            == tagged@[k].1 by {
            assert(slots@[tagged@[k].0 as int] == Some::<Result<usize, SourceError>>(
                tagged@[k].1,
            ));
        }
        assert forall|i: int| 0 <= i < n implies has_tag(tagged@, i) by {
            assert(slots@[i] is Some);
        }
        assert(is_placement(tagged@, o@));
        assert forall|p: Seq<Result<usize, SourceError>>|
            #![auto]
            p.len() == n && is_placement(tagged@, p) implies p == o@ by {
            assert forall|i: int| 0 <= i < n implies p[i] == o@[i] by {
                assert(has_tag(tagged@, i));
                let k = choose|k: int| 0 <= k < tagged.len() && tagged@[k].0 == i;
            }
            assert(p =~= o@);
        }
    }
    report_outcomes(&o)
}

/// Reports a list of outcomes already in source order.
fn report_outcomes(o: &Vec<Result<usize, SourceError>>) -> (r: Result<Vec<WorkResult>, RunError>)
    ensures
        report_view(r) == report(o@),
{
    let mut out: Vec<WorkResult> = Vec::new();
    for i in 0..o.len()
        invariant
            forall|j: int| 0 <= j < i ==> o@[j] is Ok,
            out@ == counted(o@, i as int),
    {
        match o[i] {
            Ok(c) => {
                out.push(WorkResult { index: i, count: c });
                assert(out@ =~= counted(o@, i + 1));
            },
            Err(e) => {
                proof {
                    assert(fails_first_at(o@, i as int));
                    lemma_first_failure_unique(o@, i as int);
                }
                return Err(RunError::Source { index: i, error: e });
            },
        }
    }
    assert(all_counted(o@));
    Ok(out)
}

/// Counts every source as its own task on rayon's thread pool, waits for all of them,
/// and puts the results back into source order. When several sources fail, the run
/// reports the first of them in source order, after every task has finished.
pub fn run_parallel(sources: &Vec<Source>, m: &Matcher) -> (r: Result<Vec<WorkResult>, RunError>)
    ensures
        report_view(r) == report(outcomes(sources@, m@)),
{
    let tagged = fan_out(sources, m);
    collect_in_order(&tagged, sources.len())
}

} // verus!
