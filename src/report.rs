use vstd::prelude::*;

use crate::source::SourceError;

verus! {

/// The count for the source at position `index` of the input list.
#[derive(Clone, Copy, Debug, PartialEq, Eq, Structural)]
pub struct WorkResult {
    pub index: usize,
    pub count: usize,
}

/// Why a run produced no result set.
#[derive(Clone, Copy, Debug, PartialEq, Eq, Structural)]
pub enum RunError {
    /// The source at `index` failed; no source before it did.
    Source { index: usize, error: SourceError },
    /// A concurrent task was lost or reported twice, or a stage stopped without a word.
    TaskFailure,
}

/// The source at `i` is the first one whose outcome is an error.
pub open spec fn fails_first_at(o: Seq<Result<usize, SourceError>>, i: int) -> bool {
    &&& 0 <= i < o.len()
    &&& o[i] is Err
    &&& forall|j: int| 0 <= j < i ==> o[j] is Ok
}

/// Every source was counted.
pub open spec fn all_counted(o: Seq<Result<usize, SourceError>>) -> bool {
    forall|j: int| 0 <= j < o.len() ==> o[j] is Ok
}

/// The results of the first `k` sources, each tagged with its position.
pub open spec fn counted(o: Seq<Result<usize, SourceError>>, k: int) -> Seq<WorkResult> {
    Seq::new(k as nat, |i: int| WorkResult { index: i as usize, count: o[i]->Ok_0 })
}

/// The position of the first failing source (meaningful when one fails).
pub open spec fn first_failure(o: Seq<Result<usize, SourceError>>) -> int {
    choose|i: int| fails_first_at(o, i)
}

/// The error a run reports when the source at `i` fails.
pub open spec fn source_error(o: Seq<Result<usize, SourceError>>, i: int) -> RunError {
    RunError::Source { index: i as usize, error: o[i]->Err_0 }
}

/// What every strategy reports for the outcomes `o`: the result of each source in
/// source order when all were counted, else the error of the first that failed.
pub open spec fn report(o: Seq<Result<usize, SourceError>>) -> Result<Seq<WorkResult>, RunError> {
    if all_counted(o) {
        Ok(counted(o, o.len() as int))
    } else {
        Err(source_error(o, first_failure(o)))
    }
}

/// A run's return value, with the results seen as a sequence.
pub open spec fn report_view(r: Result<Vec<WorkResult>, RunError>) -> Result<
    Seq<WorkResult>,
    RunError,
> {
    match r {
        Ok(v) => Ok(v@),
        Err(e) => Err(e),
    }
}

/// The first failure is unique.
pub proof fn lemma_first_failure_unique(o: Seq<Result<usize, SourceError>>, i: int)
    requires
        fails_first_at(o, i),
    ensures
        first_failure(o) == i,
        report(o) == Err::<Seq<WorkResult>, RunError>(source_error(o, i)),
{
    let j = first_failure(o);
    assert(fails_first_at(o, j));
    if j < i {
        assert(o[j] is Ok);
    } else if i < j {
        assert(o[i] is Ok);
    }
}

/// When some source fails, there is a first one.
pub proof fn lemma_first_failure_exists(o: Seq<Result<usize, SourceError>>)
    requires
        !all_counted(o),
    ensures
        fails_first_at(o, first_failure(o)),
    decreases o.len(),
{
    let p = o.drop_last();
    if !all_counted(p) {
        lemma_first_failure_exists(p);
        let i = first_failure(p);
        assert forall|j: int| 0 <= j < i implies o[j] is Ok by {
            assert(p[j] == o[j]);
        }
        assert(fails_first_at(o, i));
    } else {
        let w = choose|j: int| 0 <= j < o.len() && o[j] is Err;
        if w < o.len() - 1 {
            assert(p[w] == o[w]);
        }
        assert forall|j: int| 0 <= j < o.len() - 1 implies o[j] is Ok by {
            assert(p[j] == o[j]);
        }
        assert(fails_first_at(o, o.len() - 1));
    }
}

/// A result set always has one entry per source, in source order, and an empty
/// input gives an empty result set; a failed run names a source that failed after
/// all earlier ones were counted.
pub proof fn lemma_report_shape(o: Seq<Result<usize, SourceError>>)
    requires
        o.len() <= usize::MAX,
    ensures
        o.len() == 0 ==> report(o) == Ok::<Seq<WorkResult>, RunError>(seq![]),
        report(o) matches Ok(rs) ==> {
            &&& rs.len() == o.len()
            &&& forall|i: int|
                0 <= i < o.len() ==> rs[i].index == i && o[i] == Ok::<usize, SourceError>(
                    rs[i].count,
                )
        },
        report(o) matches Err(e) ==> e matches RunError::Source { index, error } && fails_first_at(
            o,
            index as int,
        ) && o[index as int] == Err::<usize, SourceError>(error),
{
    if o.len() == 0 {
        assert(counted(o, 0) =~= seq![]);
    }
    if !all_counted(o) {
        lemma_first_failure_exists(o);
    }
}

} // verus!
