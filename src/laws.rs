use vstd::prelude::*;

use crate::pipeline::{after_all, consumer_report, lemma_pipeline_reports, stream, Status};
use crate::report::{lemma_report_shape, report, RunError, WorkResult};
use crate::source::{outcome, outcomes, Source, SourceError};
use crate::words::split_words;

verus! {

/// What a strategy may report for `sources`: the runners' return value, or what the
/// pipeline's consumer holds once it has taken the producer's whole stream.
pub open spec fn reported_by_some_strategy(
    sources: Seq<Source>,
    variants: Seq<Seq<char>>,
    r: Result<Seq<WorkResult>, RunError>,
) -> bool {
    let o = outcomes(sources, variants);
    r == report(o) || Some(r) == consumer_report(
        after_all((Seq::<WorkResult>::empty(), Status::Receiving), stream(o)),
    )
}

/// The strategies agree, in whatever order the sources are listed: the pipeline's
/// consumer terminates with exactly what the sequential and parallel runners return,
/// and every entry of a result set is the count of the source at its position.
pub proof fn lemma_strategies_agree(sources: Seq<Source>, variants: Seq<Seq<char>>)
    requires
        sources.len() <= usize::MAX,
    ensures
        consumer_report(
            after_all(
                (Seq::<WorkResult>::empty(), Status::Receiving),
                stream(outcomes(sources, variants)),
            ),
        ) == Some(report(outcomes(sources, variants))),
        report(outcomes(sources, variants)) matches Ok(rs) ==> forall|i: int|
            0 <= i < sources.len() ==> rs[i].index == i && outcome(sources[i], variants) == Ok::<usize, SourceError>(rs[i].count),
{
    let o = outcomes(sources, variants);
    lemma_pipeline_reports(o);
    lemma_report_shape(o);
    assert forall|i: int| 0 <= i < sources.len() implies o[i] == outcome(sources[i], variants) by {
    }
}

/// Every strategy's result set holds one entry per source, for any number of sources,
/// and none for an empty list.
pub proof fn lemma_result_set_length(sources: Seq<Source>, variants: Seq<Seq<char>>, r: Result<
    Seq<WorkResult>,
    RunError,
>)
    requires
        sources.len() <= usize::MAX,
        reported_by_some_strategy(sources, variants, r),
    ensures
        r matches Ok(rs) ==> rs.len() == sources.len(),
        sources.len() == 0 ==> r == Ok::<Seq<WorkResult>, RunError>(seq![]),
{
    let o = outcomes(sources, variants);
    lemma_pipeline_reports(o);
    lemma_report_shape(o);
}

/// Two runs over the same sources, by the same strategy or by different ones, report
/// the same thing.
pub proof fn lemma_runs_repeat(
    sources: Seq<Source>,
    variants: Seq<Seq<char>>,
    first: Result<Seq<WorkResult>, RunError>,
    second: Result<Seq<WorkResult>, RunError>,
)
    requires
        reported_by_some_strategy(sources, variants, first),
        reported_by_some_strategy(sources, variants, second),
    ensures
        first == second,
{
    lemma_pipeline_reports(outcomes(sources, variants));
}

/// A source with no text, such as an empty file, is counted as zero, not as an error.
pub proof fn lemma_empty_source_counts_zero(s: Source, variants: Seq<Seq<char>>)
    requires
        s matches Source::Text(t) && t@.len() == 0,
    ensures
        outcome(s, variants) == Ok::<usize, SourceError>(0),
{
    assert(split_words(s->Text_0@) =~= seq![]);
}

} // verus!
