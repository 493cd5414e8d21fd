use vstd::prelude::*;

use crate::report::{
    all_counted, counted, fails_first_at, first_failure, lemma_first_failure_exists,
    lemma_first_failure_unique, report, report_view, source_error, RunError, WorkResult,
};
use crate::source::{outcomes, Source, SourceError};
use crate::words::Matcher;

verus! {

/// What travels from the producer stage to the consumer stage.
#[derive(Clone, Copy, Debug, PartialEq, Eq, Structural)]
pub enum Message {
    /// The result for one source.
    Counted(WorkResult),
    /// The producer stopped at a failing source; nothing follows.
    Failed(RunError),
    /// Every source was counted; nothing follows.
    End,
}

/// The messages the producer sends for the outcomes `o`, in order: one result per
/// source up to the first that fails, then `Failed` for that source, or `End` when
/// none fails.
pub open spec fn stream(o: Seq<Result<usize, SourceError>>) -> Seq<Message> {
    if all_counted(o) {
        counted(o, o.len() as int).map_values(|w: WorkResult| Message::Counted(w)).push(
            Message::End,
        )
    } else {
        let i = first_failure(o);
        counted(o, i).map_values(|w: WorkResult| Message::Counted(w)).push(
            Message::Failed(source_error(o, i)),
        )
    }
}

/// The producer stage: counts the sources in order and hands out one message per step.
pub struct Producer {
    sources: Vec<Source>,
    matcher: Matcher,
    next: usize,
    done: bool,
}

impl Producer {
    /// The outcome of each of the producer's sources.
    pub closed spec fn outcomes(&self) -> Seq<Result<usize, SourceError>> {
        outcomes(self.sources@, self.matcher@)
    }

    /// How many messages the producer has handed out.
    pub closed spec fn sent(&self) -> nat {
        (self.next + if self.done {
            1nat
        } else {
            0nat
        }) as nat
    }

    pub closed spec fn wf(&self) -> bool {
        let o = self.outcomes();
        &&& self.next <= o.len()
        &&& forall|j: int| 0 <= j < self.next ==> o[j] is Ok
        &&& self.done ==> (self.next == o.len() || o[self.next as int] is Err)
    }

    /// A producer over `sources` that has sent nothing yet.
    pub fn new(sources: Vec<Source>, matcher: Matcher) -> (r: Producer)
        ensures
            r.wf(),
            r.sent() == 0,
            r.outcomes() == outcomes(sources@, matcher@),
    {
        Producer { sources, matcher, next: 0, done: false }
    }

    /// Whether the producer has sent its last message.
    pub fn is_done(&self) -> (r: bool)
        requires
            self.wf(),
        ensures
            r == (self.sent() == stream(self.outcomes()).len()),
    {
        proof {
            self.lemma_sent_bound();
        }
        self.done
    }

    proof fn lemma_sent_bound(&self)
        requires
            self.wf(),
        ensures
            self.sent() <= stream(self.outcomes()).len(),
            self.done <==> self.sent() == stream(self.outcomes()).len(),
    {
        let o = self.outcomes();
        if !all_counted(o) {
            lemma_first_failure_exists(o);
            let i = first_failure(o);
            assert(self.next <= i) by {
                if self.next > i {
                    assert(o[i] is Ok);
                }
            }
            if self.done && self.next < o.len() {
                assert(fails_first_at(o, self.next as int));
                lemma_first_failure_unique(o, self.next as int);
            }
            if self.next == o.len() {
                assert(o[i] is Ok);
            }
        }
    }

    /// Counts the next source and returns the message for it; after the last source,
    /// or at the first that fails, returns the closing message; after that, `None`.
    pub fn step(&mut self) -> (r: Option<Message>)
        requires
            old(self).wf(),
        ensures
            final(self).wf(),
            final(self).outcomes() == old(self).outcomes(),
            old(self).sent() < stream(old(self).outcomes()).len() ==> {
                &&& r == Some(stream(old(self).outcomes())[old(self).sent() as int])
                &&& final(self).sent() == old(self).sent() + 1
            },
            old(self).sent() >= stream(old(self).outcomes()).len() ==> {
                &&& r is None
                &&& final(self).sent() == old(self).sent()
            },
    {
        proof {
            self.lemma_sent_bound();
        }
        let ghost o = self.outcomes();
        if self.done {
            return None;
        }
        if self.next == self.sources.len() {
            self.done = true;
            proof {
                assert(all_counted(o));
            }
            return Some(Message::End);
        }
        let i = self.next;
        match self.sources[i].count(&self.matcher) {
            Ok(c) => {
                self.next = i + 1;
                proof {
                    if !all_counted(o) {
                        lemma_first_failure_exists(o);
                        let f = first_failure(o);
                        if f <= i {
                            assert(o[f] is Ok);
                        }
                    }
                }
                Some(Message::Counted(WorkResult { index: i, count: c }))
            },
            Err(e) => {
                self.done = true;
                proof {
                    assert(fails_first_at(o, i as int));
                    lemma_first_failure_unique(o, i as int);
                }
                Some(Message::Failed(RunError::Source { index: i, error: e }))
            },
        }
    }
}

/// Where the consumer stage stands.
#[derive(Clone, Copy, Debug, PartialEq, Eq, Structural)]
pub enum Status {
    /// Waiting for more messages.
    Receiving,
    /// End-of-stream was received.
    Finished,
    /// The run failed, by a message from the producer or by the channel closing early.
    Failed(RunError),
}

/// The consumer's state after taking `msg` in state `st`; a terminated consumer ignores it.
pub open spec fn after(st: (Seq<WorkResult>, Status), msg: Message) -> (Seq<WorkResult>, Status) {
    match st.1 {
        Status::Receiving => match msg {
            Message::Counted(w) => (st.0.push(w), Status::Receiving),
            Message::Failed(e) => (st.0, Status::Failed(e)),
            Message::End => (st.0, Status::Finished),
        },
        _ => st,
    }
}

/// The consumer's state after taking `msgs` in order, from state `st`.
pub open spec fn after_all(st: (Seq<WorkResult>, Status), msgs: Seq<Message>) -> (
    Seq<WorkResult>,
    Status,
)
    decreases msgs.len(),
{
    if msgs.len() == 0 {
        st
    } else {
        after(after_all(st, msgs.drop_last()), msgs.last())
    }
}

/// What a terminated consumer reports; `None` while it still receives.
pub open spec fn consumer_report(st: (Seq<WorkResult>, Status)) -> Option<
    Result<Seq<WorkResult>, RunError>,
> {
    match st.1 {
        Status::Receiving => None,
        Status::Finished => Some(Ok(st.0)),
        Status::Failed(e) => Some(Err(e)),
    }
}

/// The consumer stage: takes the producer's messages in the order they were sent.
pub struct Consumer {
    received: Vec<WorkResult>,
    status: Status,
}

impl View for Consumer {
    type V = (Seq<WorkResult>, Status);

    closed spec fn view(&self) -> (Seq<WorkResult>, Status) {
        (self.received@, self.status)
    }
}

impl Consumer {
    /// A consumer that has received nothing.
    pub fn new() -> (r: Consumer)
        ensures
            r@ == (Seq::<WorkResult>::empty(), Status::Receiving),
    {
        Consumer { received: Vec::new(), status: Status::Receiving }
    }

    /// Takes one message; returns whether the consumer still waits for more.
    pub fn receive(&mut self, msg: Message) -> (r: bool)
        ensures
            final(self)@ == after(old(self)@, msg),
            r == (final(self)@.1 == Status::Receiving),
    {
        if self.status == Status::Receiving {
            match msg {
                Message::Counted(w) => self.received.push(w),
                Message::Failed(e) => self.status = Status::Failed(e),
                Message::End => self.status = Status::Finished,
            }
        }
        self.status == Status::Receiving
    }

    /// The channel closed; if no closing message came before, the run failed.
    pub fn disconnected(&mut self)
        ensures
            final(self)@.0 == old(self)@.0,
            final(self)@.1 == (if old(self)@.1 == Status::Receiving {
                Status::Failed(RunError::TaskFailure)
            } else {
                old(self)@.1
            }),
    {
        if self.status == Status::Receiving {
            self.status = Status::Failed(RunError::TaskFailure);
        }
    }

    /// Where the consumer stands.
    pub fn status(&self) -> (r: Status)
        ensures
            r == self@.1,
    {
        self.status
    }

    /// The run's report once the consumer has terminated; `None` while it still receives.
    pub fn into_report(self) -> (r: Option<Result<Vec<WorkResult>, RunError>>)
        ensures
            match consumer_report(self@) {
                None => r is None,
                Some(rep) => r matches Some(x) && report_view(x) == rep,
            },
    {
        match self.status {
            Status::Receiving => None,
            Status::Finished => Some(Ok(self.received)),
            Status::Failed(e) => Some(Err(e)),
        }
    }
}

proof fn lemma_take_results(o: Seq<Result<usize, SourceError>>, k: int)
    requires
        0 <= k <= o.len(),
    ensures
        after_all(
            (Seq::<WorkResult>::empty(), Status::Receiving),
            counted(o, k).map_values(|w: WorkResult| Message::Counted(w)),
        ) == (counted(o, k), Status::Receiving),
    decreases k,
{
    let msgs = counted(o, k).map_values(|w: WorkResult| Message::Counted(w));
    if k > 0 {
        lemma_take_results(o, k - 1);
        assert(msgs.drop_last() =~= counted(o, k - 1).map_values(
            |w: WorkResult| Message::Counted(w),
        ));
        assert(counted(o, k - 1).push(counted(o, k)[k - 1]) =~= counted(o, k));
    } else {
        assert(msgs =~= seq![]);
        assert(counted(o, 0) =~= seq![]);
    }
}

/// The pipeline reports what the other strategies report: a fresh consumer that takes
/// the producer's whole stream terminates, with the result set of the sources in
/// source order, or with the error of the first source that failed.
pub proof fn lemma_pipeline_reports(o: Seq<Result<usize, SourceError>>)
    ensures
        after_all((Seq::<WorkResult>::empty(), Status::Receiving), stream(o)).1 != Status::Receiving,
        consumer_report(after_all((Seq::<WorkResult>::empty(), Status::Receiving), stream(o)))
            == Some(report(o)),
{
    let s = stream(o);
    let k = if all_counted(o) {
        o.len() as int
    } else {
        lemma_first_failure_exists(o);
        first_failure(o)
    };
    lemma_take_results(o, k);
    assert(s.drop_last() =~= counted(o, k).map_values(|w: WorkResult| Message::Counted(w)));
}

} // verus!
