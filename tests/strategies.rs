use wordcount_bench::pipeline::{Consumer, Message, Producer, Status};
use wordcount_bench::report::{RunError, WorkResult};
use wordcount_bench::runners::{collect_in_order, run_parallel, run_sequential};
use wordcount_bench::source::{Source, SourceError};
use wordcount_bench::words::Matcher;

fn the_matcher() -> Matcher {
    Matcher::new(&vec!["the".to_string(), "The".to_string()])
}

fn text(s: &str) -> Source {
    Source::Text(s.to_string())
}

fn scenario_sources() -> Vec<Source> {
    vec![text("The cat sat on the mat"), text("the the the"), text("")]
}

fn results(pairs: &[(usize, usize)]) -> Vec<WorkResult> {
    pairs.iter().map(|&(index, count)| WorkResult { index, count }).collect()
}

fn run_pipeline(sources: Vec<Source>, m: Matcher) -> Result<Vec<WorkResult>, RunError> {
    let mut producer = Producer::new(sources, m);
    let mut consumer = Consumer::new();
    loop {
        match producer.step() {
            Some(msg) => {
                if !consumer.receive(msg) {
                    break;
                }
            }
            None => {
                consumer.disconnected();
                break;
            }
        }
    }
    consumer.into_report().expect("the consumer terminates")
}

#[test]
fn three_sources_all_strategies() {
    let expected = results(&[(0, 2), (1, 3), (2, 0)]);
    let m = the_matcher();
    assert_eq!(run_sequential(&scenario_sources(), &m), Ok(expected.clone()));
    assert_eq!(run_parallel(&scenario_sources(), &m), Ok(expected.clone()));
    assert_eq!(run_pipeline(scenario_sources(), the_matcher()), Ok(expected));
}

#[test]
fn unreadable_source_fails_every_strategy() {
    let sources = || {
        vec![text("the"), Source::Failed(SourceError::SourceUnreadable), text("the the")]
    };
    let err = Err(RunError::Source { index: 1, error: SourceError::SourceUnreadable });
    let m = the_matcher();
    assert_eq!(run_sequential(&sources(), &m), err);
    assert_eq!(run_parallel(&sources(), &m), err);
    assert_eq!(run_pipeline(sources(), the_matcher()), err);
}

#[test]
fn pipeline_consumer_stops_after_producer_failure() {
    let sources = vec![Source::Failed(SourceError::SourceUnreadable), text("the")];
    let mut producer = Producer::new(sources, the_matcher());
    let mut consumer = Consumer::new();
    let msg = producer.step().unwrap();
    assert_eq!(
        msg,
        Message::Failed(RunError::Source { index: 0, error: SourceError::SourceUnreadable })
    );
    assert!(!consumer.receive(msg));
    assert!(producer.is_done());
    assert_eq!(producer.step(), None);
    assert_eq!(
        consumer.status(),
        Status::Failed(RunError::Source { index: 0, error: SourceError::SourceUnreadable })
    );
}

#[test]
fn corrupt_source_is_reported() {
    let sources = vec![text("a b"), Source::Failed(SourceError::SourceCorrupt)];
    let err = Err(RunError::Source { index: 1, error: SourceError::SourceCorrupt });
    let m = the_matcher();
    assert_eq!(run_sequential(&sources, &m), err);
    assert_eq!(run_parallel(&sources, &m), err);
}

#[test]
fn first_failing_source_in_order_is_reported() {
    let sources = || {
        vec![
            text("the"),
            Source::Failed(SourceError::SourceCorrupt),
            Source::Failed(SourceError::SourceUnreadable),
        ]
    };
    let err = Err(RunError::Source { index: 1, error: SourceError::SourceCorrupt });
    let m = the_matcher();
    assert_eq!(run_sequential(&sources(), &m), err);
    assert_eq!(run_parallel(&sources(), &m), err);
    assert_eq!(run_pipeline(sources(), the_matcher()), err);
}

#[test]
fn empty_source_counts_zero() {
    let m = the_matcher();
    assert_eq!(text("").count(&m), Ok(0));
    assert_eq!(text(" \n\t\r\n ").count(&m), Ok(0));
    assert_eq!(run_sequential(&vec![text("")], &m), Ok(results(&[(0, 0)])));
}

#[test]
fn empty_input_list_gives_empty_result_set() {
    let m = the_matcher();
    assert_eq!(run_sequential(&vec![], &m), Ok(vec![]));
    assert_eq!(run_parallel(&vec![], &m), Ok(vec![]));
    assert_eq!(run_pipeline(vec![], the_matcher()), Ok(vec![]));
}

#[test]
fn result_set_has_one_entry_per_source() {
    let m = the_matcher();
    let make = || (0..40).map(|i| text(&"the ".repeat(i))).collect::<Vec<Source>>();
    for r in [run_sequential(&make(), &m), run_parallel(&make(), &m), run_pipeline(make(), the_matcher())]
    {
        let rs = r.unwrap();
        assert_eq!(rs.len(), 40);
        for (i, w) in rs.iter().enumerate() {
            assert_eq!(*w, WorkResult { index: i, count: i });
        }
    }
}

#[test]
fn running_twice_gives_the_same_result_set() {
    let m = the_matcher();
    let sources = scenario_sources();
    assert_eq!(run_sequential(&sources, &m), run_sequential(&sources, &m));
    assert_eq!(run_parallel(&sources, &m), run_parallel(&sources, &m));
    assert_eq!(run_pipeline(scenario_sources(), the_matcher()), run_pipeline(scenario_sources(), the_matcher()));
}

#[test]
fn reordered_sources_agree_across_strategies() {
    let texts = ["the the", "The end", "nothing here", "the"];
    let orders = [[0, 1, 2, 3], [3, 2, 1, 0], [2, 0, 3, 1]];
    let counts = [2, 1, 0, 1];
    let m = the_matcher();
    for order in orders {
        let make = || order.iter().map(|&k| text(texts[k])).collect::<Vec<Source>>();
        let expected: Vec<WorkResult> = order
            .iter()
            .enumerate()
            .map(|(i, &k)| WorkResult { index: i, count: counts[k] })
            .collect();
        assert_eq!(run_sequential(&make(), &m), Ok(expected.clone()));
        assert_eq!(run_parallel(&make(), &m), Ok(expected.clone()));
        assert_eq!(run_pipeline(make(), the_matcher()), Ok(expected));
    }
}

#[test]
fn fan_in_orders_results_by_source_index() {
    let tagged = vec![(2, Ok(5)), (0, Ok(7)), (1, Ok(1))];
    assert_eq!(collect_in_order(&tagged, 3), Ok(results(&[(0, 7), (1, 1), (2, 5)])));
}

#[test]
fn fan_in_reports_first_error_by_index() {
    let tagged = vec![
        (2, Err(SourceError::SourceUnreadable)),
        (0, Ok(7)),
        (1, Err(SourceError::SourceCorrupt)),
    ];
    assert_eq!(
        collect_in_order(&tagged, 3),
        Err(RunError::Source { index: 1, error: SourceError::SourceCorrupt })
    );
}

#[test]
fn fan_in_detects_lost_or_repeated_tasks() {
    let missing = vec![(0, Ok(1)), (1, Ok(1))];
    assert_eq!(collect_in_order(&missing, 3), Err(RunError::TaskFailure));
    let repeated = vec![(0, Ok(1)), (1, Ok(1)), (1, Ok(1))];
    assert_eq!(collect_in_order(&repeated, 3), Err(RunError::TaskFailure));
    let out_of_range = vec![(0, Ok(1)), (3, Ok(1)), (1, Ok(1))];
    assert_eq!(collect_in_order(&out_of_range, 3), Err(RunError::TaskFailure));
    assert_eq!(collect_in_order(&vec![], 0), Ok(vec![]));
}

#[test]
fn consumer_fails_when_channel_closes_early() {
    let mut consumer = Consumer::new();
    assert!(consumer.receive(Message::Counted(WorkResult { index: 0, count: 2 })));
    consumer.disconnected();
    assert_eq!(consumer.status(), Status::Failed(RunError::TaskFailure));
    assert_eq!(consumer.into_report(), Some(Err(RunError::TaskFailure)));
}

#[test]
fn consumer_ignores_messages_after_end() {
    let mut consumer = Consumer::new();
    assert!(consumer.receive(Message::Counted(WorkResult { index: 0, count: 2 })));
    assert!(!consumer.receive(Message::End));
    assert!(!consumer.receive(Message::Counted(WorkResult { index: 1, count: 9 })));
    consumer.disconnected();
    assert_eq!(consumer.status(), Status::Finished);
    assert_eq!(consumer.into_report(), Some(Ok(results(&[(0, 2)]))));
}

#[test]
fn consumer_report_is_absent_while_receiving() {
    let consumer = Consumer::new();
    assert_eq!(consumer.status(), Status::Receiving);
    assert_eq!(consumer.into_report(), None);
}

#[test]
fn producer_sends_results_in_order_then_end() {
    let mut producer = Producer::new(scenario_sources(), the_matcher());
    assert_eq!(producer.step(), Some(Message::Counted(WorkResult { index: 0, count: 2 })));
    assert_eq!(producer.step(), Some(Message::Counted(WorkResult { index: 1, count: 3 })));
    assert!(!producer.is_done());
    assert_eq!(producer.step(), Some(Message::Counted(WorkResult { index: 2, count: 0 })));
    assert_eq!(producer.step(), Some(Message::End));
    assert!(producer.is_done());
    assert_eq!(producer.step(), None);
}
