use concurrency_lib::error::PipelineError;
use concurrency_lib::error::PipelineError::{
    ChannelClosed, DeliveryFault, ScopeFailure, TaskFailure,
};
use concurrency_lib::pipeline::{
    create_concurrent_pipelines, find_failure, judge, pass_between_threads,
    passing_data_between_threads, process, run_pipeline, run_pipeline_with, run_source,
    run_worker, settle, settle_passing, Capacities, Doubling, Observed, Transform,
};
use concurrency_lib::channel::{bounded, unbounded};

struct FailsAtThree;

impl Transform for FailsAtThree {
    fn outcome(input: i32) -> Option<i32> {
        if input == 3 {
            None
        } else {
            Some(input + 100)
        }
    }

    fn apply(&self, input: i32) -> Option<i32> {
        Self::outcome(input)
    }
}

fn sorted(mut values: Vec<i32>) -> Vec<i32> {
    values.sort();
    values
}

#[test]
fn test_create_concurrent_pipelines() {
    let run = create_concurrent_pipelines();
    assert_eq!(run.failure, None);
    assert_eq!(sorted(run.outputs), vec![0, 2, 4, 6]);
}

#[test]
fn test_passing_data_between_threads() {
    assert!(passing_data_between_threads().is_ok());
}

#[test]
fn test_create_concurrent_pipelines_message_count() {
    let n_msgs = 100;
    let n_workers = 4;
    let run = run_pipeline_with(
        n_msgs,
        n_workers,
        Doubling,
        Capacities { input: 1, output: None },
    );
    assert_eq!(run.failure, None);
    assert_eq!(run.outputs.len(), 100);
    assert_eq!(run.inputs.len(), 100);
    assert_eq!(sorted(run.outputs), (0..100).map(|i| i * 2).collect::<Vec<i32>>());
}

#[test]
fn test_passing_data_between_threads_order() {
    let received = passing_data_between_threads().unwrap();
    assert_eq!(received, vec![0, 1, 2, 3, 4]);
}

#[test]
fn doubling_four_items_two_workers() {
    let run = run_pipeline(4, 2, Doubling);
    assert_eq!(run.failure, None);
    assert_eq!(sorted(run.inputs.clone()), vec![0, 1, 2, 3]);
    for (input, output) in run.inputs.iter().zip(run.outputs.iter()) {
        assert_eq!(*output, 2 * *input);
    }
    assert_eq!(sorted(run.outputs), vec![0, 2, 4, 6]);
}

#[test]
fn single_worker_keeps_order() {
    let run = run_pipeline(50, 1, Doubling);
    assert_eq!(run.failure, None);
    assert_eq!(run.inputs, (0..50).collect::<Vec<i32>>());
    assert_eq!(run.outputs, (0..50).map(|i| i * 2).collect::<Vec<i32>>());
}

#[test]
fn failing_transform_fails_the_run_and_keeps_what_was_seen() {
    let run = run_pipeline(10, 1, FailsAtThree);
    assert_eq!(run.failure, Some(PipelineError::TaskFailure));
    assert_eq!(run.inputs, vec![0, 1, 2]);
    assert_eq!(run.outputs, vec![100, 101, 102]);
}

#[test]
fn failing_transform_among_several_workers() {
    let run = run_pipeline(10, 3, FailsAtThree);
    assert_eq!(run.failure, Some(PipelineError::TaskFailure));
    assert!(!run.inputs.contains(&3));
    for (input, output) in run.inputs.iter().zip(run.outputs.iter()) {
        assert_eq!(*output, *input + 100);
    }
}

#[test]
fn no_items_is_an_empty_run() {
    for count in [0, -7] {
        let run = run_pipeline(count, 2, Doubling);
        assert_eq!(run.failure, None);
        assert!(run.inputs.is_empty());
        assert!(run.outputs.is_empty());
    }
}

#[test]
fn no_workers_fails_without_hanging() {
    let run = run_pipeline(3, 0, Doubling);
    assert_eq!(run.failure, Some(PipelineError::ChannelClosed));
    assert!(run.outputs.is_empty());
}

#[test]
fn doubling_fails_where_twice_does_not_fit() {
    assert_eq!(Doubling.apply(3), Some(6));
    assert_eq!(Doubling.apply(-4), Some(-8));
    assert_eq!(Doubling.apply(0x3fff_ffff), Some(0x7fff_fffe));
    assert_eq!(Doubling.apply(0x4000_0000), None);
    assert_eq!(Doubling.apply(-0x4000_0000), Some(i32::MIN));
    assert_eq!(Doubling.apply(-0x4000_0001), None);
}

#[test]
fn process_stamps_the_item() {
    let made = process(&Doubling, 21).unwrap();
    assert_eq!(made.input(), 21);
    assert_eq!(made.output(), 42);
    assert!(process(&Doubling, i32::MAX).is_none());
    assert!(process(&FailsAtThree, 3).is_none());
}

#[test]
fn first_failed_task_decides() {
    assert_eq!(find_failure(&vec![]), None);
    assert_eq!(find_failure(&vec![Some(Ok(())), Some(Ok(()))]), None);
    assert_eq!(find_failure(&vec![Some(Ok(())), None, Some(Err(ChannelClosed))]), Some(TaskFailure));
    assert_eq!(
        find_failure(&vec![Some(Ok(())), Some(Err(ChannelClosed)), None]),
        Some(ChannelClosed)
    );
    assert_eq!(find_failure(&vec![Some(Err(TaskFailure)), Some(Err(ChannelClosed))]), Some(TaskFailure));
}

#[test]
fn judge_checks_delivery_after_the_tasks() {
    let fine = vec![Some(Ok(())), Some(Ok(()))];
    assert_eq!(judge(3, 2, &vec![2, 0, 1], &fine), None);
    assert_eq!(judge(3, 1, &vec![2, 0, 1], &fine), Some(DeliveryFault));
    assert_eq!(judge(3, 1, &vec![0, 1, 2], &fine), None);
    assert_eq!(judge(3, 2, &vec![0, 1], &fine), Some(DeliveryFault));
    assert_eq!(judge(3, 2, &vec![0, 1, 1], &fine), Some(DeliveryFault));
    assert_eq!(judge(3, 2, &vec![0, 1, 3], &fine), Some(DeliveryFault));
    assert_eq!(judge(3, 2, &vec![0, 1], &vec![Some(Err(TaskFailure)), Some(Ok(()))]), Some(TaskFailure));
    assert_eq!(judge(0, 2, &vec![], &fine), None);
    assert_eq!(judge(-1, 1, &vec![], &vec![]), None);
}

#[test]
fn settle_keeps_what_the_sink_saw() {
    let deliveries = vec![
        process(&Doubling, 1).unwrap(),
        process(&Doubling, 0).unwrap(),
    ];
    let observed = Observed { deliveries, outcomes: vec![Some(Ok(())), None, Some(Ok(()))] };
    let run = settle(3, 2, Some(observed));
    assert_eq!(run.inputs, vec![1, 0]);
    assert_eq!(run.outputs, vec![2, 0]);
    assert_eq!(run.failure, Some(PipelineError::TaskFailure));

    let deliveries = vec![
        process(&Doubling, 1).unwrap(),
        process(&Doubling, 0).unwrap(),
    ];
    let observed = Observed { deliveries, outcomes: vec![Some(Ok(())), Some(Ok(()))] };
    let run = settle(2, 2, Some(observed));
    assert_eq!(run.failure, None);
    assert_eq!(run.outputs, vec![2, 0]);

    let run = settle::<Doubling>(2, 2, None);
    assert_eq!(run.failure, Some(PipelineError::ScopeFailure));
    assert!(run.inputs.is_empty() && run.outputs.is_empty());
}

#[test]
fn source_sends_in_order_then_closes() {
    let (mut tx, mut rx) = unbounded::<i32>();
    assert_eq!(run_source(&mut tx, 4), Ok(()));
    assert!(tx.is_closed());
    assert_eq!(rx.iterate(10), vec![0, 1, 2, 3]);
    assert_eq!(rx.receive(), None);
}

#[test]
fn source_fails_on_a_closed_channel() {
    let (mut tx, rx) = bounded::<i32>(1);
    rx.release();
    assert_eq!(run_source(&mut tx, 4), Err(ChannelClosed));
    assert!(tx.is_closed());
    let (mut tx, _rx) = bounded::<i32>(1);
    tx.close();
    assert_eq!(run_source(&mut tx, 1), Err(ChannelClosed));
    let (mut tx, _rx) = bounded::<i32>(1);
    tx.close();
    assert_eq!(run_source(&mut tx, 0), Ok(()));
}

#[test]
fn worker_transforms_until_end_of_stream() {
    let (mut tx, mut rx) = unbounded::<i32>();
    let (mut out_tx, mut out_rx) = unbounded();
    assert_eq!(run_source(&mut tx, 5), Ok(()));
    assert_eq!(run_worker(&mut rx, &mut out_tx, &Doubling, 100), Ok(()));
    assert!(out_tx.is_closed());
    let outputs: Vec<i32> = out_rx.iterate(100).iter().map(|d| d.output()).collect();
    assert_eq!(outputs, vec![0, 2, 4, 6, 8]);
}

#[test]
fn worker_takes_no_more_than_its_limit() {
    let (mut tx, mut rx) = unbounded::<i32>();
    let (mut out_tx, mut out_rx) = unbounded();
    assert_eq!(run_source(&mut tx, 5), Ok(()));
    assert_eq!(run_worker(&mut rx, &mut out_tx, &Doubling, 2), Ok(()));
    let inputs: Vec<i32> = out_rx.iterate(100).iter().map(|d| d.input()).collect();
    assert_eq!(inputs, vec![0, 1]);
    assert_eq!(rx.receive(), Some(2));
}

#[test]
fn worker_stops_at_a_failure() {
    let (mut tx, mut rx) = unbounded::<i32>();
    let (mut out_tx, mut out_rx) = unbounded();
    assert_eq!(run_source(&mut tx, 5), Ok(()));
    assert_eq!(run_worker(&mut rx, &mut out_tx, &FailsAtThree, 100), Err(TaskFailure));
    let outputs: Vec<i32> = out_rx.iterate(100).iter().map(|d| d.output()).collect();
    assert_eq!(outputs, vec![100, 101, 102]);
    assert_eq!(rx.receive(), Some(4));
}

#[test]
fn worker_stops_when_the_sink_is_gone() {
    let (mut tx, mut rx) = unbounded::<i32>();
    let (mut out_tx, out_rx) = unbounded();
    assert_eq!(run_source(&mut tx, 5), Ok(()));
    out_rx.release();
    assert_eq!(run_worker(&mut rx, &mut out_tx, &Doubling, 100), Err(ChannelClosed));
    assert_eq!(rx.receive(), Some(1));
}

#[test]
fn pass_between_threads_counts_up() {
    assert_eq!(pass_between_threads(0), Ok(vec![]));
    assert_eq!(pass_between_threads(-3), Ok(vec![]));
    assert_eq!(pass_between_threads(100), Ok((0..100).collect::<Vec<i32>>()));
}

#[test]
fn settle_passing_names_the_first_thing_that_went_wrong() {
    assert_eq!(settle_passing(3, Some(Some(Ok(()))), vec![0, 1, 2]), Ok(vec![0, 1, 2]));
    assert_eq!(settle_passing(0, Some(Some(Ok(()))), vec![]), Ok(vec![]));
    assert_eq!(settle_passing(3, None, vec![0, 1, 2]), Err(ScopeFailure));
    assert_eq!(settle_passing(3, Some(None), vec![0, 1, 2]), Err(TaskFailure));
    assert_eq!(settle_passing(3, Some(Some(Err(ChannelClosed))), vec![0]), Err(ChannelClosed));
    assert_eq!(settle_passing(3, Some(Some(Ok(()))), vec![0, 2, 1]), Err(DeliveryFault));
    assert_eq!(settle_passing(3, Some(Some(Ok(()))), vec![0, 1]), Err(DeliveryFault));
}

struct Halving;

impl Transform for Halving {
    fn outcome(input: i32) -> Option<i32> {
        Some(input / 2)
    }

    fn apply(&self, input: i32) -> Option<i32> {
        Self::outcome(input)
    }
}

#[test]
fn equal_outputs_are_each_kept() {
    let run = run_pipeline(6, 3, Halving);
    assert_eq!(run.failure, None);
    assert_eq!(sorted(run.outputs), vec![0, 0, 1, 1, 2, 2]);
}

#[test]
fn many_items_many_workers_wider_channels() {
    let run = run_pipeline_with(1000, 8, Doubling, Capacities { input: 4, output: Some(2) });
    assert_eq!(run.failure, None);
    assert_eq!(sorted(run.inputs.clone()), (0..1000).collect::<Vec<i32>>());
    for (input, output) in run.inputs.iter().zip(run.outputs.iter()) {
        assert_eq!(*output, 2 * *input);
    }
}

#[test]
fn more_workers_than_items() {
    let run = run_pipeline(2, 16, Doubling);
    assert_eq!(run.failure, None);
    assert_eq!(sorted(run.outputs), vec![0, 2]);
}

#[test]
fn worker_on_an_ended_handle_takes_nothing() {
    let (mut tx, mut rx) = unbounded::<i32>();
    let (mut out_tx, mut out_rx) = unbounded();
    tx.close();
    assert_eq!(rx.receive(), None);
    assert_eq!(run_worker(&mut rx, &mut out_tx, &Doubling, 10), Ok(()));
    assert!(rx.has_ended());
    assert!(out_rx.iterate(10).is_empty());
}

#[test]
fn worker_that_ends_short_of_its_limit_has_seen_the_end() {
    let (mut tx, mut rx) = unbounded::<i32>();
    let (mut out_tx, mut out_rx) = unbounded();
    assert_eq!(run_source(&mut tx, 3), Ok(()));
    assert_eq!(run_worker(&mut rx, &mut out_tx, &Doubling, 10), Ok(()));
    assert!(rx.has_ended());
    assert_eq!(out_rx.iterate(10).len(), 3);
    let (mut tx, mut rx) = unbounded::<i32>();
    let (mut out_tx, _out_rx) = unbounded();
    assert_eq!(run_source(&mut tx, 3), Ok(()));
    assert_eq!(run_worker(&mut rx, &mut out_tx, &Doubling, 3), Ok(()));
    assert!(!rx.has_ended());
}
