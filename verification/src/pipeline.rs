//! A source, a pool of workers and a sink, joined by two bounded channels.

use crate::channel::{bounded, unbounded, ReceiverHandle, SenderHandle, MAX_CAPACITY};
use crate::delivery::{
    counting_up, delivered_in_order, delivered_once, each_once, item_total,
    lemma_counting_up_gives_order, lemma_each_once_covers, lemma_each_once_gives_all,
    values_in_order,
};
use crate::error::PipelineError;
use std::marker::PhantomData;
use vstd::prelude::*;

verus! {

/// `crossbeam::thread::Scope`: where tasks are spawned that must end before
/// the scope does. Nothing is known of its inside.
#[verifier::external_type_specification]
#[verifier::external_body]
pub struct ExScope<'env>(crossbeam::thread::Scope<'env>);

/// `crossbeam::thread::ScopedJoinHandle`: the handle by which a spawned task
/// is joined. Nothing is known of its inside.
#[verifier::external_type_specification]
#[verifier::external_body]
#[verifier::reject_recursive_types(T)]
pub struct ExScopedJoinHandle<'scope, T>(crossbeam::thread::ScopedJoinHandle<'scope, T>);

/// What the workers do to each item. The result is a function of the item
/// alone, fixed by the type; `None` is a failure.
pub trait Transform {
    /// What the transform makes of `input`.
    spec fn outcome(input: i32) -> Option<i32>;

    /// Applies the transform.
    fn apply(&self, input: i32) -> (output: Option<i32>)
        ensures
            output == Self::outcome(input),
    ;
}

/// Twice the item, failing where that does not fit.
pub struct Doubling;

impl Transform for Doubling {
    open spec fn outcome(input: i32) -> Option<i32> {
        if i32::MIN <= 2 * input <= i32::MAX {
            Some((2 * input) as i32)
        } else {
            None
        }
    }

    fn apply(&self, input: i32) -> (output: Option<i32>) {
        input.checked_mul(2)
    }
}

/// An item that a worker has transformed: the item and what became of it.
#[verifier::reject_recursive_types(T)]
pub struct Delivery<T: Transform> {
    input: i32,
    output: i32,
    by: PhantomData<T>,
}

impl<T: Transform> Delivery<T> {
    #[verifier::type_invariant]
    spec fn stamped(self) -> bool {
        T::outcome(self.input) == Some(self.output)
    }

    /// The item that came from the source.
    pub closed spec fn item(self) -> i32 {
        self.input
    }

    /// What the transform made of it.
    pub closed spec fn value(self) -> i32 {
        self.output
    }

    /// The value is what the transform makes of the item.
    pub open spec fn transformed(self) -> bool {
        T::outcome(self.item()) == Some(self.value())
    }

    /// The item that came from the source.
    pub fn input(&self) -> (input: i32)
        ensures
            input == self.item(),
    {
        self.input
    }

    /// What the transform made of it.
    pub fn output(&self) -> (output: i32)
        ensures
            output == self.value(),
            self.transformed(),
    {
        proof {
            use_type_invariant(self);
        }
        self.output
    }
}

/// Transforms one item: a delivery of the item with what the transform
/// makes of it, or nothing where the transform fails on it.
pub fn process<T: Transform>(transform: &T, item: i32) -> (made: Option<Delivery<T>>)
    ensures
        made is Some <==> T::outcome(item) is Some,
        made matches Some(d) ==> d.item() == item && Some(d.value()) == T::outcome(item),
{
    match transform.apply(item) {
        None => None,
        Some(output) => Some(Delivery { input: item, output, by: PhantomData }),
    }
}

/// The items of a sequence of deliveries.
pub open spec fn items_of<T: Transform>(deliveries: Seq<Delivery<T>>) -> Seq<i32> {
    Seq::new(deliveries.len(), |k: int| deliveries[k].item())
}

/// The values of a sequence of deliveries.
pub open spec fn values_of<T: Transform>(deliveries: Seq<Delivery<T>>) -> Seq<i32> {
    Seq::new(deliveries.len(), |k: int| deliveries[k].value())
}

/// The first `count` items, in the order in which a source sends them.
pub open spec fn first_items(count: nat) -> Seq<i32> {
    Seq::new(count, |i: int| i as i32)
}

/// The source: sends the items `0`, `1`, ... below `item_count` in order,
/// then closes its handle.
///
/// It stops at the first send that fails, which only a closed channel
/// causes. Whether a send fails is decided outside; what the handle has
/// put into the channel in the end is the items up to there, in order, and
/// all of them exactly when the source succeeds.
pub fn run_source(output: &mut SenderHandle<i32>, item_count: i32) -> (done: Result<
    (),
    PipelineError,
>)
    ensures
        final(output).is_closed(),
        done matches Err(e) ==> e == PipelineError::ChannelClosed,
        old(output).is_closed() && item_count > 0 ==> done is Err,
        ({
            let sent = final(output).accepted().len() - old(output).accepted().len();
            &&& 0 <= sent <= item_total(item_count)
            &&& final(output).accepted() == old(output).accepted() + first_items(sent as nat)
            &&& done is Ok <==> sent == item_total(item_count)
        }),
{
    let mut next: i32 = 0;
    proof {
        assert(output.accepted() + first_items(0) =~= output.accepted());
    }
    while next < item_count
        invariant
            0 <= next,
            next > 0 ==> next <= item_count,
            output.is_closed() == old(output).is_closed(),
            output.accepted() == old(output).accepted() + first_items(next as nat),
            output.is_closed() ==> next == 0,
        decreases item_count - next,
    {
        let ghost before = output.accepted();
        if output.send(next).is_err() {
            output.close();
            return Err(PipelineError::ChannelClosed);
        }
        proof {
            assert(before.push(next) =~= old(output).accepted() + first_items((next + 1) as nat));
        }
        next += 1;
    }
    output.close();
    Ok(())
}

/// What a worker has done between two states of its handles: `got` is what
/// it took from the source's channel, `put` what it handed on.
///
/// It hands on what it takes, transformed and in the same order. It
/// succeeds when it has handed on everything it took; it fails with
/// `TaskFailure` on an item that the transform fails on, and with
/// `ChannelClosed` on a delivery that the channel did not accept, and in
/// both cases that item is the last it took.
pub open spec fn worked<T: Transform>(
    got: Seq<i32>,
    put: Seq<Delivery<T>>,
    done: Result<(), PipelineError>,
) -> bool {
    &&& put.len() <= got.len()
    &&& items_of(put) == got.take(put.len() as int)
    &&& forall|k: int| 0 <= k < put.len() ==> (#[trigger] put[k]).transformed()
    &&& match done {
        Ok(_) => put.len() == got.len(),
        Err(PipelineError::TaskFailure) => put.len() + 1 == got.len() && T::outcome(got.last())
            is None,
        Err(PipelineError::ChannelClosed) => put.len() + 1 == got.len() && T::outcome(
            got.last(),
        ) is Some,
        Err(_) => false,
    }
}

/// A worker: receives items until the end of the stream, or until `limit`
/// items, transforms each and sends it on; then closes its sending handle.
/// It stops with `TaskFailure` at the first item on which the transform
/// fails, and with `ChannelClosed` at the first send that fails. A worker
/// that ends well short of `limit` items has come to the end of the stream;
/// one whose handle was there already takes nothing.
pub fn run_worker<T: Transform>(
    input: &mut ReceiverHandle<i32>,
    output: &mut SenderHandle<Delivery<T>>,
    transform: &T,
    limit: usize,
) -> (done: Result<(), PipelineError>)
    ensures
        final(output).is_closed(),
        ({
            let got = final(input).taken().skip(old(input).taken().len() as int);
            let put = final(output).accepted().skip(old(output).accepted().len() as int);
            &&& final(input).taken() == old(input).taken() + got
            &&& final(output).accepted() == old(output).accepted() + put
            &&& got.len() <= limit
            &&& worked(got, put, done)
            &&& old(input).ended() ==> got.len() == 0
            &&& done is Ok && got.len() < limit ==> final(input).ended()
        }),
{
    let mut handled: usize = 0;
    let mut done: Result<(), PipelineError> = Ok(());
    let ghost mut got: Seq<i32> = Seq::empty();
    let ghost mut put: Seq<Delivery<T>> = Seq::empty();
    proof {
        assert(input.taken() + got =~= input.taken());
        assert(output.accepted() + put =~= output.accepted());
        assert(items_of(put) =~= got.take(0));
    }
    while handled < limit
        invariant_except_break
            done is Ok,
            got.len() == handled,
            handled == 0 ==> input.ended() == old(input).ended(),
            handled > 0 ==> !old(input).ended(),
        invariant
            input.taken() == old(input).taken() + got,
            output.accepted() == old(output).accepted() + put,
            output.is_closed() == old(output).is_closed(),
            got.len() <= limit,
            worked(got, put, done),
            old(input).ended() ==> got.len() == 0,
        ensures
            done is Ok && got.len() < limit ==> input.ended(),
        decreases limit - handled,
    {
        let ghost taken_before = input.taken();
        let ghost accepted_before = output.accepted();
        match input.receive() {
            None => {
                break ;
            },
            Some(item) => {
                proof {
                    assert(taken_before.push(item) =~= old(input).taken() + got.push(item));
                    assert(got.push(item).take(put.len() as int) =~= got.take(put.len() as int));
                }
                match process(transform, item) {
                    None => {
                        proof {
                            got = got.push(item);
                        }
                        done = Err(PipelineError::TaskFailure);
                        break ;
                    },
                    Some(delivery) => {
                        let ghost made = delivery;
                        if output.send(delivery).is_err() {
                            proof {
                                got = got.push(item);
                            }
                            done = Err(PipelineError::ChannelClosed);
                            break ;
                        }
                        proof {
                            assert(accepted_before.push(made) =~= old(output).accepted()
                                + put.push(made));
                            assert(items_of(put.push(made)) =~= got.push(item).take(
                                put.len() as int + 1,
                            ));
                            got = got.push(item);
                            put = put.push(made);
                        }
                    },
                }
            },
        }
        handled += 1;
    }
    output.close();
    proof {
        assert((old(input).taken() + got).skip(old(input).taken().len() as int) =~= got);
        assert((old(output).accepted() + put).skip(old(output).accepted().len() as int) =~= put);
    }
    done
}

/// A source or a worker ends well, on a closed channel, or on an item that
/// the transform fails on, and in no other way.
pub open spec fn ends_as_a_stage(result: Result<(), PipelineError>) -> bool {
    result matches Err(e) ==> e == PipelineError::ChannelClosed || e
        == PipelineError::TaskFailure
}

/// How a task of the pipeline ended: what a source or a worker returned.
pub struct TaskEnd {
    result: Result<(), PipelineError>,
}

impl TaskEnd {
    #[verifier::type_invariant]
    spec fn of_a_stage(self) -> bool {
        ends_as_a_stage(self.result)
    }

    /// What the task returned.
    pub closed spec fn outcome(self) -> Result<(), PipelineError> {
        self.result
    }

    /// The end of a task that returned `result`.
    fn of(result: Result<(), PipelineError>) -> (end: TaskEnd)
        requires
            ends_as_a_stage(result),
        ensures
            end.outcome() == result,
    {
        TaskEnd { result }
    }

    /// What the task returned: never anything but what a stage returns.
    fn result(self) -> (result: Result<(), PipelineError>)
        ensures
            result == self.outcome(),
            ends_as_a_stage(result),
    {
        proof {
            use_type_invariant(&self);
        }
        self.result
    }
}

/// The source as a task: it owns its handle and gives it up at the end.
/// It ends as `run_source` does on that handle: well when there is nothing
/// to send, on a closed channel when it is given a closed handle and
/// something to send, and never on anything but a closed channel.
fn source_task(output: SenderHandle<i32>, item_count: i32) -> (done: TaskEnd)
    ensures
        done.outcome() matches Err(e) ==> e == PipelineError::ChannelClosed,
        item_count <= 0 ==> done.outcome() is Ok,
        output.is_closed() && item_count > 0 ==> done.outcome() is Err,
{
    let mut output = output;
    TaskEnd::of(run_source(&mut output, item_count))
}

/// A worker as a task: it owns its handles and gives them up at the end.
/// It ends as `run_worker` does on those handles: well when it may take
/// nothing, and never on anything but a closed channel or an item that the
/// transform fails on.
fn worker_task<T: Transform>(
    input: ReceiverHandle<i32>,
    output: SenderHandle<Delivery<T>>,
    transform: &T,
    limit: usize,
) -> (done: TaskEnd)
    ensures
        ends_as_a_stage(done.outcome()),
        limit == 0 || input.ended() ==> done.outcome() is Ok,
{
    let mut input = input;
    let mut output = output;
    let done = run_worker(&mut input, &mut output, transform, limit);
    input.release();
    TaskEnd::of(done)
}

/// How many values each of the two channels may hold.
#[derive(Clone, Copy, Debug, PartialEq, Eq, Structural)]
pub struct Capacities {
    /// Of the channel from the source to the workers.
    pub input: usize,
    /// Of the channel from the workers to the sink; `None` for no limit.
    pub output: Option<usize>,
}

impl Capacities {
    /// Every capacity is at least one and at most `MAX_CAPACITY`.
    pub open spec fn valid(self) -> bool {
        &&& 1 <= self.input <= MAX_CAPACITY
        &&& self.output matches Some(c) ==> 1 <= c <= MAX_CAPACITY
    }
}

/// What the sink saw and how each task ended.
#[verifier::reject_recursive_types(T)]
pub struct Observed<T: Transform> {
    /// The deliveries in the order in which the sink received them.
    pub deliveries: Vec<Delivery<T>>,
    /// What each task returned, `None` for one that did not start or that
    /// panicked: the workers in the order they were started, then the
    /// source.
    pub outcomes: Vec<Option<Result<(), PipelineError>>>,
}

/// What a call of the pipeline amounts to.
#[derive(Clone, Debug, PartialEq, Eq)]
pub struct PipelineRun {
    /// The items of the deliveries that the sink received, in that order.
    pub inputs: Vec<i32>,
    /// What the transform made of each of them, in the same order.
    pub outputs: Vec<i32>,
    /// Why the run counts as failed, if it does. What the sink received
    /// before stays in `inputs` and `outputs`.
    pub failure: Option<PipelineError>,
}

impl PipelineRun {
    /// Each output is what the transform `T` makes of the input beside it.
    pub open spec fn transformed_by<T: Transform>(self) -> bool {
        &&& self.inputs@.len() == self.outputs@.len()
        &&& forall|k: int|
            0 <= k < self.inputs@.len() ==> T::outcome(#[trigger] self.inputs@[k]) == Some(
                self.outputs@[k],
            )
    }
}

/// What the transform makes of an item on which it does not fail.
pub open spec fn result_of<T: Transform>(item: i32) -> i32 {
    match T::outcome(item) {
        Some(value) => value,
        None => 0,
    }
}

/// What the transform makes of the items `0`, `1`, ... below `item_count`,
/// in that order.
pub open spec fn expected_outputs<T: Transform>(item_count: i32) -> Seq<i32> {
    values_in_order(|item: i32| result_of::<T>(item), item_count)
}

/// The first task in `outcomes` that did not return `Ok`, as a failure: a
/// task that did not return at all counts as `TaskFailure`, one that
/// returned an error passes it on.
pub open spec fn first_failure(outcomes: Seq<Option<Result<(), PipelineError>>>) -> Option<
    PipelineError,
>
    decreases outcomes.len(),
{
    if outcomes.len() == 0 {
        None
    } else {
        match outcomes.first() {
            None => Some(PipelineError::TaskFailure),
            Some(Err(e)) => Some(e),
            Some(Ok(_)) => first_failure(outcomes.drop_first()),
        }
    }
}

/// Why a run counts as failed: for its first failed task; else, with all
/// tasks done, for an item that the sink did not see once, or for items
/// out of order behind a single worker.
pub open spec fn verdict(
    item_count: i32,
    worker_count: usize,
    items: Seq<i32>,
    outcomes: Seq<Option<Result<(), PipelineError>>>,
) -> Option<PipelineError> {
    match first_failure(outcomes) {
        Some(e) => Some(e),
        None => if !each_once(items, item_count) || (worker_count == 1 && !counting_up(
            items,
            item_count,
        )) {
            Some(PipelineError::DeliveryFault)
        } else {
            None
        },
    }
}

/// Where every task ended as a source or a worker does, the first failure
/// among them is that of a task or of a closed channel.
pub proof fn lemma_stages_fail_as_stages(outcomes: Seq<Option<Result<(), PipelineError>>>)
    requires
        forall|k: int|
            0 <= k < outcomes.len() ==> (#[trigger] outcomes[k] matches Some(result)
                ==> ends_as_a_stage(result)),
    ensures
        first_failure(outcomes) matches Some(e) ==> e == PipelineError::TaskFailure || e
            == PipelineError::ChannelClosed,
    decreases outcomes.len(),
{
    if outcomes.len() > 0 {
        assert(outcomes.first() == outcomes[0]);
        let rest = outcomes.drop_first();
        assert forall|k: int| 0 <= k < rest.len() implies (#[trigger] rest[k] matches Some(
            result,
        ) ==> ends_as_a_stage(result)) by {
            assert(rest[k] == outcomes[k + 1]);
        }
        lemma_stages_fail_as_stages(rest);
    }
}

/// Finds the first failed task.
pub fn find_failure(outcomes: &Vec<Option<Result<(), PipelineError>>>) -> (failure: Option<
    PipelineError,
>)
    ensures
        failure == first_failure(outcomes@),
{
    let mut k: usize = 0;
    proof {
        assert(outcomes@.skip(0) == outcomes@);
    }
    while k < outcomes.len()
        invariant
            k <= outcomes@.len(),
            first_failure(outcomes@) == first_failure(outcomes@.skip(k as int)),
        decreases outcomes@.len() - k,
    {
        proof {
            assert(outcomes@.skip(k as int).first() == outcomes@[k as int]);
            assert(outcomes@.skip(k as int).drop_first() == outcomes@.skip(k + 1));
        }
        match outcomes[k] {
            None => {
                return Some(PipelineError::TaskFailure);
            },
            Some(Err(e)) => {
                return Some(e);
            },
            Some(Ok(_)) => {},
        }
        k += 1;
    }
    None
}

/// Judges a run by how its tasks ended and which items the sink saw.
pub fn judge(
    item_count: i32,
    worker_count: usize,
    items: &Vec<i32>,
    outcomes: &Vec<Option<Result<(), PipelineError>>>,
) -> (failure: Option<PipelineError>)
    ensures
        failure == verdict(item_count, worker_count, items@, outcomes@),
{
    match find_failure(outcomes) {
        Some(e) => Some(e),
        None => {
            if !delivered_once(items, item_count) {
                Some(PipelineError::DeliveryFault)
            } else if worker_count == 1 && !delivered_in_order(items, item_count) {
                Some(PipelineError::DeliveryFault)
            } else {
                None
            }
        },
    }
}

/// Settles what came back from the stages.
///
/// Without anything observed the scope has failed: the run is empty and
/// fails with `ScopeFailure`. Otherwise the run holds every delivery that
/// the sink received, in that order, and fails as `verdict` says.
pub fn settle<T: Transform>(
    item_count: i32,
    worker_count: usize,
    observed: Option<Observed<T>>,
) -> (run: PipelineRun)
    ensures
        run.transformed_by::<T>(),
        observed is None ==> run.inputs@.len() == 0 && run.failure == Some(
            PipelineError::ScopeFailure,
        ),
        observed matches Some(seen) ==> {
            &&& run.inputs@ == items_of(seen.deliveries@)
            &&& run.outputs@ == values_of(seen.deliveries@)
            &&& run.failure == verdict(item_count, worker_count, run.inputs@, seen.outcomes@)
        },
{
    match observed {
        None => PipelineRun {
            inputs: Vec::new(),
            outputs: Vec::new(),
            failure: Some(PipelineError::ScopeFailure),
        },
        Some(seen) => {
            let mut inputs: Vec<i32> = Vec::new();
            let mut outputs: Vec<i32> = Vec::new();
            let mut k: usize = 0;
            while k < seen.deliveries.len()
                invariant
                    k <= seen.deliveries@.len(),
                    inputs@.len() == k,
                    outputs@.len() == k,
                    forall|j: int|
                        0 <= j < k ==> {
                            &&& #[trigger] inputs@[j] == seen.deliveries@[j].item()
                            &&& T::outcome(inputs@[j]) == Some(outputs@[j])
                        },
                    forall|j: int|
                        0 <= j < k ==> #[trigger] outputs@[j] == seen.deliveries@[j].value(),
                decreases seen.deliveries@.len() - k,
            {
                let delivery = &seen.deliveries[k];
                inputs.push(delivery.input());
                outputs.push(delivery.output());
                k += 1;
            }
            proof {
                assert(inputs@ =~= items_of(seen.deliveries@));
                assert(outputs@ =~= values_of(seen.deliveries@));
            }
            let failure = judge(item_count, worker_count, &inputs, &seen.outcomes);
            PipelineRun { inputs, outputs, failure }
        },
    }
}

/// A run that did not fail delivered what the transform makes of every
/// item, each as often as the transform gives it, in whatever order; behind
/// a single worker, in the order of the items. So the transform failed on
/// none of the items.
pub proof fn lemma_run_without_failure<T: Transform>(
    run: PipelineRun,
    item_count: i32,
    worker_count: usize,
    outcomes: Seq<Option<Result<(), PipelineError>>>,
)
    requires
        run.transformed_by::<T>(),
        run.failure == verdict(item_count, worker_count, run.inputs@, outcomes),
        run.failure is None,
    ensures
        each_once(run.inputs@, item_count),
        forall|item: i32| 0 <= item < item_count ==> T::outcome(item) is Some,
        run.outputs@.to_multiset() == expected_outputs::<T>(item_count).to_multiset(),
        worker_count == 1 ==> run.outputs@ == expected_outputs::<T>(item_count),
{
    lemma_each_once_covers(run.inputs@, item_count);
    assert forall|item: i32| 0 <= item < item_count implies T::outcome(item) is Some by {
        assert(run.inputs@.contains(item));
        let k = choose|k: int| 0 <= k < run.inputs@.len() && run.inputs@[k] == item;
        assert(T::outcome(run.inputs@[k]) == Some(run.outputs@[k]));
    }
    let f = |item: i32| result_of::<T>(item);
    assert forall|k: int| 0 <= k < run.inputs@.len() implies run.outputs@[k] == f(
        run.inputs@[k],
    ) by {
        assert(T::outcome(run.inputs@[k]) == Some(run.outputs@[k]));
    }
    lemma_each_once_gives_all(run.inputs@, run.outputs@, f, item_count);
    if worker_count == 1 {
        lemma_counting_up_gives_order(run.inputs@, run.outputs@, f, item_count);
    }
}

/// `ScopedThreadBuilder::spawn` on a builder of `scope`: starts `source_task`
/// in a task of the scope. `None` when the thread could not be started.
#[verifier::external_body]
fn spawn_source<'scope, 'env>(
    scope: &'scope crossbeam::thread::Scope<'env>,
    output: SenderHandle<i32>,
    item_count: i32,
) -> (task: Option<crossbeam::thread::ScopedJoinHandle<'scope, TaskEnd>>) {
    scope.builder().spawn(move |_| source_task(output, item_count)).ok()
}

/// `ScopedThreadBuilder::spawn` on a builder of `scope`: starts `worker_task`
/// in a task of the scope. `None` when the thread could not be started.
#[verifier::external_body]
fn spawn_worker<'scope, 'env, T: Transform + Send + Sync>(
    scope: &'scope crossbeam::thread::Scope<'env>,
    input: ReceiverHandle<i32>,
    output: SenderHandle<Delivery<T>>,
    transform: &'env T,
    limit: usize,
) -> (task: Option<crossbeam::thread::ScopedJoinHandle<'scope, TaskEnd>>) {
    scope.builder().spawn(move |_| worker_task(input, output, transform, limit)).ok()
}

/// `ScopedJoinHandle::join`: waits for the task and hands back what it
/// returned, `None` when it panicked.
#[verifier::external_body]
fn join_task<'scope>(task: crossbeam::thread::ScopedJoinHandle<'scope, TaskEnd>) -> (returned:
    Option<TaskEnd>) {
    task.join().ok()
}

/// Joins a task if it was started: nothing for a task that was not, else
/// what the join hands back, which is nothing for a task that panicked and
/// else what the task returned, as a source or a worker returns it.
fn join_started<'scope>(task: Option<crossbeam::thread::ScopedJoinHandle<'scope, TaskEnd>>) -> (returned:
    Option<Result<(), PipelineError>>)
    ensures
        task is None ==> returned is None,
        returned matches Some(result) ==> ends_as_a_stage(result),
{
    match task {
        None => None,
        Some(task) => match join_task(task) {
            None => None,
            Some(end) => Some(end.result()),
        },
    }
}

/// What `run_stages` hands back for these counts: no more deliveries than
/// there are items, and one outcome for each worker and one for the source,
/// each of them nothing or what a source or a worker returns.
pub open spec fn staged<T: Transform>(
    observed: Observed<T>,
    item_count: i32,
    worker_count: usize,
) -> bool {
    &&& observed.deliveries@.len() <= item_total(item_count)
    &&& observed.outcomes@.len() == worker_count + 1
    &&& forall|k: int|
        0 <= k < observed.outcomes@.len() ==> (#[trigger] observed.outcomes@[k] matches Some(
            result,
        ) ==> ends_as_a_stage(result))
}

/// Runs the stages inside `scope`: opens the two channels, starts the
/// source and the workers, closes the handles that the caller's side does
/// not use, drains the second channel as the sink, and joins every task.
///
/// The sink takes no more deliveries than there are items. Every task is
/// joined, the workers in the order they were started and then the source,
/// and each leaves one outcome.
fn run_stages<'env, T: Transform + Send + Sync>(
    scope: &crossbeam::thread::Scope<'env>,
    item_count: i32,
    worker_count: usize,
    transform: &'env T,
    capacities: Capacities,
) -> (observed: Observed<T>)
    requires
        capacities.valid(),
    ensures
        staged(observed, item_count, worker_count),
{
    let limit: usize = if item_count > 0 {
        item_count as usize
    } else {
        0
    };
    let (input_tx, input_rx) = bounded::<i32>(capacities.input);
    let (output_tx, mut output_rx) = match capacities.output {
        Some(capacity) => bounded::<Delivery<T>>(capacity),
        None => unbounded::<Delivery<T>>(),
    };
    let mut output_tx = output_tx;
    let source = spawn_source(scope, input_tx, item_count);
    let mut workers: Vec<Option<crossbeam::thread::ScopedJoinHandle<'_, TaskEnd>>> = Vec::new();
    let mut started: usize = 0;
    while started < worker_count
        invariant
            started <= worker_count,
            workers@.len() == started,
        decreases worker_count - started,
    {
        workers.push(
            spawn_worker(
                scope,
                input_rx.clone_handle(),
                output_tx.clone_handle(),
                transform,
                limit,
            ),
        );
        started += 1;
    }
    // The workers hold the only handles that count from here on: the sink
    // sees the end of the stream once the last worker has closed its own.
    output_tx.close();
    input_rx.release();
    let deliveries = output_rx.iterate(limit);
    let mut outcomes: Vec<Option<Result<(), PipelineError>>> = Vec::new();
    while workers.len() > 0
        invariant
            outcomes@.len() + workers@.len() == worker_count,
            forall|k: int|
                0 <= k < outcomes@.len() ==> (#[trigger] outcomes@[k] matches Some(result)
                    ==> ends_as_a_stage(result)),
        decreases workers@.len(),
    {
        let task = workers.remove(0);
        outcomes.push(join_started(task));
    }
    outcomes.push(join_started(source));
    Observed { deliveries, outcomes }
}

/// `crossbeam::scope`: runs `run_stages` in a scope of its own, which joins
/// whatever is still running when `run_stages` returns. `None` when the
/// scope reported a panic; else what `run_stages` returned, which is all
/// that the contract claims: what `run_stages` promises of its result.
#[verifier::external_body]
fn stages_in_scope<T: Transform + Send + Sync>(
    item_count: i32,
    worker_count: usize,
    transform: &T,
    capacities: Capacities,
) -> (observed: Option<Observed<T>>)
    requires
        capacities.valid(),
    ensures
        observed matches Some(seen) ==> staged(seen, item_count, worker_count),
{
    crossbeam::scope(
        |scope| run_stages(scope, item_count, worker_count, transform, capacities),
    ).ok()
}

/// Runs the pipeline with channels of the given capacities.
///
/// A source sends the items `0`, `1`, ... below `item_count`;
/// `worker_count` workers apply `transform` to them; the calling thread is
/// the sink. Every task is joined before this returns.
///
/// How the threads interleave, and whether they run at all, is decided
/// outside this function. Whatever happened, each output in the run is what
/// the transform makes of the input beside it. A run without a failure
/// holds what the transform makes of every item, each once; behind a single
/// worker, in the order of the items. Where the transform fails on one of
/// the items, the run fails. The sink never takes more deliveries than there
/// are items, and a run that fails for its scope holds none.
pub fn run_pipeline_with<T: Transform + Send + Sync>(
    item_count: i32,
    worker_count: usize,
    transform: T,
    capacities: Capacities,
) -> (run: PipelineRun)
    requires
        capacities.valid(),
    ensures
        run.transformed_by::<T>(),
        run.failure is None ==> each_once(run.inputs@, item_count),
        run.failure is None ==> run.outputs@.to_multiset() == expected_outputs::<T>(
            item_count,
        ).to_multiset(),
        run.failure is None && worker_count == 1 ==> run.outputs@ == expected_outputs::<T>(
            item_count,
        ),
        (exists|item: i32| 0 <= item < item_count && T::outcome(item) is None)
            ==> run.failure is Some,
        run.inputs@.len() <= item_total(item_count),
        run.failure == Some(PipelineError::ScopeFailure) ==> run.inputs@.len() == 0,
{
    let observed = stages_in_scope(item_count, worker_count, &transform, capacities);
    let ghost outcomes = if observed is Some {
        observed->Some_0.outcomes@
    } else {
        Seq::empty()
    };
    let run = settle(item_count, worker_count, observed);
    proof {
        if run.failure is None {
            lemma_run_without_failure::<T>(run, item_count, worker_count, outcomes);
        }
        if observed is Some {
            lemma_stages_fail_as_stages(outcomes);
        }
    }
    run
}

/// Runs the pipeline with two channels of capacity one: the source waits
/// for the workers, and the workers for the sink.
pub fn run_pipeline<T: Transform + Send + Sync>(
    item_count: i32,
    worker_count: usize,
    transform: T,
) -> (run: PipelineRun)
    ensures
        run.transformed_by::<T>(),
        run.failure is None ==> each_once(run.inputs@, item_count),
        run.failure is None ==> run.outputs@.to_multiset() == expected_outputs::<T>(
            item_count,
        ).to_multiset(),
        run.failure is None && worker_count == 1 ==> run.outputs@ == expected_outputs::<T>(
            item_count,
        ),
        (exists|item: i32| 0 <= item < item_count && T::outcome(item) is None)
            ==> run.failure is Some,
        run.inputs@.len() <= item_total(item_count),
        run.failure == Some(PipelineError::ScopeFailure) ==> run.inputs@.len() == 0,
{
    run_pipeline_with(item_count, worker_count, transform, Capacities { input: 1, output: Some(1) })
}

/// Four items through two doubling workers: without a failure the sink
/// receives 0, 2, 4 and 6, in some order.
pub fn create_concurrent_pipelines() -> (run: PipelineRun)
    ensures
        run.transformed_by::<Doubling>(),
        run.failure is None ==> run.outputs@.to_multiset() == seq![0i32, 2, 4, 6].to_multiset(),
{
    let run = run_pipeline(4, 2, Doubling);
    proof {
        assert(expected_outputs::<Doubling>(4) =~= seq![0i32, 2, 4, 6]);
    }
    run
}

/// Starts and joins the source inside `scope`: nothing for a source that
/// did not start or that panicked, else what it returned, as a source or a
/// worker returns it.
fn source_in_scope<'env>(
    scope: &crossbeam::thread::Scope<'env>,
    output: SenderHandle<i32>,
    item_count: i32,
) -> (returned: Option<Result<(), PipelineError>>)
    ensures
        returned matches Some(result) ==> ends_as_a_stage(result),
{
    join_started(spawn_source(scope, output, item_count))
}

/// `crossbeam::scope`: runs `source_in_scope` in a scope of its own. `None`
/// when the scope reported a panic; else what `source_in_scope` returned,
/// of which nothing is claimed.
#[verifier::external_body]
fn send_in_scope(output: SenderHandle<i32>, item_count: i32) -> (returned: Option<
    Option<Result<(), PipelineError>>,
>) {
    crossbeam::scope(|scope| source_in_scope(scope, output, item_count)).ok()
}

/// Why a passing of items from one thread to another failed, if it did:
/// for the scope, else for the sending task, else for items that did not
/// all arrive in the order sent.
pub open spec fn passing_verdict(
    item_count: i32,
    returned: Option<Option<Result<(), PipelineError>>>,
    items: Seq<i32>,
) -> Option<PipelineError> {
    match returned {
        None => Some(PipelineError::ScopeFailure),
        Some(outcome) => verdict(item_count, 1, items, seq![outcome]),
    }
}

/// Settles a passing of items from one thread to another: the items that
/// were received, or why the passing failed.
pub fn settle_passing(
    item_count: i32,
    returned: Option<Option<Result<(), PipelineError>>>,
    items: Vec<i32>,
) -> (received: Result<Vec<i32>, PipelineError>)
    ensures
        passing_verdict(item_count, returned, items@) matches Some(e) ==> received == Err::<
            Vec<i32>,
            PipelineError,
        >(e),
        passing_verdict(item_count, returned, items@) is None ==> received == Ok::<
            Vec<i32>,
            PipelineError,
        >(items),
{
    match returned {
        None => Err(PipelineError::ScopeFailure),
        Some(outcome) => {
            let mut outcomes: Vec<Option<Result<(), PipelineError>>> = Vec::new();
            outcomes.push(outcome);
            proof {
                assert(outcomes@ =~= seq![outcome]);
            }
            match judge(item_count, 1, &items, &outcomes) {
                Some(e) => Err(e),
                None => Ok(items),
            }
        },
    }
}

/// Passes `item_count` items from one thread to another: a task sends
/// them on a channel without a capacity and is joined, then the calling
/// thread receives them.
///
/// What was received is returned only if it is every item in the order
/// sent. Otherwise the failure is that of the scope, else that of the task,
/// else `DeliveryFault`.
pub fn pass_between_threads(item_count: i32) -> (received: Result<Vec<i32>, PipelineError>)
    ensures
        received matches Ok(items) ==> counting_up(items@, item_count),
{
    let limit: usize = if item_count > 0 {
        item_count as usize
    } else {
        0
    };
    let (sender, mut receiver) = unbounded::<i32>();
    let returned = send_in_scope(sender, item_count);
    let items = receiver.iterate(limit);
    proof {
        reveal_with_fuel(first_failure, 2);
    }
    settle_passing(item_count, returned, items)
}

/// Passes the five items 0 to 4 from one thread to another.
pub fn passing_data_between_threads() -> (received: Result<Vec<i32>, PipelineError>)
    ensures
        received matches Ok(items) ==> items@ == seq![0i32, 1, 2, 3, 4],
{
    let received = pass_between_threads(5);
    proof {
        if received is Ok {
            assert(received->Ok_0@ =~= seq![0i32, 1, 2, 3, 4]);
        }
    }
    received
}

} // verus!
