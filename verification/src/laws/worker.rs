//! What a worker does with what it is told.
use crate::parallel::scheduler::ExecutionTaskType;
use crate::parallel::scheduler::SchedulerTask;
use crate::parallel::worker::worker_goes_on;
use crate::parallel::worker::worker_trace;
use crate::parallel::worker::WorkerEvent;
use crate::parallel::worker::WorkerStep;
use crate::types::Incarnation;
use crate::types::TxnIndex;
use crate::types::Wave;
use vstd::prelude::*;

verus! {

/// Every step accepts every answer to what it asks: a worker can go on whatever it is told.
pub proof fn workers_accept_every_answer<W>(
    task: SchedulerTask<W>,
    given: SchedulerTask<W>,
    txn_idx: TxnIndex,
    incarnation: Incarnation,
    wave: Wave,
    handle: W,
    answer: bool,
    popped: Option<TxnIndex>,
)
    ensures
        WorkerStep::ShouldCoordinate(task).expects(WorkerEvent::Answer(answer)),
        WorkerStep::PrepareCommits(task).expects(WorkerEvent::Made),
        WorkerStep::MarkDone(task).expects(WorkerEvent::Made),
        WorkerStep::Pop(task).expects(WorkerEvent::Popped(popped)),
        WorkerStep::Materialize(txn_idx, task).expects(WorkerEvent::Made),
        WorkerStep::Validate(txn_idx, incarnation, wave).expects(WorkerEvent::Task(given)),
        WorkerStep::Execute(txn_idx, incarnation).expects(WorkerEvent::Task(given)),
        WorkerStep::<W>::Wake(handle).expects(WorkerEvent::Made),
        WorkerStep::<W>::NextTask.expects(WorkerEvent::Task(given)),
        WorkerStep::<W>::FinalPop.expects(WorkerEvent::Popped(popped)),
        WorkerStep::<W>::FinalMaterialize(txn_idx).expects(WorkerEvent::Made),
{
}

/// A task that a worker is given is the one that it holds next, whoever gave it: the scheduler, a
/// validation or an execution.
pub proof fn given_tasks_are_kept<W>(
    step: WorkerStep<W>,
    given: SchedulerTask<W>,
)
    requires
        step.expects(WorkerEvent::Task(given)),
    ensures
        step.after(WorkerEvent::Task(given)) == WorkerStep::ShouldCoordinate(given),
{
}

/// A worker that is told to coordinate fills the queue, reports that, and asks again, and one that
/// is told not to takes from the queue. All the while it holds on to its task.
pub proof fn coordinating_keeps_the_task<W>(task: SchedulerTask<W>)
    ensures
        WorkerStep::ShouldCoordinate(task).after(WorkerEvent::Answer(true))
            == WorkerStep::PrepareCommits(task),
        WorkerStep::PrepareCommits(task).after(WorkerEvent::Made) == WorkerStep::MarkDone(task),
        WorkerStep::MarkDone(task).after(WorkerEvent::Made) == WorkerStep::ShouldCoordinate(task),
        WorkerStep::ShouldCoordinate(task).after(WorkerEvent::Answer(false)) == WorkerStep::Pop(
            task,
        ),
{
}

/// A worker materializes what it takes from the queue, and then takes from the queue again, with
/// the same task in hand, or none if no task is left. When the queue is empty and no task is left,
/// it is done.
pub proof fn what_is_popped_is_materialized<W>(task: SchedulerTask<W>, txn_idx: TxnIndex)
    ensures
        WorkerStep::Pop(task).after(WorkerEvent::Popped(Some(txn_idx))) == WorkerStep::Materialize(
            txn_idx,
            task,
        ),
        WorkerStep::Materialize(txn_idx, task).after(WorkerEvent::Made) == WorkerStep::Pop(task),
        WorkerStep::<W>::FinalPop.after(WorkerEvent::Popped(Some(txn_idx)))
            == WorkerStep::<W>::FinalMaterialize(txn_idx),
        WorkerStep::<W>::FinalMaterialize(txn_idx).after(WorkerEvent::Made)
            == WorkerStep::<W>::FinalPop,
        WorkerStep::<W>::FinalPop.after(WorkerEvent::Popped(None)) == WorkerStep::<W>::Finished,
{
}

/// When the queue is empty, a worker turns to the task in its hand: it validates or executes the
/// transaction of the task, wakes up whom the task names, asks for a task if it has none, and winds
/// up if none is left.
pub proof fn tasks_are_carried_out<W>(
    txn_idx: TxnIndex,
    incarnation: Incarnation,
    wave: Wave,
    handle: W,
)
    ensures
        WorkerStep::<W>::Pop(SchedulerTask::ValidationTask(txn_idx, incarnation, wave)).after(
            WorkerEvent::Popped(None),
        ) == WorkerStep::<W>::Validate(txn_idx, incarnation, wave),
        WorkerStep::<W>::Pop(
            SchedulerTask::ExecutionTask(txn_idx, incarnation, ExecutionTaskType::Execution),
        ).after(WorkerEvent::Popped(None)) == WorkerStep::<W>::Execute(txn_idx, incarnation),
        WorkerStep::<W>::Pop(
            SchedulerTask::ExecutionTask(txn_idx, incarnation, ExecutionTaskType::Wakeup(handle)),
        ).after(WorkerEvent::Popped(None)) == WorkerStep::<W>::Wake(handle),
        WorkerStep::<W>::Pop(SchedulerTask::NoTask).after(WorkerEvent::Popped(None))
            == WorkerStep::<W>::NextTask,
        WorkerStep::<W>::Pop(SchedulerTask::Done).after(WorkerEvent::Popped(None))
            == WorkerStep::<W>::FinalPop,
        WorkerStep::<W>::Wake(handle).after(WorkerEvent::Made) == WorkerStep::<W>::NextTask,
{
}

/// The task that `step` holds on to until the queue is empty.
spec fn in_hand<W>(step: WorkerStep<W>) -> Option<SchedulerTask<W>> {
    match step {
        WorkerStep::ShouldCoordinate(task) => Some(task),
        WorkerStep::PrepareCommits(task) => Some(task),
        WorkerStep::MarkDone(task) => Some(task),
        WorkerStep::Pop(task) => Some(task),
        WorkerStep::Materialize(_, task) => Some(task),
        _ => None,
    }
}

proof fn lemma_task_in_hand<W>(
    steps: Seq<WorkerStep<W>>,
    events: Seq<WorkerEvent<W>>,
    i: int,
    m: int,
    given: SchedulerTask<W>,
)
    requires
        worker_trace(steps, events),
        0 <= i < m < steps.len(),
        events[i] == WorkerEvent::Task(given),
        forall|n: int|
            #![trigger steps[n]]
            i < n <= m ==> !(steps[n] is Validate || steps[n] is Execute || steps[n] is Wake
                || steps[n] is NextTask || steps[n] is FinalPop),
    ensures
        in_hand(steps[m]) == Some(given),
    decreases m,
{
    assert(worker_goes_on(steps, events, m - 1));
    if m > i + 1 {
        lemma_task_in_hand(steps, events, i, m - 1, given);
        assert(!(steps[m] is Validate));
    }
}

/// Each task that a worker is given is the one that it turns to next: no task is lost, and none is
/// made up. Here `d` is the first step after `i` at which the worker is at a task again.
pub proof fn each_task_is_dispatched_next<W>(
    steps: Seq<WorkerStep<W>>,
    events: Seq<WorkerEvent<W>>,
    i: int,
    d: int,
    given: SchedulerTask<W>,
)
    requires
        worker_trace(steps, events),
        0 <= i < d < steps.len(),
        events[i] == WorkerEvent::Task(given),
        steps[d] is Validate || steps[d] is Execute || steps[d] is Wake || steps[d] is NextTask
            || steps[d] is FinalPop,
        forall|n: int|
            #![trigger steps[n]]
            i < n < d ==> !(steps[n] is Validate || steps[n] is Execute || steps[n] is Wake
                || steps[n] is NextTask || steps[n] is FinalPop),
    ensures
        steps[i + 1] == WorkerStep::ShouldCoordinate(given),
        given matches SchedulerTask::ValidationTask(txn_idx, incarnation, wave) ==> steps[d]
            == WorkerStep::<W>::Validate(txn_idx, incarnation, wave),
        given matches SchedulerTask::ExecutionTask(
            txn_idx,
            incarnation,
            ExecutionTaskType::Execution,
        ) ==> steps[d] == WorkerStep::<W>::Execute(txn_idx, incarnation),
        given matches SchedulerTask::ExecutionTask(_, _, ExecutionTaskType::Wakeup(handle))
            ==> steps[d] == WorkerStep::<W>::Wake(handle),
        given is NoTask ==> steps[d] == WorkerStep::<W>::NextTask,
        given is Done ==> steps[d] == WorkerStep::<W>::FinalPop,
{
    assert(worker_goes_on(steps, events, i));
    assert(worker_goes_on(steps, events, d - 1));
    assert(d > i + 1);
    lemma_task_in_hand(steps, events, i, d - 1, given);
}

/// A worker executes or validates a transaction, or wakes an execution up, only when it was given
/// that very task.
pub proof fn no_task_is_made_up<W>(
    steps: Seq<WorkerStep<W>>,
    events: Seq<WorkerEvent<W>>,
    d: int,
) -> (i: int)
    requires
        worker_trace(steps, events),
        0 <= d < steps.len(),
        steps[d] is Validate || steps[d] is Execute || steps[d] is Wake,
    ensures
        0 <= i < d,
        steps[d] matches WorkerStep::Validate(txn_idx, incarnation, wave) ==> events[i]
            == WorkerEvent::<W>::Task(SchedulerTask::ValidationTask(txn_idx, incarnation, wave)),
        steps[d] matches WorkerStep::Execute(txn_idx, incarnation) ==> events[i]
            == WorkerEvent::<W>::Task(
            SchedulerTask::ExecutionTask(txn_idx, incarnation, ExecutionTaskType::Execution),
        ),
        steps[d] matches WorkerStep::Wake(handle) ==> (events[i] matches WorkerEvent::Task(
            SchedulerTask::ExecutionTask(_, _, ExecutionTaskType::Wakeup(given)),
        ) && given == handle),
{
    assert(worker_goes_on(steps, events, d - 1));
    lemma_given_before(steps, events, d - 1)
}

proof fn lemma_given_before<W>(
    steps: Seq<WorkerStep<W>>,
    events: Seq<WorkerEvent<W>>,
    m: int,
) -> (i: int)
    requires
        worker_trace(steps, events),
        0 <= m < steps.len(),
        in_hand(steps[m]) is Some,
        in_hand(steps[m]) != Some(SchedulerTask::<W>::NoTask),
    ensures
        0 <= i < m,
        events[i] == WorkerEvent::Task(in_hand(steps[m])->0),
    decreases m,
{
    assert(m > 0);
    assert(worker_goes_on(steps, events, m - 1));
    if in_hand(steps[m - 1]) is None {
        m - 1
    } else {
        lemma_given_before(steps, events, m - 1)
    }
}

} // verus!
