//! The loop of a worker.
use crate::parallel::scheduler::ExecutionTaskType;
use crate::parallel::scheduler::SchedulerTask;
use crate::types::Incarnation;
use crate::types::TxnIndex;
use crate::types::Wave;
use vstd::prelude::*;

verus! {

/// What a worker does next. Where a task is given, it is the one to turn to afterwards.
pub enum WorkerStep<W> {
    /// Ask whether this worker is to look for transactions that can be committed.
    ShouldCoordinate(SchedulerTask<W>),
    /// Put the transactions that can be committed in the commit queue.
    PrepareCommits(SchedulerTask<W>),
    /// Report that the commit queue has been filled.
    MarkDone(SchedulerTask<W>),
    /// Take a transaction out of the commit queue.
    Pop(SchedulerTask<W>),
    /// Materialize the output of a transaction that came out of the commit queue.
    Materialize(TxnIndex, SchedulerTask<W>),
    /// Validate the reads of a transaction.
    Validate(TxnIndex, Incarnation, Wave),
    /// Execute a transaction.
    Execute(TxnIndex, Incarnation),
    /// Wake up an execution that waits.
    Wake(W),
    /// Ask the scheduler for a task.
    NextTask,
    /// Take a transaction out of the commit queue, when no task is left.
    FinalPop,
    /// Materialize a transaction that came out of the commit queue, when no task is left.
    FinalMaterialize(TxnIndex),
    /// The worker is done.
    Finished,
}

/// What came of a step of a worker.
pub enum WorkerEvent<W> {
    /// The answer to a question.
    Answer(bool),
    /// The step was made.
    Made,
    /// What was in the commit queue.
    Popped(Option<TxnIndex>),
    /// The task that came out.
    Task(SchedulerTask<W>),
}

/// The step with which a worker turns to `task`.
pub open spec fn dispatched<W>(task: SchedulerTask<W>) -> WorkerStep<W> {
    match task {
        SchedulerTask::ValidationTask(txn_idx, incarnation, wave) => WorkerStep::Validate(
            txn_idx,
            incarnation,
            wave,
        ),
        SchedulerTask::ExecutionTask(
            txn_idx,
            incarnation,
            ExecutionTaskType::Execution,
        ) => WorkerStep::Execute(txn_idx, incarnation),
        SchedulerTask::ExecutionTask(_, _, ExecutionTaskType::Wakeup(handle)) => WorkerStep::Wake(
            handle,
        ),
        SchedulerTask::NoTask => WorkerStep::NextTask,
        SchedulerTask::Done => WorkerStep::FinalPop,
    }
}

impl<W> WorkerStep<W> {
    /// `event` is of the kind that this step comes to.
    pub open spec fn expects(self, event: WorkerEvent<W>) -> bool {
        match self {
            WorkerStep::ShouldCoordinate(_) => event is Answer,
            WorkerStep::PrepareCommits(_) => event is Made,
            WorkerStep::MarkDone(_) => event is Made,
            WorkerStep::Pop(_) => event is Popped,
            WorkerStep::Materialize(_, _) => event is Made,
            WorkerStep::Validate(_, _, _) => event is Task,
            WorkerStep::Execute(_, _) => event is Task,
            WorkerStep::Wake(_) => event is Made,
            WorkerStep::NextTask => event is Task,
            WorkerStep::FinalPop => event is Popped,
            WorkerStep::FinalMaterialize(_) => event is Made,
            WorkerStep::Finished => false,
        }
    }

    /// The step after this one, when it has come to `event`.
    pub open spec fn after(self, event: WorkerEvent<W>) -> WorkerStep<W> {
        match self {
            WorkerStep::ShouldCoordinate(task) => if event->Answer_0 {
                WorkerStep::PrepareCommits(task)
            } else {
                WorkerStep::Pop(task)
            },
            WorkerStep::PrepareCommits(task) => WorkerStep::MarkDone(task),
            WorkerStep::MarkDone(task) => WorkerStep::ShouldCoordinate(task),
            WorkerStep::Pop(task) => match event->Popped_0 {
                Some(txn_idx) => WorkerStep::Materialize(txn_idx, task),
                None => dispatched(task),
            },
            WorkerStep::Materialize(_, task) => WorkerStep::Pop(task),
            WorkerStep::Validate(_, _, _) => WorkerStep::ShouldCoordinate(event->Task_0),
            WorkerStep::Execute(_, _) => WorkerStep::ShouldCoordinate(event->Task_0),
            WorkerStep::Wake(_) => WorkerStep::NextTask,
            WorkerStep::NextTask => WorkerStep::ShouldCoordinate(event->Task_0),
            WorkerStep::FinalPop => match event->Popped_0 {
                Some(txn_idx) => WorkerStep::FinalMaterialize(txn_idx),
                None => WorkerStep::Finished,
            },
            WorkerStep::FinalMaterialize(_) => WorkerStep::FinalPop,
            WorkerStep::Finished => WorkerStep::Finished,
        }
    }

    /// The first step of a worker, which has no task yet.
    pub fn start() -> (r: WorkerStep<W>)
        ensures
            r == WorkerStep::<W>::ShouldCoordinate(SchedulerTask::NoTask),
    {
        WorkerStep::ShouldCoordinate(SchedulerTask::NoTask)
    }

    /// The step after this one, when it has come to `event`. A worker puts the transactions that
    /// can be committed in the commit queue as long as that is its job, empties the commit
    /// queue, and only then turns to its task. When no task is left, it empties the commit queue
    /// once more and is done.
    pub fn next(self, event: WorkerEvent<W>) -> (r: WorkerStep<W>)
        requires
            self.expects(event),
        ensures
            r == self.after(event),
    {
        match (self, event) {
            (WorkerStep::ShouldCoordinate(task), WorkerEvent::Answer(true)) => {
                WorkerStep::PrepareCommits(task)
            },
            (WorkerStep::ShouldCoordinate(task), _) => WorkerStep::Pop(task),
            (WorkerStep::PrepareCommits(task), _) => WorkerStep::MarkDone(task),
            (WorkerStep::MarkDone(task), _) => WorkerStep::ShouldCoordinate(task),
            (WorkerStep::Pop(task), WorkerEvent::Popped(Some(txn_idx))) => {
                WorkerStep::Materialize(txn_idx, task)
            },
            (WorkerStep::Pop(task), _) => {
                match task {
                    SchedulerTask::ValidationTask(txn_idx, incarnation, wave) => {
                        WorkerStep::Validate(txn_idx, incarnation, wave)
                    },
                    SchedulerTask::ExecutionTask(
                        txn_idx,
                        incarnation,
                        ExecutionTaskType::Execution,
                    ) => WorkerStep::Execute(txn_idx, incarnation),
                    SchedulerTask::ExecutionTask(_, _, ExecutionTaskType::Wakeup(handle)) => {
                        WorkerStep::Wake(handle)
                    },
                    SchedulerTask::NoTask => WorkerStep::NextTask,
                    SchedulerTask::Done => WorkerStep::FinalPop,
                }
            },
            (WorkerStep::Materialize(_, task), _) => WorkerStep::Pop(task),
            (WorkerStep::Wake(_), _) => WorkerStep::NextTask,
            (WorkerStep::FinalPop, WorkerEvent::Popped(Some(txn_idx))) => {
                WorkerStep::FinalMaterialize(txn_idx)
            },
            (WorkerStep::FinalPop, _) => WorkerStep::Finished,
            (WorkerStep::FinalMaterialize(_), _) => WorkerStep::FinalPop,
            (WorkerStep::Validate(_, _, _), WorkerEvent::Task(task)) => {
                WorkerStep::ShouldCoordinate(task)
            },
            (WorkerStep::Execute(_, _), WorkerEvent::Task(task)) => {
                WorkerStep::ShouldCoordinate(task)
            },
            (WorkerStep::NextTask, WorkerEvent::Task(task)) => WorkerStep::ShouldCoordinate(task),
            _ => WorkerStep::Finished,
        }
    }
}

/// Step `i` came to an event of its kind, and was followed by the step that this leads to.
pub open spec fn worker_goes_on<W>(
    steps: Seq<WorkerStep<W>>,
    events: Seq<WorkerEvent<W>>,
    i: int,
) -> bool {
    &&& steps[i].expects(events[i])
    &&& steps[i + 1] == steps[i].after(events[i])
}

/// `steps` are the steps of a worker from its start, and `events` what they came to.
pub open spec fn worker_trace<W>(
    steps: Seq<WorkerStep<W>>,
    events: Seq<WorkerEvent<W>>,
) -> bool {
    &&& steps.len() == events.len() + 1
    &&& steps[0] == WorkerStep::<W>::ShouldCoordinate(SchedulerTask::NoTask)
    &&& forall|i: int|
        0 <= i < events.len() ==> #[trigger] worker_goes_on(steps, events, i)
}

/// From `k` on and up to `j`, the worker has asked whether to coordinate, was told no, and has
/// been emptying the commit queue, with `task` in hand.
pub open spec fn empties_queue<W>(
    steps: Seq<WorkerStep<W>>,
    events: Seq<WorkerEvent<W>>,
    k: int,
    j: int,
    task: SchedulerTask<W>,
) -> bool {
    &&& 0 <= k < j <= events.len()
    &&& steps[k] == WorkerStep::<W>::ShouldCoordinate(task)
    &&& events[k] == WorkerEvent::<W>::Answer(false)
    &&& forall|m: int|
        #![trigger steps[m]]
        k < m < j ==> {
            ||| steps[m] == WorkerStep::<W>::Pop(task)
            ||| steps[m] matches WorkerStep::Materialize(_, t) && t == task
        }
}

proof fn lemma_emptying_queue<W>(
    steps: Seq<WorkerStep<W>>,
    events: Seq<WorkerEvent<W>>,
    j: int,
    task: SchedulerTask<W>,
) -> (k: int)
    requires
        worker_trace(steps, events),
        0 <= j < steps.len(),
        steps[j] == WorkerStep::<W>::Pop(task) || (steps[j] matches WorkerStep::Materialize(_, t)
            && t == task),
    ensures
        empties_queue(steps, events, k, j, task),
    decreases j,
{
    assert(j > 0);
    assert(worker_goes_on(steps, events, j - 1));
    if steps[j - 1] == WorkerStep::<W>::ShouldCoordinate(task) {
        j - 1
    } else {
        let k = lemma_emptying_queue(steps, events, j - 1, task);
        assert(empties_queue(steps, events, k, j, task));
        k
    }
}

impl<W> WorkerStep<W> {
    /// The worker has turned to the task in its hand: a transaction to validate or to execute, an
    /// execution to wake up, no task, so that it asks for one, or the end of all tasks.
    pub open spec fn is_at_task(self) -> bool {
        ||| self is Validate
        ||| self is Execute
        ||| self is Wake
        ||| self is NextTask
        ||| self is FinalPop
        ||| self is FinalMaterialize
        ||| self is Finished
    }
}

/// From `k` on the worker has asked whether to coordinate, was told no, and has emptied the commit
/// queue, so that at `d` it turned to `task`, which has kept it busy up to `j`.
pub open spec fn turned_to<W>(
    steps: Seq<WorkerStep<W>>,
    events: Seq<WorkerEvent<W>>,
    k: int,
    d: int,
    j: int,
    task: SchedulerTask<W>,
) -> bool {
    &&& empties_queue(steps, events, k, d, task)
    &&& events[d - 1] == WorkerEvent::<W>::Popped(None)
    &&& steps[d] == dispatched(task)
    &&& d <= j
    &&& forall|m: int| #![trigger steps[m]] d <= m <= j ==> steps[m].is_at_task()
}

proof fn lemma_turned_to<W>(
    steps: Seq<WorkerStep<W>>,
    events: Seq<WorkerEvent<W>>,
    j: int,
) -> (r: (int, int, SchedulerTask<W>))
    requires
        worker_trace(steps, events),
        0 <= j < steps.len(),
        steps[j].is_at_task(),
    ensures
        turned_to(steps, events, r.0, r.1, j, r.2),
        steps[j] is Validate || steps[j] is Execute || steps[j] is Wake ==> r.1 == j,
    decreases j,
{
    assert(j > 0);
    assert(worker_goes_on(steps, events, j - 1));
    if steps[j - 1] is Pop {
        let task = steps[j - 1]->Pop_0;
        let k = lemma_emptying_queue(steps, events, j - 1, task);
        assert(empties_queue(steps, events, k, j, task));
        (k, j, task)
    } else {
        let (k, d, task) = lemma_turned_to(steps, events, j - 1);
        assert(turned_to(steps, events, k, d, j, task));
        (k, d, task)
    }
}

/// A worker turns to its task, whatever it is, only when it was told that others look after the
/// commits and it has found the commit queue empty since, and the task is the one that it was given
/// last. This holds of validating, executing and waking up, of asking for a task when there is
/// none in hand, and of the end when none is left.
pub proof fn commits_come_before_tasks<W>(
    steps: Seq<WorkerStep<W>>,
    events: Seq<WorkerEvent<W>>,
    j: int,
)
    requires
        worker_trace(steps, events),
        0 <= j < steps.len(),
        steps[j].is_at_task(),
    ensures
        exists|k: int, d: int, task: SchedulerTask<W>|
            {
                &&& #[trigger] turned_to(steps, events, k, d, j, task)
                &&& steps[j] is Validate || steps[j] is Execute || steps[j] is Wake ==> d == j
            },
{
    let (k, d, task) = lemma_turned_to(steps, events, j);
    assert(turned_to(steps, events, k, d, j, task));
}

/// Every transaction that a worker takes out of the commit queue is materialized by it at once.
pub proof fn popped_transactions_are_materialized<W>(
    steps: Seq<WorkerStep<W>>,
    events: Seq<WorkerEvent<W>>,
    j: int,
    txn_idx: TxnIndex,
)
    requires
        worker_trace(steps, events),
        0 <= j < events.len(),
        events[j] == WorkerEvent::<W>::Popped(Some(txn_idx)),
    ensures
        steps[j + 1] == WorkerStep::<W>::FinalMaterialize(txn_idx) || (
        steps[j + 1] matches WorkerStep::Materialize(i, _) && i == txn_idx),
{
    assert(worker_goes_on(steps, events, j));
}

/// The worker was told at `k` that no task is left, and has done nothing since but empty the
/// commit queue.
pub open spec fn winds_up<W>(
    steps: Seq<WorkerStep<W>>,
    events: Seq<WorkerEvent<W>>,
    k: int,
    j: int,
) -> bool {
    &&& 0 <= k < j < steps.len()
    &&& steps[k] == WorkerStep::<W>::Pop(SchedulerTask::Done)
    &&& events[k] == WorkerEvent::<W>::Popped(None)
    &&& forall|m: int|
        #![trigger steps[m]]
        k < m < j ==> steps[m] is FinalPop || steps[m] is FinalMaterialize
}

proof fn lemma_winding_up<W>(
    steps: Seq<WorkerStep<W>>,
    events: Seq<WorkerEvent<W>>,
    j: int,
) -> (k: int)
    requires
        worker_trace(steps, events),
        0 <= j < steps.len(),
        steps[j] is FinalPop || steps[j] is FinalMaterialize,
    ensures
        winds_up(steps, events, k, j),
    decreases j,
{
    assert(j > 0);
    assert(worker_goes_on(steps, events, j - 1));
    if steps[j - 1] is Pop {
        j - 1
    } else {
        let k = lemma_winding_up(steps, events, j - 1);
        assert(winds_up(steps, events, k, j));
        k
    }
}

/// A worker is done only when it was told that no task is left and has found the commit queue
/// empty after that.
pub proof fn workers_leave_an_empty_queue<W>(
    steps: Seq<WorkerStep<W>>,
    events: Seq<WorkerEvent<W>>,
    j: int,
)
    requires
        worker_trace(steps, events),
        0 <= j < steps.len(),
        steps[j] is Finished,
    ensures
        j == events.len(),
        events[j - 1] == WorkerEvent::<W>::Popped(None),
        exists|k: int| #[trigger] winds_up(steps, events, k, j),
{
    if j < events.len() {
        assert(worker_goes_on(steps, events, j));
    }
    assert(worker_goes_on(steps, events, j - 1));
    assert(steps[j - 1] is FinalPop);
    let k = lemma_winding_up(steps, events, j - 1);
    assert(winds_up(steps, events, k, j));
}

} // verus!
