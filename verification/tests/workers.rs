use block_executor::errors::InvariantViolation;
use block_executor::parallel::scheduler::ExecutionTaskType;
use block_executor::parallel::scheduler::SchedulerTask;
use block_executor::parallel::validation::EstimateMark;
use block_executor::parallel::validation::RecordedReads;
use block_executor::parallel::validation::ValidationEvent;
use block_executor::parallel::validation::ValidationStep;
use block_executor::parallel::worker::WorkerEvent;
use block_executor::parallel::worker::WorkerStep;
use std::collections::HashMap;
use std::collections::HashSet;

type Task = SchedulerTask<u8>;

/// Has the worker turn to `task` once the commit queue is empty.
fn dispatch(task: Task) -> WorkerStep<u8> {
    WorkerStep::ShouldCoordinate(task)
        .next(WorkerEvent::Answer(false))
        .next(WorkerEvent::Popped(None))
}

#[test]
fn worker_starts_without_a_task() {
    assert!(matches!(
        WorkerStep::<u8>::start(),
        WorkerStep::ShouldCoordinate(SchedulerTask::NoTask)
    ));
}

#[test]
fn worker_fills_the_queue_as_long_as_it_is_told_to() {
    let step = WorkerStep::<u8>::start().next(WorkerEvent::Answer(true));
    assert!(matches!(step, WorkerStep::PrepareCommits(SchedulerTask::NoTask)));
    let step = step.next(WorkerEvent::Made);
    assert!(matches!(step, WorkerStep::MarkDone(SchedulerTask::NoTask)));
    let step = step.next(WorkerEvent::Made);
    assert!(matches!(step, WorkerStep::ShouldCoordinate(SchedulerTask::NoTask)));
    let step = step.next(WorkerEvent::Answer(false));
    assert!(matches!(step, WorkerStep::Pop(SchedulerTask::NoTask)));
}

#[test]
fn worker_empties_the_queue_before_its_task() {
    let step = WorkerStep::<u8>::ShouldCoordinate(SchedulerTask::ValidationTask(4, 1, 2))
        .next(WorkerEvent::Answer(false))
        .next(WorkerEvent::Popped(Some(9)));
    assert!(matches!(
        step,
        WorkerStep::Materialize(9, SchedulerTask::ValidationTask(4, 1, 2))
    ));
    let step = step.next(WorkerEvent::Made);
    assert!(matches!(step, WorkerStep::Pop(SchedulerTask::ValidationTask(4, 1, 2))));
    let step = step.next(WorkerEvent::Popped(None));
    assert!(matches!(step, WorkerStep::Validate(4, 1, 2)));
}

#[test]
fn worker_turns_to_every_kind_of_task() {
    assert!(matches!(
        dispatch(SchedulerTask::ValidationTask(1, 2, 3)),
        WorkerStep::Validate(1, 2, 3)
    ));
    assert!(matches!(
        dispatch(SchedulerTask::ExecutionTask(1, 2, ExecutionTaskType::Execution)),
        WorkerStep::Execute(1, 2)
    ));
    assert!(matches!(
        dispatch(SchedulerTask::ExecutionTask(1, 2, ExecutionTaskType::Wakeup(77))),
        WorkerStep::Wake(77)
    ));
    assert!(matches!(dispatch(SchedulerTask::NoTask), WorkerStep::NextTask));
    assert!(matches!(dispatch(SchedulerTask::Done), WorkerStep::FinalPop));
}

#[test]
fn worker_goes_on_with_the_task_it_is_given() {
    for step in [
        WorkerStep::Validate(1, 2, 3),
        WorkerStep::Execute(1, 2),
        WorkerStep::NextTask,
    ] {
        let next: WorkerStep<u8> =
            step.next(WorkerEvent::Task(SchedulerTask::ValidationTask(5, 6, 7)));
        assert!(matches!(
            next,
            WorkerStep::ShouldCoordinate(SchedulerTask::ValidationTask(5, 6, 7))
        ));
    }
    assert!(matches!(
        WorkerStep::Wake(77u8).next(WorkerEvent::Made),
        WorkerStep::NextTask
    ));
}

#[test]
fn worker_empties_the_queue_before_it_ends() {
    let step = dispatch(SchedulerTask::Done).next(WorkerEvent::Popped(Some(3)));
    assert!(matches!(step, WorkerStep::FinalMaterialize(3)));
    let step = step.next(WorkerEvent::Made);
    assert!(matches!(step, WorkerStep::FinalPop));
    let step = step.next(WorkerEvent::Popped(None));
    assert!(matches!(step, WorkerStep::Finished));
}

#[test]
fn execution_tasks_are_told_apart() {
    let task: Task = SchedulerTask::ExecutionTask(1, 0, ExecutionTaskType::Execution);
    assert!(task.is_execution_task());
    let task: Task = SchedulerTask::ExecutionTask(1, 0, ExecutionTaskType::Wakeup(1));
    assert!(task.is_execution_task());
    let task: Task = SchedulerTask::ValidationTask(1, 0, 0);
    assert!(!task.is_execution_task());
    let task: Task = SchedulerTask::NoTask;
    assert!(!task.is_execution_task());
    let task: Task = SchedulerTask::Done;
    assert!(!task.is_execution_task());
}

fn validate(step: ValidationStep<u8>, event: ValidationEvent<u8>) -> ValidationStep<u8> {
    match step.next(event) {
        Ok(next) => next,
        Err(violation) => panic!("rule broken: {:?}", violation),
    }
}

fn loaded() -> ValidationStep<u8> {
    validate(ValidationStep::start(), ValidationEvent::Reads(RecordedReads::Usable))
}

#[test]
fn valid_reads_arm_the_commits() {
    let step = loaded();
    assert!(matches!(step, ValidationStep::ValidateDataReads));
    let step = validate(step, ValidationEvent::Answer(true));
    assert!(matches!(step, ValidationStep::ValidateGroupReads));
    let step = validate(step, ValidationEvent::Answer(true));
    assert!(matches!(step, ValidationStep::FinishValidation { valid: true }));
    let step = validate(step, ValidationEvent::Made);
    assert!(matches!(step, ValidationStep::ArmCommits));
    let step = validate(step, ValidationEvent::Made);
    assert!(matches!(step, ValidationStep::Return(SchedulerTask::NoTask)));
}

#[test]
fn lost_abort_does_not_arm_the_commits() {
    let step = validate(loaded(), ValidationEvent::Answer(false));
    assert!(matches!(step, ValidationStep::TryAbort));
    let step = validate(step, ValidationEvent::Answer(false));
    assert!(matches!(step, ValidationStep::FinishValidation { valid: false }));
    let step = validate(step, ValidationEvent::Made);
    assert!(matches!(step, ValidationStep::Return(SchedulerTask::NoTask)));
}

#[test]
fn won_abort_marks_everything_that_was_written() {
    let step = validate(loaded(), ValidationEvent::Answer(true));
    let step = validate(step, ValidationEvent::Answer(false));
    assert!(matches!(step, ValidationStep::TryAbort));
    let step = validate(step, ValidationEvent::Answer(true));
    assert!(matches!(step, ValidationStep::ClearLogs));
    let step = validate(step, ValidationEvent::Made);
    assert!(matches!(step, ValidationStep::LoadModified));
    let keys: HashMap<u64, bool> = [(1, true), (2, false), (3, false)].into_iter().collect();
    let ids: HashSet<u64> = [8, 9].into_iter().collect();
    let step = validate(step, ValidationEvent::Modified(Some(keys), Some(ids)));
    let marks = match &step {
        ValidationStep::MarkEstimates(marks) => marks,
        _ => panic!("marks were expected"),
    };
    assert_eq!(marks.len(), 5);
    for mark in [
        EstimateMark::Module(1),
        EstimateMark::Data(2),
        EstimateMark::Data(3),
        EstimateMark::DelayedField(8),
        EstimateMark::DelayedField(9),
    ] {
        assert!(marks.contains(&mark));
    }
    assert!(matches!(marks[3], EstimateMark::DelayedField(_)));
    assert!(matches!(marks[4], EstimateMark::DelayedField(_)));
    let step = validate(step, ValidationEvent::Made);
    assert!(matches!(step, ValidationStep::FinishAbort));
    let step = validate(step, ValidationEvent::Task(SchedulerTask::ValidationTask(1, 2, 3)));
    assert!(matches!(
        step,
        ValidationStep::Return(SchedulerTask::ValidationTask(1, 2, 3))
    ));
}

#[test]
fn abort_without_writes_marks_nothing() {
    let step =
        validate(ValidationStep::LoadModified, ValidationEvent::Modified(None, None));
    match step {
        ValidationStep::MarkEstimates(marks) => assert!(marks.is_empty()),
        _ => panic!("marks were expected"),
    }
}

#[test]
fn unusable_reads_break_rules() {
    assert!(matches!(
        ValidationStep::<u8>::start().next(ValidationEvent::Reads(RecordedReads::Missing)),
        Err(InvariantViolation::ReadSetNotRecorded)
    ));
    assert!(matches!(
        ValidationStep::<u8>::start().next(ValidationEvent::Reads(RecordedReads::IncorrectUse)),
        Err(InvariantViolation::IncorrectUse)
    ));
}
