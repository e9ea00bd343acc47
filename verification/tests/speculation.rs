use block_executor::errors::Error;
use block_executor::errors::ErrorCategory;
use block_executor::errors::InvariantViolation;
use block_executor::errors::TransactionError;
use block_executor::parallel::execution::plan_execution;
use block_executor::parallel::execution::plan_updates;
use block_executor::parallel::execution::ApplyReply;
use block_executor::parallel::execution::CacheOp;
use block_executor::parallel::execution::ExecutionEvent;
use block_executor::parallel::execution::ExecutionStep;
use block_executor::parallel::scheduler::SchedulerTask;
use block_executor::task::ExecutionStatus;
use block_executor::task::TransactionOutput;
use block_executor::types::DelayedChange;
use block_executor::types::Transaction;
use block_executor::types::WriteOp;
use block_executor::types::WriteOpKind;
use std::collections::HashMap;
use std::collections::HashSet;
use std::sync::Arc;

struct Txn;

impl Transaction for Txn {
    type Layout = u8;
    type DeltaOp = u8;
    type ApplyEntry = i64;
    type FieldValue = i64;
    type EventHeader = u8;
}

type Step = ExecutionStep<Txn, String, u8>;
type Event = ExecutionEvent<Txn, String, u8>;

fn write() -> Arc<WriteOp> {
    Arc::new(WriteOp { kind: WriteOpKind::Deletion, bytes: None, metadata: None })
}

/// Writes 1 as a resource, 2 as an aggregator, 3 as a module, 4 as a delta, and field 5.
fn output() -> TransactionOutput<Txn> {
    let mut output: TransactionOutput<Txn> = TransactionOutput::skip_output();
    output.resource_write_set.insert(1, (write(), Some(Arc::new(6))));
    output.aggregator_v1_write_set.insert(2, write());
    output.module_write_set.insert(3, write());
    output.aggregator_v1_delta_set.insert(4, Arc::new(7));
    output.delayed_field_change_set.insert(5, DelayedChange::Create(Arc::new(8)));
    output
}

fn describe(op: &CacheOp<Txn>) -> String {
    match op {
        CacheOp::WriteResource(key, _, layout) => {
            format!("resource {} {}", key, layout.is_some())
        }
        CacheOp::WriteAggregatorV1(key, _) => format!("aggregator {}", key),
        CacheOp::WriteModule(key, _) => format!("module {}", key),
        CacheOp::AddDelta(key, delta) => format!("delta {} {}", key, delta),
        CacheOp::RecordChange(id, _) => format!("change {}", id),
        CacheOp::RemoveModule(key) => format!("remove module {}", key),
        CacheOp::RemoveData(key) => format!("remove data {}", key),
        CacheOp::RemoveDelayedField(id) => format!("remove field {}", id),
    }
}

fn keys(list: &[(u64, bool)]) -> HashMap<u64, bool> {
    list.iter().copied().collect()
}

fn ids(list: &[u64]) -> HashSet<u64> {
    list.iter().copied().collect()
}

#[test]
fn updates_come_in_their_order() {
    let output = output();
    let (ops, outside) = plan_updates(Some(&output), &keys(&[]), &ids(&[]));
    let names: Vec<String> = ops.iter().map(describe).collect();
    assert_eq!(
        names,
        vec!["resource 1 true", "aggregator 2", "module 3", "delta 4 7", "change 5"]
    );
    assert!(outside);
}

#[test]
fn what_is_not_written_again_is_removed() {
    let output = output();
    let before = keys(&[(1, false), (2, false), (3, true), (4, false), (10, true), (11, false)]);
    let (ops, outside) = plan_updates(Some(&output), &before, &ids(&[5, 12]));
    let names: Vec<String> = ops.iter().map(describe).collect();
    assert_eq!(names.len(), 8);
    assert_eq!(names[4], "change 5");
    assert!(names[5..7].contains(&"remove module 10".to_string()));
    assert!(names[5..7].contains(&"remove data 11".to_string()));
    assert_eq!(names[7], "remove field 12");
    assert!(!outside);
}

#[test]
fn key_written_twice_counts_as_outside() {
    let mut twice: TransactionOutput<Txn> = TransactionOutput::skip_output();
    twice.resource_write_set.insert(1, (write(), None));
    assert!(!plan_updates(Some(&twice), &keys(&[(1, false)]), &ids(&[])).1);
    twice.aggregator_v1_delta_set.insert(1, Arc::new(7));
    assert!(plan_updates(Some(&twice), &keys(&[(1, false)]), &ids(&[])).1);
}

#[test]
fn changes_to_fields_do_not_count_as_outside() {
    let mut fields: TransactionOutput<Txn> = TransactionOutput::skip_output();
    fields.delayed_field_change_set.insert(5, DelayedChange::Create(Arc::new(8)));
    let (ops, outside) = plan_updates(Some(&fields), &keys(&[]), &ids(&[]));
    assert_eq!(ops.len(), 1);
    assert!(!outside);
}

#[test]
fn aborted_execution_removes_everything() {
    let (ops, outside) =
        plan_updates::<Txn>(None, &keys(&[(1, true), (2, false)]), &ids(&[3]));
    let names: Vec<String> = ops.iter().map(describe).collect();
    assert_eq!(names.len(), 3);
    assert!(names.contains(&"remove module 1".to_string()));
    assert!(names.contains(&"remove data 2".to_string()));
    assert_eq!(names[2], "remove field 3");
    assert!(!outside);
}

fn abort(category: ErrorCategory) -> ExecutionStatus<Txn, TransactionError<String>> {
    ExecutionStatus::Abort(TransactionError { category, error: "why".to_string() })
}

#[test]
fn plans_record_how_the_execution_ended() {
    let plan =
        plan_execution::<Txn, String>(ExecutionStatus::Success(output()), &keys(&[]), &ids(&[]))
            .unwrap_or_else(|_| panic!("a plan was expected"));
    assert!(!plan.inconsistent);
    assert_eq!(plan.ops.len(), 5);
    assert!(matches!(*plan.status, ExecutionStatus::Success(_)));
    let plan =
        plan_execution::<Txn, String>(ExecutionStatus::SkipRest(output()), &keys(&[]), &ids(&[]))
            .unwrap_or_else(|_| panic!("a plan was expected"));
    assert!(matches!(*plan.status, ExecutionStatus::SkipRest(_)));
    let plan = plan_execution(abort(ErrorCategory::ValidError), &keys(&[]), &ids(&[]))
        .unwrap_or_else(|_| panic!("a plan was expected"));
    assert!(!plan.inconsistent);
    match &*plan.status {
        ExecutionStatus::Abort(Error::UserError(err)) => assert_eq!(err.error, "why"),
        _ => panic!("the abort was expected"),
    }
    let plan =
        plan_execution(abort(ErrorCategory::SpeculativeExecutionError), &keys(&[]), &ids(&[]))
            .unwrap_or_else(|_| panic!("a plan was expected"));
    assert!(plan.inconsistent);
    assert!(matches!(
        plan_execution(abort(ErrorCategory::CodeInvariantError), &keys(&[]), &ids(&[])),
        Err(InvariantViolation::CodeInvariantError)
    ));
}

fn go(step: Step, event: Event) -> Step {
    let mut maybe_error: Option<Error<String>> = None;
    let next = match step.next(&mut maybe_error, event) {
        Ok(next) => next,
        Err(violation) => panic!("rule broken: {:?}", violation),
    };
    assert!(maybe_error.is_none());
    next
}

fn planned(status: ExecutionStatus<Txn, TransactionError<String>>) -> Step {
    let step = go(Step::start(3), Event::Executed(status));
    assert!(matches!(step, ExecutionStep::LoadPrevious(_)));
    go(step, Event::Previous(None, None))
}

#[test]
fn execution_makes_its_changes_and_is_recorded() {
    let mut step = planned(ExecutionStatus::Success(output()));
    for n in 0..5 {
        match &step {
            ExecutionStep::Apply { plan, next } => {
                assert_eq!(*next, n);
                assert_eq!(plan.ops.len(), 5);
            }
            _ => panic!("a change was expected"),
        }
        step = go(step, Event::Applied(ApplyReply::Applied));
    }
    assert!(matches!(step, ExecutionStep::TakeReads(_)));
    let step = go(step, Event::Made);
    assert!(matches!(step, ExecutionStep::Record(_)));
    let step = go(step, Event::Answer(true));
    assert!(matches!(step, ExecutionStep::FinishExecution { updates_outside: true }));
    let step = go(step, Event::Task(SchedulerTask::ValidationTask(1, 2, 3)));
    assert!(matches!(
        step,
        ExecutionStep::Return(SchedulerTask::ValidationTask(1, 2, 3))
    ));
}

#[test]
fn inconsistent_change_marks_the_reads() {
    let mut step = planned(ExecutionStatus::Success(output()));
    for n in 0..5 {
        let reply = if n == 4 { ApplyReply::Inconsistent } else { ApplyReply::Applied };
        step = go(step, Event::Applied(reply));
    }
    let step = go(step, Event::Made);
    assert!(matches!(step, ExecutionStep::CaptureReadError(_)));
    let step = go(step, Event::Made);
    assert!(matches!(step, ExecutionStep::Record(_)));
}

#[test]
fn speculative_abort_marks_the_reads() {
    let step = planned(abort(ErrorCategory::SpeculativeExecutionError));
    assert!(matches!(step, ExecutionStep::TakeReads(_)));
    let step = go(step, Event::Made);
    assert!(matches!(step, ExecutionStep::CaptureReadError(_)));
    let step = planned(abort(ErrorCategory::ValidError));
    let step = go(step, Event::Made);
    assert!(matches!(step, ExecutionStep::Record(_)));
}

#[test]
fn wrong_code_is_reported() {
    let step = go(Step::start(3), Event::Executed(abort(ErrorCategory::CodeInvariantError)));
    assert!(matches!(
        step.next(&mut None, Event::Previous(None, None)),
        Err(InvariantViolation::CodeInvariantError)
    ));
    let step = planned(ExecutionStatus::Success(output()));
    assert!(matches!(
        step.next(&mut None, Event::Applied(ApplyReply::CodeInvariantError)),
        Err(InvariantViolation::CodeInvariantError)
    ));
}

#[test]
fn module_conflict_halts_the_block() {
    let recording = || {
        let step = planned(abort(ErrorCategory::ValidError));
        let step = go(step, Event::Made);
        let step = go(step, Event::Answer(false));
        assert!(matches!(step, ExecutionStep::Halt));
        step
    };
    let mut maybe_error: Option<Error<String>> = None;
    let step = match recording().next(&mut maybe_error, Event::Answer(true)) {
        Ok(next) => next,
        Err(violation) => panic!("rule broken: {:?}", violation),
    };
    assert!(matches!(step, ExecutionStep::Return(SchedulerTask::NoTask)));
    assert!(matches!(maybe_error, Some(Error::ModulePathReadWrite)));
    let step = go(recording(), Event::Answer(false));
    assert!(matches!(step, ExecutionStep::Return(SchedulerTask::NoTask)));
}

#[test]
fn earlier_incarnation_is_cleaned_up() {
    let step = go(Step::start(3), Event::Executed(abort(ErrorCategory::ValidError)));
    let step = go(step, Event::Previous(Some(keys(&[(1, true)])), Some(ids(&[2]))));
    match &step {
        ExecutionStep::Apply { plan, next } => {
            assert_eq!(*next, 0);
            let names: Vec<String> = plan.ops.iter().map(describe).collect();
            assert_eq!(names, vec!["remove module 1", "remove field 2"]);
            assert!(!plan.updates_outside);
        }
        _ => panic!("a change was expected"),
    }
}

#[test]
fn execution_starts_without_materializing_deltas() {
    assert!(matches!(
        Step::start(3),
        ExecutionStep::Execute { txn_idx: 3, materialize_deltas: false }
    ));
}

#[test]
fn planned_updates_hold_what_the_output_holds() {
    let output = output();
    let (ops, _) = plan_updates(Some(&output), &keys(&[]), &ids(&[]));
    for op in &ops {
        match op {
            CacheOp::WriteResource(key, write, layout) => {
                let (expected, expected_layout) = &output.resource_write_set[key];
                assert!(Arc::ptr_eq(write, expected));
                assert_eq!(layout.as_deref(), expected_layout.as_deref());
            }
            CacheOp::WriteAggregatorV1(key, write) => {
                assert!(Arc::ptr_eq(write, &output.aggregator_v1_write_set[key]));
            }
            CacheOp::WriteModule(key, write) => {
                assert!(Arc::ptr_eq(write, &output.module_write_set[key]));
            }
            CacheOp::AddDelta(key, delta) => {
                assert!(Arc::ptr_eq(delta, &output.aggregator_v1_delta_set[key]));
            }
            CacheOp::RecordChange(id, change) => {
                match (change, &output.delayed_field_change_set[id]) {
                    (DelayedChange::Create(value), DelayedChange::Create(expected)) => {
                        assert!(Arc::ptr_eq(value, expected));
                    }
                    _ => panic!("a creation was expected"),
                }
            }
            _ => panic!("nothing is to be removed"),
        }
    }
    assert_eq!(ops.len(), 5);
}
