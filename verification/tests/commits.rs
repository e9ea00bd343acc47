use block_executor::errors::DelayedFieldFailure;
use block_executor::errors::Error;
use block_executor::errors::ErrorCategory;
use block_executor::errors::InvariantViolation;
use block_executor::errors::TransactionError;
use block_executor::fee_statement::FeeStatement;
use block_executor::parallel::commit::CommitEvent;
use block_executor::parallel::commit::CommitSetup;
use block_executor::parallel::commit::CommitState;
use block_executor::parallel::commit::CommitStep;
use block_executor::parallel::commit::DelayedCommit;
use block_executor::parallel::deltas::BaseValue;
use block_executor::parallel::deltas::DeltaEvent;
use block_executor::parallel::deltas::DeltaStep;
use block_executor::parallel::deltas::DeltaWrites;
use block_executor::parallel::materialize::complete_txn_commit;
use block_executor::parallel::materialize::store_txn_output;
use block_executor::parallel::materialize::CommittedTxn;
use block_executor::patching::DataRead;
use block_executor::patching::Replaced;
use block_executor::task::ExecutionStatus;
use block_executor::task::MaterializedOutput;
use block_executor::task::TransactionOutput;
use block_executor::txn_commit_hook::TransactionCommitHook;
use block_executor::types::Event;
use block_executor::types::Transaction;
use block_executor::types::TxnIndex;
use block_executor::types::WriteOp;
use block_executor::types::WriteOpKind;
use bytes::Bytes;
use std::collections::HashMap;
use std::collections::HashSet;
use std::sync::Arc;
use std::sync::Mutex;

struct Txn;

impl Transaction for Txn {
    type Layout = u8;
    type DeltaOp = u8;
    type ApplyEntry = i64;
    type FieldValue = i64;
    type EventHeader = u8;
}

type Step = CommitStep<String>;
type State = CommitState<String>;
type Reply = CommitEvent<String>;

fn setup(limit: Option<u64>, num_txns: u32) -> CommitSetup {
    CommitSetup { maybe_block_gas_limit: limit, num_txns, has_execution_task: false }
}

fn go(setup: &CommitSetup, state: &mut State, step: Step, event: Reply) -> Step {
    match step.next(setup, state, event) {
        Ok(next) => next,
        Err(violation) => panic!("rule broken: {:?}", violation),
    }
}

fn fee(execution: u64, io: u64) -> FeeStatement {
    FeeStatement { execution_gas_used: execution, io_gas_used: io, storage_gas_used: 1000 }
}

/// Takes transaction `txn_idx` to the point where its gas is looked up.
fn up_to_fee(setup: &CommitSetup, state: &mut State, txn_idx: u32) -> Step {
    let step = go(setup, state, Step::start(), CommitEvent::Committable(Some(txn_idx)));
    assert!(matches!(step, CommitStep::ValidateDelayedReads(i) if i == txn_idx));
    let step = go(setup, state, step, CommitEvent::DelayedReads(Some(true)));
    assert!(matches!(step, CommitStep::LoadCategory { txn_idx: i, valid: true } if i == txn_idx));
    let step = go(setup, state, step, CommitEvent::Category(None));
    assert!(matches!(step, CommitStep::CommitDelayedFields(i) if i == txn_idx));
    let step = go(setup, state, step, CommitEvent::DelayedFields(DelayedCommit::Committed));
    assert!(matches!(step, CommitStep::LoadFee(i) if i == txn_idx));
    step
}

#[test]
fn round_ends_when_nothing_can_be_committed() {
    let mut state = State::new();
    let step = go(&setup(None, 3), &mut state, Step::start(), CommitEvent::Committable(None));
    assert!(matches!(step, CommitStep::Done));
    assert_eq!(state.accumulated_fee_statement, FeeStatement::zero());
    assert!(state.txn_fee_statements.is_empty());
    assert!(state.maybe_error.is_none());
}

#[test]
fn transaction_is_queued_and_the_next_one_is_looked_for() {
    let setup = setup(Some(10), 3);
    let mut state = State::new();
    let step = up_to_fee(&setup, &mut state, 0);
    let step = go(&setup, &mut state, step, CommitEvent::Fee(Some(fee(4, 5))));
    assert!(matches!(step, CommitStep::LoadError(0)));
    let step = go(&setup, &mut state, step, CommitEvent::ExecutionError(None));
    assert!(matches!(step, CommitStep::AskSkipsRest(0)));
    let step = go(&setup, &mut state, step, CommitEvent::Answer(false));
    assert!(matches!(step, CommitStep::Queue { txn_idx: 0, stop: false }));
    let step = go(&setup, &mut state, step, CommitEvent::Made);
    assert!(matches!(step, CommitStep::TryCommit));
    assert_eq!(state.txn_fee_statements, vec![fee(4, 5)]);
    assert_eq!(state.accumulated_fee_statement, fee(4, 5));
}

#[test]
fn gas_is_accumulated_up_to_the_limit() {
    let setup = setup(Some(10), 5);
    let mut state = State::new();
    let step = up_to_fee(&setup, &mut state, 0);
    let step = go(&setup, &mut state, step, CommitEvent::Fee(Some(fee(4, 1))));
    assert!(matches!(step, CommitStep::LoadError(0)));
    let step = up_to_fee(&setup, &mut state, 1);
    let step = go(&setup, &mut state, step, CommitEvent::Fee(Some(fee(3, 2))));
    assert!(matches!(step, CommitStep::UpdateToSkipRest(1)));
    assert_eq!(
        state.accumulated_fee_statement,
        FeeStatement { execution_gas_used: 7, io_gas_used: 3, storage_gas_used: 2000 }
    );
    let step = go(&setup, &mut state, step, CommitEvent::Made);
    assert!(matches!(step, CommitStep::LoadError(1)));
    let step = go(&setup, &mut state, step, CommitEvent::ExecutionError(None));
    let step = go(&setup, &mut state, step, CommitEvent::Answer(true));
    assert!(matches!(step, CommitStep::HaltAtEnd(1)));
    let step = go(&setup, &mut state, step, CommitEvent::Answer(true));
    assert!(matches!(step, CommitStep::Queue { txn_idx: 1, stop: true }));
    let step = go(&setup, &mut state, step, CommitEvent::Made);
    assert!(matches!(step, CommitStep::Done));
}

#[test]
fn transaction_without_fee_is_not_counted() {
    let setup = setup(Some(0), 5);
    let mut state = State::new();
    let step = up_to_fee(&setup, &mut state, 0);
    let step = go(&setup, &mut state, step, CommitEvent::Fee(None));
    assert!(matches!(step, CommitStep::LoadError(0)));
    assert!(state.txn_fee_statements.is_empty());
}

#[test]
fn last_transaction_ends_the_block() {
    let setup = setup(None, 2);
    let mut state = State::new();
    let step = go(&setup, &mut state, CommitStep::LoadError(1), CommitEvent::ExecutionError(None));
    assert!(matches!(step, CommitStep::HaltAtEnd(1)));
    let step = go(&setup, &mut state, step, CommitEvent::Answer(false));
    assert!(matches!(step, CommitStep::Queue { txn_idx: 1, stop: true }));
}

#[test]
fn abort_halts_the_block_and_is_queued() {
    let setup = setup(None, 4);
    let error = || {
        Error::UserError(TransactionError {
            category: ErrorCategory::ValidError,
            error: "why".to_string(),
        })
    };
    for halted in [true, false] {
        let mut state = State::new();
        let step = go(
            &setup,
            &mut state,
            CommitStep::LoadError(2),
            CommitEvent::ExecutionError(Some(error())),
        );
        assert!(matches!(step, CommitStep::HaltWithError { txn_idx: 2, error: _ }));
        let step = go(&setup, &mut state, step, CommitEvent::Answer(halted));
        assert!(matches!(step, CommitStep::Queue { txn_idx: 2, stop: true }));
        match &state.maybe_error {
            Some(Error::UserError(err)) => {
                assert!(halted);
                assert_eq!(err.error, "why");
            }
            _ => assert!(!halted),
        }
    }
}

#[test]
fn commit_breaks_rules() {
    let setup = setup(None, 2);
    let cases: Vec<(Step, Reply, InvariantViolation)> = vec![
        (
            CommitStep::ValidateDelayedReads(0),
            CommitEvent::DelayedReads(None),
            InvariantViolation::ReadSetNotRecorded,
        ),
        (
            CommitStep::LoadCategory { txn_idx: 0, valid: true },
            CommitEvent::Category(Some(ErrorCategory::SpeculativeExecutionError)),
            InvariantViolation::SpeculativeErrorStillValid,
        ),
        (
            CommitStep::LoadCategory { txn_idx: 0, valid: false },
            CommitEvent::Category(Some(ErrorCategory::SpeculativeExecutionError)),
            InvariantViolation::ReExecutionNeeded,
        ),
        (
            CommitStep::LoadCategory { txn_idx: 0, valid: true },
            CommitEvent::Category(Some(ErrorCategory::CodeInvariantError)),
            InvariantViolation::CodeInvariantError,
        ),
        (
            CommitStep::LoadCategory { txn_idx: 0, valid: false },
            CommitEvent::Category(None),
            InvariantViolation::ReExecutionNeeded,
        ),
        (
            CommitStep::CommitDelayedFields(0),
            CommitEvent::DelayedFields(DelayedCommit::ReExecutionNeeded),
            InvariantViolation::ReExecutionNeeded,
        ),
        (
            CommitStep::CommitDelayedFields(0),
            CommitEvent::DelayedFields(DelayedCommit::CodeInvariantError),
            InvariantViolation::CodeInvariantError,
        ),
    ];
    for (step, event, expected) in cases {
        let mut state = State::new();
        match step.next(&setup, &mut state, event) {
            Ok(_) => panic!("a broken rule was expected"),
            Err(violation) => assert_eq!(violation, expected),
        }
    }
}

#[test]
fn valid_error_and_no_changes_are_committed() {
    let setup = setup(None, 2);
    let mut state = State::new();
    let step = go(
        &setup,
        &mut state,
        CommitStep::LoadCategory { txn_idx: 0, valid: true },
        CommitEvent::Category(Some(ErrorCategory::ValidError)),
    );
    let step =
        go(&setup, &mut state, step, CommitEvent::DelayedFields(DelayedCommit::NoChanges));
    assert!(matches!(step, CommitStep::LoadFee(0)));
}

#[test]
fn accumulated_gas_must_fit() {
    let setup = setup(None, 2);
    let mut state = State::new();
    go(&setup, &mut state, CommitStep::LoadFee(0), CommitEvent::Fee(Some(fee(u64::MAX, 0))));
    assert!(matches!(
        CommitStep::LoadFee(1).next(&setup, &mut state, CommitEvent::Fee(Some(fee(1, 0)))),
        Err(InvariantViolation::FeeOverflow)
    ));
    assert_eq!(state.txn_fee_statements.len(), 1);
    assert_eq!(state.accumulated_fee_statement, fee(u64::MAX, 0));
}

#[test]
fn no_execution_may_be_left_at_the_end() {
    let mut setup = setup(None, 2);
    setup.has_execution_task = true;
    let mut state = State::new();
    assert!(matches!(
        CommitStep::LoadError(1).next(&setup, &mut state, CommitEvent::ExecutionError(None)),
        Err(InvariantViolation::ExecutionTaskAfterLastCommit)
    ));
    let step = go(&setup, &mut state, CommitStep::LoadError(0), CommitEvent::ExecutionError(None));
    assert!(matches!(step, CommitStep::AskSkipsRest(0)));
}

fn advance(deltas: DeltaWrites<Txn>, event: DeltaEvent<Txn>) -> DeltaWrites<Txn> {
    match deltas.next(event) {
        Ok(next) => next,
        Err(violation) => panic!("rule broken: {:?}", violation),
    }
}

#[test]
fn deltas_become_modifications_in_order() {
    let deltas = DeltaWrites::<Txn>::start(vec![4, 9]);
    assert!(matches!(deltas.step, DeltaStep::Materialize { key: 4 }));
    // The cache knows the value under the first key.
    let deltas = advance(deltas, DeltaEvent::Materialized(70));
    assert!(matches!(deltas.step, DeltaStep::Serialize { key: 4, value: 70 }));
    let deltas = advance(deltas, DeltaEvent::Serialized(vec![7, 0]));
    assert!(matches!(deltas.step, DeltaStep::Materialize { key: 9 }));
    // The second one has to be read from storage.
    let deltas = advance(deltas, DeltaEvent::NeedsBase(Arc::new(3)));
    assert!(matches!(&deltas.step, DeltaStep::ReadBase { key: 9, op } if **op == 3));
    let stored = write(&[40]);
    let deltas = advance(deltas, DeltaEvent::Base(BaseValue::Value(Arc::clone(&stored), 40)));
    match &deltas.step {
        DeltaStep::ProvideBase { key, op, write, base } => {
            assert_eq!((*key, **op, *base), (9, 3, 40));
            assert!(Arc::ptr_eq(write, &stored));
        }
        _ => panic!("the stored value was expected to be provided"),
    }
    let deltas = advance(deltas, DeltaEvent::Provided);
    assert!(matches!(&deltas.step, DeltaStep::ApplyDelta { key: 9, op, base: 40 } if **op == 3));
    let deltas = advance(deltas, DeltaEvent::Applied(Some(43)));
    assert!(matches!(deltas.step, DeltaStep::Serialize { key: 9, value: 43 }));
    let deltas = advance(deltas, DeltaEvent::Serialized(vec![4, 3]));
    assert!(matches!(deltas.step, DeltaStep::Done));
    assert_eq!(deltas.writes.len(), 2);
    assert_eq!(deltas.writes[0].0, 4);
    assert_eq!(deltas.writes[0].1.bytes, Some(Bytes::from_static(&[7, 0])));
    assert_eq!(deltas.writes[1].0, 9);
    assert_eq!(deltas.writes[1].1.bytes, Some(Bytes::from_static(&[4, 3])));
    for (_, write) in &deltas.writes {
        assert_eq!(write.kind, WriteOpKind::Modification);
        assert_eq!(write.metadata, None);
    }
}

#[test]
fn no_deltas_are_done_at_once() {
    let deltas = DeltaWrites::<Txn>::start(vec![]);
    assert!(matches!(deltas.step, DeltaStep::Done));
    assert!(deltas.writes.is_empty());
}

#[test]
fn deltas_break_rules() {
    for (base, expected) in [
        (BaseValue::Unreadable, InvariantViolation::StorageReadFailed),
        (BaseValue::NotInteger, InvariantViolation::BaseValueNotInteger),
        (BaseValue::Missing, InvariantViolation::BaseValueMissing),
    ] {
        let deltas = advance(
            DeltaWrites::<Txn>::start(vec![4]),
            DeltaEvent::NeedsBase(Arc::new(3)),
        );
        match deltas.next(DeltaEvent::Base(base)) {
            Ok(_) => panic!("a broken rule was expected"),
            Err(violation) => assert_eq!(violation, expected),
        }
    }
    let deltas =
        advance(DeltaWrites::<Txn>::start(vec![4]), DeltaEvent::NeedsBase(Arc::new(3)));
    let deltas = advance(deltas, DeltaEvent::Base(BaseValue::Value(write(&[1]), 1)));
    let deltas = advance(deltas, DeltaEvent::Provided);
    assert!(matches!(
        deltas.next(DeltaEvent::Applied(None)),
        Err(InvariantViolation::DeltaApplyFailed)
    ));
}

fn replace(view: &u8, bytes: &Bytes, layout: &u8) -> Replaced {
    if *layout == 0 {
        return Err(DelayedFieldFailure);
    }
    let patched: Vec<u8> = bytes.iter().map(|id| view + id).collect();
    Ok((Bytes::from(patched), bytes.iter().map(|id| *id as u64).collect()))
}

fn write(data: &'static [u8]) -> Arc<WriteOp> {
    Arc::new(WriteOp {
        kind: WriteOpKind::Creation,
        bytes: Some(Bytes::from_static(data)),
        metadata: None,
    })
}

#[test]
fn committed_transaction_is_materialized() {
    let mut writes: HashMap<u64, (Arc<WriteOp>, Option<Arc<u8>>)> = HashMap::new();
    writes.insert(1, (write(&[1]), Some(Arc::new(1))));
    writes.insert(2, (write(&[2]), None));
    let mut reads: HashMap<u64, DataRead<Txn>> = HashMap::new();
    reads.insert(1, DataRead::Versioned(None, write(&[5]), Some(Arc::new(1))));
    reads.insert(3, DataRead::Versioned(None, write(&[5]), Some(Arc::new(1))));
    let fields: HashSet<u64> = [5].into_iter().collect();
    let events: Vec<(Event<Txn>, Option<Arc<u8>>)> =
        vec![(Event { header: Arc::new(1), data: vec![6] }, Some(Arc::new(1)))];
    let txn = CommittedTxn {
        resource_write_set: Some(&writes),
        delayed_field_keys: Some(&fields),
        read_set: Some(&reads),
        events: &events,
    };
    let materialized = match txn.materialize_txn_commit(&50, &replace) {
        Ok(materialized) => materialized,
        Err(violation) => panic!("rule broken: {:?}", violation),
    };
    let patched = &materialized.patched_resource_write_set;
    assert_eq!(patched.len(), 2);
    assert_eq!(patched[&1].bytes, Some(Bytes::from_static(&[51])));
    assert_eq!(patched[&3].bytes, Some(Bytes::from_static(&[55])));
    assert_eq!(materialized.patched_events[0].data, vec![56]);
    assert!(materialized.aggregator_v1_delta_writes.is_empty());
}

#[test]
fn aborted_transaction_has_nothing_to_materialize() {
    let events: Vec<(Event<Txn>, Option<Arc<u8>>)> = vec![];
    let txn = CommittedTxn {
        resource_write_set: None,
        delayed_field_keys: None,
        read_set: None,
        events: &events,
    };
    let materialized = match txn.materialize_txn_commit(&50, &replace) {
        Ok(materialized) => materialized,
        Err(violation) => panic!("rule broken: {:?}", violation),
    };
    assert!(materialized.patched_resource_write_set.is_empty());
    assert!(materialized.patched_events.is_empty());
}

#[test]
fn materialization_breaks_rules() {
    let events: Vec<(Event<Txn>, Option<Arc<u8>>)> =
        vec![(Event { header: Arc::new(1), data: vec![6] }, Some(Arc::new(0)))];
    let txn = CommittedTxn {
        resource_write_set: None,
        delayed_field_keys: None,
        read_set: None,
        events: &events,
    };
    assert!(matches!(
        txn.materialize_txn_commit(&50, &replace),
        Err(InvariantViolation::ReplaceFailed)
    ));
}

struct Listener {
    heard: Mutex<Vec<(TxnIndex, Option<usize>)>>,
}

impl TransactionCommitHook for Listener {
    type Txn = Txn;

    fn on_transaction_committed(&self, txn_idx: TxnIndex, output: &TransactionOutput<Txn>) {
        let writes = output.materialized.as_ref().unwrap().aggregator_v1_delta_writes.len();
        self.heard.lock().unwrap().push((txn_idx, Some(writes)));
    }

    fn on_execution_aborted(&self, txn_idx: TxnIndex) {
        self.heard.lock().unwrap().push((txn_idx, None));
    }
}

fn nothing() -> MaterializedOutput<Txn> {
    MaterializedOutput {
        aggregator_v1_delta_writes: vec![],
        patched_resource_write_set: HashMap::new(),
        patched_events: vec![],
    }
}

fn executed(gas: u64) -> TransactionOutput<Txn> {
    let mut output: TransactionOutput<Txn> = TransactionOutput::skip_output();
    output.skipped = false;
    output.fee_statement = fee(gas, 0);
    output
}

#[test]
fn commits_end_in_any_order() {
    for order in [[0, 1, 2], [2, 0, 1], [1, 2, 0]] {
        let listener = Some(Listener { heard: Mutex::new(vec![]) });
        let mut results: Vec<TransactionOutput<Txn>> =
            (0..4).map(|_| TransactionOutput::skip_output()).collect();
        for i in order {
            let status: ExecutionStatus<Txn, String> = if i == 0 {
                ExecutionStatus::Success(executed(10))
            } else if i == 1 {
                ExecutionStatus::SkipRest(executed(11))
            } else {
                ExecutionStatus::Abort("why".to_string())
            };
            let deltas = vec![(8, WriteOp::modification(Bytes::from_static(&[1])))];
            let output = complete_txn_commit(i, status, nothing(), deltas, &listener);
            assert_eq!(output.is_none(), i == 2);
            store_txn_output(i, output, &mut results);
        }
        assert_eq!(results.len(), 4);
        assert_eq!(results[0].fee_statement.execution_gas_used, 10);
        assert_eq!(results[1].fee_statement.execution_gas_used, 11);
        for result in &results[0..2] {
            let materialized = result.materialized.as_ref().unwrap();
            assert_eq!(materialized.aggregator_v1_delta_writes[0].0, 8);
        }
        assert!(results[2].skipped && results[3].skipped);
        assert!(results[2].materialized.is_none());
        let heard = listener.unwrap().heard.into_inner().unwrap();
        let expected: Vec<(TxnIndex, Option<usize>)> =
            order.iter().map(|i| (*i, if *i == 2 { None } else { Some(1) })).collect();
        assert_eq!(heard, expected);
    }
}

#[test]
fn commit_without_listener_is_stored() {
    let mut results: Vec<TransactionOutput<Txn>> = vec![TransactionOutput::skip_output()];
    let status: ExecutionStatus<Txn, String> = ExecutionStatus::Success(executed(10));
    let listener: Option<Listener> = None;
    let output = complete_txn_commit(0, status, nothing(), vec![], &listener);
    store_txn_output(0, output, &mut results);
    assert!(!results[0].skipped);
}

/// Commits a transaction that wrote `written` under key 1, read identifiers there, and changed the
/// field that they stand for.
fn commit_of_a_read_write(
    written: (Arc<WriteOp>, Option<Arc<u8>>),
) -> HashMap<u64, Arc<WriteOp>> {
    let mut writes: HashMap<u64, (Arc<WriteOp>, Option<Arc<u8>>)> = HashMap::new();
    writes.insert(1, written);
    let mut reads: HashMap<u64, DataRead<Txn>> = HashMap::new();
    reads.insert(1, DataRead::Versioned(None, write(&[5]), Some(Arc::new(1))));
    reads.insert(2, DataRead::Versioned(None, write(&[5]), Some(Arc::new(1))));
    let fields: HashSet<u64> = [5].into_iter().collect();
    let events: Vec<(Event<Txn>, Option<Arc<u8>>)> = vec![];
    let txn = CommittedTxn {
        resource_write_set: Some(&writes),
        delayed_field_keys: Some(&fields),
        read_set: Some(&reads),
        events: &events,
    };
    match txn.materialize_txn_commit(&50, &replace) {
        Ok(materialized) => materialized.patched_resource_write_set,
        Err(violation) => panic!("rule broken: {:?}", violation),
    }
}

#[test]
fn deleted_resource_does_not_come_back() {
    for layout in [None, Some(Arc::new(1))] {
        let deletion =
            Arc::new(WriteOp { kind: WriteOpKind::Deletion, bytes: None, metadata: None });
        let patched = commit_of_a_read_write((deletion, layout));
        assert!(!patched.contains_key(&1));
        assert_eq!(patched[&2].bytes, Some(Bytes::from_static(&[55])));
    }
}

#[test]
fn write_without_layout_is_not_patched_from_its_read() {
    let patched = commit_of_a_read_write((write(&[7]), None));
    assert!(!patched.contains_key(&1));
    assert_eq!(patched.len(), 1);
}

#[test]
fn error_of_the_block_is_that_of_the_transaction() {
    let setup = setup(None, 4);
    let mut state = State::new();
    for (step, event) in [
        (CommitStep::LoadFee(0), CommitEvent::Fee(Some(fee(1, 1)))),
        (CommitStep::LoadError(0), CommitEvent::ExecutionError(None)),
        (CommitStep::HaltAtEnd(0), CommitEvent::Answer(true)),
    ] {
        go(&setup, &mut state, step, event);
        assert!(state.maybe_error.is_none());
    }
}

#[test]
fn round_adds_the_fee_of_each_commit() {
    let setup = setup(None, 4);
    let mut state = State::new();
    let mut step = Step::start();
    for (txn_idx, maybe_fee) in [(0, Some(fee(1, 2))), (1, None), (2, Some(fee(3, 4)))] {
        step = go(&setup, &mut state, step, CommitEvent::Committable(Some(txn_idx)));
        step = go(&setup, &mut state, step, CommitEvent::DelayedReads(Some(true)));
        step = go(&setup, &mut state, step, CommitEvent::Category(None));
        step =
            go(&setup, &mut state, step, CommitEvent::DelayedFields(DelayedCommit::NoChanges));
        step = go(&setup, &mut state, step, CommitEvent::Fee(maybe_fee));
        step = go(&setup, &mut state, step, CommitEvent::ExecutionError(None));
        step = go(&setup, &mut state, step, CommitEvent::Answer(false));
        assert!(matches!(step, CommitStep::Queue { txn_idx: i, stop: false } if i == txn_idx));
        step = go(&setup, &mut state, step, CommitEvent::Made);
    }
    assert_eq!(state.txn_fee_statements, vec![fee(1, 2), fee(3, 4)]);
    assert_eq!(
        state.accumulated_fee_statement,
        FeeStatement { execution_gas_used: 4, io_gas_used: 6, storage_gas_used: 2000 }
    );
}
