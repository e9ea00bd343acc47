use block_executor::errors::DelayedFieldFailure;
use block_executor::errors::Error;
use block_executor::errors::ErrorCategory;
use block_executor::errors::InvariantViolation;
use block_executor::errors::TransactionError;
use block_executor::executor::BlockExecutor;
use block_executor::executor::ConcurrencyLevelError;
use block_executor::fee_statement::FeeStatement;
use block_executor::parallel::commit::CommitEvent;
use block_executor::parallel::commit::CommitSetup;
use block_executor::parallel::commit::CommitState;
use block_executor::parallel::commit::CommitStep;
use block_executor::patching::Replaced;
use block_executor::sequential::run_sequential;
use block_executor::task::ExecutionStatus;
use block_executor::task::ExecutorTask;
use block_executor::task::TransactionOutput;
use block_executor::txn_commit_hook::TransactionCommitHook;
use block_executor::types::ApplyBase;
use block_executor::types::DelayedChange;
use block_executor::types::Event;
use block_executor::types::Transaction;
use block_executor::types::TxnIndex;
use block_executor::types::WriteOp;
use block_executor::types::WriteOpKind;
use block_executor::unsync_map::LatestView;
use block_executor::unsync_map::SequentialState;
use bytes::Bytes;
use rayon::ThreadPool;
use rayon::ThreadPoolBuilder;
use std::sync::Arc;
use std::sync::Mutex;

/// What a transaction does.
#[derive(Clone)]
enum Action {
    /// Write bytes under a key.
    Write(u64, Vec<u8>),
    /// Write identifiers under a key.
    WriteIds(u64, Vec<u8>),
    /// Read a key, and write what is there, and one more byte, under another.
    Copy(u64, u64),
    Read(u64),
    /// Delete what holds identifiers under a key.
    Delete(u64),
    /// Create a field with a value.
    Create(u64, i64),
    /// Add to a field.
    Add(u64, i64),
    /// Emit identifiers.
    Emit(Vec<u8>),
    /// Emit bytes without identifiers.
    EmitPlain(Vec<u8>),
    LeaveDelta(u64),
}

#[derive(Clone)]
enum End {
    Success,
    SkipRest,
    Abort(ErrorCategory),
}

#[derive(Clone)]
struct Program {
    fee: FeeStatement,
    actions: Vec<Action>,
    end: End,
}

impl Transaction for Program {
    type Layout = u8;
    type DeltaOp = u8;
    type ApplyEntry = i64;
    type FieldValue = i64;
    type EventHeader = u8;
}

fn program(execution: u64, io: u64, actions: Vec<Action>) -> Program {
    Program {
        fee: FeeStatement { execution_gas_used: execution, io_gas_used: io, storage_gas_used: 50 },
        actions,
        end: End::Success,
    }
}

fn ending(mut program: Program, end: End) -> Program {
    program.end = end;
    program
}

fn value(bytes: Vec<u8>) -> Arc<WriteOp> {
    Arc::new(WriteOp {
        kind: WriteOpKind::Modification,
        bytes: Some(Bytes::from(bytes)),
        metadata: None,
    })
}

/// A machine that remembers what it was asked to do.
struct Machine {
    label: u32,
}

impl ExecutorTask for Machine {
    type Txn = Program;
    type View = Vec<u8>;
    type Argument = u32;
    type Error = String;

    fn init(argument: u32) -> Self {
        Machine { label: argument }
    }

    fn execute_transaction(
        &self,
        base_view: &Vec<u8>,
        state: &mut SequentialState<Program>,
        txn: &Program,
        txn_idx: TxnIndex,
        materialize_deltas: bool,
    ) -> ExecutionStatus<Program, TransactionError<String>> {
        assert!(materialize_deltas);
        assert!(state.read_set.is_empty());
        let mut output: TransactionOutput<Program> = TransactionOutput::skip_output();
        output.skipped = false;
        output.fee_statement = txn.fee;
        for action in &txn.actions {
            match action {
                Action::Write(key, bytes) => {
                    output.resource_write_set.insert(*key, (value(bytes.clone()), None));
                }
                Action::WriteIds(key, ids) => {
                    output
                        .resource_write_set
                        .insert(*key, (value(ids.clone()), Some(Arc::new(1))));
                }
                Action::Copy(from, to) => {
                    let mut bytes = match state.unsync_map.fetch_data(from) {
                        Some((write, _)) => write.bytes.as_ref().unwrap().to_vec(),
                        None => base_view.clone(),
                    };
                    state.read_set.insert(*from);
                    bytes.push(txn_idx as u8);
                    output.resource_write_set.insert(*to, (value(bytes), None));
                }
                Action::Read(key) => {
                    state.read_set.insert(*key);
                }
                Action::Delete(key) => {
                    let deletion =
                        WriteOp { kind: WriteOpKind::Deletion, bytes: None, metadata: None };
                    output
                        .resource_write_set
                        .insert(*key, (Arc::new(deletion), Some(Arc::new(1))));
                }
                Action::Create(id, start) => {
                    state.counter += 1;
                    output
                        .delayed_field_change_set
                        .insert(*id, DelayedChange::Create(Arc::new(*start)));
                }
                Action::Add(id, amount) => {
                    output.delayed_field_change_set.insert(
                        *id,
                        DelayedChange::Apply(Arc::new(*amount), ApplyBase::Previous(*id)),
                    );
                }
                Action::Emit(ids) => {
                    output.events.push((
                        Event { header: Arc::new(txn_idx as u8), data: ids.clone() },
                        Some(Arc::new(1)),
                    ));
                }
                Action::EmitPlain(data) => {
                    output.events.push((
                        Event { header: Arc::new(txn_idx as u8), data: data.clone() },
                        None,
                    ));
                }
                Action::LeaveDelta(key) => {
                    output.aggregator_v1_delta_set.insert(*key, Arc::new(1));
                }
            }
        }
        match txn.end {
            End::Success => ExecutionStatus::Success(output),
            End::SkipRest => ExecutionStatus::SkipRest(output),
            End::Abort(category) => ExecutionStatus::Abort(TransactionError {
                category,
                error: format!("machine {} gave up at {}", self.label, txn_idx),
            }),
        }
    }
}

/// A listener that writes down what it is told.
struct Listener {
    heard: Mutex<Vec<String>>,
}

impl Listener {
    fn new() -> Self {
        Listener { heard: Mutex::new(vec![]) }
    }
}

impl TransactionCommitHook for Listener {
    type Txn = Program;

    fn on_transaction_committed(&self, txn_idx: TxnIndex, output: &TransactionOutput<Program>) {
        self.heard.lock().unwrap().push(format!(
            "committed {} {}",
            txn_idx,
            output.materialized.is_some()
        ));
    }

    fn on_execution_aborted(&self, txn_idx: TxnIndex) {
        self.heard.lock().unwrap().push(format!("aborted {}", txn_idx));
    }
}

/// Every byte is the identifier of a field, and is replaced by the value of the field.
fn replace(view: &LatestView<'_, Program, Vec<u8>>, bytes: &Bytes, _layout: &u8) -> Replaced {
    let mut patched: Vec<u8> = vec![];
    for id in bytes.iter() {
        match view.state.unsync_map.fetch_delayed_field(&(*id as u64)) {
            Some(value) => patched.push(*value as u8),
            None => return Err(DelayedFieldFailure),
        }
    }
    Ok((Bytes::from(patched), bytes.iter().map(|id| *id as u64).collect()))
}

fn apply(entry: &i64, base: &i64) -> Result<i64, DelayedFieldFailure> {
    if base + entry < 0 {
        Err(DelayedFieldFailure)
    } else {
        Ok(base + entry)
    }
}

fn run(
    block: &[Program],
    limit: Option<u64>,
    listener: &Option<Listener>,
) -> Result<Vec<TransactionOutput<Program>>, Error<String>> {
    let machine = Machine { label: 7 };
    run_sequential(&machine, block, &vec![9], limit, listener, &replace, &apply)
}

fn written(output: &TransactionOutput<Program>, key: u64) -> Vec<u8> {
    output.resource_write_set[&key].0.bytes.as_ref().unwrap().to_vec()
}

fn patched(output: &TransactionOutput<Program>, key: u64) -> Option<Vec<u8>> {
    output
        .materialized
        .as_ref()
        .unwrap()
        .patched_resource_write_set
        .get(&key)
        .map(|write| write.bytes.as_ref().unwrap().to_vec())
}

fn committed(outputs: &[TransactionOutput<Program>]) -> usize {
    outputs.iter().filter(|output| !output.skipped).count()
}

fn pool() -> Arc<ThreadPool> {
    Arc::new(ThreadPoolBuilder::new().num_threads(1).build().unwrap())
}

type Executor = BlockExecutor<Program, Machine, Vec<u8>, Listener>;

fn executor(level: usize, limit: Option<u64>) -> Executor {
    match Executor::with_num_cpus(level, 4, pool(), limit, Some(Listener::new())) {
        Ok(executor) => executor,
        Err(_) => panic!("the level is within the number of processors"),
    }
}

type Reply = (Vec<TransactionOutput<Program>>, Option<Error<String>>);

fn never(_: usize, _: u32, _: &[Program], _: &Vec<u8>, _: Vec<TransactionOutput<Program>>) -> Reply {
    panic!("no workers are needed")
}

fn no_logs(_: usize) {
    panic!("the logs are kept")
}

#[test]
fn transactions_see_the_writes_of_those_before() {
    let block = vec![
        program(1, 1, vec![Action::Copy(1, 1)]),
        program(1, 1, vec![Action::Copy(1, 2)]),
        program(1, 1, vec![Action::Copy(2, 3), Action::Copy(5, 4)]),
    ];
    let outputs = run(&block, None, &None).unwrap();
    assert_eq!(written(&outputs[0], 1), vec![9, 0]);
    assert_eq!(written(&outputs[1], 2), vec![9, 0, 1]);
    assert_eq!(written(&outputs[2], 3), vec![9, 0, 1, 2]);
    assert_eq!(written(&outputs[2], 4), vec![9, 2]);
}

#[test]
fn without_limit_every_transaction_is_committed() {
    let block: Vec<Program> = (0..5).map(|_| program(1000, 1000, vec![])).collect();
    let outputs = run(&block, None, &None).unwrap();
    assert_eq!(outputs.len(), 5);
    assert_eq!(committed(&outputs), 5);
}

#[test]
fn gas_limit_stops_the_block() {
    let block: Vec<Program> = (0..5).map(|_| program(3, 1, vec![])).collect();
    // The third transaction brings the gas used to 12.
    for limit in 9..13 {
        let outputs = run(&block, Some(limit), &None).unwrap();
        assert_eq!(outputs.len(), 5);
        assert_eq!(committed(&outputs), 3);
        assert!(outputs[3].skipped && outputs[4].skipped);
    }
    assert_eq!(committed(&run(&block, Some(8), &None).unwrap()), 2);
    assert_eq!(committed(&run(&block, Some(13), &None).unwrap()), 4);
    assert_eq!(committed(&run(&block, Some(21), &None).unwrap()), 5);
}

#[test]
fn first_transaction_is_committed_even_with_no_gas() {
    let block: Vec<Program> = (0..3).map(|_| program(3, 1, vec![])).collect();
    let outputs = run(&block, Some(0), &None).unwrap();
    assert_eq!(committed(&outputs), 1);
    assert!(!outputs[0].skipped);
}

#[test]
fn skip_rest_stops_the_block() {
    let block = vec![
        program(1, 1, vec![]),
        ending(program(1, 1, vec![Action::Write(1, vec![5])]), End::SkipRest),
        program(1, 1, vec![]),
    ];
    let outputs = run(&block, None, &None).unwrap();
    assert_eq!(committed(&outputs), 2);
    assert_eq!(written(&outputs[1], 1), vec![5]);
    let skipped = &outputs[2];
    assert!(skipped.skipped);
    assert!(skipped.materialized.is_none());
    assert!(skipped.resource_write_set.is_empty());
    assert_eq!(skipped.fee_statement, FeeStatement::zero());
}

#[test]
fn empty_block_has_no_outputs() {
    assert_eq!(run(&[], Some(0), &None).unwrap().len(), 0);
}

#[test]
fn abort_ends_the_block_with_its_error() {
    let block = vec![
        program(1, 1, vec![]),
        ending(program(1, 1, vec![]), End::Abort(ErrorCategory::ValidError)),
        program(1, 1, vec![]),
    ];
    let listener = Some(Listener::new());
    match run(&block, None, &listener) {
        Err(Error::UserError(err)) => {
            assert_eq!(err.error, "machine 7 gave up at 1");
            assert_eq!(err.category, ErrorCategory::ValidError);
        }
        _ => panic!("the abort was expected"),
    }
    assert_eq!(
        *listener.unwrap().heard.lock().unwrap(),
        vec!["committed 0 true".to_string(), "aborted 1".to_string()]
    );
}

#[test]
fn speculative_errors_break_a_rule() {
    for category in [ErrorCategory::CodeInvariantError, ErrorCategory::SpeculativeExecutionError] {
        let block = vec![ending(program(1, 1, vec![]), End::Abort(category))];
        let listener = Some(Listener::new());
        assert!(matches!(
            run(&block, None, &listener),
            Err(Error::Invariant(InvariantViolation::DelayedFieldsError))
        ));
        assert!(listener.unwrap().heard.lock().unwrap().is_empty());
    }
}

#[test]
fn listener_hears_of_every_commit() {
    let block: Vec<Program> = (0..3).map(|_| program(3, 1, vec![])).collect();
    let listener = Some(Listener::new());
    run(&block, Some(5), &listener).unwrap();
    assert_eq!(
        *listener.unwrap().heard.lock().unwrap(),
        vec!["committed 0 true".to_string(), "committed 1 true".to_string()]
    );
}

#[test]
fn leftover_deltas_break_a_rule() {
    let block = vec![program(1, 1, vec![Action::LeaveDelta(4)])];
    assert!(matches!(
        run(&block, None, &None),
        Err(Error::Invariant(InvariantViolation::DeltasNotMaterialized))
    ));
}

#[test]
fn gas_that_does_not_fit_breaks_a_rule() {
    let block = vec![program(u64::MAX, 0, vec![]), program(1, 0, vec![])];
    assert!(matches!(
        run(&block, None, &None),
        Err(Error::Invariant(InvariantViolation::FeeOverflow))
    ));
}

#[test]
fn duplicate_field_breaks_a_rule() {
    let block =
        vec![program(1, 1, vec![Action::Create(1, 5)]), program(1, 1, vec![Action::Create(1, 5)])];
    assert!(matches!(
        run(&block, None, &None),
        Err(Error::Invariant(InvariantViolation::DuplicateDelayedField))
    ));
}

#[test]
fn unknown_identifier_breaks_a_rule() {
    let block = vec![program(1, 1, vec![Action::WriteIds(1, vec![3])])];
    assert!(matches!(
        run(&block, None, &None),
        Err(Error::Invariant(InvariantViolation::ReplaceFailed))
    ));
}

#[test]
fn identifiers_are_replaced_by_the_values_after_the_transaction() {
    let block = vec![
        program(1, 1, vec![Action::Create(1, 5), Action::WriteIds(10, vec![1])]),
        // Changes the field, and reads the value that holds it.
        program(1, 1, vec![Action::Add(1, 7), Action::Read(10), Action::Emit(vec![1, 1])]),
        // Reads the value, and leaves the field alone.
        program(1, 1, vec![Action::Read(10), Action::EmitPlain(vec![1])]),
        // Changes the field, and does not read the value.
        program(1, 1, vec![Action::Add(1, 1)]),
    ];
    let outputs = run(&block, None, &None).unwrap();
    assert_eq!(patched(&outputs[0], 10), Some(vec![5]));
    assert_eq!(written(&outputs[0], 10), vec![1]);
    assert_eq!(patched(&outputs[1], 10), Some(vec![12]));
    let events = &outputs[1].materialized.as_ref().unwrap().patched_events;
    assert_eq!(events.len(), 1);
    assert_eq!(*events[0].header, 1);
    assert_eq!(events[0].data, vec![12, 12]);
    assert_eq!(patched(&outputs[2], 10), None);
    let events = &outputs[2].materialized.as_ref().unwrap().patched_events;
    assert_eq!(events[0].data, vec![1]);
    assert_eq!(patched(&outputs[3], 10), None);
    for output in &outputs {
        assert!(output.materialized.as_ref().unwrap().aggregator_v1_delta_writes.is_empty());
    }
}

#[test]
fn two_runs_of_a_block_agree() {
    let mut actions: Vec<Action> = vec![];
    for id in 1..20 {
        actions.push(Action::Create(id, id as i64));
        actions.push(Action::WriteIds(100 + id, vec![id as u8]));
    }
    let mut later: Vec<Action> = vec![];
    for id in 1..20 {
        later.push(Action::Add(id, 100));
        later.push(Action::Read(100 + id));
        later.push(Action::Emit(vec![id as u8]));
    }
    let block = vec![program(1, 1, actions), program(1, 1, later), program(1, 1, vec![])];
    let first = run(&block, Some(4), &None).unwrap();
    let second = run(&block, Some(4), &None).unwrap();
    assert_eq!(first.len(), second.len());
    for i in 0..2 {
        for key in 101..120 {
            assert!(patched(&first[i], key).is_some());
            assert_eq!(patched(&first[i], key), patched(&second[i], key));
        }
        let events = &first[i].materialized.as_ref().unwrap().patched_events;
        let others = &second[i].materialized.as_ref().unwrap().patched_events;
        assert_eq!(events.len(), others.len());
        for n in 0..events.len() {
            assert_eq!(events[n].data, others[n].data);
        }
    }
    assert!(first[2].skipped && second[2].skipped);
}

#[test]
fn level_must_be_between_one_and_the_processors() {
    for level in 1..5 {
        let made = Executor::with_num_cpus(level, 4, pool(), Some(8), None);
        match made {
            Ok(executor) => {
                assert_eq!(executor.concurrency_level(), level);
                assert_eq!(executor.maybe_block_gas_limit(), Some(8));
                assert!(executor.transaction_commit_hook().is_none());
            }
            Err(_) => panic!("the level is within the number of processors"),
        }
    }
    for level in [0, 5, usize::MAX] {
        match Executor::with_num_cpus(level, 4, pool(), None, None) {
            Ok(_) => panic!("the level is not within the number of processors"),
            Err(error) => assert_eq!(
                error,
                ConcurrencyLevelError { concurrency_level: level, num_cpus: 4 }
            ),
        }
    }
}

#[test]
fn new_executor_goes_by_the_processors_of_the_machine() {
    let cpus = num_cpus::get();
    let threads = pool();
    match Executor::new(cpus, Arc::clone(&threads), None, Some(Listener::new())) {
        Ok(executor) => {
            assert_eq!(executor.concurrency_level(), cpus);
            assert!(Arc::ptr_eq(executor.executor_thread_pool(), &threads));
            assert!(executor.transaction_commit_hook().is_some());
            assert_eq!(executor.maybe_block_gas_limit(), None);
        }
        Err(_) => panic!("the level is within the number of processors"),
    }
    assert!(Executor::new(1, pool(), None, None).is_ok());
    for level in [0, cpus + 1] {
        match Executor::new(level, pool(), None, None) {
            Ok(_) => panic!("the level is not within the number of processors"),
            Err(error) => {
                assert_eq!(error, ConcurrencyLevelError { concurrency_level: level, num_cpus: cpus })
            }
        }
    }
}

#[test]
fn one_worker_runs_sequentially() {
    let block: Vec<Program> = (0..3).map(|_| program(3, 1, vec![Action::Copy(1, 1)])).collect();
    let executor = executor(1, Some(5));
    let outputs =
        executor.execute_block(7, &block, &vec![9], &replace, &apply, never, no_logs).unwrap();
    assert_eq!(outputs.len(), 3);
    assert_eq!(committed(&outputs), 2);
    assert_eq!(written(&outputs[1], 1), vec![9, 0, 1]);
    let outputs = executor
        .execute_transactions_sequential(7, &block, &vec![9], &replace, &apply)
        .unwrap();
    assert_eq!(committed(&outputs), 2);
}

#[test]
fn several_workers_run_in_parallel() {
    let block: Vec<Program> = (0..3).map(|_| program(3, 1, vec![])).collect();
    let executor = executor(2, None);
    let workers = |level: usize,
                   argument: u32,
                   block: &[Program],
                   base: &Vec<u8>,
                   mut results: Vec<TransactionOutput<Program>>|
     -> Reply {
        assert_eq!(level, 2);
        assert_eq!(argument, 7);
        assert_eq!(block.len(), 3);
        assert_eq!(base, &vec![9]);
        assert_eq!(results.len(), 3);
        assert!(results.iter().all(|output| output.skipped));
        results[0].skipped = false;
        (results, None)
    };
    let outputs =
        executor.execute_block(7, &block, &vec![9], &replace, &apply, workers, no_logs).unwrap();
    assert_eq!(outputs.len(), 3);
    assert!(!outputs[0].skipped && outputs[1].skipped && outputs[2].skipped);
    let outputs =
        executor.execute_transactions_parallel(7, &block, &vec![9], workers).unwrap();
    assert_eq!(committed(&outputs), 1);
}

#[test]
fn empty_block_needs_no_workers() {
    let executor = executor(2, None);
    let outputs = executor.execute_block(7, &[], &vec![9], &replace, &apply, never, no_logs).unwrap();
    assert!(outputs.is_empty());
}

#[test]
fn error_of_the_workers_is_the_error_of_the_block() {
    let block = vec![program(1, 1, vec![])];
    let executor = executor(2, None);
    let workers = |_: usize,
                   _: u32,
                   _: &[Program],
                   _: &Vec<u8>,
                   results: Vec<TransactionOutput<Program>>|
     -> Reply {
        let error = TransactionError {
            category: ErrorCategory::ValidError,
            error: "stop".to_string(),
        };
        (results, Some(Error::UserError(error)))
    };
    match executor.execute_block(7, &block, &vec![9], &replace, &apply, workers, no_logs) {
        Err(Error::UserError(err)) => assert_eq!(err.error, "stop"),
        _ => panic!("the error of the workers was expected"),
    }
}

#[test]
fn module_conflict_falls_back_to_a_sequential_run() {
    let block: Vec<Program> = (0..2).map(|_| program(3, 1, vec![Action::Copy(1, 1)])).collect();
    let executor = executor(2, None);
    let workers = |_: usize,
                   _: u32,
                   _: &[Program],
                   _: &Vec<u8>,
                   results: Vec<TransactionOutput<Program>>|
     -> Reply { (results, Some(Error::ModulePathReadWrite)) };
    let logs: Mutex<Vec<usize>> = Mutex::new(vec![]);
    let init_logs = |num_txns: usize| logs.lock().unwrap().push(num_txns);
    let outputs =
        executor.execute_block(7, &block, &vec![9], &replace, &apply, workers, init_logs).unwrap();
    assert_eq!(*logs.lock().unwrap(), vec![2]);
    assert_eq!(committed(&outputs), 2);
    assert_eq!(written(&outputs[1], 1), vec![9, 0, 1]);
    assert!(matches!(
        executor.execute_transactions_parallel(7, &block, &vec![9], workers),
        Err(Error::ModulePathReadWrite)
    ));
}

#[test]
fn parallel_commits_halt_where_a_sequential_run_does() {
    let block: Vec<Program> = (0..6).map(|i| program(i, 2, vec![])).collect();
    for limit in 0..40 {
        let sequential = committed(&run(&block, Some(limit), &None).unwrap());
        let setup = CommitSetup {
            maybe_block_gas_limit: Some(limit),
            num_txns: 6,
            has_execution_task: false,
        };
        let mut state: CommitState<String> = CommitState::new();
        let mut parallel = 0;
        for i in 0..6 {
            let step = CommitStep::LoadFee(i as TxnIndex).next(
                &setup,
                &mut state,
                CommitEvent::Fee(Some(block[i].fee)),
            );
            parallel = i + 1;
            match step {
                Ok(CommitStep::UpdateToSkipRest(_)) => break,
                Ok(CommitStep::LoadError(_)) => {}
                _ => panic!("the fee was expected to be counted"),
            }
        }
        assert_eq!(parallel, sequential);
    }
}

#[test]
fn resource_that_was_written_is_not_patched_from_its_read() {
    let first = program(1, 1, vec![Action::Create(1, 5), Action::WriteIds(10, vec![1])]);
    for write in [Action::Delete(10), Action::Write(10, vec![99])] {
        let second = program(1, 1, vec![Action::Read(10), Action::Add(1, 7), write]);
        let outputs = run(&[first.clone(), second], None, &None).unwrap();
        assert_eq!(committed(&outputs), 2);
        assert_eq!(patched(&outputs[1], 10), None);
        assert!(outputs[1].resource_write_set.contains_key(&10));
    }
    let second = program(1, 1, vec![Action::Read(10), Action::Add(1, 7)]);
    let outputs = run(&[first, second], None, &None).unwrap();
    assert_eq!(patched(&outputs[1], 10), Some(vec![12]));
}

/// A block in which every transaction uses two units of gas and copies what the one before wrote.
fn copies() -> Vec<Program> {
    (0..6).map(|_| program(1, 1, vec![Action::Copy(1, 1)])).collect()
}

fn same(a: &TransactionOutput<Program>, b: &TransactionOutput<Program>) -> bool {
    if a.skipped || b.skipped {
        return a.skipped == b.skipped;
    }
    written(a, 1) == written(b, 1) && a.fee_statement == b.fee_statement
}

#[test]
fn prefix_of_a_block_has_the_first_outputs() {
    let block = copies();
    for limit in [None, Some(7)] {
        let whole = run(&block, limit, &None).unwrap();
        for m in 0..7 {
            let part = run(&block[0..m], limit, &None).unwrap();
            assert_eq!(part.len(), m);
            for i in 0..m {
                assert!(same(&part[i], &whole[i]));
            }
        }
    }
}

#[test]
fn lower_limit_only_shortens_the_run() {
    let block = copies();
    let whole = run(&block, None, &None).unwrap();
    let mut before = 0;
    for limit in 0..14 {
        let part = run(&block, Some(limit), &None).unwrap();
        let k = committed(&part);
        assert!(k >= before);
        before = k;
        for i in 0..6 {
            if i < k {
                assert!(same(&part[i], &whole[i]));
            } else {
                assert!(part[i].skipped);
            }
        }
    }
    assert_eq!(before, 6);
}

#[test]
fn two_runs_of_a_block_fail_alike() {
    let mut block = copies();
    block[3].end = End::Abort(ErrorCategory::ValidError);
    for _ in 0..5 {
        match run(&block, None, &None) {
            Err(Error::UserError(err)) => assert_eq!(err.error, "machine 7 gave up at 3"),
            _ => panic!("the abort was expected"),
        }
    }
    // Two changes break rules, and one of them is reported.
    let mut block = copies();
    block[2].actions = vec![Action::Add(5, 1), Action::Create(6, 1)];
    block[1].actions = vec![Action::Create(6, 1)];
    for _ in 0..5 {
        assert!(matches!(
            run(&block, None, &None),
            Err(Error::Invariant(
                InvariantViolation::MissingDelayedField
                    | InvariantViolation::DuplicateDelayedField
            ))
        ));
    }
}
