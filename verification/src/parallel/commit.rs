//! Putting the transactions that can be committed in the commit queue.
use crate::errors::Error;
use crate::errors::ErrorCategory;
use crate::errors::InvariantViolation;
use crate::fee_statement::fees_fit;
use crate::fee_statement::gas_limit_reached;
use crate::fee_statement::FeeStatement;
use crate::sequential::trace_fees;
use crate::sequential::SequentialStep;
use crate::types::Transaction;
use crate::types::TxnIndex;
use vstd::prelude::*;

verus! {

/// What the workers share about the transactions that have been committed.
pub struct CommitState<D> {
    /// The gas that they have used.
    pub accumulated_fee_statement: FeeStatement,
    /// The gas that each of them has used, but for those that aborted.
    pub txn_fee_statements: Vec<FeeStatement>,
    /// The error of the block.
    pub maybe_error: Option<Error<D>>,
}

impl<D> CommitState<D> {
    /// The gas that is accumulated is that of the transactions.
    pub open spec fn wf(&self) -> bool {
        self.accumulated_fee_statement.sums(self.txn_fee_statements@)
    }

    /// No transaction has been committed.
    pub fn new() -> (r: CommitState<D>)
        ensures
            r.wf(),
            r.txn_fee_statements@.len() == 0,
            r.maybe_error is None,
    {
        let txn_fee_statements: Vec<FeeStatement> = Vec::new();
        assert(txn_fee_statements@ =~= Seq::empty());
        CommitState {
            accumulated_fee_statement: FeeStatement::zero(),
            txn_fee_statements,
            maybe_error: None,
        }
    }
}

/// What is known of the block when transactions are committed.
#[derive(Clone, Copy, Debug, PartialEq, Eq, Structural)]
pub struct CommitSetup {
    pub maybe_block_gas_limit: Option<u64>,
    pub num_txns: u32,
    /// The worker has a transaction to execute.
    pub has_execution_task: bool,
}

/// How the changes of a transaction to delayed fields were committed.
#[derive(Clone, Copy, Debug, PartialEq, Eq, Structural)]
pub enum DelayedCommit {
    /// The transaction changed none.
    NoChanges,
    Committed,
    /// The transaction has to be executed again.
    ReExecutionNeeded,
    /// The store of delayed fields reports that the code is wrong.
    CodeInvariantError,
}

/// What is to be done next about the transactions that can be committed.
pub enum CommitStep<D> {
    /// Ask for the next transaction that can be committed.
    TryCommit,
    /// Compare the delayed fields that the transaction read with what they are now.
    ValidateDelayedReads(TxnIndex),
    /// Look up whether the transaction failed, and how.
    LoadCategory { txn_idx: TxnIndex, valid: bool },
    /// Commit the changes of the transaction to delayed fields.
    CommitDelayedFields(TxnIndex),
    /// Look up what the transaction used.
    LoadFee(TxnIndex),
    /// Change the status of the transaction so that the rest of the block is skipped.
    UpdateToSkipRest(TxnIndex),
    /// Look up whether the transaction aborts the block.
    LoadError(TxnIndex),
    /// Halt the block because of an error.
    HaltWithError { txn_idx: TxnIndex, error: Error<D> },
    /// Ask whether the rest of the block is to be skipped.
    AskSkipsRest(TxnIndex),
    /// Halt the block because it ends here.
    HaltAtEnd(TxnIndex),
    /// Put the transaction in the commit queue. It is the last one if `stop`.
    Queue { txn_idx: TxnIndex, stop: bool },
    /// No more transactions can be committed.
    Done,
}

/// What came of a step of committing transactions.
pub enum CommitEvent<D> {
    Committable(Option<TxnIndex>),
    /// Whether the reads were valid; nothing, if none were recorded.
    DelayedReads(Option<bool>),
    Category(Option<ErrorCategory>),
    DelayedFields(DelayedCommit),
    Fee(Option<FeeStatement>),
    ExecutionError(Option<Error<D>>),
    /// The answer to a question, or whether the block was not halted before.
    Answer(bool),
    /// The step was made.
    Made,
}

impl<D> CommitStep<D> {
    /// The transaction that is being committed.
    pub open spec fn txn(self) -> Option<TxnIndex> {
        match self {
            CommitStep::TryCommit => None,
            CommitStep::ValidateDelayedReads(txn_idx) => Some(txn_idx),
            CommitStep::LoadCategory { txn_idx, valid: _ } => Some(txn_idx),
            CommitStep::CommitDelayedFields(txn_idx) => Some(txn_idx),
            CommitStep::LoadFee(txn_idx) => Some(txn_idx),
            CommitStep::UpdateToSkipRest(txn_idx) => Some(txn_idx),
            CommitStep::LoadError(txn_idx) => Some(txn_idx),
            CommitStep::HaltWithError { txn_idx, error: _ } => Some(txn_idx),
            CommitStep::AskSkipsRest(txn_idx) => Some(txn_idx),
            CommitStep::HaltAtEnd(txn_idx) => Some(txn_idx),
            CommitStep::Queue { txn_idx, stop: _ } => Some(txn_idx),
            CommitStep::Done => None,
        }
    }

    /// The transaction that is being committed is one of the block.
    pub open spec fn wf(self, setup: CommitSetup) -> bool {
        self.txn() matches Some(txn_idx) ==> txn_idx < setup.num_txns
    }

    /// `event` is of the kind that this step comes to.
    pub open spec fn expects(self, setup: CommitSetup, event: CommitEvent<D>) -> bool {
        match self {
            CommitStep::TryCommit => event matches CommitEvent::Committable(next) && (
            next matches Some(txn_idx) ==> txn_idx < setup.num_txns),
            CommitStep::ValidateDelayedReads(_) => event is DelayedReads,
            CommitStep::LoadCategory { txn_idx: _, valid: _ } => event is Category,
            CommitStep::CommitDelayedFields(_) => event is DelayedFields,
            CommitStep::LoadFee(_) => event is Fee,
            CommitStep::UpdateToSkipRest(_) => event is Made,
            CommitStep::LoadError(_) => event is ExecutionError,
            CommitStep::HaltWithError { txn_idx: _, error: _ } => event is Answer,
            CommitStep::AskSkipsRest(_) => event is Answer,
            CommitStep::HaltAtEnd(_) => event is Answer,
            CommitStep::Queue { txn_idx: _, stop: _ } => event is Made,
            CommitStep::Done => false,
        }
    }

    /// What the committed transactions have used after this step, if it comes to `event`.
    pub open spec fn fees_after(
        self,
        fees: Seq<FeeStatement>,
        event: CommitEvent<D>,
    ) -> Seq<FeeStatement> {
        match (self, event) {
            (CommitStep::LoadFee(_), CommitEvent::Fee(Some(fee))) => fees.push(fee),
            _ => fees,
        }
    }

    /// The error of the block after this step, if it comes to `event`.
    pub open spec fn error_after(
        self,
        maybe_error: Option<Error<D>>,
        event: CommitEvent<D>,
    ) -> Option<Error<D>> {
        match (self, event) {
            (
                CommitStep::HaltWithError { txn_idx: _, error },
                CommitEvent::Answer(true),
            ) => Some(error),
            _ => maybe_error,
        }
    }

    /// This step breaks a rule when it comes to `event`, and `violation` is that rule.
    pub open spec fn violation(
        self,
        setup: CommitSetup,
        fees: Seq<FeeStatement>,
        event: CommitEvent<D>,
    ) -> Option<InvariantViolation> {
        match (self, event) {
            (CommitStep::ValidateDelayedReads(_), CommitEvent::DelayedReads(None)) => Some(
                InvariantViolation::ReadSetNotRecorded,
            ),
            (
                CommitStep::LoadCategory { txn_idx: _, valid },
                CommitEvent::Category(category),
            ) => if category == Some(ErrorCategory::CodeInvariantError) {
                Some(InvariantViolation::CodeInvariantError)
            } else if !valid {
                Some(InvariantViolation::ReExecutionNeeded)
            } else if category == Some(ErrorCategory::SpeculativeExecutionError) {
                Some(InvariantViolation::SpeculativeErrorStillValid)
            } else {
                None
            },
            (
                CommitStep::CommitDelayedFields(_),
                CommitEvent::DelayedFields(DelayedCommit::ReExecutionNeeded),
            ) => Some(InvariantViolation::ReExecutionNeeded),
            (
                CommitStep::CommitDelayedFields(_),
                CommitEvent::DelayedFields(DelayedCommit::CodeInvariantError),
            ) => Some(InvariantViolation::CodeInvariantError),
            (CommitStep::LoadFee(_), CommitEvent::Fee(Some(fee))) => if fees_fit(fees.push(fee)) {
                None
            } else {
                Some(InvariantViolation::FeeOverflow)
            },
            (CommitStep::LoadError(txn_idx), CommitEvent::ExecutionError(None)) => if txn_idx + 1
                == setup.num_txns && setup.has_execution_task {
                Some(InvariantViolation::ExecutionTaskAfterLastCommit)
            } else {
                None
            },
            _ => None,
        }
    }

    /// The step after this one, when it has come to `event` and the committed transactions have
    /// used `fees` since.
    pub open spec fn after(
        self,
        setup: CommitSetup,
        fees: Seq<FeeStatement>,
        event: CommitEvent<D>,
    ) -> CommitStep<D> {
        match self {
            CommitStep::TryCommit => match event->Committable_0 {
                Some(txn_idx) => CommitStep::ValidateDelayedReads(txn_idx),
                None => CommitStep::Done,
            },
            CommitStep::ValidateDelayedReads(txn_idx) => CommitStep::LoadCategory {
                txn_idx,
                valid: event->DelayedReads_0->0,
            },
            CommitStep::LoadCategory { txn_idx, valid: _ } => CommitStep::CommitDelayedFields(
                txn_idx,
            ),
            CommitStep::CommitDelayedFields(txn_idx) => CommitStep::LoadFee(txn_idx),
            CommitStep::LoadFee(txn_idx) => if event->Fee_0 is Some && gas_limit_reached(
                fees,
                setup.maybe_block_gas_limit,
            ) {
                CommitStep::UpdateToSkipRest(txn_idx)
            } else {
                CommitStep::LoadError(txn_idx)
            },
            CommitStep::UpdateToSkipRest(txn_idx) => CommitStep::LoadError(txn_idx),
            CommitStep::LoadError(txn_idx) => match event->ExecutionError_0 {
                Some(error) => CommitStep::HaltWithError { txn_idx, error },
                None => if txn_idx + 1 == setup.num_txns {
                    CommitStep::HaltAtEnd(txn_idx)
                } else {
                    CommitStep::AskSkipsRest(txn_idx)
                },
            },
            CommitStep::HaltWithError { txn_idx, error: _ } => CommitStep::Queue {
                txn_idx,
                stop: true,
            },
            CommitStep::AskSkipsRest(txn_idx) => if event->Answer_0 {
                CommitStep::HaltAtEnd(txn_idx)
            } else {
                CommitStep::Queue { txn_idx, stop: false }
            },
            CommitStep::HaltAtEnd(txn_idx) => CommitStep::Queue { txn_idx, stop: true },
            CommitStep::Queue { txn_idx: _, stop } => if stop {
                CommitStep::Done
            } else {
                CommitStep::TryCommit
            },
            CommitStep::Done => CommitStep::Done,
        }
    }

    /// The first step of committing transactions.
    pub fn start() -> (r: CommitStep<D>)
        ensures
            r == CommitStep::<D>::TryCommit,
    {
        CommitStep::TryCommit
    }

    /// The step after this one, when it has come to `event`. A transaction whose reads of delayed
    /// fields are still valid has its changes to them committed and its gas counted. If that brings
    /// the gas used to the limit, the rest of the block is skipped. Then the transaction is put in
    /// the commit queue, and the next one is looked at, unless the transaction aborts the block, is
    /// the last one, or has the rest skipped.
    pub fn next(self, setup: &CommitSetup, state: &mut CommitState<D>, event: CommitEvent<D>) -> (r:
        Result<CommitStep<D>, InvariantViolation>)
        requires
            old(state).wf(),
            self.wf(*setup),
            self.expects(*setup, event),
        ensures
            final(state).wf(),
            match self.violation(*setup, old(state).txn_fee_statements@, event) {
                Some(violation) => r == Err::<CommitStep<D>, InvariantViolation>(violation),
                None => r == Ok::<CommitStep<D>, InvariantViolation>(
                    self.after(*setup, final(state).txn_fee_statements@, event),
                ),
            },
            r matches Ok(following) ==> following.wf(*setup),
            r is Ok ==> {
                &&& final(state).txn_fee_statements@ == self.fees_after(
                    old(state).txn_fee_statements@,
                    event,
                )
                &&& final(state).maybe_error == self.error_after(old(state).maybe_error, event)
            },
            r is Err ==> *final(state) == *old(state),
    {
        match (self, event) {
            (CommitStep::TryCommit, CommitEvent::Committable(Some(txn_idx))) => Ok(
                CommitStep::ValidateDelayedReads(txn_idx),
            ),
            (
                CommitStep::ValidateDelayedReads(txn_idx),
                CommitEvent::DelayedReads(Some(valid)),
            ) => Ok(CommitStep::LoadCategory { txn_idx, valid }),
            (CommitStep::ValidateDelayedReads(_), _) => Err(InvariantViolation::ReadSetNotRecorded),
            (CommitStep::LoadCategory { txn_idx, valid }, CommitEvent::Category(category)) => {
                match category {
                    Some(ErrorCategory::SpeculativeExecutionError) => {
                        if valid {
                            return Err(InvariantViolation::SpeculativeErrorStillValid);
                        }
                    },
                    Some(ErrorCategory::CodeInvariantError) => {
                        return Err(InvariantViolation::CodeInvariantError);
                    },
                    _ => {},
                }
                if valid {
                    Ok(CommitStep::CommitDelayedFields(txn_idx))
                } else {
                    Err(InvariantViolation::ReExecutionNeeded)
                }
            },
            (CommitStep::CommitDelayedFields(txn_idx), CommitEvent::DelayedFields(commit)) => {
                match commit {
                    DelayedCommit::ReExecutionNeeded => Err(InvariantViolation::ReExecutionNeeded),
                    DelayedCommit::CodeInvariantError => Err(
                        InvariantViolation::CodeInvariantError,
                    ),
                    _ => Ok(CommitStep::LoadFee(txn_idx)),
                }
            },
            (CommitStep::LoadFee(txn_idx), CommitEvent::Fee(Some(fee))) => {
                match state.accumulated_fee_statement.add_fee_statement(&fee) {
                    Some(sum) => {
                        state.accumulated_fee_statement = sum;
                        state.txn_fee_statements.push(fee);
                        if state.accumulated_fee_statement.reaches_limit(
                            setup.maybe_block_gas_limit,
                        ) {
                            Ok(CommitStep::UpdateToSkipRest(txn_idx))
                        } else {
                            Ok(CommitStep::LoadError(txn_idx))
                        }
                    },
                    None => Err(InvariantViolation::FeeOverflow),
                }
            },
            (CommitStep::LoadFee(txn_idx), _) => Ok(CommitStep::LoadError(txn_idx)),
            (CommitStep::UpdateToSkipRest(txn_idx), _) => Ok(CommitStep::LoadError(txn_idx)),
            (CommitStep::LoadError(txn_idx), CommitEvent::ExecutionError(Some(error))) => Ok(
                CommitStep::HaltWithError { txn_idx, error },
            ),
            (CommitStep::LoadError(txn_idx), _) => {
                if txn_idx + 1 == setup.num_txns {
                    if setup.has_execution_task {
                        Err(InvariantViolation::ExecutionTaskAfterLastCommit)
                    } else {
                        Ok(CommitStep::HaltAtEnd(txn_idx))
                    }
                } else {
                    Ok(CommitStep::AskSkipsRest(txn_idx))
                }
            },
            (CommitStep::HaltWithError { txn_idx, error }, CommitEvent::Answer(halted)) => {
                if halted {
                    state.maybe_error = Some(error);
                }
                Ok(CommitStep::Queue { txn_idx, stop: true })
            },
            (CommitStep::AskSkipsRest(txn_idx), CommitEvent::Answer(true)) => Ok(
                CommitStep::HaltAtEnd(txn_idx),
            ),
            (CommitStep::AskSkipsRest(txn_idx), _) => Ok(
                CommitStep::Queue { txn_idx, stop: false },
            ),
            (CommitStep::HaltAtEnd(txn_idx), _) => Ok(CommitStep::Queue { txn_idx, stop: true }),
            (CommitStep::Queue { txn_idx: _, stop: false }, _) => Ok(CommitStep::TryCommit),
            (_, _) => Ok(CommitStep::Done),
        }
    }
}

/// Step `i` came to an event of its kind that breaks no rule, and was followed by the step that
/// this leads to. The committed transactions have used `fees[i]` before step `i`.
pub open spec fn commit_goes_on<D>(
    setup: CommitSetup,
    steps: Seq<CommitStep<D>>,
    fees: Seq<Seq<FeeStatement>>,
    events: Seq<CommitEvent<D>>,
    i: int,
) -> bool {
    &&& steps[i].expects(setup, events[i])
    &&& steps[i].violation(setup, fees[i], events[i]) is None
    &&& fees[i + 1] == steps[i].fees_after(fees[i], events[i])
    &&& steps[i + 1] == steps[i].after(setup, fees[i + 1], events[i])
}

/// `steps` are the steps of a round of commits from its start, and `events` what they came to.
pub open spec fn commit_trace<D>(
    setup: CommitSetup,
    steps: Seq<CommitStep<D>>,
    fees: Seq<Seq<FeeStatement>>,
    events: Seq<CommitEvent<D>>,
) -> bool {
    &&& steps.len() == events.len() + 1
    &&& fees.len() == steps.len()
    &&& steps[0] == CommitStep::<D>::TryCommit
    &&& forall|i: int|
        0 <= i < events.len() ==> #[trigger] commit_goes_on(setup, steps, fees, events, i)
}

/// From `j + 1` up to `k`, the steps are all about transaction `txn_idx`, and the last of them
/// puts it in the commit queue, which none of the others does.
pub open spec fn queues_once<D>(
    steps: Seq<CommitStep<D>>,
    j: int,
    k: int,
    txn_idx: TxnIndex,
) -> bool {
    &&& j + 1 < k
    &&& steps[k - 1] matches CommitStep::Queue { txn_idx: queued, stop: _ } && queued == txn_idx
    &&& forall|m: int|
        #![trigger steps[m]]
        j < m < k ==> steps[m].txn() == Some(txn_idx) && (steps[m] is Queue ==> m == k - 1)
}

impl<D> CommitStep<D> {
    /// How many steps may still come before the transaction is in the commit queue.
    pub open spec fn rank(self) -> nat {
        match self {
            CommitStep::ValidateDelayedReads(_) => 8,
            CommitStep::LoadCategory { txn_idx: _, valid: _ } => 7,
            CommitStep::CommitDelayedFields(_) => 6,
            CommitStep::LoadFee(_) => 5,
            CommitStep::UpdateToSkipRest(_) => 4,
            CommitStep::LoadError(_) => 3,
            CommitStep::AskSkipsRest(_) => 2,
            CommitStep::HaltWithError { txn_idx: _, error: _ } => 1,
            CommitStep::HaltAtEnd(_) => 1,
            _ => 0,
        }
    }
}

proof fn lemma_on_the_way_to_the_queue<D>(
    setup: CommitSetup,
    steps: Seq<CommitStep<D>>,
    fees: Seq<Seq<FeeStatement>>,
    events: Seq<CommitEvent<D>>,
    j: int,
    k: int,
    m: int,
    txn_idx: TxnIndex,
)
    requires
        commit_trace(setup, steps, fees, events),
        0 <= j < m < k < steps.len(),
        events[j] == CommitEvent::<D>::Committable(Some(txn_idx)),
        forall|i: int| #![trigger steps[i]] j < i < k ==> steps[i].txn() is Some,
    ensures
        steps[m].txn() == Some(txn_idx),
        m + steps[m].rank() <= j + 9,
        steps[m] is Queue ==> m == k - 1,
    decreases m,
{
    assert(commit_goes_on(setup, steps, fees, events, m));
    assert(commit_goes_on(setup, steps, fees, events, m - 1));
    if m > j + 1 {
        lemma_on_the_way_to_the_queue(setup, steps, fees, events, j, k, m - 1, txn_idx);
    }
    if steps[m] is Queue && m + 1 < k {
        assert(steps[m + 1].txn() is Some);
    }
}

/// Every transaction that is found to be committable is put in the commit queue exactly once,
/// before the round looks for the next one or ends, and after at most nine steps.
pub proof fn committable_transactions_are_queued_once<D>(
    setup: CommitSetup,
    steps: Seq<CommitStep<D>>,
    fees: Seq<Seq<FeeStatement>>,
    events: Seq<CommitEvent<D>>,
    j: int,
    k: int,
    txn_idx: TxnIndex,
)
    requires
        commit_trace(setup, steps, fees, events),
        0 <= j < k < steps.len(),
        events[j] == CommitEvent::<D>::Committable(Some(txn_idx)),
        steps[k].txn() is None,
        forall|i: int| #![trigger steps[i]] j < i < k ==> steps[i].txn() is Some,
    ensures
        queues_once(steps, j, k, txn_idx),
        k <= j + 10,
{
    assert(commit_goes_on(setup, steps, fees, events, j));
    assert(commit_goes_on(setup, steps, fees, events, k - 1));
    assert(j + 1 < k);
    assert forall|m: int| #![trigger steps[m]] j < m < k implies steps[m].txn() == Some(txn_idx)
        && (steps[m] is Queue ==> m == k - 1) by {
        lemma_on_the_way_to_the_queue(setup, steps, fees, events, j, k, m, txn_idx);
    }
    lemma_on_the_way_to_the_queue(setup, steps, fees, events, j, k, k - 1, txn_idx);
}

/// What the transactions that were committed in the first `n` steps of a round have used, in the
/// order in which they were committed. Those that aborted have used nothing that counts.
pub open spec fn committed_fees<D>(
    steps: Seq<CommitStep<D>>,
    events: Seq<CommitEvent<D>>,
    n: int,
) -> Seq<FeeStatement>
    decreases n,
{
    if n <= 0 {
        Seq::empty()
    } else {
        match (steps[n - 1], events[n - 1]) {
            (CommitStep::LoadFee(_), CommitEvent::Fee(Some(fee))) => committed_fees(
                steps,
                events,
                n - 1,
            ).push(fee),
            _ => committed_fees(steps, events, n - 1),
        }
    }
}

/// A round adds to the fees, after those that were there, the fee of each transaction that it
/// commits and that has one, in the order of the commits, and nothing else.
pub proof fn rounds_add_the_fees_of_their_commits<D>(
    setup: CommitSetup,
    steps: Seq<CommitStep<D>>,
    fees: Seq<Seq<FeeStatement>>,
    events: Seq<CommitEvent<D>>,
    n: int,
)
    requires
        commit_trace(setup, steps, fees, events),
        0 <= n < steps.len(),
    ensures
        fees[n] == fees[0] + committed_fees(steps, events, n),
    decreases n,
{
    if n > 0 {
        rounds_add_the_fees_of_their_commits(setup, steps, fees, events, n - 1);
        assert(commit_goes_on(setup, steps, fees, events, n - 1));
        let before = committed_fees(steps, events, n - 1);
        if let (CommitStep::LoadFee(_), CommitEvent::Fee(Some(fee))) = (
            steps[n - 1],
            events[n - 1],
        ) {
            assert((fees[0] + before).push(fee) =~= fees[0] + before.push(fee));
        }
    } else {
        assert(fees[0] + Seq::<FeeStatement>::empty() =~= fees[0]);
    }
}

/// The fee of transaction `txn_idx` was looked up at `f`, and at no other step between `j` and `k`;
/// if there is one, it is all that the fees have grown by.
pub open spec fn counted_once<D>(
    steps: Seq<CommitStep<D>>,
    fees: Seq<Seq<FeeStatement>>,
    events: Seq<CommitEvent<D>>,
    j: int,
    k: int,
    f: int,
    txn_idx: TxnIndex,
) -> bool {
    &&& j < f < k
    &&& steps[f] == CommitStep::<D>::LoadFee(txn_idx)
    &&& forall|m: int| #![trigger steps[m]] j < m < k && steps[m] is LoadFee ==> m == f
    &&& events[f] matches CommitEvent::Fee(maybe_fee)
    &&& fees[k] == match maybe_fee {
        Some(fee) => fees[j].push(fee),
        None => fees[j],
    }
}

/// Every transaction that is found to be committable is counted exactly once by the time that it is
/// in the commit queue.
pub proof fn committable_transactions_are_counted_once<D>(
    setup: CommitSetup,
    steps: Seq<CommitStep<D>>,
    fees: Seq<Seq<FeeStatement>>,
    events: Seq<CommitEvent<D>>,
    j: int,
    k: int,
    txn_idx: TxnIndex,
)
    requires
        commit_trace(setup, steps, fees, events),
        0 <= j < k < steps.len(),
        events[j] == CommitEvent::<D>::Committable(Some(txn_idx)),
        steps[k].txn() is None,
        forall|i: int| #![trigger steps[i]] j < i < k ==> steps[i].txn() is Some,
    ensures
        exists|f: int| #[trigger] counted_once(steps, fees, events, j, k, f, txn_idx),
{
    committable_transactions_are_queued_once(setup, steps, fees, events, j, k, txn_idx);
    assert(commit_goes_on(setup, steps, fees, events, j));
    assert(commit_goes_on(setup, steps, fees, events, j + 1));
    assert(commit_goes_on(setup, steps, fees, events, j + 2));
    assert(commit_goes_on(setup, steps, fees, events, j + 3));
    let f = j + 4;
    assert(steps[f] == CommitStep::<D>::LoadFee(txn_idx));
    assert(commit_goes_on(setup, steps, fees, events, f));
    assert forall|m: int| #![trigger steps[m]] f < m <= k implies fees[m] == fees[f + 1] && !(
    steps[m] is LoadFee) && (m < k ==> steps[m].rank() < 5) by {
        lemma_after_fee(setup, steps, fees, events, k, f, m);
    }
    assert(counted_once(steps, fees, events, j, k, f, txn_idx));
}

proof fn lemma_after_fee<D>(
    setup: CommitSetup,
    steps: Seq<CommitStep<D>>,
    fees: Seq<Seq<FeeStatement>>,
    events: Seq<CommitEvent<D>>,
    k: int,
    f: int,
    m: int,
)
    requires
        commit_trace(setup, steps, fees, events),
        0 <= f < m <= k < steps.len(),
        steps[f] is LoadFee,
        forall|i: int| #![trigger steps[i]] f <= i < k ==> steps[i].txn() is Some,
    ensures
        fees[m] == fees[f + 1],
        steps[m].rank() < 5,
    decreases m,
{
    assert(commit_goes_on(setup, steps, fees, events, m - 1));
    assert(steps[m - 1].txn() is Some);
    if m > f + 1 {
        lemma_after_fee(setup, steps, fees, events, k, f, m - 1);
    }
}

/// At `v`, the delayed fields that transaction `txn_idx` read were found to be valid, it had not
/// failed in a way that speculation or wrong code explains, and its changes to delayed fields
/// were committed.
pub open spec fn found_valid<D>(
    steps: Seq<CommitStep<D>>,
    events: Seq<CommitEvent<D>>,
    v: int,
    txn_idx: TxnIndex,
) -> bool {
    &&& 0 <= v
    &&& v + 2 < events.len()
    &&& steps[v] == CommitStep::<D>::ValidateDelayedReads(txn_idx)
    &&& events[v] == CommitEvent::<D>::DelayedReads(Some(true))
    &&& steps[v + 1] is LoadCategory
    &&& events[v + 1] matches CommitEvent::Category(category) && category != Some(
        ErrorCategory::CodeInvariantError,
    ) && category != Some(ErrorCategory::SpeculativeExecutionError)
    &&& steps[v + 2] == CommitStep::<D>::CommitDelayedFields(txn_idx)
    &&& {
        ||| events[v + 2] == CommitEvent::<D>::DelayedFields(DelayedCommit::NoChanges)
        ||| events[v + 2] == CommitEvent::<D>::DelayedFields(DelayedCommit::Committed)
    }
}

proof fn lemma_found_valid<D>(
    setup: CommitSetup,
    steps: Seq<CommitStep<D>>,
    fees: Seq<Seq<FeeStatement>>,
    events: Seq<CommitEvent<D>>,
    q: int,
    txn_idx: TxnIndex,
) -> (v: int)
    requires
        commit_trace(setup, steps, fees, events),
        0 <= q < steps.len(),
        steps[q].txn() == Some(txn_idx),
        steps[q].rank() <= 5,
    ensures
        found_valid(steps, events, v, txn_idx),
        v + 2 < q,
    decreases q,
{
    assert(commit_goes_on(setup, steps, fees, events, q - 1));
    if steps[q] is LoadFee {
        assert(commit_goes_on(setup, steps, fees, events, q - 2));
        assert(commit_goes_on(setup, steps, fees, events, q - 3));
        q - 3
    } else {
        lemma_found_valid(setup, steps, fees, events, q - 1, txn_idx)
    }
}

/// Only transactions whose reads of delayed fields were found to be valid, and whose changes to
/// delayed fields were committed, are counted and put in the commit queue.
pub proof fn queued_transactions_are_valid<D>(
    setup: CommitSetup,
    steps: Seq<CommitStep<D>>,
    fees: Seq<Seq<FeeStatement>>,
    events: Seq<CommitEvent<D>>,
    q: int,
    txn_idx: TxnIndex,
)
    requires
        commit_trace(setup, steps, fees, events),
        0 <= q < steps.len(),
        steps[q] is LoadFee || steps[q] is Queue,
        steps[q].txn() == Some(txn_idx),
    ensures
        exists|v: int| #[trigger] found_valid(steps, events, v, txn_idx) && v + 2 < q,
{
    let v = lemma_found_valid(setup, steps, fees, events, q, txn_idx);
}

/// A round stops after a transaction if and only if it aborts the block, it is the last one of
/// the block, or it has the rest of the block skipped.
pub proof fn rounds_stop_for_a_reason<D>(
    setup: CommitSetup,
    steps: Seq<CommitStep<D>>,
    fees: Seq<Seq<FeeStatement>>,
    events: Seq<CommitEvent<D>>,
    q: int,
    txn_idx: TxnIndex,
    stop: bool,
)
    requires
        commit_trace(setup, steps, fees, events),
        0 <= q < events.len(),
        steps[q] == (CommitStep::<D>::Queue { txn_idx, stop }),
    ensures
        q >= 2,
        steps[q + 1] == if stop {
            CommitStep::<D>::Done
        } else {
            CommitStep::<D>::TryCommit
        },
        stop <==> {
            ||| events[q - 2] matches CommitEvent::ExecutionError(Some(_))
            ||| txn_idx + 1 == setup.num_txns
            ||| (steps[q - 2] is AskSkipsRest && events[q - 2] == CommitEvent::<D>::Answer(true))
        },
{
    assert(commit_goes_on(setup, steps, fees, events, q));
    assert(commit_goes_on(setup, steps, fees, events, q - 1));
    assert(commit_goes_on(setup, steps, fees, events, q - 2));
    if steps[q - 1] is HaltAtEnd {
        if steps[q - 2] is AskSkipsRest {
            assert(commit_goes_on(setup, steps, fees, events, q - 3));
        }
    }
}

/// The error of the block is only ever set to the one with which the transaction that is being
/// committed aborted.
pub proof fn errors_come_from_transactions<D>(
    setup: CommitSetup,
    steps: Seq<CommitStep<D>>,
    fees: Seq<Seq<FeeStatement>>,
    events: Seq<CommitEvent<D>>,
    i: int,
    maybe_error: Option<Error<D>>,
)
    requires
        commit_trace(setup, steps, fees, events),
        0 <= i < events.len(),
        steps[i].error_after(maybe_error, events[i]) != maybe_error,
    ensures
        i > 0,
        steps[i - 1] is LoadError,
        steps[i - 1].txn() == steps[i].txn(),
        steps[i].error_after(maybe_error, events[i]) is Some,
        events[i - 1] == CommitEvent::<D>::ExecutionError(
            steps[i].error_after(maybe_error, events[i]),
        ),
{
    assert(commit_goes_on(setup, steps, fees, events, i - 1));
}

/// A parallel run has the rest of the block skipped after the same transaction as a sequential
/// one: if the transactions before have used the same gas and the transaction uses the same gas,
/// then one reaches the limit if and only if the other does.
pub proof fn parallel_and_sequential_runs_halt_alike<T: Transaction, D>(
    setup: CommitSetup,
    trace: Seq<SequentialStep<T, D>>,
    i: int,
    txn_idx: TxnIndex,
)
    requires
        0 <= i < trace.len(),
    ensures
        ({
            let step = CommitStep::<D>::LoadFee(txn_idx);
            let event = CommitEvent::<D>::Fee(Some(trace[i].output.fee_statement));
            let fees = step.fees_after(trace_fees(trace.take(i)), event);
            &&& fees == trace_fees(trace.take(i + 1))
            &&& step.after(setup, fees, event) is UpdateToSkipRest <==> gas_limit_reached(
                trace_fees(trace.take(i + 1)),
                setup.maybe_block_gas_limit,
            )
        }),
{
    assert(trace_fees(trace.take(i)).push(trace[i].output.fee_statement) =~= trace_fees(
        trace.take(i + 1),
    ));
}

} // verus!
