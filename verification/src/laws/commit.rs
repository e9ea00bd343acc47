//! What a round of commits does with each transaction.
use crate::errors::Error;
use crate::errors::ErrorCategory;
use crate::errors::InvariantViolation;
use crate::fee_statement::total_execution_gas;
use crate::fee_statement::total_io_gas;
use crate::fee_statement::total_storage_gas;
use crate::fee_statement::FeeStatement;
use crate::parallel::commit::commit_goes_on;
use crate::parallel::commit::commit_trace;
use crate::parallel::commit::CommitEvent;
use crate::parallel::commit::CommitSetup;
use crate::parallel::commit::CommitState;
use crate::parallel::commit::CommitStep;
use crate::parallel::commit::DelayedCommit;
use crate::types::TxnIndex;
use vstd::prelude::*;

verus! {

/// Every answer that the scheduler and the records can give may be handed back, as long as a
/// transaction is one of the block.
pub proof fn commits_accept_every_answer<D>(
    setup: CommitSetup,
    step: CommitStep<D>,
    next: Option<TxnIndex>,
    valid: Option<bool>,
    category: Option<ErrorCategory>,
    fields: DelayedCommit,
    fee: Option<FeeStatement>,
    error: Option<Error<D>>,
    answer: bool,
)
    requires
        next matches Some(txn_idx) ==> txn_idx < setup.num_txns,
    ensures
        match step {
            CommitStep::TryCommit => step.expects(setup, CommitEvent::Committable(next)),
            CommitStep::ValidateDelayedReads(_) => step.expects(
                setup,
                CommitEvent::DelayedReads(valid),
            ),
            CommitStep::LoadCategory { txn_idx: _, valid: _ } => step.expects(
                setup,
                CommitEvent::Category(category),
            ),
            CommitStep::CommitDelayedFields(_) => step.expects(
                setup,
                CommitEvent::DelayedFields(fields),
            ),
            CommitStep::LoadFee(_) => step.expects(setup, CommitEvent::Fee(fee)),
            CommitStep::UpdateToSkipRest(_) => step.expects(setup, CommitEvent::Made),
            CommitStep::LoadError(_) => step.expects(setup, CommitEvent::ExecutionError(error)),
            CommitStep::HaltWithError { txn_idx: _, error: _ } => step.expects(
                setup,
                CommitEvent::Answer(answer),
            ),
            CommitStep::AskSkipsRest(_) => step.expects(setup, CommitEvent::Answer(answer)),
            CommitStep::HaltAtEnd(_) => step.expects(setup, CommitEvent::Answer(answer)),
            CommitStep::Queue { txn_idx: _, stop: _ } => step.expects(setup, CommitEvent::Made),
            CommitStep::Done => true,
        },
        step is TryCommit || step is Done ==> step.wf(setup),
{
}

/// The gas that is accumulated is the sum of the gas of the committed transactions.
pub proof fn accumulated_gas_is_the_sum<D>(state: CommitState<D>)
    requires
        state.wf(),
    ensures
        state.accumulated_fee_statement.execution_gas_used == total_execution_gas(
            state.txn_fee_statements@,
        ),
        state.accumulated_fee_statement.io_gas_used == total_io_gas(state.txn_fee_statements@),
        state.accumulated_fee_statement.storage_gas_used == total_storage_gas(
            state.txn_fee_statements@,
        ),
{
}

/// A transaction that can be committed has its reads of delayed fields compared; if none can, the
/// round is over. Where the reads are valid, its changes to delayed fields are committed, and then
/// its gas is counted.
pub proof fn valid_transactions_are_counted<D>(
    setup: CommitSetup,
    fees: Seq<FeeStatement>,
    txn_idx: TxnIndex,
    fields: DelayedCommit,
)
    requires
        fields == DelayedCommit::NoChanges || fields == DelayedCommit::Committed,
    ensures
        CommitStep::<D>::TryCommit.after(setup, fees, CommitEvent::Committable(Some(txn_idx)))
            == CommitStep::<D>::ValidateDelayedReads(txn_idx),
        CommitStep::<D>::TryCommit.after(setup, fees, CommitEvent::Committable(None))
            == CommitStep::<D>::Done,
        CommitStep::<D>::ValidateDelayedReads(txn_idx).after(
            setup,
            fees,
            CommitEvent::DelayedReads(Some(true)),
        ) == (CommitStep::<D>::LoadCategory { txn_idx, valid: true }),
        CommitStep::<D>::ValidateDelayedReads(txn_idx).after(
            setup,
            fees,
            CommitEvent::DelayedReads(Some(false)),
        ) == (CommitStep::<D>::LoadCategory { txn_idx, valid: false }),
        (CommitStep::<D>::LoadCategory { txn_idx, valid: true }).after(
            setup,
            fees,
            CommitEvent::Category(None),
        ) == CommitStep::<D>::CommitDelayedFields(txn_idx),
        (CommitStep::<D>::LoadCategory { txn_idx, valid: true }).after(
            setup,
            fees,
            CommitEvent::Category(Some(ErrorCategory::ValidError)),
        ) == CommitStep::<D>::CommitDelayedFields(txn_idx),
        CommitStep::<D>::CommitDelayedFields(txn_idx).after(
            setup,
            fees,
            CommitEvent::DelayedFields(fields),
        ) == CommitStep::<D>::LoadFee(txn_idx),
{
}

/// The fee of a transaction, and nothing else, is added to the fees, after those before it. The
/// rest of the block is skipped from then on if and only if there is a limit, and the execution and
/// io gas of all fees together come up to it.
pub proof fn fees_are_held_against_the_limit<D>(
    setup: CommitSetup,
    fees: Seq<FeeStatement>,
    txn_idx: TxnIndex,
    fee: FeeStatement,
)
    ensures
        ({
            let step = CommitStep::<D>::LoadFee(txn_idx);
            let counted = step.fees_after(fees, CommitEvent::Fee(Some(fee)));
            let reached = setup.maybe_block_gas_limit is Some && total_execution_gas(
                fees.push(fee),
            ) + total_io_gas(fees.push(fee)) >= setup.maybe_block_gas_limit->0;
            &&& counted == fees.push(fee)
            &&& step.fees_after(fees, CommitEvent::Fee(None)) == fees
            &&& reached ==> step.after(setup, counted, CommitEvent::Fee(Some(fee)))
                == CommitStep::<D>::UpdateToSkipRest(txn_idx)
            &&& !reached ==> step.after(setup, counted, CommitEvent::Fee(Some(fee)))
                == CommitStep::<D>::LoadError(txn_idx)
            &&& step.after(setup, fees, CommitEvent::Fee(None)) == CommitStep::<D>::LoadError(
                txn_idx,
            )
            &&& CommitStep::<D>::UpdateToSkipRest(txn_idx).after(setup, counted, CommitEvent::Made)
                == CommitStep::<D>::LoadError(txn_idx)
        }),
{
}

/// Only looking up a fee changes the fees, and only halting the block for an error sets its error,
/// to that one, and only if the block was not halted before.
pub proof fn other_steps_leave_fees_and_error<D>(
    step: CommitStep<D>,
    fees: Seq<FeeStatement>,
    maybe_error: Option<Error<D>>,
    event: CommitEvent<D>,
)
    ensures
        !(step is LoadFee) ==> step.fees_after(fees, event) == fees,
        !(step is HaltWithError) ==> step.error_after(maybe_error, event) == maybe_error,
        step is HaltWithError && event == CommitEvent::<D>::Answer(false) ==> step.error_after(
            maybe_error,
            event,
        ) == maybe_error,
        step is HaltWithError && event == CommitEvent::<D>::Answer(true) ==> step.error_after(
            maybe_error,
            event,
        ) == Some(step->HaltWithError_error),
{
}

/// A transaction that aborts the block, is the last one, or has the rest skipped halts the block
/// and is the last one in the commit queue. Any other is followed by the next one that can be
/// committed.
pub proof fn blocks_are_halted_for_a_reason<D>(
    setup: CommitSetup,
    fees: Seq<FeeStatement>,
    txn_idx: TxnIndex,
    error: Error<D>,
    answer: bool,
)
    ensures
        CommitStep::<D>::LoadError(txn_idx).after(
            setup,
            fees,
            CommitEvent::ExecutionError(Some(error)),
        ) == (CommitStep::<D>::HaltWithError { txn_idx, error }),
        (CommitStep::<D>::HaltWithError { txn_idx, error }).after(
            setup,
            fees,
            CommitEvent::Answer(answer),
        ) == (CommitStep::<D>::Queue { txn_idx, stop: true }),
        txn_idx + 1 == setup.num_txns ==> CommitStep::<D>::LoadError(txn_idx).after(
            setup,
            fees,
            CommitEvent::ExecutionError(None),
        ) == CommitStep::<D>::HaltAtEnd(txn_idx),
        txn_idx + 1 != setup.num_txns ==> CommitStep::<D>::LoadError(txn_idx).after(
            setup,
            fees,
            CommitEvent::ExecutionError(None),
        ) == CommitStep::<D>::AskSkipsRest(txn_idx),
        CommitStep::<D>::AskSkipsRest(txn_idx).after(setup, fees, CommitEvent::Answer(true))
            == CommitStep::<D>::HaltAtEnd(txn_idx),
        CommitStep::<D>::AskSkipsRest(txn_idx).after(setup, fees, CommitEvent::Answer(false)) == (
        CommitStep::<D>::Queue { txn_idx, stop: false }),
        CommitStep::<D>::HaltAtEnd(txn_idx).after(setup, fees, CommitEvent::Answer(answer)) == (
        CommitStep::<D>::Queue { txn_idx, stop: true }),
        (CommitStep::<D>::Queue { txn_idx, stop: true }).after(setup, fees, CommitEvent::Made)
            == CommitStep::<D>::Done,
        (CommitStep::<D>::Queue { txn_idx, stop: false }).after(setup, fees, CommitEvent::Made)
            == CommitStep::<D>::TryCommit,
{
}

/// A round is broken off if and only if no reads were recorded; the transaction has to be executed
/// again, failed by wrong code, or failed by speculation that is still valid; its gas cannot be
/// added; or the last transaction is committed while one is being executed.
pub proof fn commits_are_refused_for_a_reason<D>(
    setup: CommitSetup,
    step: CommitStep<D>,
    fees: Seq<FeeStatement>,
    event: CommitEvent<D>,
)
    requires
        step.expects(setup, event),
    ensures
        match step {
            CommitStep::ValidateDelayedReads(_) => step.violation(setup, fees, event)
                == if event->DelayedReads_0 is None {
                Some(InvariantViolation::ReadSetNotRecorded)
            } else {
                None
            },
            CommitStep::LoadCategory { txn_idx: _, valid } => match event->Category_0 {
                Some(ErrorCategory::CodeInvariantError) => step.violation(setup, fees, event)
                    == Some(InvariantViolation::CodeInvariantError),
                Some(ErrorCategory::SpeculativeExecutionError) => step.violation(
                    setup,
                    fees,
                    event,
                ) == if valid {
                    Some(InvariantViolation::SpeculativeErrorStillValid)
                } else {
                    Some(InvariantViolation::ReExecutionNeeded)
                },
                _ => step.violation(setup, fees, event) == if valid {
                    None
                } else {
                    Some(InvariantViolation::ReExecutionNeeded)
                },
            },
            CommitStep::CommitDelayedFields(_) => match event->DelayedFields_0 {
                DelayedCommit::ReExecutionNeeded => step.violation(setup, fees, event) == Some(
                    InvariantViolation::ReExecutionNeeded,
                ),
                DelayedCommit::CodeInvariantError => step.violation(setup, fees, event) == Some(
                    InvariantViolation::CodeInvariantError,
                ),
                DelayedCommit::NoChanges => step.violation(setup, fees, event) is None,
                DelayedCommit::Committed => step.violation(setup, fees, event) is None,
            },
            CommitStep::LoadFee(_) => match event->Fee_0 {
                Some(fee) => step.violation(setup, fees, event) == if total_execution_gas(
                    fees.push(fee),
                ) > u64::MAX || total_io_gas(fees.push(fee)) > u64::MAX || total_storage_gas(
                    fees.push(fee),
                ) > u64::MAX {
                    Some(InvariantViolation::FeeOverflow)
                } else {
                    None
                },
                None => step.violation(setup, fees, event) is None,
            },
            CommitStep::LoadError(txn_idx) => step.violation(setup, fees, event) == if txn_idx + 1
                == setup.num_txns && setup.has_execution_task && event->ExecutionError_0 is None {
                Some(InvariantViolation::ExecutionTaskAfterLastCommit)
            } else {
                None
            },
            _ => step.violation(setup, fees, event) is None,
        },
{
}

/// A transaction that is found to be committable is seen through: its reads, its failure, its
/// changes to delayed fields and its gas are looked at in turn, each for that very transaction and
/// each with an outcome that lets it be committed. Only that transaction is then counted.
pub proof fn committable_transactions_are_seen_through<D>(
    setup: CommitSetup,
    steps: Seq<CommitStep<D>>,
    fees: Seq<Seq<FeeStatement>>,
    events: Seq<CommitEvent<D>>,
    j: int,
    txn_idx: TxnIndex,
)
    requires
        commit_trace(setup, steps, fees, events),
        0 <= j,
        j + 4 < events.len(),
        events[j] == CommitEvent::<D>::Committable(Some(txn_idx)),
    ensures
        steps[j + 1] == CommitStep::<D>::ValidateDelayedReads(txn_idx),
        events[j + 1] == CommitEvent::<D>::DelayedReads(Some(true)),
        steps[j + 2] == (CommitStep::<D>::LoadCategory { txn_idx, valid: true }),
        events[j + 2] matches CommitEvent::Category(category) && match category {
            None => true,
            Some(category) => category is ValidError,
        },
        steps[j + 3] == CommitStep::<D>::CommitDelayedFields(txn_idx),
        events[j + 3] == CommitEvent::<D>::DelayedFields(DelayedCommit::NoChanges) || events[j + 3]
            == CommitEvent::<D>::DelayedFields(DelayedCommit::Committed),
        steps[j + 4] == CommitStep::<D>::LoadFee(txn_idx),
        fees[j + 4] == fees[j],
        events[j + 4] matches CommitEvent::Fee(maybe_fee) && fees[j + 5] == match maybe_fee {
            Some(fee) => fees[j].push(fee),
            None => fees[j],
        },
        steps[j + 5] == CommitStep::<D>::UpdateToSkipRest(txn_idx) || steps[j + 5] == CommitStep::<
            D,
        >::LoadError(txn_idx),
        steps[j + 5] is UpdateToSkipRest <==> {
            &&& events[j + 4] matches CommitEvent::Fee(Some(_))
            &&& setup.maybe_block_gas_limit matches Some(max)
            &&& total_execution_gas(fees[j + 5]) + total_io_gas(fees[j + 5]) >= max
        },
{
    assert(commit_goes_on(setup, steps, fees, events, j));
    assert(commit_goes_on(setup, steps, fees, events, j + 1));
    assert(commit_goes_on(setup, steps, fees, events, j + 2));
    assert(commit_goes_on(setup, steps, fees, events, j + 3));
    assert(commit_goes_on(setup, steps, fees, events, j + 4));
}

/// Once the gas of a transaction has been counted, its error is looked up, after the rest of the
/// block has been skipped for the limit, if it has. One that aborts the block halts it with its own
/// error; one at the end of the block or that has the rest skipped halts it; and each is put in the
/// commit queue, as the last one exactly if it halted the block.
pub proof fn counted_transactions_are_queued<D>(
    setup: CommitSetup,
    steps: Seq<CommitStep<D>>,
    fees: Seq<Seq<FeeStatement>>,
    events: Seq<CommitEvent<D>>,
    e: int,
    txn_idx: TxnIndex,
)
    requires
        commit_trace(setup, steps, fees, events),
        0 <= e,
        e + 2 < events.len(),
        steps[e] == CommitStep::<D>::LoadError(txn_idx),
    ensures
        match events[e] {
            CommitEvent::ExecutionError(Some(error)) => {
                &&& steps[e + 1] == (CommitStep::<D>::HaltWithError { txn_idx, error })
                &&& steps[e + 2] == (CommitStep::<D>::Queue { txn_idx, stop: true })
                &&& steps[e + 3] == CommitStep::<D>::Done
            },
            CommitEvent::ExecutionError(None) => if txn_idx + 1 == setup.num_txns {
                &&& !setup.has_execution_task
                &&& steps[e + 1] == CommitStep::<D>::HaltAtEnd(txn_idx)
                &&& steps[e + 2] == (CommitStep::<D>::Queue { txn_idx, stop: true })
                &&& steps[e + 3] == CommitStep::<D>::Done
            } else {
                &&& steps[e + 1] == CommitStep::<D>::AskSkipsRest(txn_idx)
                &&& events[e + 1] == CommitEvent::<D>::Answer(false) ==> {
                    &&& steps[e + 2] == (CommitStep::<D>::Queue { txn_idx, stop: false })
                    &&& steps[e + 3] == CommitStep::<D>::TryCommit
                }
                &&& events[e + 1] == CommitEvent::<D>::Answer(true) ==> {
                    &&& steps[e + 2] == CommitStep::<D>::HaltAtEnd(txn_idx)
                    &&& steps[e + 3] == (CommitStep::<D>::Queue { txn_idx, stop: true })
                }
            },
            _ => false,
        },
        fees[e + 3] == fees[e],
{
    assert(commit_goes_on(setup, steps, fees, events, e));
    assert(commit_goes_on(setup, steps, fees, events, e + 1));
    assert(commit_goes_on(setup, steps, fees, events, e + 2));
}

} // verus!
