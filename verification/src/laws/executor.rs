//! What an executor makes of its settings and of what its workers report.
use crate::errors::DelayedFieldFailure;
use crate::errors::Error;
use crate::executor::all_skipped;
use crate::executor::BlockExecutor;
use crate::laws::sequential::undemanding_listeners_accept;
use crate::patching::Replaced;
use crate::sequential::SequentialSetup;
use crate::task::ExecutorTask;
use crate::task::TransactionOutput;
use crate::txn_commit_hook::TransactionCommitHook;
use crate::types::Transaction;
use crate::types::TxnIndex;
use crate::unsync_map::LatestView;
use bytes::Bytes;
use vstd::prelude::*;

verus! {

/// An executor without a listener, or with one that takes anything, can run any block.
pub proof fn executors_without_demands_accept<T, E, S, L, R, A>(
    block_executor: BlockExecutor<T, E, S, L>,
    executor_arguments: E::Argument,
    block: Seq<T>,
    base_view: S,
    replace: R,
    apply: A,
) where
    T: Transaction,
    E: ExecutorTask<Txn = T, View = S>,
    L: TransactionCommitHook<Txn = T>,
    R: Fn(&LatestView<'_, T, S>, &Bytes, &T::Layout) -> Replaced,
    A: Fn(&T::ApplyEntry, &T::FieldValue) -> Result<T::FieldValue, DelayedFieldFailure>,

    requires
        block_executor.spec_commit_hook() matches Some(hook) ==> {
            &&& forall|i: TxnIndex, output: TransactionOutput<T>| #[trigger]
                hook.expects_commit(i, output)
            &&& forall|i: TxnIndex| #[trigger] hook.expects_abort(i)
        },
    ensures
        block_executor.listener_accepts(executor_arguments, block, base_view, replace, apply),
{
    assert forall|executor: E| #[trigger] E::initialized(executor_arguments, executor) implies (
    SequentialSetup {
        executor,
        block,
        base_view,
        maybe_block_gas_limit: block_executor.spec_gas_limit(),
        commit_hook: block_executor.spec_commit_hook(),
        replace,
        apply,
    }).listener_accepts() by {
        undemanding_listeners_accept(
            SequentialSetup {
                executor,
                block,
                base_view,
                maybe_block_gas_limit: block_executor.spec_gas_limit(),
                commit_hook: block_executor.spec_commit_hook(),
                replace,
                apply,
            },
        );
    }
}

/// A sequential run is one of the whole block that was given, on the storage that was given, with
/// the gas limit and the listener of the executor, on a machine made from the arguments that were
/// given.
pub proof fn sequential_runs_use_the_settings<T, E, S, L, R, A>(
    block_executor: BlockExecutor<T, E, S, L>,
    executor_arguments: E::Argument,
    block: Seq<T>,
    base_view: S,
    replace: R,
    apply: A,
    result: Result<Vec<TransactionOutput<T>>, Error<E::Error>>,
) -> (setup: SequentialSetup<T, E, S, L, R, A>) where
    T: Transaction,
    E: ExecutorTask<Txn = T, View = S>,
    L: TransactionCommitHook<Txn = T>,
    R: Fn(&LatestView<'_, T, S>, &Bytes, &T::Layout) -> Replaced,
    A: Fn(&T::ApplyEntry, &T::FieldValue) -> Result<T::FieldValue, DelayedFieldFailure>,

    requires
        block_executor.sequential_may_return(
            executor_arguments,
            block,
            base_view,
            replace,
            apply,
            result,
        ),
    ensures
        setup.may_return(result),
        E::initialized(executor_arguments, setup.executor),
        setup.block == block,
        setup.base_view == base_view,
        setup.maybe_block_gas_limit == block_executor.spec_gas_limit(),
        setup.commit_hook == block_executor.spec_commit_hook(),
        setup.replace == replace,
        setup.apply == apply,
{
    let executor = choose|executor: E|
        {
            &&& #[trigger] E::initialized(executor_arguments, executor)
            &&& (SequentialSetup {
                executor,
                block,
                base_view,
                maybe_block_gas_limit: block_executor.spec_gas_limit(),
                commit_hook: block_executor.spec_commit_hook(),
                replace,
                apply,
            }).may_return(result)
        };
    SequentialSetup {
        executor,
        block,
        base_view,
        maybe_block_gas_limit: block_executor.spec_gas_limit(),
        commit_hook: block_executor.spec_commit_hook(),
        replace,
        apply,
    }
}

/// A parallel run of an empty block succeeds without outputs.
pub proof fn empty_blocks_have_no_outputs<T, E, S, L, W>(
    block_executor: BlockExecutor<T, E, S, L>,
    executor_arguments: E::Argument,
    block: &[T],
    base_view: &S,
    run_workers: W,
    result: Result<Vec<TransactionOutput<T>>, Error<E::Error>>,
) where
    T: Transaction,
    E: ExecutorTask<Txn = T, View = S>,
    L: TransactionCommitHook<Txn = T>,
    W: FnOnce(usize, E::Argument, &[T], &S, Vec<TransactionOutput<T>>) -> (
        Vec<TransactionOutput<T>>,
        Option<Error<E::Error>>,
    ),

    requires
        block@.len() == 0,
        block_executor.parallel_may_return(
            executor_arguments,
            block,
            base_view,
            run_workers,
            result,
        ),
    ensures
        result is Ok,
        result->Ok_0@.len() == 0,
{
}

/// A parallel run lets as many workers as the executor has work on the whole block, with one result
/// for each transaction that says that nothing was executed, written, emitted or used. It ends with
/// the error that they report, and with their results, unchanged, if they report none.
pub proof fn workers_decide_a_parallel_run<T, E, S, L, W>(
    block_executor: BlockExecutor<T, E, S, L>,
    executor_arguments: E::Argument,
    block: &[T],
    base_view: &S,
    run_workers: W,
    result: Result<Vec<TransactionOutput<T>>, Error<E::Error>>,
) -> (r: (
    Vec<TransactionOutput<T>>,
    (Vec<TransactionOutput<T>>, Option<Error<E::Error>>),
)) where
    T: Transaction,
    E: ExecutorTask<Txn = T, View = S>,
    L: TransactionCommitHook<Txn = T>,
    W: FnOnce(usize, E::Argument, &[T], &S, Vec<TransactionOutput<T>>) -> (
        Vec<TransactionOutput<T>>,
        Option<Error<E::Error>>,
    ),

    requires
        block@.len() > 0,
        block_executor.parallel_may_return(
            executor_arguments,
            block,
            base_view,
            run_workers,
            result,
        ),
    ensures
        call_ensures(
            run_workers,
            (
                block_executor.spec_concurrency_level(),
                executor_arguments,
                block,
                base_view,
                r.0,
            ),
            r.1,
        ),
        r.0@.len() == block@.len(),
        forall|i: int|
            #![trigger r.0@[i]]
            0 <= i < r.0@.len() ==> {
                &&& r.0@[i].skipped
                &&& r.0@[i].resource_write_set@.dom() =~= Set::empty()
                &&& r.0@[i].aggregator_v1_write_set@.dom() =~= Set::empty()
                &&& r.0@[i].module_write_set@.dom() =~= Set::empty()
                &&& r.0@[i].aggregator_v1_delta_set@.dom() =~= Set::empty()
                &&& r.0@[i].delayed_field_change_set@.dom() =~= Set::empty()
                &&& r.0@[i].events@.len() == 0
                &&& r.0@[i].fee_statement.execution_gas_used == 0
                &&& r.0@[i].fee_statement.io_gas_used == 0
                &&& r.0@[i].fee_statement.storage_gas_used == 0
                &&& r.0@[i].materialized is None
            },
        r.1.1 matches Some(error) ==> (result matches Err(e) && e == error),
        r.1.1 is None ==> (result matches Ok(outputs) && outputs == r.1.0),
{
    choose|
        initial: Vec<TransactionOutput<T>>,
        reply: (Vec<TransactionOutput<T>>, Option<Error<E::Error>>),
    |
        {
            &&& initial@.len() == block@.len()
            &&& all_skipped(initial@)
            &&& #[trigger] call_ensures(
                run_workers,
                (
                    block_executor.spec_concurrency_level(),
                    executor_arguments,
                    block,
                    base_view,
                    initial,
                ),
                reply,
            )
            &&& result == match reply.1 {
                Some(error) => Err(error),
                None => Ok(reply.0),
            }
        }
}

/// Workers that can be run on any results, and give back as many as they are given, can be run by
/// any executor on any block.
pub proof fn workers_that_keep_lengths_can_be_run<T, E, S, L, W>(
    block_executor: BlockExecutor<T, E, S, L>,
    executor_arguments: E::Argument,
    block: &[T],
    base_view: &S,
    run_workers: W,
) where
    T: Transaction,
    E: ExecutorTask<Txn = T, View = S>,
    L: TransactionCommitHook<Txn = T>,
    W: FnOnce(usize, E::Argument, &[T], &S, Vec<TransactionOutput<T>>) -> (
        Vec<TransactionOutput<T>>,
        Option<Error<E::Error>>,
    ),

    requires
        forall|n: usize, initial: Vec<TransactionOutput<T>>| #[trigger]
            call_requires(run_workers, (n, executor_arguments, block, base_view, initial)),
        forall|
            n: usize,
            initial: Vec<TransactionOutput<T>>,
            reply: (Vec<TransactionOutput<T>>, Option<Error<E::Error>>),
        |
            #[trigger]
            call_ensures(run_workers, (n, executor_arguments, block, base_view, initial), reply)
                ==> reply.0@.len() == initial@.len(),
    ensures
        block_executor.workers_keep_results(executor_arguments, block, base_view, run_workers),
{
}

} // verus!
