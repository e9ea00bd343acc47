//! What a sequential run does with each transaction of its block.
use crate::delayed_fields::delayed_violation;
use crate::delayed_fields::output_applied;
use crate::errors::DelayedFieldFailure;
use crate::errors::Error;
use crate::errors::InvariantViolation;
use crate::errors::TransactionError;
use crate::fee_statement::fees_fit;
use crate::fee_statement::total_execution_gas;
use crate::fee_statement::total_io_gas;
use crate::fee_statement::total_storage_gas;
use crate::laws::delayed_fields::applied_writes_are_fetched;
use crate::laws::delayed_fields::refused_changes_are_unsound;
use crate::laws::patching::each_event_with_a_layout_is_patched;
use crate::laws::patching::each_sequential_read_is_patched;
use crate::laws::patching::each_write_with_a_layout_is_patched;
use crate::laws::patching::refused_events_have_a_reason;
use crate::laws::patching::refused_sequential_reads_have_a_reason;
use crate::laws::patching::refused_writes_have_a_reason;
use crate::patching::events_violation;
use crate::patching::reads_patched;
use crate::patching::sequential_candidates;
use crate::patching::write_set_patched;
use crate::patching::write_set_violation;
use crate::patching::Replaced;
use crate::raw_bytes::bytes_contents;
use crate::sequential::materialization_violation;
use crate::sequential::output_of;
use crate::sequential::trace_fees;
use crate::sequential::SequentialSetup;
use crate::sequential::SequentialStep;
use crate::task::ExecutionStatus;
use crate::task::ExecutorTask;
use crate::task::TransactionOutput;
use crate::txn_commit_hook::TransactionCommitHook;
use crate::types::ApplyBase;
use crate::types::DelayedChange;
use crate::types::Identifier;
use crate::types::Key;
use crate::types::Transaction;
use crate::types::TxnIndex;
use crate::types::WriteOp;
use crate::unsync_map::LatestView;
use bytes::Bytes;
use std::collections::HashSet;
use std::sync::Arc;
use vstd::prelude::*;

verus! {

/// A run without a listener may always be told, and so may one whose listener takes anything.
pub proof fn undemanding_listeners_accept<T, E, S, L, R, A>(
    setup: SequentialSetup<T, E, S, L, R, A>,
) where
    T: Transaction,
    E: ExecutorTask<Txn = T, View = S>,
    L: TransactionCommitHook<Txn = T>,
    R: Fn(&LatestView<'_, T, S>, &Bytes, &T::Layout) -> Replaced,
    A: Fn(&T::ApplyEntry, &T::FieldValue) -> Result<T::FieldValue, DelayedFieldFailure>,

    requires
        setup.commit_hook matches Some(hook) ==> {
            &&& forall|i: TxnIndex, output: TransactionOutput<T>| #[trigger]
                hook.expects_commit(i, output)
            &&& forall|i: TxnIndex| #[trigger] hook.expects_abort(i)
        },
    ensures
        setup.listener_accepts(),
{
}

/// A run that succeeds has committed some of the first transactions of its block. There is one
/// output for each transaction: what was committed, and for the rest an output that says that
/// nothing was executed, written, emitted or used.
pub proof fn successful_runs_have_a_trace<T, E, S, L, R, A>(
    setup: SequentialSetup<T, E, S, L, R, A>,
    outputs: Vec<TransactionOutput<T>>,
) -> (trace: Seq<SequentialStep<T, E::Error>>) where
    T: Transaction,
    E: ExecutorTask<Txn = T, View = S>,
    L: TransactionCommitHook<Txn = T>,
    R: Fn(&LatestView<'_, T, S>, &Bytes, &T::Layout) -> Replaced,
    A: Fn(&T::ApplyEntry, &T::FieldValue) -> Result<T::FieldValue, DelayedFieldFailure>,

    requires
        setup.may_return(Ok(outputs)),
    ensures
        setup.succeeds(trace, outputs@),
        outputs@.len() == setup.block.len(),
        trace.len() <= setup.block.len(),
        forall|i: int| 0 <= i < trace.len() ==> outputs@[i] == (#[trigger] trace[i]).output,
        forall|i: int|
            #![trigger outputs@[i]]
            trace.len() <= i < outputs@.len() ==> {
                &&& outputs@[i].skipped
                &&& outputs@[i].resource_write_set@.dom() =~= Set::empty()
                &&& outputs@[i].aggregator_v1_write_set@.dom() =~= Set::empty()
                &&& outputs@[i].module_write_set@.dom() =~= Set::empty()
                &&& outputs@[i].aggregator_v1_delta_set@.dom() =~= Set::empty()
                &&& outputs@[i].delayed_field_change_set@.dom() =~= Set::empty()
                &&& outputs@[i].events@.len() == 0
                &&& outputs@[i].fee_statement.execution_gas_used == 0
                &&& outputs@[i].fee_statement.io_gas_used == 0
                &&& outputs@[i].fee_statement.storage_gas_used == 0
                &&& outputs@[i].materialized is None
            },
{
    let trace = choose|trace: Seq<SequentialStep<T, E::Error>>| #[trigger]
        setup.succeeds(trace, outputs@);
    assert forall|i: int|
        0 <= i < trace.len() implies outputs@[i] == (#[trigger] trace[i]).output by {
        assert(outputs@[i] == trace[i].output);
    }
    trace
}

/// A transaction that asks for the rest to be skipped is the last one that is committed, whatever
/// it wrote, emitted or used; all after it are skipped.
pub proof fn skip_rest_ends_the_block<T, E, S, L, R, A>(
    setup: SequentialSetup<T, E, S, L, R, A>,
    trace: Seq<SequentialStep<T, E::Error>>,
    outputs: Seq<TransactionOutput<T>>,
    i: int,
) where
    T: Transaction,
    E: ExecutorTask<Txn = T, View = S>,
    L: TransactionCommitHook<Txn = T>,
    R: Fn(&LatestView<'_, T, S>, &Bytes, &T::Layout) -> Replaced,
    A: Fn(&T::ApplyEntry, &T::FieldValue) -> Result<T::FieldValue, DelayedFieldFailure>,

    requires
        setup.committed(trace),
        0 <= i < trace.len(),
        trace[i].status is SkipRest,
    ensures
        trace.len() == i + 1,
        setup.succeeds(trace, outputs) ==> forall|j: int|
            #![trigger outputs[j]]
            i < j < outputs.len() ==> outputs[j].skipped && outputs[j].materialized is None,
{
    if i + 1 < trace.len() {
        assert(setup.goes_on(trace, i));
    }
}

/// A transaction whose gas, with that of all before it, reaches the limit is the last one that is
/// committed. The gas that counts is the execution and io gas of each.
pub proof fn reaching_the_limit_ends_the_block<T, E, S, L, R, A>(
    setup: SequentialSetup<T, E, S, L, R, A>,
    trace: Seq<SequentialStep<T, E::Error>>,
    i: int,
    max: u64,
) where
    T: Transaction,
    E: ExecutorTask<Txn = T, View = S>,
    L: TransactionCommitHook<Txn = T>,
    R: Fn(&LatestView<'_, T, S>, &Bytes, &T::Layout) -> Replaced,
    A: Fn(&T::ApplyEntry, &T::FieldValue) -> Result<T::FieldValue, DelayedFieldFailure>,

    requires
        setup.committed(trace),
        0 <= i < trace.len(),
        setup.maybe_block_gas_limit == Some(max),
        total_execution_gas(Seq::new((i + 1) as nat, |j: int| trace[j].output.fee_statement))
            + total_io_gas(Seq::new((i + 1) as nat, |j: int| trace[j].output.fee_statement)) >= max,
    ensures
        trace.len() == i + 1,
{
    let fees = Seq::new((i + 1) as nat, |j: int| trace[j].output.fee_statement);
    assert(trace_fees(trace.take(i + 1)) =~= fees);
    if i + 1 < trace.len() {
        assert(setup.goes_on(trace, i));
    }
}

/// A run leaves out a transaction only if the last one that it committed asked for that, or has
/// brought the gas used to the limit.
pub proof fn only_skip_rest_and_the_limit_end_the_block<T, E, S, L, R, A>(
    setup: SequentialSetup<T, E, S, L, R, A>,
    trace: Seq<SequentialStep<T, E::Error>>,
    outputs: Seq<TransactionOutput<T>>,
) where
    T: Transaction,
    E: ExecutorTask<Txn = T, View = S>,
    L: TransactionCommitHook<Txn = T>,
    R: Fn(&LatestView<'_, T, S>, &Bytes, &T::Layout) -> Replaced,
    A: Fn(&T::ApplyEntry, &T::FieldValue) -> Result<T::FieldValue, DelayedFieldFailure>,

    requires
        setup.succeeds(trace, outputs),
        trace.len() < setup.block.len(),
    ensures
        trace.len() > 0,
        trace.last().status is SkipRest || (setup.maybe_block_gas_limit matches Some(max)
            && total_execution_gas(
            Seq::new(trace.len(), |j: int| trace[j].output.fee_statement),
        ) + total_io_gas(Seq::new(trace.len(), |j: int| trace[j].output.fee_statement)) >= max),
{
    let n = trace.len() as int;
    let fees = Seq::new(trace.len(), |j: int| trace[j].output.fee_statement);
    assert(trace.take(n) =~= trace);
    assert(trace_fees(trace) =~= fees);
}

/// Each transaction is executed in its turn, as the machine would execute it on the storage, at its
/// own index, with deltas turned into writes, on what those before it left behind. The first one
/// starts from nothing. Each starts with nothing read.
pub proof fn transactions_are_executed_in_turn<T, E, S, L, R, A>(
    setup: SequentialSetup<T, E, S, L, R, A>,
    trace: Seq<SequentialStep<T, E::Error>>,
    i: int,
    key: Key,
    id: Identifier,
) where
    T: Transaction,
    E: ExecutorTask<Txn = T, View = S>,
    L: TransactionCommitHook<Txn = T>,
    R: Fn(&LatestView<'_, T, S>, &Bytes, &T::Layout) -> Replaced,
    A: Fn(&T::ApplyEntry, &T::FieldValue) -> Result<T::FieldValue, DelayedFieldFailure>,

    requires
        setup.committed(trace),
        0 <= i < trace.len(),
    ensures
        setup.executor.may_execute(
            setup.base_view,
            trace[i].before,
            setup.block[i],
            i as TxnIndex,
            true,
            trace[i].status,
            trace[i].executed,
        ),
        !trace[i].before.read_set@.contains(key),
        i == 0 ==> {
            &&& !trace[i].before.unsync_map.data().contains_key(key)
            &&& !trace[i].before.unsync_map.delayed_fields().contains_key(id)
            &&& trace[i].before.counter == 0
        },
        i > 0 ==> {
            &&& trace[i].before.unsync_map == trace[i - 1].after.unsync_map
            &&& trace[i].before.counter == trace[i - 1].after.counter
        },
        trace[i].after.counter == trace[i].executed.counter,
        trace[i].after.read_set == trace[i].executed.read_set,
{
    reveal(SequentialSetup::commits);
    assert(setup.starts(trace.take(i), trace[i].before));
    assert(setup.commits(i, trace[i], trace_fees(trace.take(i))));
    if i > 0 {
        assert(trace.take(i).last() == trace[i - 1]);
    }
}

/// What is committed is what the execution came to, field by field, with what is only known at
/// commit added. No deltas are left, and the listener is told of that very output.
pub proof fn committed_output_is_what_was_executed<T, E, S, L, R, A>(
    setup: SequentialSetup<T, E, S, L, R, A>,
    trace: Seq<SequentialStep<T, E::Error>>,
    i: int,
    key: Key,
) where
    T: Transaction,
    E: ExecutorTask<Txn = T, View = S>,
    L: TransactionCommitHook<Txn = T>,
    R: Fn(&LatestView<'_, T, S>, &Bytes, &T::Layout) -> Replaced,
    A: Fn(&T::ApplyEntry, &T::FieldValue) -> Result<T::FieldValue, DelayedFieldFailure>,

    requires
        setup.committed(trace),
        0 <= i < trace.len(),
    ensures
        match trace[i].status {
            ExecutionStatus::Success(output) | ExecutionStatus::SkipRest(output) => {
                &&& trace[i].output.resource_write_set == output.resource_write_set
                &&& trace[i].output.aggregator_v1_write_set == output.aggregator_v1_write_set
                &&& trace[i].output.module_write_set == output.module_write_set
                &&& trace[i].output.aggregator_v1_delta_set == output.aggregator_v1_delta_set
                &&& trace[i].output.delayed_field_change_set == output.delayed_field_change_set
                &&& trace[i].output.events == output.events
                &&& trace[i].output.fee_statement == output.fee_statement
                &&& trace[i].output.skipped == output.skipped
                &&& !output.aggregator_v1_delta_set@.contains_key(key)
                &&& output_applied(
                    trace[i].executed.unsync_map,
                    output,
                    setup.apply,
                    trace[i].after.unsync_map,
                )
            },
            ExecutionStatus::Abort(_) => false,
        },
        trace[i].output.materialized is Some,
        setup.commit_hook matches Some(hook) ==> hook.told_committed(
            i as TxnIndex,
            trace[i].output,
        ),
{
    reveal(SequentialSetup::commits);
    assert(setup.commits(i, trace[i], trace_fees(trace.take(i))));
}

/// The writes of a committed transaction are what the next one finds: the module under a key; if
/// there is none, the aggregator; if there is none, the resource; and if nothing was written, what
/// the execution itself left there.
pub proof fn the_next_transaction_finds_the_writes<T, E, S, L, R, A>(
    setup: SequentialSetup<T, E, S, L, R, A>,
    trace: Seq<SequentialStep<T, E::Error>>,
    i: int,
    key: Key,
) where
    T: Transaction,
    E: ExecutorTask<Txn = T, View = S>,
    L: TransactionCommitHook<Txn = T>,
    R: Fn(&LatestView<'_, T, S>, &Bytes, &T::Layout) -> Replaced,
    A: Fn(&T::ApplyEntry, &T::FieldValue) -> Result<T::FieldValue, DelayedFieldFailure>,

    requires
        setup.committed(trace),
        0 <= i,
        i + 1 < trace.len(),
    ensures
        ({
            let found = trace[i + 1].before.unsync_map.data();
            let output = trace[i].output;
            &&& output.module_write_set@.contains_key(key) ==> found.contains_key(key)
                && found[key].0 == output.module_write_set@[key] && found[key].1 is None
            &&& output.aggregator_v1_write_set@.contains_key(key)
                && !output.module_write_set@.contains_key(key) ==> found.contains_key(key)
                && found[key].0 == output.aggregator_v1_write_set@[key] && found[key].1 is None
            &&& output.resource_write_set@.contains_key(key)
                && !output.module_write_set@.contains_key(key)
                && !output.aggregator_v1_write_set@.contains_key(key) ==> found.contains_key(key)
                && found[key] == output.resource_write_set@[key]
            &&& !output.resource_write_set@.contains_key(key)
                && !output.module_write_set@.contains_key(key)
                && !output.aggregator_v1_write_set@.contains_key(key) ==> {
                let left = trace[i].executed.unsync_map.data();
                &&& found.contains_key(key) == left.contains_key(key)
                &&& found.contains_key(key) ==> found[key] == left[key]
            }
        }),
{
    transactions_are_executed_in_turn(setup, trace, i + 1, key, 0);
    committed_output_is_what_was_executed(setup, trace, i, key);
    match trace[i].status {
        ExecutionStatus::Success(output) | ExecutionStatus::SkipRest(output) => {
            applied_writes_are_fetched(
                trace[i].executed.unsync_map,
                output,
                setup.apply,
                trace[i].after.unsync_map,
                key,
            );
        },
        ExecutionStatus::Abort(_) => {},
    }
}

/// The gas that the committed transactions have used fits in a fee statement.
pub proof fn committed_gas_fits<T, E, S, L, R, A>(
    setup: SequentialSetup<T, E, S, L, R, A>,
    trace: Seq<SequentialStep<T, E::Error>>,
) where
    T: Transaction,
    E: ExecutorTask<Txn = T, View = S>,
    L: TransactionCommitHook<Txn = T>,
    R: Fn(&LatestView<'_, T, S>, &Bytes, &T::Layout) -> Replaced,
    A: Fn(&T::ApplyEntry, &T::FieldValue) -> Result<T::FieldValue, DelayedFieldFailure>,

    requires
        setup.committed(trace),
    ensures
        ({
            let fees = Seq::new(trace.len(), |j: int| trace[j].output.fee_statement);
            &&& total_execution_gas(fees) <= u64::MAX
            &&& total_io_gas(fees) <= u64::MAX
            &&& total_storage_gas(fees) <= u64::MAX
        }),
{
    let fees = Seq::new(trace.len(), |j: int| trace[j].output.fee_statement);
    if trace.len() > 0 {
        let n = trace.len() - 1;
        reveal(SequentialSetup::commits);
        assert(setup.commits(n, trace[n], trace_fees(trace.take(n))));
        assert(trace_fees(trace.take(n)).push(trace[n].output.fee_statement) =~= fees);
    } else {
        assert(fees =~= Seq::empty());
    }
}

/// What a committed transaction wrote under a key is patched if and only if it has a layout and is
/// no deletion: then the committed output holds the same write with other bytes, which are what
/// replacing the identifiers in its own bytes came to, on the state after the transaction.
pub proof fn committed_writes_are_patched<T, E, S, L, R, A>(
    setup: SequentialSetup<T, E, S, L, R, A>,
    trace: Seq<SequentialStep<T, E::Error>>,
    i: int,
    key: Key,
) where
    T: Transaction,
    E: ExecutorTask<Txn = T, View = S>,
    L: TransactionCommitHook<Txn = T>,
    R: Fn(&LatestView<'_, T, S>, &Bytes, &T::Layout) -> Replaced,
    A: Fn(&T::ApplyEntry, &T::FieldValue) -> Result<T::FieldValue, DelayedFieldFailure>,

    requires
        setup.committed(trace),
        0 <= i < trace.len(),
        trace[i].output.resource_write_set@.contains_key(key),
    ensures
        trace[i].output.materialized is Some,
        ({
            let patched = trace[i].output.materialized->0.patched_resource_write_set@;
            let write = trace[i].output.resource_write_set@[key];
            &&& patched.contains_key(key) <==> write.1 is Some && !(write.0.kind is Deletion)
            &&& patched.contains_key(key) ==> {
                &&& patched[key].kind == write.0.kind
                &&& patched[key].metadata == write.0.metadata
                &&& write.0.bytes is Some
                &&& exists|reply: (Bytes, HashSet<Identifier>)|
                    {
                        &&& #[trigger] call_ensures(
                            setup.replace,
                            (
                                &setup.view_after(i, &trace[i]),
                                &write.0.bytes->0,
                                &*write.1->0,
                            ),
                            Ok(reply),
                        )
                        &&& patched[key].bytes == Some(reply.0)
                    }
            }
        }),
{
    let (writes, reads) = lemma_materialized_maps(setup, trace, i);
    let view = setup.view_after(i, &trace[i]);
    each_write_with_a_layout_is_patched::<T, LatestView<'_, T, S>, R>(
        trace[i].output.resource_write_set@,
        view,
        setup.replace,
        writes,
        key,
    );
    each_sequential_read_is_patched::<T, LatestView<'_, T, S>, R>(
        trace[i].after.unsync_map.data(),
        trace[i].after.read_set@,
        trace[i].output.resource_write_set@.dom(),
        trace[i].output.delayed_field_change_set@.dom(),
        view,
        setup.replace,
        reads,
        key,
    );
    assert(!reads.contains_key(key));
}

/// The two parts of the patched writes of transaction `i`: what it wrote, and what it read.
proof fn lemma_materialized_maps<T, E, S, L, R, A>(
    setup: SequentialSetup<T, E, S, L, R, A>,
    trace: Seq<SequentialStep<T, E::Error>>,
    i: int,
) -> (r: (Map<Key, Arc<WriteOp>>, Map<Key, Arc<WriteOp>>)) where
    T: Transaction,
    E: ExecutorTask<Txn = T, View = S>,
    L: TransactionCommitHook<Txn = T>,
    R: Fn(&LatestView<'_, T, S>, &Bytes, &T::Layout) -> Replaced,
    A: Fn(&T::ApplyEntry, &T::FieldValue) -> Result<T::FieldValue, DelayedFieldFailure>,

    requires
        setup.committed(trace),
        0 <= i < trace.len(),
    ensures
        trace[i].output.materialized is Some,
        write_set_patched::<T, LatestView<'_, T, S>, R>(
            trace[i].output.resource_write_set@,
            setup.view_after(i, &trace[i]),
            setup.replace,
            r.0,
        ),
        reads_patched::<T, LatestView<'_, T, S>, R>(
            sequential_candidates::<T>(
                trace[i].after.unsync_map.data(),
                trace[i].after.read_set@,
                trace[i].output.resource_write_set@.dom(),
            ),
            trace[i].output.delayed_field_change_set@.dom(),
            setup.view_after(i, &trace[i]),
            setup.replace,
            r.1,
        ),
        trace[i].output.materialized->0.patched_resource_write_set@ == r.0.union_prefer_right(r.1),
{
    reveal(SequentialSetup::commits);
    assert(setup.commits(i, trace[i], trace_fees(trace.take(i))));
    let view = setup.view_after(i, &trace[i]);
    let materialized = trace[i].output.materialized->0;
    choose|writes: Map<Key, Arc<WriteOp>>, reads: Map<Key, Arc<WriteOp>>|
        {
            &&& #[trigger] write_set_patched::<T, LatestView<'_, T, S>, R>(
                trace[i].output.resource_write_set@,
                view,
                setup.replace,
                writes,
            )
            &&& #[trigger] reads_patched::<T, LatestView<'_, T, S>, R>(
                sequential_candidates::<T>(
                    trace[i].after.unsync_map.data(),
                    trace[i].after.read_set@,
                    trace[i].output.resource_write_set@.dom(),
                ),
                trace[i].output.delayed_field_change_set@.dom(),
                view,
                setup.replace,
                reads,
            )
            &&& materialized.patched_resource_write_set@ == writes.union_prefer_right(reads)
        }
}

/// What a committed transaction did not write under a key is patched if and only if it was read,
/// has a layout, and replacing its identifiers finds a field that the transaction changed: then the
/// committed output holds the value that was read with its identifiers replaced.
pub proof fn committed_reads_are_patched<T, E, S, L, R, A>(
    setup: SequentialSetup<T, E, S, L, R, A>,
    trace: Seq<SequentialStep<T, E::Error>>,
    i: int,
    key: Key,
) where
    T: Transaction,
    E: ExecutorTask<Txn = T, View = S>,
    L: TransactionCommitHook<Txn = T>,
    R: Fn(&LatestView<'_, T, S>, &Bytes, &T::Layout) -> Replaced,
    A: Fn(&T::ApplyEntry, &T::FieldValue) -> Result<T::FieldValue, DelayedFieldFailure>,

    requires
        setup.committed(trace),
        0 <= i < trace.len(),
        !trace[i].output.resource_write_set@.contains_key(key),
    ensures
        trace[i].output.materialized is Some,
        ({
            let patched = trace[i].output.materialized->0.patched_resource_write_set@;
            let data = trace[i].after.unsync_map.data();
            let read = trace[i].executed.read_set@.contains(key) && data.contains_key(key)
                && data[key].1 is Some;
            &&& patched.contains_key(key) ==> read
            &&& read ==> {
                &&& data[key].0.bytes is Some
                &&& exists|reply: (Bytes, HashSet<Identifier>)|
                    {
                        &&& #[trigger] call_ensures(
                            setup.replace,
                            (
                                &setup.view_after(i, &trace[i]),
                                &data[key].0.bytes->0,
                                &*data[key].1->0,
                            ),
                            Ok(reply),
                        )
                        &&& (exists|id: Identifier| #[trigger]
                            reply.1@.contains(id)
                                && trace[i].output.delayed_field_change_set@.contains_key(id))
                            <==> patched.contains_key(key)
                        &&& patched.contains_key(key) ==> {
                            &&& patched[key].kind == data[key].0.kind
                            &&& patched[key].metadata == data[key].0.metadata
                            &&& patched[key].bytes == Some(reply.0)
                        }
                    }
            }
        }),
{
    let (writes, reads) = lemma_materialized_maps(setup, trace, i);
    let view = setup.view_after(i, &trace[i]);
    let data = trace[i].after.unsync_map.data();
    let changes = trace[i].output.delayed_field_change_set@;
    transactions_are_executed_in_turn(setup, trace, i, key, 0);
    each_write_with_a_layout_is_patched::<T, LatestView<'_, T, S>, R>(
        trace[i].output.resource_write_set@,
        view,
        setup.replace,
        writes,
        key,
    );
    each_sequential_read_is_patched::<T, LatestView<'_, T, S>, R>(
        data,
        trace[i].after.read_set@,
        trace[i].output.resource_write_set@.dom(),
        changes.dom(),
        view,
        setup.replace,
        reads,
        key,
    );
    let patched = trace[i].output.materialized->0.patched_resource_write_set@;
    assert(patched.contains_key(key) == reads.contains_key(key));
    if trace[i].executed.read_set@.contains(key) && data.contains_key(key) && data[key].1 is Some {
        let reply = choose|reply: (Bytes, HashSet<Identifier>)|
            {
                &&& #[trigger] call_ensures(
                    setup.replace,
                    (&view, &data[key].0.bytes->0, &*data[key].1->0),
                    Ok(reply),
                )
                &&& (exists|id: Identifier| #[trigger]
                    reply.1@.contains(id) && changes.dom().contains(id)) <==> reads.contains_key(
                    key,
                )
                &&& reads.contains_key(key) ==> {
                    &&& reads[key].kind == data[key].0.kind
                    &&& reads[key].metadata == data[key].0.metadata
                    &&& reads[key].bytes == Some(reply.0)
                }
            };
        assert((exists|id: Identifier| #[trigger]
            reply.1@.contains(id) && changes.contains_key(id)) <==> (exists|id: Identifier|
            #[trigger]
            reply.1@.contains(id) && changes.dom().contains(id)));
        assert(call_ensures(
            setup.replace,
            (&view, &data[key].0.bytes->0, &*data[key].1->0),
            Ok(reply),
        ));
    }
}

/// The committed output holds the events of the transaction, in their order and with their headers.
/// The payload of one with a layout is what replacing its identifiers came to, and that of one
/// without is as it was. There are no writes from deltas.
pub proof fn committed_events_are_patched<T, E, S, L, R, A>(
    setup: SequentialSetup<T, E, S, L, R, A>,
    trace: Seq<SequentialStep<T, E::Error>>,
    i: int,
    j: int,
) where
    T: Transaction,
    E: ExecutorTask<Txn = T, View = S>,
    L: TransactionCommitHook<Txn = T>,
    R: Fn(&LatestView<'_, T, S>, &Bytes, &T::Layout) -> Replaced,
    A: Fn(&T::ApplyEntry, &T::FieldValue) -> Result<T::FieldValue, DelayedFieldFailure>,

    requires
        setup.committed(trace),
        0 <= i < trace.len(),
        0 <= j < trace[i].output.events@.len(),
    ensures
        trace[i].output.materialized is Some,
        trace[i].output.materialized->0.aggregator_v1_delta_writes@.len() == 0,
        ({
            let events = trace[i].output.events@;
            let patched = trace[i].output.materialized->0.patched_events@;
            &&& patched.len() == events.len()
            &&& patched[j].header == events[j].0.header
            &&& events[j].1 is None ==> patched[j].data@ == events[j].0.data@
            &&& events[j].1 matches Some(layout) ==> exists|
                payload: Bytes,
                reply: (Bytes, HashSet<Identifier>),
            |
                {
                    &&& #[trigger] call_ensures(
                        setup.replace,
                        (&setup.view_after(i, &trace[i]), &payload, &*layout),
                        Ok(reply),
                    )
                    &&& bytes_contents(payload) == events[j].0.data@
                    &&& patched[j].data@ == bytes_contents(reply.0)
                }
        }),
{
    reveal(SequentialSetup::commits);
    assert(setup.commits(i, trace[i], trace_fees(trace.take(i))));
    let materialized = trace[i].output.materialized->0;
    each_event_with_a_layout_is_patched::<T, LatestView<'_, T, S>, R>(
        trace[i].output.events@,
        setup.view_after(i, &trace[i]),
        setup.replace,
        materialized.patched_events@,
        j,
    );
}

/// Replacing identifiers for transaction `i` is done on its own view: the storage, the state that
/// it left, and its index.
pub proof fn identifiers_are_replaced_on_the_state_after<T, E, S, L, R, A>(
    setup: SequentialSetup<T, E, S, L, R, A>,
    step: SequentialStep<T, E::Error>,
    i: int,
) where
    T: Transaction,
    E: ExecutorTask<Txn = T, View = S>,
    L: TransactionCommitHook<Txn = T>,
    R: Fn(&LatestView<'_, T, S>, &Bytes, &T::Layout) -> Replaced,
    A: Fn(&T::ApplyEntry, &T::FieldValue) -> Result<T::FieldValue, DelayedFieldFailure>,

    ensures
        *setup.view_after(i, &step).base_view == setup.base_view,
        *setup.view_after(i, &step).state == step.after,
        setup.view_after(i, &step).txn_idx == i as TxnIndex,
{
}

/// A run that fails has committed all transactions before the one at which it fails, none of which
/// asked for the rest to be skipped or reached the limit. That one was executed in its turn.
pub proof fn failed_runs_have_a_trace<T, E, S, L, R, A>(
    setup: SequentialSetup<T, E, S, L, R, A>,
    error: Error<E::Error>,
) -> (r: (Seq<SequentialStep<T, E::Error>>, SequentialStep<T, E::Error>)) where
    T: Transaction,
    E: ExecutorTask<Txn = T, View = S>,
    L: TransactionCommitHook<Txn = T>,
    R: Fn(&LatestView<'_, T, S>, &Bytes, &T::Layout) -> Replaced,
    A: Fn(&T::ApplyEntry, &T::FieldValue) -> Result<T::FieldValue, DelayedFieldFailure>,

    requires
        setup.may_return(Err(error)),
    ensures
        setup.fails(r.0, r.1, error),
        setup.committed(r.0),
        r.0.len() < setup.block.len(),
        setup.executor.may_execute(
            setup.base_view,
            r.1.before,
            setup.block[r.0.len() as int],
            r.0.len() as TxnIndex,
            true,
            r.1.status,
            r.1.executed,
        ),
        r.1.before.read_set@ =~= Set::empty(),
        r.0.len() > 0 ==> {
            &&& !(r.0.last().status is SkipRest)
            &&& setup.maybe_block_gas_limit matches Some(max) ==> total_execution_gas(
                Seq::new(r.0.len(), |j: int| r.0[j].output.fee_statement),
            ) + total_io_gas(Seq::new(r.0.len(), |j: int| r.0[j].output.fee_statement)) < max
            &&& r.1.before.unsync_map == r.0.last().after.unsync_map
            &&& r.1.before.counter == r.0.last().after.counter
        },
        r.0.len() == 0 ==> {
            &&& r.1.before.unsync_map.data().dom() =~= Set::empty()
            &&& r.1.before.unsync_map.delayed_fields().dom() =~= Set::empty()
            &&& r.1.before.counter == 0
        },
{
    let (trace, step) = choose|
        trace: Seq<SequentialStep<T, E::Error>>,
        step: SequentialStep<T, E::Error>,
    |
        #[trigger]
        setup.fails(trace, step, error);
    let n = trace.len() as int;
    assert(trace.take(n) =~= trace);
    assert(trace_fees(trace) =~= Seq::new(trace.len(), |j: int| trace[j].output.fee_statement));
    (trace, step)
}

/// A run ends with the error of a transaction only if that transaction aborted with it, and the
/// listener has been told that it did.
pub proof fn user_errors_come_from_aborts<T, E, S, L, R, A>(
    setup: SequentialSetup<T, E, S, L, R, A>,
    trace: Seq<SequentialStep<T, E::Error>>,
    step: SequentialStep<T, E::Error>,
    error: Error<E::Error>,
) where
    T: Transaction,
    E: ExecutorTask<Txn = T, View = S>,
    L: TransactionCommitHook<Txn = T>,
    R: Fn(&LatestView<'_, T, S>, &Bytes, &T::Layout) -> Replaced,
    A: Fn(&T::ApplyEntry, &T::FieldValue) -> Result<T::FieldValue, DelayedFieldFailure>,

    requires
        setup.fails(trace, step, error),
    ensures
        match error {
            Error::UserError(err) => {
                &&& step.status matches ExecutionStatus::Abort(reason) && reason == err
                &&& err.category is ValidError
                &&& setup.commit_hook matches Some(hook) ==> hook.told_aborted(
                    trace.len() as TxnIndex,
                )
            },
            Error::Invariant(_) => !(step.status matches ExecutionStatus::Abort(reason)
                && reason.category is ValidError),
            Error::ModulePathReadWrite => false,
        },
{
}

/// A run whose machine gave up other than by a valid abort ends as one with unsound fields, and no
/// other does.
pub proof fn invalid_aborts_are_refused<T, E, S, L, R, A>(
    setup: SequentialSetup<T, E, S, L, R, A>,
    trace: Seq<SequentialStep<T, E::Error>>,
    step: SequentialStep<T, E::Error>,
    violation: InvariantViolation,
) where
    T: Transaction,
    E: ExecutorTask<Txn = T, View = S>,
    L: TransactionCommitHook<Txn = T>,
    R: Fn(&LatestView<'_, T, S>, &Bytes, &T::Layout) -> Replaced,
    A: Fn(&T::ApplyEntry, &T::FieldValue) -> Result<T::FieldValue, DelayedFieldFailure>,

    requires
        setup.fails(trace, step, Error::Invariant(violation)),
    ensures
        step.status is Abort <==> violation == InvariantViolation::DelayedFieldsError,
{
    assert(setup.violates(trace.len() as int, step, trace_fees(trace), violation));
    if let Some(output) = output_of(step.status) {
        lemma_output_reason(setup, trace, step, output, violation);
    }
}

/// What the rules that an output can break are.
proof fn lemma_output_reason<T, E, S, L, R, A>(
    setup: SequentialSetup<T, E, S, L, R, A>,
    trace: Seq<SequentialStep<T, E::Error>>,
    step: SequentialStep<T, E::Error>,
    output: TransactionOutput<T>,
    violation: InvariantViolation,
) where
    T: Transaction,
    E: ExecutorTask<Txn = T, View = S>,
    L: TransactionCommitHook<Txn = T>,
    R: Fn(&LatestView<'_, T, S>, &Bytes, &T::Layout) -> Replaced,
    A: Fn(&T::ApplyEntry, &T::FieldValue) -> Result<T::FieldValue, DelayedFieldFailure>,

    requires
        setup.violates(trace.len() as int, step, trace_fees(trace), violation),
        output_of(step.status) == Some(output),
    ensures
        violation != InvariantViolation::DelayedFieldsError,
        output.aggregator_v1_delta_set@.is_empty() ==> violation
            != InvariantViolation::DeltasNotMaterialized,
        output.aggregator_v1_delta_set@.is_empty() && fees_fit(
            trace_fees(trace).push(output.fee_statement),
        ) ==> violation != InvariantViolation::FeeOverflow,
{
    if output.aggregator_v1_delta_set@.is_empty() && fees_fit(
        trace_fees(trace).push(output.fee_statement),
    ) {
        if delayed_violation(
            step.executed.unsync_map.delayed_fields(),
            output.delayed_field_change_set@,
            setup.apply,
            violation,
        ) {
            let id = refused_changes_are_unsound(
                step.executed.unsync_map.delayed_fields(),
                output.delayed_field_change_set@,
                setup.apply,
                violation,
            );
        } else {
            lemma_materialization_reason(
                setup.view_after(trace.len() as int, &step),
                output,
                setup.replace,
                violation,
            );
        }
    }
}

/// An output with deltas is refused for that, and no other is. An output without deltas is refused
/// for its gas if and only if that, with the gas of all before it, does not fit in a fee statement.
pub proof fn deltas_and_gas_are_refused<T, E, S, L, R, A>(
    setup: SequentialSetup<T, E, S, L, R, A>,
    trace: Seq<SequentialStep<T, E::Error>>,
    step: SequentialStep<T, E::Error>,
    output: TransactionOutput<T>,
    violation: InvariantViolation,
) where
    T: Transaction,
    E: ExecutorTask<Txn = T, View = S>,
    L: TransactionCommitHook<Txn = T>,
    R: Fn(&LatestView<'_, T, S>, &Bytes, &T::Layout) -> Replaced,
    A: Fn(&T::ApplyEntry, &T::FieldValue) -> Result<T::FieldValue, DelayedFieldFailure>,

    requires
        setup.fails(trace, step, Error::Invariant(violation)),
        step.status == ExecutionStatus::<T, TransactionError<E::Error>>::Success(output)
            || step.status == ExecutionStatus::<T, TransactionError<E::Error>>::SkipRest(output),
    ensures
        ({
            let used = Seq::new(trace.len(), |j: int| trace[j].output.fee_statement).push(
                output.fee_statement,
            );
            let left_deltas = exists|key: Key| #[trigger]
                output.aggregator_v1_delta_set@.contains_key(key);
            let overflows = total_execution_gas(used) > u64::MAX || total_io_gas(used) > u64::MAX
                || total_storage_gas(used) > u64::MAX;
            &&& left_deltas <==> violation == InvariantViolation::DeltasNotMaterialized
            &&& !left_deltas ==> (overflows <==> violation == InvariantViolation::FeeOverflow)
        }),
{
    assert(trace_fees(trace) =~= Seq::new(trace.len(), |j: int| trace[j].output.fee_statement));
    lemma_has_a_key(output.aggregator_v1_delta_set@);
    lemma_output_reason(setup, trace, step, output, violation);
}

/// A map is empty if and only if it has no key.
proof fn lemma_has_a_key<V>(map: Map<Key, V>)
    ensures
        map.is_empty() <==> !(exists|key: Key| #[trigger] map.contains_key(key)),
{
    if !(exists|key: Key| #[trigger] map.contains_key(key)) {
        assert(map.dom() =~= Set::empty());
        assert(map =~= Map::empty());
    }
}

/// Materializing an output fails only for want of bytes, or because identifiers could not be
/// replaced.
proof fn lemma_materialization_reason<T: Transaction, S, R>(
    view: LatestView<'_, T, S>,
    output: TransactionOutput<T>,
    replace: R,
    violation: InvariantViolation,
) where R: Fn(&LatestView<'_, T, S>, &Bytes, &T::Layout) -> Replaced
    requires
        materialization_violation(view, output, replace, violation),
    ensures
        violation == InvariantViolation::ValueWithoutBytes || violation
            == InvariantViolation::ReplaceFailed,
{
    if write_set_violation::<T, LatestView<'_, T, S>, R>(
        output.resource_write_set@,
        view,
        replace,
        violation,
    ) {
        let key = refused_writes_have_a_reason::<T, LatestView<'_, T, S>, R>(
            output.resource_write_set@,
            view,
            replace,
            violation,
        );
    } else if events_violation::<T, LatestView<'_, T, S>, R>(
        output.events@,
        view,
        replace,
        violation,
    ) {
        let i = refused_events_have_a_reason::<T, LatestView<'_, T, S>, R>(
            output.events@,
            view,
            replace,
            violation,
        );
    } else {
        let key = refused_sequential_reads_have_a_reason::<T, LatestView<'_, T, S>, R>(
            view.state.unsync_map.data(),
            view.state.read_set@,
            output.resource_write_set@.dom(),
            view,
            replace,
            violation,
        );
    }
}

/// A run fails to replace identifiers only for a value with a layout that was written or read, or
/// for an event with a layout, whose identifiers could not be replaced; and for want of bytes only
/// for such a value without them.
pub proof fn values_are_refused_for_a_reason<T, E, S, L, R, A>(
    setup: SequentialSetup<T, E, S, L, R, A>,
    trace: Seq<SequentialStep<T, E::Error>>,
    step: SequentialStep<T, E::Error>,
    output: TransactionOutput<T>,
    violation: InvariantViolation,
) where
    T: Transaction,
    E: ExecutorTask<Txn = T, View = S>,
    L: TransactionCommitHook<Txn = T>,
    R: Fn(&LatestView<'_, T, S>, &Bytes, &T::Layout) -> Replaced,
    A: Fn(&T::ApplyEntry, &T::FieldValue) -> Result<T::FieldValue, DelayedFieldFailure>,

    requires
        setup.fails(trace, step, Error::Invariant(violation)),
        step.status == ExecutionStatus::<T, TransactionError<E::Error>>::Success(output)
            || step.status == ExecutionStatus::<T, TransactionError<E::Error>>::SkipRest(output),
        violation == InvariantViolation::ReplaceFailed || violation
            == InvariantViolation::ValueWithoutBytes,
    ensures
        ({
            let data = step.after.unsync_map.data();
            let view = setup.view_after(trace.len() as int, &step);
            ||| exists|key: Key|
                {
                    &&& #[trigger] output.resource_write_set@.contains_key(key)
                    &&& output.resource_write_set@[key].1 matches Some(layout)
                    &&& match output.resource_write_set@[key].0.bytes {
                        None => violation == InvariantViolation::ValueWithoutBytes,
                        Some(bytes) => call_ensures(
                            setup.replace,
                            (&view, &bytes, &*layout),
                            Err(DelayedFieldFailure),
                        ),
                    }
                }
            ||| exists|key: Key|
                {
                    &&& #[trigger] step.executed.read_set@.contains(key)
                    &&& !output.resource_write_set@.contains_key(key)
                    &&& data.contains_key(key)
                    &&& data[key].1 matches Some(layout)
                    &&& match data[key].0.bytes {
                        None => violation == InvariantViolation::ValueWithoutBytes,
                        Some(bytes) => call_ensures(
                            setup.replace,
                            (&view, &bytes, &*layout),
                            Err(DelayedFieldFailure),
                        ),
                    }
                }
            ||| exists|j: int, payload: Bytes|
                {
                    &&& 0 <= j < output.events@.len()
                    &&& output.events@[j].1 is Some
                    &&& violation == InvariantViolation::ReplaceFailed
                    &&& bytes_contents(payload) == output.events@[j].0.data@
                    &&& #[trigger] call_ensures(
                        setup.replace,
                        (&view, &payload, &*output.events@[j].1->0),
                        Err(DelayedFieldFailure),
                    )
                }
        }),
{
    let view = setup.view_after(trace.len() as int, &step);
    assert(setup.violates(trace.len() as int, step, trace_fees(trace), violation));
    if delayed_violation(
        step.executed.unsync_map.delayed_fields(),
        output.delayed_field_change_set@,
        setup.apply,
        violation,
    ) {
        let id = refused_changes_are_unsound(
            step.executed.unsync_map.delayed_fields(),
            output.delayed_field_change_set@,
            setup.apply,
            violation,
        );
    } else if write_set_violation::<T, LatestView<'_, T, S>, R>(
        output.resource_write_set@,
        view,
        setup.replace,
        violation,
    ) {
        let key = refused_writes_have_a_reason::<T, LatestView<'_, T, S>, R>(
            output.resource_write_set@,
            view,
            setup.replace,
            violation,
        );
        assert(output.resource_write_set@.contains_key(key));
    } else if events_violation::<T, LatestView<'_, T, S>, R>(
        output.events@,
        view,
        setup.replace,
        violation,
    ) {
        let j = refused_events_have_a_reason::<T, LatestView<'_, T, S>, R>(
            output.events@,
            view,
            setup.replace,
            violation,
        );
        let payload = choose|payload: Bytes|
            {
                &&& #[trigger] call_ensures(
                    setup.replace,
                    (&view, &payload, &*output.events@[j].1->0),
                    Err(DelayedFieldFailure),
                )
                &&& bytes_contents(payload) == output.events@[j].0.data@
            };
        assert(call_ensures(
            setup.replace,
            (&view, &payload, &*output.events@[j].1->0),
            Err(DelayedFieldFailure),
        ));
    } else {
        let key = refused_sequential_reads_have_a_reason::<T, LatestView<'_, T, S>, R>(
            view.state.unsync_map.data(),
            view.state.read_set@,
            output.resource_write_set@.dom(),
            view,
            setup.replace,
            violation,
        );
        assert(step.executed.read_set@.contains(key));
    }
}

/// A run that fails for any other rule fails for a change to a delayed field: it creates a field
/// that exists, or starts from one that does not, or does not apply to a value of its base.
pub proof fn changes_are_refused_for_a_reason<T, E, S, L, R, A>(
    setup: SequentialSetup<T, E, S, L, R, A>,
    trace: Seq<SequentialStep<T, E::Error>>,
    step: SequentialStep<T, E::Error>,
    output: TransactionOutput<T>,
    violation: InvariantViolation,
) -> (id: Identifier) where
    T: Transaction,
    E: ExecutorTask<Txn = T, View = S>,
    L: TransactionCommitHook<Txn = T>,
    R: Fn(&LatestView<'_, T, S>, &Bytes, &T::Layout) -> Replaced,
    A: Fn(&T::ApplyEntry, &T::FieldValue) -> Result<T::FieldValue, DelayedFieldFailure>,

    requires
        setup.fails(trace, step, Error::Invariant(violation)),
        step.status == ExecutionStatus::<T, TransactionError<E::Error>>::Success(output)
            || step.status == ExecutionStatus::<T, TransactionError<E::Error>>::SkipRest(output),
        violation != InvariantViolation::DeltasNotMaterialized,
        violation != InvariantViolation::FeeOverflow,
        violation != InvariantViolation::ReplaceFailed,
        violation != InvariantViolation::ValueWithoutBytes,
    ensures
        output.delayed_field_change_set@.contains_key(id),
        ({
            let fields = step.executed.unsync_map.delayed_fields();
            match output.delayed_field_change_set@[id] {
                DelayedChange::Create(_) => {
                    &&& violation == InvariantViolation::DuplicateDelayedField
                    &&& fields.contains_key(id)
                },
                DelayedChange::Apply(entry, ApplyBase::Previous(base_id)) => {
                    if fields.contains_key(base_id) {
                        &&& violation == InvariantViolation::DelayedApplyFailed
                        &&& call_ensures(
                            setup.apply,
                            (&*entry, &*fields[base_id]),
                            Err(DelayedFieldFailure),
                        )
                    } else {
                        violation == InvariantViolation::MissingDelayedField
                    }
                },
                DelayedChange::Apply(entry, ApplyBase::Current(base_id)) => {
                    ||| {
                        &&& violation == InvariantViolation::MissingDelayedField
                        &&& !fields.contains_key(base_id)
                        &&& output.delayed_field_change_set@.contains_key(base_id) ==> {
                            output.delayed_field_change_set@[base_id] matches DelayedChange::Apply(
                                _,
                                ApplyBase::Current(_),
                            )
                        }
                    }
                    ||| {
                        &&& violation == InvariantViolation::DelayedApplyFailed
                        &&& exists|base: Arc<T::FieldValue>| #[trigger]
                            call_ensures(setup.apply, (&*entry, &*base), Err(DelayedFieldFailure))
                    }
                },
            }
        }),
{
    let fields = step.executed.unsync_map.delayed_fields();
    let changes = output.delayed_field_change_set@;
    assert(setup.violates(trace.len() as int, step, trace_fees(trace), violation));
    if !delayed_violation(fields, changes, setup.apply, violation) {
        lemma_materialization_reason(
            setup.view_after(trace.len() as int, &step),
            output,
            setup.replace,
            violation,
        );
    }
    refused_changes_are_unsound(fields, changes, setup.apply, violation)
}

} // verus!
