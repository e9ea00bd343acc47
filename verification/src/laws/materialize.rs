//! What becomes of a committed transaction of a parallel run, and of its result.
use crate::errors::DelayedFieldFailure;
use crate::errors::InvariantViolation;
use crate::laws::patching::each_event_with_a_layout_is_patched;
use crate::laws::patching::each_parallel_read_is_patched;
use crate::laws::patching::each_write_with_a_layout_is_patched;
use crate::laws::patching::refused_events_have_a_reason;
use crate::laws::patching::refused_parallel_reads_have_a_reason;
use crate::laws::patching::refused_writes_have_a_reason;
use crate::parallel::materialize::committed_output;
use crate::parallel::materialize::committed_up_to;
use crate::parallel::materialize::result_stored;
use crate::parallel::materialize::results_after;
use crate::parallel::materialize::CommittedTxn;
use crate::patching::events_violation;
use crate::patching::write_set_violation;
use crate::patching::DataRead;
use crate::patching::Replaced;
use crate::raw_bytes::bytes_contents;
use crate::task::ExecutionStatus;
use crate::task::MaterializedOutput;
use crate::task::TransactionOutput;
use crate::types::Identifier;
use crate::types::Key;
use crate::types::Transaction;
use crate::types::TxnIndex;
use crate::types::WriteOp;
use bytes::Bytes;
use std::collections::HashMap;
use std::collections::HashSet;
use std::sync::Arc;
use vstd::prelude::*;

verus! {

/// The two parts of the patched writes of `txn`: what it wrote, and what it read.
proof fn lemma_parts<T: Transaction, V, R>(
    txn: CommittedTxn<'_, T>,
    latest_view: V,
    replace: R,
    materialized: MaterializedOutput<T>,
) -> (r: (Map<Key, Arc<WriteOp>>, Map<Key, Arc<WriteOp>>)) where
    R: Fn(&V, &Bytes, &T::Layout) -> Replaced,

    requires
        txn.materializes(latest_view, replace, materialized),
    ensures
        txn.writes_become(latest_view, replace, r.0),
        txn.reads_become(txn.written_keys(), latest_view, replace, r.1),
        materialized.patched_resource_write_set@ == r.0.union_prefer_right(r.1),
{
    choose|writes: Map<Key, Arc<WriteOp>>, reads: Map<Key, Arc<WriteOp>>|
        {
            &&& #[trigger] txn.writes_become(latest_view, replace, writes)
            &&& #[trigger] txn.reads_become(txn.written_keys(), latest_view, replace, reads)
            &&& materialized.patched_resource_write_set@ == writes.union_prefer_right(reads)
        }
}

/// Nothing that was read is patched under a key that was written.
proof fn lemma_written_is_not_read<T: Transaction, V, R>(
    txn: CommittedTxn<'_, T>,
    latest_view: V,
    replace: R,
    reads: Map<Key, Arc<WriteOp>>,
    key: Key,
) where R: Fn(&V, &Bytes, &T::Layout) -> Replaced
    requires
        txn.reads_become(txn.written_keys(), latest_view, replace, reads),
        txn.written_keys().contains(key),
    ensures
        !reads.contains_key(key),
{
    if let (Some(ids), Some(read_set)) = (txn.delayed_field_keys, txn.read_set) {
        each_parallel_read_is_patched::<T, V, R>(
            read_set@,
            txn.written_keys(),
            ids@,
            latest_view,
            replace,
            reads,
            key,
        );
    }
}

/// What a committed transaction wrote under a key is patched if and only if it has a layout and is
/// no deletion. It is then the same write with other bytes: what replacing the identifiers in its
/// own came to. No writes from deltas are there yet.
pub proof fn written_resources_are_patched<T: Transaction, V, R>(
    txn: CommittedTxn<'_, T>,
    writes: &HashMap<Key, (Arc<WriteOp>, Option<Arc<T::Layout>>)>,
    latest_view: V,
    replace: R,
    materialized: MaterializedOutput<T>,
    key: Key,
) where R: Fn(&V, &Bytes, &T::Layout) -> Replaced
    requires
        txn.materializes(latest_view, replace, materialized),
        txn.resource_write_set == Some(writes),
        writes@.contains_key(key),
    ensures
        materialized.aggregator_v1_delta_writes@.len() == 0,
        ({
            let patched = materialized.patched_resource_write_set@;
            let write = writes@[key];
            &&& patched.contains_key(key) <==> write.1 is Some && !(write.0.kind is Deletion)
            &&& patched.contains_key(key) ==> {
                &&& patched[key].kind == write.0.kind
                &&& patched[key].metadata == write.0.metadata
                &&& write.0.bytes is Some
                &&& exists|reply: (Bytes, HashSet<Identifier>)|
                    {
                        &&& #[trigger] call_ensures(
                            replace,
                            (&latest_view, &write.0.bytes->0, &*write.1->0),
                            Ok(reply),
                        )
                        &&& patched[key].bytes == Some(reply.0)
                    }
            }
        }),
{
    let (written, reads) = lemma_parts(txn, latest_view, replace, materialized);
    each_write_with_a_layout_is_patched::<T, V, R>(writes@, latest_view, replace, written, key);
    lemma_written_is_not_read(txn, latest_view, replace, reads, key);
    assert(materialized.patched_resource_write_set@.contains_key(key) == written.contains_key(key));
}

/// What a committed transaction did not write under a key is patched only if it was read in full
/// with a layout. Such a value is patched if and only if replacing its identifiers finds a field
/// that the transaction changed; it is then written with its identifiers replaced.
pub proof fn read_resources_are_patched<T: Transaction, V, R>(
    txn: CommittedTxn<'_, T>,
    ids: &HashSet<Identifier>,
    read_set: &HashMap<Key, DataRead<T>>,
    latest_view: V,
    replace: R,
    materialized: MaterializedOutput<T>,
    key: Key,
) where R: Fn(&V, &Bytes, &T::Layout) -> Replaced
    requires
        txn.materializes(latest_view, replace, materialized),
        txn.resource_write_set matches Some(writes) ==> !writes@.contains_key(key),
        txn.delayed_field_keys == Some(ids),
        txn.read_set == Some(read_set),
    ensures
        ({
            let patched = materialized.patched_resource_write_set@;
            &&& patched.contains_key(key) ==> read_set@.contains_key(key) && (
            read_set@[key] matches DataRead::Versioned(_, _, Some(_)))
            &&& read_set@.contains_key(key) ==> (read_set@[key] matches DataRead::Versioned(
                _,
                value,
                Some(layout),
            ) ==> {
                &&& value.bytes is Some
                &&& exists|reply: (Bytes, HashSet<Identifier>)|
                    {
                        &&& #[trigger] call_ensures(
                            replace,
                            (&latest_view, &value.bytes->0, &*layout),
                            Ok(reply),
                        )
                        &&& (exists|id: Identifier| #[trigger]
                            reply.1@.contains(id) && ids@.contains(id)) <==> patched.contains_key(
                            key,
                        )
                        &&& patched.contains_key(key) ==> {
                            &&& patched[key].kind == value.kind
                            &&& patched[key].metadata == value.metadata
                            &&& patched[key].bytes == Some(reply.0)
                        }
                    }
            })
        }),
{
    let (written, reads) = lemma_parts(txn, latest_view, replace, materialized);
    if let Some(writes) = txn.resource_write_set {
        each_write_with_a_layout_is_patched::<T, V, R>(writes@, latest_view, replace, written, key);
    }
    each_parallel_read_is_patched::<T, V, R>(
        read_set@,
        txn.written_keys(),
        ids@,
        latest_view,
        replace,
        reads,
        key,
    );
    let patched = materialized.patched_resource_write_set@;
    assert(patched.contains_key(key) == reads.contains_key(key));
    assert(patched.contains_key(key) ==> patched[key] == reads[key]);
}

/// Without recorded writes, nothing is patched under a key as written; without recorded reads or
/// changes to delayed fields, nothing as read. A transaction that has neither patches nothing.
pub proof fn nothing_is_patched_without_a_record<T: Transaction, V, R>(
    txn: CommittedTxn<'_, T>,
    latest_view: V,
    replace: R,
    materialized: MaterializedOutput<T>,
    key: Key,
) where R: Fn(&V, &Bytes, &T::Layout) -> Replaced
    requires
        txn.materializes(latest_view, replace, materialized),
        materialized.patched_resource_write_set@.contains_key(key),
    ensures
        ({
            ||| txn.resource_write_set matches Some(writes) && writes@.contains_key(key)
            ||| {
                &&& txn.delayed_field_keys is Some
                &&& txn.read_set matches Some(reads) && reads@.contains_key(key)
            }
        }),
{
    let (written, reads) = lemma_parts(txn, latest_view, replace, materialized);
    assert(written.contains_key(key) || reads.contains_key(key));
    if written.contains_key(key) {
        if let Some(writes) = txn.resource_write_set {
            each_write_with_a_layout_is_patched::<T, V, R>(
                writes@,
                latest_view,
                replace,
                written,
                key,
            );
        }
    } else if let (Some(ids), Some(read_set)) = (txn.delayed_field_keys, txn.read_set) {
        each_parallel_read_is_patched::<T, V, R>(
            read_set@,
            txn.written_keys(),
            ids@,
            latest_view,
            replace,
            reads,
            key,
        );
    }
}

/// The events of a committed transaction stay in their order and keep their headers. The payload of
/// one with a layout is what replacing its identifiers came to, and that of one without is as it
/// was.
pub proof fn emitted_events_are_patched<T: Transaction, V, R>(
    txn: CommittedTxn<'_, T>,
    latest_view: V,
    replace: R,
    materialized: MaterializedOutput<T>,
    j: int,
) where R: Fn(&V, &Bytes, &T::Layout) -> Replaced
    requires
        txn.materializes(latest_view, replace, materialized),
        0 <= j < txn.events@.len(),
    ensures
        ({
            let patched = materialized.patched_events@;
            let event = txn.events@[j];
            &&& patched.len() == txn.events@.len()
            &&& patched[j].header == event.0.header
            &&& event.1 is None ==> patched[j].data@ == event.0.data@
            &&& event.1 matches Some(layout) ==> exists|
                payload: Bytes,
                reply: (Bytes, HashSet<Identifier>),
            |
                {
                    &&& #[trigger] call_ensures(
                        replace,
                        (&latest_view, &payload, &*layout),
                        Ok(reply),
                    )
                    &&& bytes_contents(payload) == event.0.data@
                    &&& patched[j].data@ == bytes_contents(reply.0)
                }
        }),
{
    each_event_with_a_layout_is_patched::<T, V, R>(
        txn.events@,
        latest_view,
        replace,
        materialized.patched_events@,
        j,
    );
}

/// A committed transaction is refused only for want of bytes, or because identifiers could not be
/// replaced: in a write with a layout that is no deletion, in a value that was read in full with a
/// layout and not written, where fields were changed, or in an event with a layout.
pub proof fn commits_are_refused_for_a_value<T: Transaction, V, R>(
    txn: CommittedTxn<'_, T>,
    latest_view: V,
    replace: R,
    violation: InvariantViolation,
) -> (subject: u64) where R: Fn(&V, &Bytes, &T::Layout) -> Replaced
    requires
        txn.violates(latest_view, replace, violation),
    ensures
        violation == InvariantViolation::ValueWithoutBytes || violation
            == InvariantViolation::ReplaceFailed,
        ({
            ||| {
                &&& txn.resource_write_set matches Some(writes)
                &&& writes@.contains_key(subject)
                &&& writes@[subject].1 matches Some(layout)
                &&& !(writes@[subject].0.kind is Deletion)
                &&& match writes@[subject].0.bytes {
                    None => violation == InvariantViolation::ValueWithoutBytes,
                    Some(bytes) => violation == InvariantViolation::ReplaceFailed && call_ensures(
                        replace,
                        (&latest_view, &bytes, &*layout),
                        Err(DelayedFieldFailure),
                    ),
                }
            }
            ||| {
                &&& txn.delayed_field_keys is Some
                &&& txn.resource_write_set matches Some(writes) ==> !writes@.contains_key(subject)
                &&& txn.read_set matches Some(reads)
                &&& reads@.contains_key(subject)
                &&& reads@[subject] matches DataRead::Versioned(_, value, Some(layout))
                &&& match value.bytes {
                    None => violation == InvariantViolation::ValueWithoutBytes,
                    Some(bytes) => violation == InvariantViolation::ReplaceFailed && call_ensures(
                        replace,
                        (&latest_view, &bytes, &*layout),
                        Err(DelayedFieldFailure),
                    ),
                }
            }
            ||| {
                &&& subject < txn.events@.len()
                &&& violation == InvariantViolation::ReplaceFailed
                &&& txn.events@[subject as int].1 matches Some(layout)
                &&& exists|payload: Bytes|
                    {
                        &&& #[trigger] call_ensures(
                            replace,
                            (&latest_view, &payload, &*layout),
                            Err(DelayedFieldFailure),
                        )
                        &&& bytes_contents(payload) == txn.events@[subject as int].0.data@
                    }
            }
        }),
{
    if txn.resource_write_set matches Some(writes) && write_set_violation::<T, V, R>(
        writes@,
        latest_view,
        replace,
        violation,
    ) {
        refused_writes_have_a_reason::<T, V, R>(
            txn.resource_write_set->0@,
            latest_view,
            replace,
            violation,
        )
    } else if events_violation::<T, V, R>(txn.events@, latest_view, replace, violation) {
        let i = refused_events_have_a_reason::<T, V, R>(
            txn.events@,
            latest_view,
            replace,
            violation,
        );
        assert(txn.events@.len() == txn.events.len());
        i as u64
    } else {
        refused_parallel_reads_have_a_reason::<T, V, R>(
            txn.read_set->0@,
            txn.written_keys(),
            latest_view,
            replace,
            violation,
        )
    }
}

/// A transaction that came to an output is committed with it, field by field, and with what is only
/// known at commit: the writes that its deltas amount to, and its patched writes and events.
pub proof fn outputs_are_committed_whole<T: Transaction, D>(
    output: TransactionOutput<T>,
    skips_rest: bool,
    materialized: MaterializedOutput<T>,
    delta_writes: Vec<(Key, WriteOp)>,
)
    ensures
        ({
            let status = if skips_rest {
                ExecutionStatus::<T, D>::SkipRest(output)
            } else {
                ExecutionStatus::Success(output)
            };
            &&& committed_output(status, materialized, delta_writes) matches Some(committed)
            &&& committed.resource_write_set == output.resource_write_set
            &&& committed.aggregator_v1_write_set == output.aggregator_v1_write_set
            &&& committed.module_write_set == output.module_write_set
            &&& committed.aggregator_v1_delta_set == output.aggregator_v1_delta_set
            &&& committed.delayed_field_change_set == output.delayed_field_change_set
            &&& committed.events == output.events
            &&& committed.fee_statement == output.fee_statement
            &&& committed.skipped == output.skipped
            &&& committed.materialized matches Some(m)
            &&& m.aggregator_v1_delta_writes == delta_writes
            &&& m.patched_resource_write_set == materialized.patched_resource_write_set
            &&& m.patched_events == materialized.patched_events
        }),
{
}

/// A transaction that aborted is committed without an output.
pub proof fn aborts_have_no_output<T: Transaction, D>(
    err: D,
    materialized: MaterializedOutput<T>,
    delta_writes: Vec<(Key, WriteOp)>,
)
    ensures
        committed_output(ExecutionStatus::<T, D>::Abort(err), materialized, delta_writes) is None,
{
}

/// The output of a transaction takes the place of that transaction among the results, and no other.
/// Without an output the results stay as they are.
pub proof fn outputs_take_their_place<T: Transaction>(
    results: Seq<TransactionOutput<T>>,
    txn_idx: TxnIndex,
    output: TransactionOutput<T>,
    i: int,
)
    requires
        txn_idx < results.len(),
        0 <= i < results.len(),
    ensures
        result_stored(results, txn_idx, Some(output)).len() == results.len(),
        result_stored(results, txn_idx, Some(output))[txn_idx as int] == output,
        i != txn_idx ==> result_stored(results, txn_idx, Some(output))[i] == results[i],
        result_stored(results, txn_idx, None) == results,
{
}

/// When transactions have ended their commits one after the other, the result of each is the output
/// with which it ended its last commit that had one, and the result of any other is what it was.
pub proof fn the_last_output_of_each_stays<T: Transaction>(
    results: Seq<TransactionOutput<T>>,
    commits: Seq<(TxnIndex, Option<TransactionOutput<T>>)>,
    k: int,
    i: int,
)
    requires
        forall|m: int|
            #![trigger commits[m]]
            0 <= m < commits.len() ==> commits[m].0 < results.len(),
        0 <= i < results.len(),
    ensures
        results_after(results, commits).len() == results.len(),
        (forall|m: int|
            #![trigger commits[m]]
            0 <= m < commits.len() && commits[m].0 == i ==> commits[m].1 is None) ==> results_after(
            results,
            commits,
        )[i] == results[i],
        0 <= k < commits.len() && commits[k].0 == i && commits[k].1 is Some && (forall|m: int|
            #![trigger commits[m]]
            k < m < commits.len() && commits[m].0 == i ==> commits[m].1 is None) ==> results_after(
            results,
            commits,
        )[i] == commits[k].1->0,
    decreases commits.len(),
{
    if commits.len() > 0 {
        let before = commits.drop_last();
        let last = commits.len() - 1;
        assert(commits[last] == commits.last());
        assert forall|m: int| #![trigger before[m]] 0 <= m < before.len() implies before[m]
            == commits[m] by {}
        the_last_output_of_each_stays(results, before, k, i);
        if forall|m: int|
            #![trigger commits[m]]
            0 <= m < commits.len() && commits[m].0 == i ==> commits[m].1 is None {
            assert forall|m: int|
                #![trigger before[m]]
                0 <= m < before.len() && before[m].0 == i implies before[m].1 is None by {
                assert(commits[m] == before[m]);
            }
        }
        if 0 <= k < last && (forall|m: int|
            #![trigger commits[m]]
            k < m < commits.len() && commits[m].0 == i ==> commits[m].1 is None) {
            assert(before[k] == commits[k]);
            assert forall|m: int|
                #![trigger before[m]]
                k < m < before.len() && before[m].0 == i implies before[m].1 is None by {
                assert(commits[m] == before[m]);
            }
        }
    }
}

/// Where the first results are committed and the rest skipped, no result is both: the committed
/// ones have what is only known at commit, and the skipped ones have neither that nor anything
/// else.
pub proof fn skipped_results_are_empty<T: Transaction>(
    outputs: Seq<TransactionOutput<T>>,
    k: int,
    i: int,
)
    requires
        committed_up_to(outputs, k),
        0 <= i < outputs.len(),
    ensures
        0 <= k <= outputs.len(),
        i < k <==> outputs[i].materialized is Some,
        i >= k ==> {
            &&& outputs[i].skipped
            &&& outputs[i].resource_write_set@.dom() =~= Set::empty()
            &&& outputs[i].aggregator_v1_write_set@.dom() =~= Set::empty()
            &&& outputs[i].module_write_set@.dom() =~= Set::empty()
            &&& outputs[i].aggregator_v1_delta_set@.dom() =~= Set::empty()
            &&& outputs[i].delayed_field_change_set@.dom() =~= Set::empty()
            &&& outputs[i].events@.len() == 0
            &&& outputs[i].fee_statement.execution_gas_used == 0
            &&& outputs[i].fee_statement.io_gas_used == 0
            &&& outputs[i].fee_statement.storage_gas_used == 0
        },
{
}

} // verus!
