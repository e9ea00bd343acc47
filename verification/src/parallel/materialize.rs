//! Materializing the output of a transaction that came out of the commit queue.
use crate::errors::InvariantViolation;
use crate::patching::events_patched;
use crate::patching::events_violation;
use crate::patching::extend_writes;
use crate::patching::key_set;
use crate::patching::map_id_to_values_events;
use crate::patching::map_id_to_values_in_read_set_parallel;
use crate::patching::map_id_to_values_in_write_set;
use crate::patching::parallel_candidates;
use crate::patching::reads_patched;
use crate::patching::reads_violation;
use crate::patching::write_set_patched;
use crate::patching::write_set_violation;
use crate::patching::DataRead;
use crate::patching::Replaced;
use crate::task::ExecutionStatus;
use crate::task::MaterializedOutput;
use crate::task::TransactionOutput;
use crate::txn_commit_hook::TransactionCommitHook;
use crate::types::Event;
use crate::types::Identifier;
use crate::types::Key;
use crate::types::Transaction;
use crate::types::TxnIndex;
use crate::types::WriteOp;
use bytes::Bytes;
use std::collections::HashMap;
use std::collections::HashSet;
use std::sync::Arc;
use vstd::prelude::*;

verus! {

broadcast use vstd::std_specs::hash::group_hash_axioms;

/// What was recorded of the execution of a transaction that is committed. A transaction that
/// aborted has no writes and changes no delayed fields.
pub struct CommittedTxn<'a, T: Transaction> {
    pub resource_write_set: Option<&'a HashMap<Key, (Arc<WriteOp>, Option<Arc<T::Layout>>)>>,
    /// The delayed fields that it changed.
    pub delayed_field_keys: Option<&'a HashSet<Identifier>>,
    /// The values that it read and that hold delayed fields.
    pub read_set: Option<&'a HashMap<Key, DataRead<T>>>,
    pub events: &'a Vec<(Event<T>, Option<Arc<T::Layout>>)>,
}

impl<'a, T: Transaction> CommittedTxn<'a, T> {
    /// The keys of the resources that the transaction wrote, deletions among them.
    pub open spec fn written_keys(&self) -> Set<Key> {
        match self.resource_write_set {
            Some(writes) => writes@.dom(),
            None => Set::empty(),
        }
    }

    /// `patched` are the writes that hold identifiers, with these replaced.
    pub open spec fn writes_become<V, R>(
        &self,
        latest_view: V,
        replace: R,
        patched: Map<Key, Arc<WriteOp>>,
    ) -> bool where R: Fn(&V, &Bytes, &T::Layout) -> Replaced {
        match self.resource_write_set {
            Some(writes) => write_set_patched::<T, V, R>(writes@, latest_view, replace, patched),
            None => patched.is_empty(),
        }
    }

    /// `patched` are the values that were read, are not under `write_set_keys`, and hold a delayed
    /// field that was changed, with their identifiers replaced.
    pub open spec fn reads_become<V, R>(
        &self,
        write_set_keys: Set<Key>,
        latest_view: V,
        replace: R,
        patched: Map<Key, Arc<WriteOp>>,
    ) -> bool where R: Fn(&V, &Bytes, &T::Layout) -> Replaced {
        match (self.delayed_field_keys, self.read_set) {
            (Some(ids), Some(reads)) => reads_patched::<T, V, R>(
                parallel_candidates(reads@, write_set_keys),
                ids@,
                latest_view,
                replace,
                patched,
            ),
            _ => patched.is_empty(),
        }
    }

    /// `materialized` is what the transaction comes to, but for its deltas.
    pub open spec fn materializes<V, R>(
        &self,
        latest_view: V,
        replace: R,
        materialized: MaterializedOutput<T>,
    ) -> bool where R: Fn(&V, &Bytes, &T::Layout) -> Replaced {
        &&& materialized.aggregator_v1_delta_writes@.len() == 0
        &&& exists|writes: Map<Key, Arc<WriteOp>>, reads: Map<Key, Arc<WriteOp>>|
            {
                &&& #[trigger] self.writes_become(latest_view, replace, writes)
                &&& #[trigger] self.reads_become(self.written_keys(), latest_view, replace, reads)
                &&& materialized.patched_resource_write_set@ == writes.union_prefer_right(reads)
            }
        &&& events_patched::<T, V, R>(
            self.events@,
            latest_view,
            replace,
            materialized.patched_events@,
        )
    }

    /// Materializing the transaction breaks rule `violation`.
    pub open spec fn violates<V, R>(
        &self,
        latest_view: V,
        replace: R,
        violation: InvariantViolation,
    ) -> bool where R: Fn(&V, &Bytes, &T::Layout) -> Replaced {
        ||| self.resource_write_set matches Some(writes) && write_set_violation::<T, V, R>(
            writes@,
            latest_view,
            replace,
            violation,
        )
        ||| {
            &&& self.delayed_field_keys is Some
            &&& self.read_set matches Some(reads)
            &&& exists|writes: Map<Key, Arc<WriteOp>>| #[trigger]
                self.writes_become(latest_view, replace, writes)
            &&& reads_violation::<T, V, R>(
                parallel_candidates(reads@, self.written_keys()),
                latest_view,
                replace,
                violation,
            )
        }
        ||| events_violation::<T, V, R>(self.events@, latest_view, replace, violation)
    }

    /// Replaces the identifiers in what the transaction wrote, in what it read, did not write, and
    /// changed through a delayed field, and in what it emitted.
    pub fn materialize_txn_commit<V, R>(&self, latest_view: &V, replace: &R) -> (r: Result<
        MaterializedOutput<T>,
        InvariantViolation,
    >) where R: Fn(&V, &Bytes, &T::Layout) -> Replaced
        requires
            forall|bytes: &Bytes, layout: &T::Layout| #[trigger]
                call_requires(*replace, (latest_view, bytes, layout)),
        ensures
            r matches Ok(materialized) ==> self.materializes(*latest_view, *replace, materialized),
            r matches Err(violation) ==> self.violates(*latest_view, *replace, violation),
    {
        let (mut patched_resource_write_set, _) = match map_id_to_values_in_write_set::<T, V, R>(
            self.resource_write_set,
            latest_view,
            replace,
        ) {
            Ok(patched) => patched,
            Err(violation) => {
                return Err(violation);
            },
        };
        let write_set_keys: HashSet<Key> = match self.resource_write_set {
            Some(writes) => key_set(writes),
            None => HashSet::new(),
        };
        assert(self.writes_become(*latest_view, *replace, patched_resource_write_set@));
        let patched_reads = match map_id_to_values_in_read_set_parallel::<T, V, R>(
            self.delayed_field_keys,
            &write_set_keys,
            self.read_set,
            latest_view,
            replace,
        ) {
            Ok(patched) => patched,
            Err(violation) => {
                return Err(violation);
            },
        };
        assert(self.reads_become(
            self.written_keys(),
            *latest_view,
            *replace,
            patched_reads@,
        ));
        extend_writes(&mut patched_resource_write_set, &patched_reads);
        let patched_events = match map_id_to_values_events::<T, V, R>(
            self.events,
            latest_view,
            replace,
        ) {
            Ok(patched) => patched,
            Err(violation) => {
                return Err(violation);
            },
        };
        Ok(
            MaterializedOutput {
                aggregator_v1_delta_writes: Vec::new(),
                patched_resource_write_set,
                patched_events,
            },
        )
    }
}

/// `output` with what is only known at commit.
pub open spec fn with_materialized<T: Transaction>(
    output: TransactionOutput<T>,
    materialized: MaterializedOutput<T>,
    delta_writes: Vec<(Key, WriteOp)>,
) -> TransactionOutput<T> {
    TransactionOutput {
        materialized: Some(
            MaterializedOutput { aggregator_v1_delta_writes: delta_writes, ..materialized },
        ),
        ..output
    }
}

/// The output of a transaction that ended with `status`, as it is committed. One that aborted has
/// none.
pub open spec fn committed_output<T: Transaction, D>(
    status: ExecutionStatus<T, D>,
    materialized: MaterializedOutput<T>,
    delta_writes: Vec<(Key, WriteOp)>,
) -> Option<TransactionOutput<T>> {
    match status {
        ExecutionStatus::Success(output) => Some(
            with_materialized(output, materialized, delta_writes),
        ),
        ExecutionStatus::SkipRest(output) => Some(
            with_materialized(output, materialized, delta_writes),
        ),
        ExecutionStatus::Abort(_) => None,
    }
}

/// Completes the output of transaction `txn_idx`, which ended with `status`, and tells the listener
/// that it was committed, or that it aborted the block.
pub fn complete_txn_commit<T, D, L>(
    txn_idx: TxnIndex,
    status: ExecutionStatus<T, D>,
    materialized: MaterializedOutput<T>,
    delta_writes: Vec<(Key, WriteOp)>,
    commit_hook: &Option<L>,
) -> (r: Option<TransactionOutput<T>>) where T: Transaction, L: TransactionCommitHook<Txn = T>
    requires
        *commit_hook matches Some(hook) ==> match committed_output(
            status,
            materialized,
            delta_writes,
        ) {
            Some(output) => hook.expects_commit(txn_idx, output),
            None => hook.expects_abort(txn_idx),
        },
    ensures
        r == committed_output(status, materialized, delta_writes),
        *commit_hook matches Some(hook) ==> match r {
            Some(output) => hook.told_committed(txn_idx, output),
            None => hook.told_aborted(txn_idx),
        },
{
    match status {
        ExecutionStatus::Success(output) | ExecutionStatus::SkipRest(output) => {
            let materialized = MaterializedOutput {
                aggregator_v1_delta_writes: delta_writes,
                ..materialized
            };
            let completed = TransactionOutput { materialized: Some(materialized), ..output };
            if let Some(hook) = commit_hook {
                hook.on_transaction_committed(txn_idx, &completed);
            }
            Some(completed)
        },
        ExecutionStatus::Abort(_) => {
            if let Some(hook) = commit_hook {
                hook.on_execution_aborted(txn_idx);
            }
            None
        },
    }
}

/// What `results` become when the commit of transaction `txn_idx` ends with `output`.
pub open spec fn result_stored<T: Transaction>(
    results: Seq<TransactionOutput<T>>,
    txn_idx: TxnIndex,
    output: Option<TransactionOutput<T>>,
) -> Seq<TransactionOutput<T>> {
    match output {
        Some(output) => results.update(txn_idx as int, output),
        None => results,
    }
}

/// Puts the output of transaction `txn_idx` in its place among the results. One that aborted leaves
/// them as they are.
pub fn store_txn_output<T: Transaction>(
    txn_idx: TxnIndex,
    output: Option<TransactionOutput<T>>,
    final_results: &mut Vec<TransactionOutput<T>>,
)
    requires
        txn_idx < old(final_results)@.len(),
    ensures
        final(final_results)@ == result_stored(old(final_results)@, txn_idx, output),
{
    if let Some(output) = output {
        final_results[txn_idx as usize] = output;
    }
}

/// What `results` become when transactions end their commits one after the other, each with its
/// index and the output that it has, if it did not abort.
pub open spec fn results_after<T: Transaction>(
    results: Seq<TransactionOutput<T>>,
    commits: Seq<(TxnIndex, Option<TransactionOutput<T>>)>,
) -> Seq<TransactionOutput<T>>
    decreases commits.len(),
{
    if commits.len() == 0 {
        results
    } else {
        result_stored(
            results_after(results, commits.drop_last()),
            commits.last().0,
            commits.last().1,
        )
    }
}

/// A transaction that has not ended its commit, or that aborted, leaves the result that was there.
pub proof fn other_results_stay<T: Transaction>(
    results: Seq<TransactionOutput<T>>,
    commits: Seq<(TxnIndex, Option<TransactionOutput<T>>)>,
    i: int,
)
    requires
        forall|k: int|
            #![trigger commits[k]]
            0 <= k < commits.len() ==> commits[k].0 < results.len() && (commits[k].0 == i
                ==> commits[k].1 is None),
        0 <= i < results.len(),
    ensures
        results_after(results, commits).len() == results.len(),
        results_after(results, commits)[i] == results[i],
    decreases commits.len(),
{
    if commits.len() > 0 {
        let before = commits.drop_last();
        assert(commits[commits.len() - 1] == commits.last());
        assert forall|k: int| #![trigger before[k]] 0 <= k < before.len() implies before[k].0
            < results.len() && (before[k].0 == i ==> before[k].1 is None) by {
            assert(commits[k] == before[k]);
        }
        other_results_stay(results, before, i);
    }
}

/// The result of a transaction that ends its commit once is its output, in whatever order the
/// transactions come.
pub proof fn results_do_not_depend_on_the_order<T: Transaction>(
    results: Seq<TransactionOutput<T>>,
    commits: Seq<(TxnIndex, Option<TransactionOutput<T>>)>,
    k: int,
)
    requires
        forall|m: int|
            #![trigger commits[m]]
            0 <= m < commits.len() ==> commits[m].0 < results.len() && (m != k ==> commits[m].0
                != commits[k].0),
        0 <= k < commits.len(),
        commits[k].1 is Some,
    ensures
        results_after(results, commits).len() == results.len(),
        results_after(results, commits)[commits[k].0 as int] == commits[k].1->0,
    decreases commits.len(),
{
    let before = commits.drop_last();
    let last = commits.len() - 1;
    assert(commits[last] == commits.last());
    assert forall|m: int| #![trigger before[m]] 0 <= m < before.len() implies commits[m]
        == before[m] by {}
    if k < last {
        assert(before[k] == commits[k]);
        results_do_not_depend_on_the_order(results, before, k);
    } else {
        lemma_results_len(results, before);
    }
}

proof fn lemma_results_len<T: Transaction>(
    results: Seq<TransactionOutput<T>>,
    commits: Seq<(TxnIndex, Option<TransactionOutput<T>>)>,
)
    requires
        forall|m: int|
            #![trigger commits[m]]
            0 <= m < commits.len() ==> commits[m].0 < results.len(),
    ensures
        results_after(results, commits).len() == results.len(),
    decreases commits.len(),
{
    if commits.len() > 0 {
        let before = commits.drop_last();
        assert(commits[commits.len() - 1] == commits.last());
        assert forall|m: int| #![trigger before[m]] 0 <= m < before.len() implies before[m].0
            < results.len() by {
            assert(commits[m] == before[m]);
        }
        lemma_results_len(results, before);
    }
}

/// `commits` are those of the first `k` transactions, each once and none of them an abort.
pub open spec fn commits_first<T: Transaction>(
    commits: Seq<(TxnIndex, Option<TransactionOutput<T>>)>,
    k: int,
) -> bool {
    &&& forall|m: int|
        #![trigger commits[m]]
        0 <= m < commits.len() ==> commits[m].0 < k && (commits[m].1 matches Some(output)
            && output.materialized is Some)
    &&& forall|m: int, n: int|
        #![trigger commits[m], commits[n]]
        0 <= m < n < commits.len() ==> commits[m].0 != commits[n].0
    &&& forall|i: int| 0 <= i < k ==> #[trigger] is_committed_in(commits, i)
}

/// One of `commits` is that of transaction `i`.
pub open spec fn is_committed_in<T: Transaction>(
    commits: Seq<(TxnIndex, Option<TransactionOutput<T>>)>,
    i: int,
) -> bool {
    exists|m: int| 0 <= m < commits.len() && (#[trigger] commits[m]).0 == i
}

/// The first `k` of `outputs` are committed, and the rest are those of skipped transactions.
pub open spec fn committed_up_to<T: Transaction>(
    outputs: Seq<TransactionOutput<T>>,
    k: int,
) -> bool {
    &&& 0 <= k <= outputs.len()
    &&& forall|i: int|
        #![trigger outputs[i]]
        0 <= i < outputs.len() ==> if i < k {
            outputs[i].materialized is Some
        } else {
            outputs[i].is_skip_output()
        }
}

/// When the first transactions have ended their commits, in whatever order, the results are their
/// outputs followed by skip outputs.
pub proof fn committed_results_come_first<T: Transaction>(
    results: Seq<TransactionOutput<T>>,
    commits: Seq<(TxnIndex, Option<TransactionOutput<T>>)>,
    k: int,
)
    requires
        commits_first(commits, k),
        0 <= k <= results.len(),
        forall|i: int|
            #![trigger results[i]]
            0 <= i < results.len() ==> results[i].is_skip_output(),
    ensures
        results_after(results, commits).len() == results.len(),
        committed_up_to(results_after(results, commits), k),
{
    lemma_results_len(results, commits);
    let outputs = results_after(results, commits);
    assert forall|i: int| #![trigger outputs[i]] 0 <= i < outputs.len() implies if i < k {
        outputs[i].materialized is Some
    } else {
        outputs[i].is_skip_output()
    } by {
        if i < k {
            assert(is_committed_in(commits, i));
            let m = choose|m: int| 0 <= m < commits.len() && (#[trigger] commits[m]).0 == i;
            results_do_not_depend_on_the_order(results, commits, m);
        } else {
            other_results_stay(results, commits, i);
            assert(results[i].is_skip_output());
        }
    }
}

} // verus!
