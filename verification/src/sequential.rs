//! Running a block one transaction after the other.
use crate::delayed_fields::apply_output_sequential;
use crate::delayed_fields::data_after;
use crate::delayed_fields::delayed_violation;
use crate::delayed_fields::output_applied;
use crate::errors::DelayedFieldFailure;
use crate::errors::Error;
use crate::errors::ErrorCategory;
use crate::errors::InvariantViolation;
use crate::errors::TransactionError;
use crate::fee_statement::fees_fit;
use crate::fee_statement::gas_limit_reached;
use crate::fee_statement::non_storage_gas;
use crate::fee_statement::FeeStatement;
use crate::patching::events_patched;
use crate::patching::events_violation;
use crate::patching::extend_writes;
use crate::patching::key_set;
use crate::patching::map_id_to_values_events;
use crate::patching::map_id_to_values_in_read_set_sequential;
use crate::patching::map_id_to_values_in_write_set;
use crate::patching::reads_patched;
use crate::patching::reads_violation;
use crate::patching::sequential_candidates;
use crate::patching::write_set_patched;
use crate::patching::write_set_violation;
use crate::patching::Replaced;
use crate::task::ExecutionStatus;
use crate::task::ExecutorTask;
use crate::task::MaterializedOutput;
use crate::task::TransactionOutput;
use crate::txn_commit_hook::TransactionCommitHook;
use crate::types::Key;
use crate::types::Transaction;
use crate::types::TxnIndex;
use crate::types::WriteOp;
use crate::unsync_map::LatestView;
use crate::unsync_map::SequentialState;
use crate::unsync_map::UnsyncMap;
use bytes::Bytes;
use std::collections::HashSet;
use std::sync::Arc;
use vstd::prelude::*;

verus! {

broadcast use vstd::std_specs::hash::group_hash_axioms;

/// `b` is `a`, but for what is only known at commit.
pub open spec fn same_execution<T: Transaction>(
    a: TransactionOutput<T>,
    b: TransactionOutput<T>,
) -> bool {
    b == (TransactionOutput { materialized: b.materialized, ..a })
}

/// `materialized` is what `output` comes to at commit, when `view` is what the transaction
/// sees once its output has been applied.
pub open spec fn output_materialized<T: Transaction, S, R>(
    view: LatestView<'_, T, S>,
    output: TransactionOutput<T>,
    replace: R,
    materialized: MaterializedOutput<T>,
) -> bool where R: Fn(&LatestView<'_, T, S>, &Bytes, &T::Layout) -> Replaced {
    &&& materialized.aggregator_v1_delta_writes@.len() == 0
    &&& exists|writes: Map<Key, Arc<WriteOp>>, reads: Map<Key, Arc<WriteOp>>|
        {
            &&& #[trigger] write_set_patched::<T, LatestView<'_, T, S>, R>(
                output.resource_write_set@,
                view,
                replace,
                writes,
            )
            &&& #[trigger] reads_patched::<T, LatestView<'_, T, S>, R>(
                sequential_candidates::<T>(
                    view.state.unsync_map.data(),
                    view.state.read_set@,
                    output.resource_write_set@.dom(),
                ),
                output.delayed_field_change_set@.dom(),
                view,
                replace,
                reads,
            )
            &&& materialized.patched_resource_write_set@ == writes.union_prefer_right(reads)
        }
    &&& events_patched::<T, LatestView<'_, T, S>, R>(
        output.events@,
        view,
        replace,
        materialized.patched_events@,
    )
}

/// Materializing `output` on `view` breaks rule `violation`.
pub open spec fn materialization_violation<T: Transaction, S, R>(
    view: LatestView<'_, T, S>,
    output: TransactionOutput<T>,
    replace: R,
    violation: InvariantViolation,
) -> bool where R: Fn(&LatestView<'_, T, S>, &Bytes, &T::Layout) -> Replaced {
    ||| write_set_violation::<T, LatestView<'_, T, S>, R>(
        output.resource_write_set@,
        view,
        replace,
        violation,
    )
    ||| {
        &&& exists|writes: Map<Key, Arc<WriteOp>>| #[trigger]
            write_set_patched::<T, LatestView<'_, T, S>, R>(
                output.resource_write_set@,
                view,
                replace,
                writes,
            )
        &&& reads_violation::<T, LatestView<'_, T, S>, R>(
            sequential_candidates::<T>(
                view.state.unsync_map.data(),
                view.state.read_set@,
                output.resource_write_set@.dom(),
            ),
            view,
            replace,
            violation,
        )
    }
    ||| events_violation::<T, LatestView<'_, T, S>, R>(output.events@, view, replace, violation)
}

/// Replaces the identifiers in what a transaction wrote, in what it read, did not write, and
/// changed through a delayed field, and in what it emitted.
fn materialize_output<T: Transaction, S, R>(
    view: &LatestView<'_, T, S>,
    output: &TransactionOutput<T>,
    replace: &R,
) -> (r: Result<MaterializedOutput<T>, InvariantViolation>) where
    R: Fn(&LatestView<'_, T, S>, &Bytes, &T::Layout) -> Replaced,

    requires
        forall|bytes: &Bytes, layout: &T::Layout| #[trigger]
            call_requires(*replace, (view, bytes, layout)),
    ensures
        r matches Ok(materialized) ==> output_materialized(*view, *output, *replace, materialized),
        r matches Err(violation) ==> materialization_violation(
            *view,
            *output,
            *replace,
            violation,
        ),
{
    let delayed_field_keys = key_set(&output.delayed_field_change_set);
    let write_set_keys = key_set(&output.resource_write_set);
    let (mut patched_resource_write_set, _) = match map_id_to_values_in_write_set::<
        T,
        LatestView<'_, T, S>,
        R,
    >(Some(&output.resource_write_set), view, replace) {
        Ok(patched) => patched,
        Err(violation) => {
            return Err(violation);
        },
    };
    let ghost writes = patched_resource_write_set@;
    let patched_reads = match map_id_to_values_in_read_set_sequential::<
        T,
        LatestView<'_, T, S>,
        R,
    >(
        Some(&delayed_field_keys),
        &write_set_keys,
        &view.state.read_set,
        &view.state.unsync_map,
        view,
        replace,
    ) {
        Ok(patched) => patched,
        Err(violation) => {
            return Err(violation);
        },
    };
    extend_writes(&mut patched_resource_write_set, &patched_reads);
    let patched_events = match map_id_to_values_events::<T, LatestView<'_, T, S>, R>(
        &output.events,
        view,
        replace,
    ) {
        Ok(patched) => patched,
        Err(violation) => {
            return Err(violation);
        },
    };
    Ok(
        MaterializedOutput {
            aggregator_v1_delta_writes: Vec::new(),
            patched_resource_write_set,
            patched_events,
        },
    )
}

/// One transaction of a sequential run.
pub struct SequentialStep<T: Transaction, D> {
    /// The state before the transaction.
    pub before: SequentialState<T>,
    /// How its execution ended.
    pub status: ExecutionStatus<T, TransactionError<D>>,
    /// The state when it had been executed.
    pub executed: SequentialState<T>,
    /// The state when its output had been applied.
    pub after: SequentialState<T>,
    /// Its output, as it was committed.
    pub output: TransactionOutput<T>,
}

/// The output of an execution that had one.
pub open spec fn output_of<T: Transaction, D>(status: ExecutionStatus<T, D>) -> Option<
    TransactionOutput<T>,
> {
    match status {
        ExecutionStatus::Success(output) => Some(output),
        ExecutionStatus::SkipRest(output) => Some(output),
        ExecutionStatus::Abort(_) => None,
    }
}

/// What the committed transactions of `trace` used.
pub open spec fn trace_fees<T: Transaction, D>(trace: Seq<SequentialStep<T, D>>) -> Seq<
    FeeStatement,
> {
    Seq::new(trace.len(), |i: int| trace[i].output.fee_statement)
}

/// What a sequential run is given: the machine, the block, the storage under it, the gas
/// limit, the listener, and how delayed fields are computed.
pub struct SequentialSetup<T, E, S, L, R, A> {
    pub executor: E,
    pub block: Seq<T>,
    pub base_view: S,
    pub maybe_block_gas_limit: Option<u64>,
    pub commit_hook: Option<L>,
    pub replace: R,
    pub apply: A,
}

impl<T, E, S, L, R, A> SequentialSetup<T, E, S, L, R, A> where
    T: Transaction,
    E: ExecutorTask<Txn = T, View = S>,
    L: TransactionCommitHook<Txn = T>,
    R: Fn(&LatestView<'_, T, S>, &Bytes, &T::Layout) -> Replaced,
    A: Fn(&T::ApplyEntry, &T::FieldValue) -> Result<T::FieldValue, DelayedFieldFailure>,
 {
    /// `before` is the state in which the transaction after those of `trace` starts: nothing
    /// has been read yet, and all else is as the last transaction left it.
    pub open spec fn starts(
        self,
        trace: Seq<SequentialStep<T, E::Error>>,
        before: SequentialState<T>,
    ) -> bool {
        &&& before.read_set@ == Set::<Key>::empty()
        &&& if trace.len() == 0 {
            &&& before.unsync_map.data().is_empty()
            &&& before.unsync_map.delayed_fields().is_empty()
            &&& before.counter == 0
        } else {
            &&& before.unsync_map == trace.last().after.unsync_map
            &&& before.counter == trace.last().after.counter
        }
    }

    /// The machine may have executed transaction `i` as `step` says, and was asked to turn
    /// deltas into writes.
    pub open spec fn executes(self, i: int, step: SequentialStep<T, E::Error>) -> bool {
        self.executor.may_execute(
            self.base_view,
            step.before,
            self.block[i],
            i as TxnIndex,
            true,
            step.status,
            step.executed,
        )
    }

    /// What transaction `i` sees when its output has been applied.
    pub open spec fn view_after<'a>(
        &'a self,
        i: int,
        step: &'a SequentialStep<T, E::Error>,
    ) -> LatestView<'a, T, S> {
        LatestView { base_view: &self.base_view, state: &step.after, txn_idx: i as TxnIndex }
    }

    /// The output of `step` has no deltas left, its gas can be added to that of the
    /// transactions before, and it has been applied.
    pub open spec fn applies(
        self,
        step: SequentialStep<T, E::Error>,
        prior: Seq<FeeStatement>,
    ) -> bool {
        &&& output_of(step.status) matches Some(output)
        &&& output.aggregator_v1_delta_set@.is_empty()
        &&& fees_fit(prior.push(output.fee_statement))
        &&& output_applied(
            step.executed.unsync_map,
            output,
            self.apply,
            step.after.unsync_map,
        )
        &&& step.after.counter == step.executed.counter
        &&& step.after.read_set == step.executed.read_set
    }

    /// Transaction `i` was executed as `step` says, its output was applied, and it is complete.
    pub open spec fn completes(
        self,
        i: int,
        step: SequentialStep<T, E::Error>,
        prior: Seq<FeeStatement>,
    ) -> bool {
        &&& self.executes(i, step)
        &&& self.applies(step, prior)
        &&& same_execution(output_of(step.status)->0, step.output)
        &&& step.output.materialized matches Some(materialized)
        &&& output_materialized(
            self.view_after(i, &step),
            output_of(step.status)->0,
            self.replace,
            materialized,
        )
    }

    /// Transaction `i` was executed and committed as `step` says, and the listener was told.
    #[verifier::opaque]
    pub open spec fn commits(
        self,
        i: int,
        step: SequentialStep<T, E::Error>,
        prior: Seq<FeeStatement>,
    ) -> bool {
        &&& self.completes(i, step, prior)
        &&& self.commit_hook matches Some(hook) ==> hook.told_committed(i as TxnIndex, step.output)
    }

    /// Transaction `i` was executed as `step` says, and broke rule `violation`.
    pub open spec fn violates(
        self,
        i: int,
        step: SequentialStep<T, E::Error>,
        prior: Seq<FeeStatement>,
        violation: InvariantViolation,
    ) -> bool {
        match output_of(step.status) {
            Some(output) => {
                if !output.aggregator_v1_delta_set@.is_empty() {
                    violation == InvariantViolation::DeltasNotMaterialized
                } else if !fees_fit(prior.push(output.fee_statement)) {
                    violation == InvariantViolation::FeeOverflow
                } else {
                    ||| delayed_violation(
                        step.executed.unsync_map.delayed_fields(),
                        output.delayed_field_change_set@,
                        self.apply,
                        violation,
                    )
                    ||| {
                        &&& self.applies(step, prior)
                        &&& materialization_violation(
                            self.view_after(i, &step),
                            output,
                            self.replace,
                            violation,
                        )
                    }
                }
            },
            None => {
                &&& step.status->Abort_0.category != ErrorCategory::ValidError
                &&& violation == InvariantViolation::DelayedFieldsError
            },
        }
    }

    /// The block goes on after transaction `i`: it did not ask for the rest to be skipped, and
    /// the gas used so far is under the limit.
    pub open spec fn goes_on(self, trace: Seq<SequentialStep<T, E::Error>>, i: int) -> bool {
        &&& !(trace[i].status is SkipRest)
        &&& !gas_limit_reached(trace_fees(trace.take(i + 1)), self.maybe_block_gas_limit)
    }

    /// The transactions of `trace` were executed and committed one after the other.
    pub open spec fn committed(self, trace: Seq<SequentialStep<T, E::Error>>) -> bool {
        &&& trace.len() <= self.block.len()
        &&& forall|i: int|
            #![trigger trace[i]]
            0 <= i < trace.len() ==> {
                &&& self.starts(trace.take(i), trace[i].before)
                &&& self.commits(i, trace[i], trace_fees(trace.take(i)))
            }
        &&& forall|i: int| 0 <= i < trace.len() - 1 ==> #[trigger] self.goes_on(trace, i)
    }

    /// The block ends after the transactions of `trace`, and `outputs` are the outputs of all
    /// its transactions: those that were committed, and skip outputs for the rest.
    pub open spec fn succeeds(
        self,
        trace: Seq<SequentialStep<T, E::Error>>,
        outputs: Seq<TransactionOutput<T>>,
    ) -> bool {
        &&& self.committed(trace)
        &&& trace.len() == self.block.len() || (trace.len() > 0 && !self.goes_on(
            trace,
            trace.len() - 1,
        ))
        &&& outputs.len() == self.block.len()
        &&& forall|i: int|
            #![trigger outputs[i]]
            0 <= i < outputs.len() ==> if i < trace.len() {
                outputs[i] == trace[i].output
            } else {
                outputs[i].is_skip_output()
            }
    }

    /// After the transactions of `trace` the block goes on with the next one, and the machine may
    /// have executed it as `step` says.
    pub open spec fn turns_to(
        self,
        trace: Seq<SequentialStep<T, E::Error>>,
        step: SequentialStep<T, E::Error>,
    ) -> bool {
        let n = trace.len() as int;
        &&& self.committed(trace)
        &&& n < self.block.len()
        &&& n > 0 ==> self.goes_on(trace, n - 1)
        &&& self.starts(trace, step.before)
        &&& self.executes(n, step)
    }

    /// The listener may be told what happens: that a transaction was committed, with its completed
    /// output, or that it aborted the block, when the listener has been told of all transactions
    /// before it and the block went on after these. Nothing else is asked of it.
    pub open spec fn listener_accepts(self) -> bool {
        self.commit_hook matches Some(hook) ==> forall|
            trace: Seq<SequentialStep<T, E::Error>>,
            step: SequentialStep<T, E::Error>,
        |
            #[trigger]
            self.turns_to(trace, step) ==> {
                &&& self.completes(trace.len() as int, step, trace_fees(trace))
                    ==> hook.expects_commit(trace.len() as TxnIndex, step.output)
                &&& (step.status matches ExecutionStatus::Abort(err) && err.category
                    == ErrorCategory::ValidError) ==> hook.expects_abort(trace.len() as TxnIndex)
            }
    }

    /// After the transactions of `trace`, the one of `step` ended the block with `error`.
    pub open spec fn fails(
        self,
        trace: Seq<SequentialStep<T, E::Error>>,
        step: SequentialStep<T, E::Error>,
        error: Error<E::Error>,
    ) -> bool {
        let n = trace.len() as int;
        &&& self.turns_to(trace, step)
        &&& match error {
            Error::UserError(err) => {
                &&& step.status == ExecutionStatus::<T, TransactionError<E::Error>>::Abort(err)
                &&& err.category == ErrorCategory::ValidError
                &&& self.commit_hook matches Some(hook) ==> hook.told_aborted(n as TxnIndex)
            },
            Error::Invariant(violation) => self.violates(n, step, trace_fees(trace), violation),
            Error::ModulePathReadWrite => false,
        }
    }

    /// A sequential run may end with `outputs`.
    pub open spec fn may_succeed(self, outputs: Seq<TransactionOutput<T>>) -> bool {
        exists|trace: Seq<SequentialStep<T, E::Error>>| #[trigger] self.succeeds(trace, outputs)
    }

    /// A sequential run may end with `error`.
    pub open spec fn may_fail(self, error: Error<E::Error>) -> bool {
        exists|trace: Seq<SequentialStep<T, E::Error>>, step: SequentialStep<T, E::Error>|
            #[trigger]
            self.fails(trace, step, error)
    }

    /// `result` is what a sequential run may come to.
    pub open spec fn may_return(
        self,
        result: Result<Vec<TransactionOutput<T>>, Error<E::Error>>,
    ) -> bool {
        match result {
            Ok(outputs) => self.may_succeed(outputs@),
            Err(error) => self.may_fail(error),
        }
    }
}

/// A run that goes on is extended by its next transaction.
proof fn lemma_committed_push<T, E, S, L, R, A>(
    setup: SequentialSetup<T, E, S, L, R, A>,
    trace: Seq<SequentialStep<T, E::Error>>,
    step: SequentialStep<T, E::Error>,
) where
    T: Transaction,
    E: ExecutorTask<Txn = T, View = S>,
    L: TransactionCommitHook<Txn = T>,
    R: Fn(&LatestView<'_, T, S>, &Bytes, &T::Layout) -> Replaced,
    A: Fn(&T::ApplyEntry, &T::FieldValue) -> Result<T::FieldValue, DelayedFieldFailure>,

    requires
        setup.committed(trace),
        trace.len() < setup.block.len(),
        trace.len() > 0 ==> setup.goes_on(trace, trace.len() - 1),
        setup.starts(trace, step.before),
        setup.commits(trace.len() as int, step, trace_fees(trace)),
    ensures
        setup.committed(trace.push(step)),
        trace_fees(trace.push(step)) == trace_fees(trace).push(step.output.fee_statement),
        trace.push(step).take((trace.len() + 1) as int) == trace.push(step),
{
    let extended = trace.push(step);
    let n = trace.len() as int;
    assert(extended.take(n) =~= trace);
    assert(extended.take(n + 1) =~= extended);
    assert(trace_fees(extended) =~= trace_fees(trace).push(step.output.fee_statement));
    assert forall|i: int| #![trigger extended[i]] 0 <= i < extended.len() implies {
        &&& setup.starts(extended.take(i), extended[i].before)
        &&& setup.commits(i, extended[i], trace_fees(extended.take(i)))
    } by {
        if i < n {
            assert(extended[i] == trace[i]);
            assert(extended.take(i) =~= trace.take(i));
        }
    }
    assert forall|i: int| 0 <= i < extended.len() - 1 implies #[trigger] setup.goes_on(
        extended,
        i,
    ) by {
        assert(extended.take(i + 1) =~= trace.take(i + 1));
        assert(setup.goes_on(trace, i));
    }
}

/// Runs `block` on `executor`, one transaction after the other: each sees what those before it
/// left behind. The run stops after a transaction that asks for the rest to be skipped, after
/// one that brings the gas used to the limit, and at one that aborts.
pub fn run_sequential<T, E, S, L, R, A>(
    executor: &E,
    block: &[T],
    base_view: &S,
    maybe_block_gas_limit: Option<u64>,
    commit_hook: &Option<L>,
    replace: &R,
    apply: &A,
) -> (result: Result<Vec<TransactionOutput<T>>, Error<E::Error>>) where
    T: Transaction,
    E: ExecutorTask<Txn = T, View = S>,
    L: TransactionCommitHook<Txn = T>,
    R: Fn(&LatestView<'_, T, S>, &Bytes, &T::Layout) -> Replaced,
    A: Fn(&T::ApplyEntry, &T::FieldValue) -> Result<T::FieldValue, DelayedFieldFailure>,

    requires
        block@.len() <= u32::MAX,
        forall|view: &LatestView<'_, T, S>, bytes: &Bytes, layout: &T::Layout| #[trigger]
            call_requires(*replace, (view, bytes, layout)),
        forall|entry: &T::ApplyEntry, base: &T::FieldValue| #[trigger]
            call_requires(*apply, (entry, base)),
        (SequentialSetup {
            executor: *executor,
            block: block@,
            base_view: *base_view,
            maybe_block_gas_limit,
            commit_hook: *commit_hook,
            replace: *replace,
            apply: *apply,
        }).listener_accepts(),
    ensures
        (SequentialSetup {
            executor: *executor,
            block: block@,
            base_view: *base_view,
            maybe_block_gas_limit,
            commit_hook: *commit_hook,
            replace: *replace,
            apply: *apply,
        }).may_return(result),
{
    let ghost setup = SequentialSetup {
        executor: *executor,
        block: block@,
        base_view: *base_view,
        maybe_block_gas_limit,
        commit_hook: *commit_hook,
        replace: *replace,
        apply: *apply,
    };
    let ghost mut trace: Seq<SequentialStep<T, E::Error>> = Seq::empty();
    let num_txns: usize = block.len();
    let mut state: SequentialState<T> = SequentialState {
        unsync_map: UnsyncMap::new(),
        counter: 0,
        read_set: HashSet::new(),
    };
    let mut outputs: Vec<TransactionOutput<T>> = Vec::new();
    let mut accumulated_fee_statement = FeeStatement::zero();
    let mut stopped: bool = false;
    let mut idx: usize = 0;
    assert(trace_fees(trace) =~= Seq::empty());
    assert(state.unsync_map.data().is_empty());
    while idx < num_txns && !stopped
        invariant
            num_txns == block@.len(),
            block@.len() <= u32::MAX,
            forall|view: &LatestView<'_, T, S>, bytes: &Bytes, layout: &T::Layout| #[trigger]
                call_requires(*replace, (view, bytes, layout)),
            forall|entry: &T::ApplyEntry, base: &T::FieldValue| #[trigger]
                call_requires(*apply, (entry, base)),
            setup == (SequentialSetup {
                executor: *executor,
                block: block@,
                base_view: *base_view,
                maybe_block_gas_limit,
                commit_hook: *commit_hook,
                replace: *replace,
                apply: *apply,
            }),
            setup.listener_accepts(),
            idx <= num_txns,
            idx == trace.len(),
            setup.committed(trace),
            stopped ==> trace.len() > 0 && !setup.goes_on(trace, trace.len() - 1),
            !stopped && trace.len() > 0 ==> setup.goes_on(trace, trace.len() - 1),
            trace.len() == 0 ==> {
                &&& state.unsync_map.data().is_empty()
                &&& state.unsync_map.delayed_fields().is_empty()
                &&& state.counter == 0
            },
            trace.len() > 0 ==> {
                &&& state.unsync_map == trace.last().after.unsync_map
                &&& state.counter == trace.last().after.counter
            },
            accumulated_fee_statement.sums(trace_fees(trace)),
            outputs@.len() == trace.len(),
            forall|i: int|
                #![trigger outputs@[i]]
                0 <= i < trace.len() ==> outputs@[i] == trace[i].output,
        decreases num_txns - idx,
    {
        state.read_set = HashSet::new();
        let txn_idx: TxnIndex = idx as TxnIndex;
        let ghost before = state;
        let txn = &block[idx];
        let status = executor.execute_transaction(base_view, &mut state, txn, txn_idx, true);
        let ghost executed = state;
        let ghost how = status;
        assert(setup.starts(trace, before));
        let mut must_skip: bool = false;
        let output = match status {
            ExecutionStatus::Success(output) => output,
            ExecutionStatus::SkipRest(output) => {
                must_skip = true;
                output
            },
            ExecutionStatus::Abort(err) => {
                let ghost step = SequentialStep {
                    before,
                    status: how,
                    executed,
                    after: executed,
                    output: arbitrary(),
                };
                match err.category {
                    ErrorCategory::CodeInvariantError
                    | ErrorCategory::SpeculativeExecutionError => {
                        let error = Error::Invariant(InvariantViolation::DelayedFieldsError);
                        assert(setup.fails(trace, step, error));
                        return Err(error);
                    },
                    ErrorCategory::ValidError => {},
                }
                assert(setup.turns_to(trace, step));
                if let Some(hook) = commit_hook {
                    hook.on_execution_aborted(txn_idx);
                }
                let error = Error::UserError(err);
                assert(setup.fails(trace, step, error));
                return Err(error);
            },
        };
        let ghost produced = output;
        assert(output_of(how) == Some(produced));
        if !output.aggregator_v1_delta_set.is_empty() {
            let error = Error::Invariant(InvariantViolation::DeltasNotMaterialized);
            assert(setup.fails(
                trace,
                SequentialStep { before, status: how, executed, after: executed, output },
                error,
            ));
            return Err(error);
        }
        accumulated_fee_statement =
        match accumulated_fee_statement.add_fee_statement(&output.fee_statement) {
            Some(sum) => sum,
            None => {
                let error = Error::Invariant(InvariantViolation::FeeOverflow);
                assert(setup.fails(
                    trace,
                    SequentialStep { before, status: how, executed, after: executed, output },
                    error,
                ));
                return Err(error);
            },
        };
        match apply_output_sequential(&mut state.unsync_map, &output, apply) {
            Ok(()) => {},
            Err(violation) => {
                let error = Error::Invariant(violation);
                assert(setup.fails(
                    trace,
                    SequentialStep { before, status: how, executed, after: executed, output },
                    error,
                ));
                return Err(error);
            },
        }
        let ghost after = state;
        let latest_view = LatestView { base_view, state: &state, txn_idx };
        let materialized = match materialize_output(&latest_view, &output, replace) {
            Ok(materialized) => materialized,
            Err(violation) => {
                let error = Error::Invariant(violation);
                let ghost step = SequentialStep { before, status: how, executed, after, output };
                assert(setup.view_after(idx as int, &step) == latest_view);
                assert(setup.applies(step, trace_fees(trace)));
                assert(setup.fails(trace, step, error));
                return Err(error);
            },
        };
        let committed = TransactionOutput { materialized: Some(materialized), ..output };
        let ghost step = SequentialStep {
            before,
            status: how,
            executed,
            after,
            output: committed,
        };
        proof {
            assert(setup.view_after(idx as int, &step) == latest_view);
            assert(setup.applies(step, trace_fees(trace)));
            assert(setup.completes(idx as int, step, trace_fees(trace)));
            assert(setup.turns_to(trace, step));
        }
        if let Some(hook) = commit_hook {
            hook.on_transaction_committed(txn_idx, &committed);
        }
        proof {
            assert(setup.commits(idx as int, step, trace_fees(trace))) by {
                reveal(SequentialSetup::commits);
            }
            lemma_committed_push(setup, trace, step);
            trace = trace.push(step);
        }
        outputs.push(committed);
        idx = idx + 1;
        stopped = must_skip || accumulated_fee_statement.reaches_limit(maybe_block_gas_limit);
    }
    while outputs.len() < num_txns
        invariant
            num_txns == setup.block.len(),
            trace.len() <= outputs@.len() <= num_txns,
            forall|i: int|
                #![trigger outputs@[i]]
                0 <= i < outputs@.len() ==> if i < trace.len() {
                    outputs@[i] == trace[i].output
                } else {
                    outputs@[i].is_skip_output()
                },
        decreases num_txns - outputs.len(),
    {
        outputs.push(TransactionOutput::skip_output());
    }
    assert(setup.succeeds(trace, outputs@));
    assert(setup.may_succeed(outputs@));
    Ok(outputs)
}

/// What holds of every sequential run.
impl<T, E, S, L, R, A> SequentialSetup<T, E, S, L, R, A> where
    T: Transaction,
    E: ExecutorTask<Txn = T, View = S>,
    L: TransactionCommitHook<Txn = T>,
    R: Fn(&LatestView<'_, T, S>, &Bytes, &T::Layout) -> Replaced,
    A: Fn(&T::ApplyEntry, &T::FieldValue) -> Result<T::FieldValue, DelayedFieldFailure>,
 {
    /// A run leaves out transactions only after one that asks for the rest to be skipped, or
    /// that brings the gas used to the limit.
    pub proof fn runs_stop_for_a_reason(
        self,
        trace: Seq<SequentialStep<T, E::Error>>,
        outputs: Seq<TransactionOutput<T>>,
    )
        requires
            self.succeeds(trace, outputs),
            trace.len() < self.block.len(),
        ensures
            trace.len() > 0,
            trace.last().status is SkipRest || gas_limit_reached(
                trace_fees(trace),
                self.maybe_block_gas_limit,
            ),
    {
        assert(trace.take(trace.len() as int) =~= trace);
    }

    /// Without a gas limit, and if no transaction asks for the rest to be skipped, every
    /// transaction of the block is committed.
    pub proof fn unlimited_runs_commit_the_block(
        self,
        trace: Seq<SequentialStep<T, E::Error>>,
        outputs: Seq<TransactionOutput<T>>,
    )
        requires
            self.succeeds(trace, outputs),
            self.maybe_block_gas_limit is None,
            forall|i: int| 0 <= i < trace.len() ==> !((#[trigger] trace[i]).status is SkipRest),
        ensures
            trace.len() == self.block.len(),
            forall|i: int|
                #![trigger outputs[i]]
                0 <= i < outputs.len() ==> outputs[i] == trace[i].output,
    {
    }

    /// The transactions before the last one that is committed have used less gas than the limit.
    pub proof fn gas_stays_below_the_limit(self, trace: Seq<SequentialStep<T, E::Error>>, max: u64)
        requires
            self.committed(trace),
            self.maybe_block_gas_limit == Some(max),
            trace.len() >= 2,
        ensures
            non_storage_gas(trace_fees(trace.drop_last())) < max,
            ({
                let last = trace.last().output.fee_statement;
                non_storage_gas(trace_fees(trace)) < max + last.execution_gas_used
                    + last.io_gas_used
            }),
    {
        let n = trace.len() as int;
        assert(self.goes_on(trace, n - 2));
        assert(trace.take(n - 1) =~= trace.drop_last());
        assert(trace_fees(trace).drop_last() =~= trace_fees(trace.drop_last()));
    }

    /// A run that succeeds commits at least the first transaction of its block, whatever the gas
    /// limit.
    pub proof fn first_transaction_is_committed(
        self,
        trace: Seq<SequentialStep<T, E::Error>>,
        outputs: Seq<TransactionOutput<T>>,
    )
        requires
            self.succeeds(trace, outputs),
            self.block.len() > 0,
        ensures
            trace.len() > 0,
            outputs[0] == trace[0].output,
            outputs[0].materialized is Some,
    {
        reveal(SequentialSetup::commits);
        assert(self.commits(0, trace[0], trace_fees(trace.take(0))));
        assert(outputs[0] == trace[0].output);
    }

    /// The outputs of a run are those of the transactions that were committed, followed by those
    /// of the transactions that were skipped: no transaction is executed after a skipped one.
    pub proof fn skipped_transactions_come_last(
        self,
        outputs: Seq<TransactionOutput<T>>,
        i: int,
        j: int,
    )
        requires
            self.may_succeed(outputs),
            0 <= i <= j < outputs.len(),
            outputs[i].is_skip_output(),
        ensures
            outputs[j].is_skip_output(),
    {
        let trace = choose|trace: Seq<SequentialStep<T, E::Error>>| #[trigger]
            self.succeeds(trace, outputs);
        reveal(SequentialSetup::commits);
        if i < trace.len() {
            assert(self.commits(i, trace[i], trace_fees(trace.take(i))));
            assert(outputs[i] == trace[i].output);
        }
    }

    /// There is one output for each transaction of the block.
    pub proof fn every_transaction_has_an_output(
        self,
        result: Result<Vec<TransactionOutput<T>>, Error<E::Error>>,
    )
        requires
            self.may_return(result),
        ensures
            result matches Ok(outputs) ==> outputs@.len() == self.block.len(),
    {
    }

    /// An empty block succeeds, with no outputs.
    pub proof fn empty_blocks_succeed(
        self,
        result: Result<Vec<TransactionOutput<T>>, Error<E::Error>>,
    )
        requires
            self.may_return(result),
            self.block.len() == 0,
        ensures
            result matches Ok(outputs) && outputs@.len() == 0,
    {
    }

    /// A sequential run never fails because a module was both read and written.
    pub proof fn module_conflicts_do_not_stop_a_run(
        self,
        result: Result<Vec<TransactionOutput<T>>, Error<E::Error>>,
    )
        requires
            self.may_return(result),
        ensures
            !(result matches Err(Error::ModulePathReadWrite)),
    {
    }

    /// The listener is told of every transaction that is committed, with the output that ends up
    /// among the results.
    pub proof fn listeners_hear_of_every_commit(
        self,
        outputs: Seq<TransactionOutput<T>>,
        hook: L,
        i: int,
    )
        requires
            self.may_succeed(outputs),
            self.commit_hook == Some(hook),
            0 <= i < outputs.len(),
            !outputs[i].is_skip_output(),
        ensures
            hook.told_committed(i as TxnIndex, outputs[i]),
    {
        let trace = choose|trace: Seq<SequentialStep<T, E::Error>>| #[trigger]
            self.succeeds(trace, outputs);
        reveal(SequentialSetup::commits);
        assert(outputs[i] == trace[i].output);
        assert(self.commits(i, trace[i], trace_fees(trace.take(i))));
    }

    /// Where a transaction aborts the block, the listener is told of that, and of every
    /// transaction that was committed before.
    pub proof fn listeners_hear_of_the_abort(
        self,
        trace: Seq<SequentialStep<T, E::Error>>,
        step: SequentialStep<T, E::Error>,
        err: TransactionError<E::Error>,
        hook: L,
        i: int,
    )
        requires
            self.fails(trace, step, Error::UserError(err)),
            self.commit_hook == Some(hook),
            0 <= i < trace.len(),
        ensures
            hook.told_aborted(trace.len() as TxnIndex),
            hook.told_committed(i as TxnIndex, trace[i].output),
    {
        reveal(SequentialSetup::commits);
        assert(self.commits(i, trace[i], trace_fees(trace.take(i))));
    }

    /// Every transaction starts from what the transaction before it left behind: its writes over
    /// the state that it was executed on, and nothing else.
    pub proof fn transactions_see_the_writes_before(
        self,
        trace: Seq<SequentialStep<T, E::Error>>,
        i: int,
    )
        requires
            self.committed(trace),
            0 < i < trace.len(),
        ensures
            trace[i].before.unsync_map.data() == data_after::<T>(
                trace[i - 1].executed.unsync_map.data(),
                trace[i - 1].output,
            ),
            trace[i].before.read_set@.is_empty(),
            trace[i].before.counter == trace[i - 1].executed.counter,
    {
        reveal(SequentialSetup::commits);
        assert(self.starts(trace.take(i), trace[i].before));
        assert(self.commits(i - 1, trace[i - 1], trace_fees(trace.take(i - 1))));
        assert(trace.take(i).last() == trace[i - 1]);
    }

    /// What ends up among the results is what the machine made of the transaction, with the
    /// deltas gone and the identifiers replaced.
    pub proof fn committed_outputs_come_from_execution(
        self,
        trace: Seq<SequentialStep<T, E::Error>>,
        outputs: Seq<TransactionOutput<T>>,
        i: int,
    )
        requires
            self.succeeds(trace, outputs),
            0 <= i < trace.len(),
        ensures
            self.executes(i, trace[i]),
            output_of(trace[i].status) matches Some(output) && same_execution(output, outputs[i]),
            outputs[i].aggregator_v1_delta_set@.is_empty(),
            outputs[i].materialized is Some,
    {
        reveal(SequentialSetup::commits);
        assert(self.commits(i, trace[i], trace_fees(trace.take(i))));
        assert(outputs[i] == trace[i].output);
    }

    /// A run fails only at a transaction that aborts or that breaks a rule: where none can, the
    /// run succeeds.
    pub proof fn faultless_runs_succeed(
        self,
        result: Result<Vec<TransactionOutput<T>>, Error<E::Error>>,
    )
        requires
            self.may_return(result),
            forall|trace: Seq<SequentialStep<T, E::Error>>, step: SequentialStep<T, E::Error>|
                #[trigger]
                self.turns_to(trace, step) ==> {
                    &&& !(step.status is Abort)
                    &&& forall|violation: InvariantViolation|
                        !(#[trigger] self.violates(
                            trace.len() as int,
                            step,
                            trace_fees(trace),
                            violation,
                        ))
                },
        ensures
            result is Ok,
    {
        if let Err(error) = result {
            let (trace, step) = choose|
                trace: Seq<SequentialStep<T, E::Error>>,
                step: SequentialStep<T, E::Error>,
            |
                #[trigger]
                self.fails(trace, step, error);
            assert(self.turns_to(trace, step));
        }
    }
}

} // verus!
