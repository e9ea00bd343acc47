//! What a speculative execution records, change by change.
use crate::errors::Error;
use crate::errors::InvariantViolation;
use crate::errors::TransactionError;
use crate::parallel::execution::changes_precede_the_record;
use crate::parallel::execution::deref_output;
use crate::parallel::execution::execution_goes_on;
use crate::parallel::execution::execution_trace;
use crate::parallel::execution::found_inconsistent;
use crate::parallel::execution::inconsistent_executions_are_marked;
use crate::parallel::execution::is_called_for;
use crate::parallel::execution::is_inconsistent_reply;
use crate::parallel::execution::is_plan_for;
use crate::parallel::execution::lists_all_ops;
use crate::parallel::execution::made_in_order;
use crate::parallel::execution::map_or_empty;
use crate::parallel::execution::set_or_empty;
use crate::parallel::execution::times_written;
use crate::parallel::execution::writes_outside;
use crate::parallel::execution::ApplyReply;
use crate::parallel::execution::CacheOp;
use crate::parallel::execution::ExecutionEvent;
use crate::parallel::execution::ExecutionPlan;
use crate::parallel::execution::ExecutionStep;
use crate::parallel::scheduler::SchedulerTask;
use crate::task::ExecutionStatus;
use crate::task::TransactionOutput;
use crate::types::Identifier;
use crate::types::Key;
use crate::types::Transaction;
use crate::types::TxnIndex;
use std::collections::HashMap;
use std::collections::HashSet;
use vstd::prelude::*;

verus! {

/// Every answer that the machine, the records, the cache and the scheduler can give may be handed
/// back.
pub proof fn executions_accept_every_answer<T: Transaction, D, W>(
    step: ExecutionStep<T, D, W>,
    status: ExecutionStatus<T, TransactionError<D>>,
    modified: Option<HashMap<Key, bool>>,
    delayed: Option<HashSet<Identifier>>,
    reply: ApplyReply,
    answer: bool,
    task: SchedulerTask<W>,
)
    ensures
        match step {
            ExecutionStep::Execute { txn_idx: _, materialize_deltas: _ } => step.expects(
                ExecutionEvent::Executed(status),
            ),
            ExecutionStep::LoadPrevious(_) => step.expects(
                ExecutionEvent::Previous(modified, delayed),
            ),
            ExecutionStep::Apply { plan: _, next: _ } => step.expects(
                ExecutionEvent::Applied(reply),
            ),
            ExecutionStep::TakeReads(_) => step.expects(ExecutionEvent::Made),
            ExecutionStep::CaptureReadError(_) => step.expects(ExecutionEvent::Made),
            ExecutionStep::Record(_) => step.expects(ExecutionEvent::Answer(answer)),
            ExecutionStep::FinishExecution { updates_outside: _ } => step.expects(
                ExecutionEvent::Task(task),
            ),
            ExecutionStep::Halt => step.expects(ExecutionEvent::Answer(answer)),
            ExecutionStep::Return(_) => true,
        },
{
}

/// An execution starts by executing its own transaction, and leaves deltas as they are. Whatever
/// that ends with is held against what was written before.
pub proof fn transactions_are_executed_first<T: Transaction, D, W>(
    txn_idx: TxnIndex,
    materialize_deltas: bool,
    status: ExecutionStatus<T, TransactionError<D>>,
    following: ExecutionStep<T, D, W>,
)
    ensures
        ExecutionStep::<T, D, W>::first(txn_idx) == (ExecutionStep::<T, D, W>::Execute {
            txn_idx,
            materialize_deltas: false,
        }),
        (ExecutionStep::<T, D, W>::Execute { txn_idx, materialize_deltas }).leads_to(
            ExecutionEvent::Executed(status),
            following,
        ) ==> following == ExecutionStep::<T, D, W>::LoadPrevious(status),
{
}

/// Everything that an output holds is recorded: each write of a resource with its layout, each
/// write of an aggregator, each write of a module, each delta and each change to a delayed field.
pub proof fn everything_written_is_recorded<T: Transaction>(
    output: TransactionOutput<T>,
    modified: Map<Key, bool>,
    delayed: Set<Identifier>,
    ops: Seq<CacheOp<T>>,
    key: Key,
)
    requires
        lists_all_ops(Some(output), modified, delayed, ops),
    ensures
        output.resource_write_set@.contains_key(key) ==> exists|i: int|
            0 <= i < ops.len() && #[trigger] ops[i] == CacheOp::<T>::WriteResource(
                key,
                output.resource_write_set@[key].0,
                output.resource_write_set@[key].1,
            ),
        output.aggregator_v1_write_set@.contains_key(key) ==> exists|i: int|
            0 <= i < ops.len() && #[trigger] ops[i] == CacheOp::<T>::WriteAggregatorV1(
                key,
                output.aggregator_v1_write_set@[key],
            ),
        output.module_write_set@.contains_key(key) ==> exists|i: int|
            0 <= i < ops.len() && #[trigger] ops[i] == CacheOp::<T>::WriteModule(
                key,
                output.module_write_set@[key],
            ),
        output.aggregator_v1_delta_set@.contains_key(key) ==> exists|i: int|
            0 <= i < ops.len() && #[trigger] ops[i] == CacheOp::<T>::AddDelta(
                key,
                output.aggregator_v1_delta_set@[key],
            ),
        output.delayed_field_change_set@.contains_key(key) ==> exists|i: int|
            0 <= i < ops.len() && #[trigger] ops[i] == CacheOp::<T>::RecordChange(
                key,
                output.delayed_field_change_set@[key],
            ),
{
    if output.resource_write_set@.contains_key(key) {
        let write = output.resource_write_set@[key];
        lemma_listed(
            Some(output),
            modified,
            delayed,
            ops,
            CacheOp::WriteResource(key, write.0, write.1),
        );
    }
    if output.aggregator_v1_write_set@.contains_key(key) {
        let op = CacheOp::WriteAggregatorV1(key, output.aggregator_v1_write_set@[key]);
        lemma_listed(Some(output), modified, delayed, ops, op);
    }
    if output.module_write_set@.contains_key(key) {
        let op = CacheOp::WriteModule(key, output.module_write_set@[key]);
        lemma_listed(Some(output), modified, delayed, ops, op);
    }
    if output.aggregator_v1_delta_set@.contains_key(key) {
        let op = CacheOp::AddDelta(key, output.aggregator_v1_delta_set@[key]);
        lemma_listed(Some(output), modified, delayed, ops, op);
    }
    if output.delayed_field_change_set@.contains_key(key) {
        let op = CacheOp::RecordChange(key, output.delayed_field_change_set@[key]);
        lemma_listed(Some(output), modified, delayed, ops, op);
    }
}

/// A change that is called for is listed.
proof fn lemma_listed<T: Transaction>(
    output: Option<TransactionOutput<T>>,
    modified: Map<Key, bool>,
    delayed: Set<Identifier>,
    ops: Seq<CacheOp<T>>,
    op: CacheOp<T>,
)
    requires
        lists_all_ops(output, modified, delayed, ops),
        is_called_for(output, modified, delayed, op),
    ensures
        exists|i: int| 0 <= i < ops.len() && #[trigger] ops[i] == op,
{
    assert(op.rank() < 7);
    assert(ops.contains(op));
}

/// What an earlier incarnation wrote and the output does not write again is removed, a module as a
/// module and anything else as data; and so is what it changed of delayed fields and the output
/// does not change again.
pub proof fn what_is_not_written_again_is_removed<T: Transaction>(
    output: TransactionOutput<T>,
    modified: Map<Key, bool>,
    delayed: Set<Identifier>,
    ops: Seq<CacheOp<T>>,
    key: Key,
)
    requires
        lists_all_ops(Some(output), modified, delayed, ops),
    ensures
        modified.contains_key(key) && !output.resource_write_set@.contains_key(key)
            && !output.aggregator_v1_write_set@.contains_key(key)
            && !output.module_write_set@.contains_key(key)
            && !output.aggregator_v1_delta_set@.contains_key(key) ==> exists|i: int|
            0 <= i < ops.len() && #[trigger] ops[i] == if modified[key] {
                CacheOp::<T>::RemoveModule(key)
            } else {
                CacheOp::RemoveData(key)
            },
        delayed.contains(key) && !output.delayed_field_change_set@.contains_key(key) ==> exists|
            i: int,
        |
            0 <= i < ops.len() && #[trigger] ops[i] == CacheOp::<T>::RemoveDelayedField(key),
{
    if modified.contains_key(key) && !output.resource_write_set@.contains_key(key)
        && !output.aggregator_v1_write_set@.contains_key(key)
        && !output.module_write_set@.contains_key(key)
        && !output.aggregator_v1_delta_set@.contains_key(key) {
        if modified[key] {
            lemma_listed(Some(output), modified, delayed, ops, CacheOp::RemoveModule(key));
        } else {
            lemma_listed(Some(output), modified, delayed, ops, CacheOp::RemoveData(key));
        }
    }
    if delayed.contains(key) && !output.delayed_field_change_set@.contains_key(key) {
        lemma_listed(Some(output), modified, delayed, ops, CacheOp::RemoveDelayedField(key));
    }
}

/// An execution that aborted has everything removed that an earlier incarnation wrote or changed,
/// and does nothing else.
pub proof fn aborted_executions_leave_nothing<T: Transaction>(
    modified: Map<Key, bool>,
    delayed: Set<Identifier>,
    ops: Seq<CacheOp<T>>,
    key: Key,
)
    requires
        lists_all_ops(None, modified, delayed, ops),
    ensures
        modified.contains_key(key) ==> exists|i: int|
            0 <= i < ops.len() && #[trigger] ops[i] == if modified[key] {
                CacheOp::<T>::RemoveModule(key)
            } else {
                CacheOp::RemoveData(key)
            },
        delayed.contains(key) ==> exists|i: int|
            0 <= i < ops.len() && #[trigger] ops[i] == CacheOp::<T>::RemoveDelayedField(key),
        forall|i: int|
            #![trigger ops[i]]
            0 <= i < ops.len() ==> match ops[i] {
                CacheOp::RemoveModule(k) => modified.contains_key(k) && modified[k],
                CacheOp::RemoveData(k) => modified.contains_key(k) && !modified[k],
                CacheOp::RemoveDelayedField(id) => delayed.contains(id),
                _ => false,
            },
        !writes_outside(None::<TransactionOutput<T>>, modified),
{
    if modified.contains_key(key) {
        if modified[key] {
            lemma_listed(None, modified, delayed, ops, CacheOp::RemoveModule(key));
        } else {
            lemma_listed(None, modified, delayed, ops, CacheOp::RemoveData(key));
        }
    }
    if delayed.contains(key) {
        lemma_listed(None, modified, delayed, ops, CacheOp::RemoveDelayedField(key));
    }
    assert forall|i: int| #![trigger ops[i]] 0 <= i < ops.len() implies is_called_for(
        None,
        modified,
        delayed,
        ops[i],
    ) by {
        assert(ops.contains(ops[i]));
    }
}

/// Each change that is listed stands for something that the output holds, with just what it holds,
/// or removes something that an earlier incarnation wrote and the output does not write again.
pub proof fn no_change_is_made_up<T: Transaction>(
    output: TransactionOutput<T>,
    modified: Map<Key, bool>,
    delayed: Set<Identifier>,
    ops: Seq<CacheOp<T>>,
    i: int,
)
    requires
        lists_all_ops(Some(output), modified, delayed, ops),
        0 <= i < ops.len(),
    ensures
        match ops[i] {
            CacheOp::WriteResource(key, write, layout) => {
                &&& output.resource_write_set@.contains_key(key)
                &&& output.resource_write_set@[key].0 == write
                &&& output.resource_write_set@[key].1 == layout
            },
            CacheOp::WriteAggregatorV1(key, write) => {
                &&& output.aggregator_v1_write_set@.contains_key(key)
                &&& output.aggregator_v1_write_set@[key] == write
            },
            CacheOp::WriteModule(key, write) => {
                &&& output.module_write_set@.contains_key(key)
                &&& output.module_write_set@[key] == write
            },
            CacheOp::AddDelta(key, delta) => {
                &&& output.aggregator_v1_delta_set@.contains_key(key)
                &&& output.aggregator_v1_delta_set@[key] == delta
            },
            CacheOp::RecordChange(id, change) => {
                &&& output.delayed_field_change_set@.contains_key(id)
                &&& output.delayed_field_change_set@[id] == change
            },
            CacheOp::RemoveModule(key) => {
                &&& modified.contains_key(key) && modified[key]
                &&& !output.resource_write_set@.contains_key(key)
                &&& !output.aggregator_v1_write_set@.contains_key(key)
                &&& !output.module_write_set@.contains_key(key)
                &&& !output.aggregator_v1_delta_set@.contains_key(key)
            },
            CacheOp::RemoveData(key) => {
                &&& modified.contains_key(key) && !modified[key]
                &&& !output.resource_write_set@.contains_key(key)
                &&& !output.aggregator_v1_write_set@.contains_key(key)
                &&& !output.module_write_set@.contains_key(key)
                &&& !output.aggregator_v1_delta_set@.contains_key(key)
            },
            CacheOp::RemoveDelayedField(id) => {
                &&& delayed.contains(id)
                &&& !output.delayed_field_change_set@.contains_key(id)
            },
        },
{
    assert(ops.contains(ops[i]));
}

/// No change is listed twice. Resources are written first, then aggregators, then modules; deltas
/// and changes to delayed fields follow; and what was written and changed before is removed last.
pub proof fn changes_are_listed_in_order<T: Transaction>(
    output: Option<TransactionOutput<T>>,
    modified: Map<Key, bool>,
    delayed: Set<Identifier>,
    ops: Seq<CacheOp<T>>,
    i: int,
    j: int,
)
    requires
        lists_all_ops(output, modified, delayed, ops),
        0 <= i < j < ops.len(),
    ensures
        ops[i] != ops[j],
        ops[j] is WriteResource ==> ops[i] is WriteResource,
        ops[j] is WriteAggregatorV1 ==> ops[i] is WriteResource || ops[i] is WriteAggregatorV1,
        ops[j] is WriteModule ==> ops[i] is WriteResource || ops[i] is WriteAggregatorV1
            || ops[i] is WriteModule,
        ops[j] is AddDelta ==> ops[i] is WriteResource || ops[i] is WriteAggregatorV1
            || ops[i] is WriteModule || ops[i] is AddDelta,
        ops[i] is RemoveModule || ops[i] is RemoveData ==> ops[j] is RemoveModule
            || ops[j] is RemoveData || ops[j] is RemoveDelayedField,
        ops[i] is RemoveDelayedField ==> ops[j] is RemoveDelayedField,
{
    assert(ops[i].rank() <= ops[j].rank());
}

/// An execution that writes a key which the incarnation before it did not write, or writes a key in
/// two ways, has written more than that incarnation.
pub proof fn writing_more_is_noticed<T: Transaction>(
    output: TransactionOutput<T>,
    modified: Map<Key, bool>,
    key: Key,
)
    requires
        ({
            let resource = output.resource_write_set@.contains_key(key);
            let aggregator = output.aggregator_v1_write_set@.contains_key(key);
            let module = output.module_write_set@.contains_key(key);
            let delta = output.aggregator_v1_delta_set@.contains_key(key);
            ||| !modified.contains_key(key) && (resource || aggregator || module || delta)
            ||| resource && (aggregator || module || delta)
            ||| aggregator && (module || delta)
            ||| module && delta
        }),
    ensures
        writes_outside(Some(output), modified),
{
    assert(times_written(output, key) > if modified.contains_key(key) {
        1int
    } else {
        0
    });
}

/// An execution has written more than the incarnation before it only if there is a key that it
/// writes and that one did not, or that it writes in two ways.
pub proof fn nothing_else_is_noticed<T: Transaction>(
    output: TransactionOutput<T>,
    modified: Map<Key, bool>,
) -> (key: Key)
    requires
        writes_outside(Some(output), modified),
    ensures
        ({
            let resource = output.resource_write_set@.contains_key(key);
            let aggregator = output.aggregator_v1_write_set@.contains_key(key);
            let module = output.module_write_set@.contains_key(key);
            let delta = output.aggregator_v1_delta_set@.contains_key(key);
            ||| !modified.contains_key(key) && (resource || aggregator || module || delta)
            ||| resource && (aggregator || module || delta)
            ||| aggregator && (module || delta)
            ||| module && delta
        }),
{
    choose|key: Key| #[trigger]
        times_written(output, key) > if modified.contains_key(key) {
            1int
        } else {
            0
        }
}

/// The plan for an execution that came to an output records that output, whole, and its changes are
/// those of that output. It is taken to be consistent.
pub proof fn outputs_are_recorded_whole<T: Transaction, D>(
    output: TransactionOutput<T>,
    skips_rest: bool,
    modified: Map<Key, bool>,
    delayed: Set<Identifier>,
    plan: ExecutionPlan<T, D>,
)
    requires
        is_plan_for(
            if skips_rest {
                ExecutionStatus::<T, TransactionError<D>>::SkipRest(output)
            } else {
                ExecutionStatus::Success(output)
            },
            modified,
            delayed,
            plan,
        ),
    ensures
        skips_rest ==> *plan.status == ExecutionStatus::<T, Error<D>>::SkipRest(output),
        !skips_rest ==> *plan.status == ExecutionStatus::<T, Error<D>>::Success(output),
        !plan.inconsistent,
        lists_all_ops(Some(output), modified, delayed, plan.ops@),
        plan.updates_outside == writes_outside(Some(output), modified),
{
}

/// The plan for an execution that aborted records its error, and removes what was written before.
/// It is inconsistent if and only if speculation explains the abort.
pub proof fn aborts_are_recorded<T: Transaction, D>(
    err: TransactionError<D>,
    modified: Map<Key, bool>,
    delayed: Set<Identifier>,
    plan: ExecutionPlan<T, D>,
)
    requires
        is_plan_for(
            ExecutionStatus::<T, TransactionError<D>>::Abort(err),
            modified,
            delayed,
            plan,
        ),
    ensures
        *plan.status == ExecutionStatus::<T, Error<D>>::Abort(Error::UserError(err)),
        plan.inconsistent <==> err.category is SpeculativeExecutionError,
        lists_all_ops(None, modified, delayed, plan.ops@),
        !plan.updates_outside,
{
}

/// The changes that are planned are those for the very output that is given, or for none.
pub proof fn plans_are_for_the_output_given<T: Transaction>(output: TransactionOutput<T>)
    ensures
        deref_output(Some(&output)) == Some(output),
        deref_output(None::<&TransactionOutput<T>>) is None,
{
}

/// Once it is known what was written before, nothing being taken as no keys and no fields, the plan
/// for the execution is taken up at its first change, or at the reads if there is none.
pub proof fn plans_are_taken_up<T: Transaction, D, W>(
    status: ExecutionStatus<T, TransactionError<D>>,
    modified: Option<HashMap<Key, bool>>,
    delayed: Option<HashSet<Identifier>>,
    following: ExecutionStep<T, D, W>,
) -> (plan: ExecutionPlan<T, D>)
    requires
        ExecutionStep::<T, D, W>::LoadPrevious(status).leads_to(
            ExecutionEvent::Previous(modified, delayed),
            following,
        ),
    ensures
        is_plan_for(
            status,
            match modified {
                Some(keys) => keys@,
                None => Map::empty(),
            },
            match delayed {
                Some(ids) => ids@,
                None => Set::empty(),
            },
            plan,
        ),
        plan.ops@.len() > 0 ==> following == (ExecutionStep::<T, D, W>::Apply { plan, next: 0 }),
        plan.ops@.len() == 0 ==> following == ExecutionStep::<T, D, W>::TakeReads(plan),
{
    choose|plan: ExecutionPlan<T, D>| #[trigger]
        is_plan_for(status, map_or_empty(modified), set_or_empty(delayed), plan) && following
            == ExecutionStep::<T, D, W>::applying(plan, 0)
}

/// A change that was made is followed by the next one of the plan, and the last one by the reads.
/// The plan stays as it is, but for what is found out about its consistency.
pub proof fn changes_are_made_one_by_one<T: Transaction, D, W>(
    plan: ExecutionPlan<T, D>,
    next: usize,
    reply: ApplyReply,
    following: ExecutionStep<T, D, W>,
)
    requires
        next < plan.ops@.len(),
        plan.ops@.len() <= usize::MAX,
        (ExecutionStep::<T, D, W>::Apply { plan, next }).leads_to(
            ExecutionEvent::Applied(reply),
            following,
        ),
    ensures
        ({
            let made = match following {
                ExecutionStep::Apply { plan: p, next: n } => (p, n as int),
                ExecutionStep::TakeReads(p) => (p, p.ops@.len() as int),
                _ => (plan, -1),
            };
            &&& following is Apply <==> next + 1 < plan.ops@.len()
            &&& following is TakeReads <==> next + 1 == plan.ops@.len()
            &&& made.1 == next + 1
            &&& made.0.ops == plan.ops
            &&& made.0.updates_outside == plan.updates_outside
            &&& made.0.status == plan.status
            &&& made.0.inconsistent <==> plan.inconsistent || reply is Inconsistent
        }),
        !(reply is CodeInvariantError),
{
}

/// The reads of an inconsistent execution are marked before the execution is recorded, and those of
/// a consistent one are not. One that could be recorded is reported, and says whether it wrote more
/// than the incarnation before it; its worker goes on with the task that this gives. One that could
/// not halts the block, and its worker goes on without a task.
pub proof fn executions_are_recorded<T: Transaction, D, W>(
    plan: ExecutionPlan<T, D>,
    updates_outside: bool,
    answer: bool,
    task: SchedulerTask<W>,
    following: ExecutionStep<T, D, W>,
)
    ensures
        ExecutionStep::<T, D, W>::TakeReads(plan).leads_to(ExecutionEvent::Made, following) ==> {
            &&& plan.inconsistent ==> following == ExecutionStep::<T, D, W>::CaptureReadError(plan)
            &&& !plan.inconsistent ==> following == ExecutionStep::<T, D, W>::Record(plan)
        },
        ExecutionStep::<T, D, W>::CaptureReadError(plan).leads_to(ExecutionEvent::Made, following)
            ==> following == ExecutionStep::<T, D, W>::Record(plan),
        ExecutionStep::<T, D, W>::Record(plan).leads_to(ExecutionEvent::Answer(true), following)
            ==> following == (ExecutionStep::<T, D, W>::FinishExecution {
            updates_outside: plan.updates_outside,
        }),
        ExecutionStep::<T, D, W>::Record(plan).leads_to(ExecutionEvent::Answer(false), following)
            ==> following == ExecutionStep::<T, D, W>::Halt,
        (ExecutionStep::<T, D, W>::FinishExecution { updates_outside }).leads_to(
            ExecutionEvent::Task(task),
            following,
        ) ==> following == ExecutionStep::<T, D, W>::Return(task),
        ExecutionStep::<T, D, W>::Halt.leads_to(ExecutionEvent::Answer(answer), following)
            ==> following == ExecutionStep::<T, D, W>::Return(SchedulerTask::NoTask),
{
}

/// The error of the block is set only when a module that was both read and written has halted it,
/// and only if it was not halted before.
pub proof fn only_modules_set_the_error<T: Transaction, D, W>(
    step: ExecutionStep<T, D, W>,
    maybe_error: Option<Error<D>>,
    event: ExecutionEvent<T, D, W>,
)
    requires
        step.expects(event),
    ensures
        !(step is Halt) ==> step.error_after(maybe_error, event) == maybe_error,
        step is Halt && !event->Answer_0 ==> step.error_after(maybe_error, event) == maybe_error,
        step is Halt && event->Answer_0 ==> (step.error_after(maybe_error, event) matches Some(
            error,
        ) && error is ModulePathReadWrite),
{
}

/// An execution breaks a rule if and only if it aborted because of wrong code, or the cache reports
/// such of one of its changes.
pub proof fn executions_are_refused_for_wrong_code<T: Transaction, D, W>(
    step: ExecutionStep<T, D, W>,
    event: ExecutionEvent<T, D, W>,
    violation: InvariantViolation,
)
    requires
        step.expects(event),
    ensures
        step.violates(event, violation) <==> violation is CodeInvariantError && {
            ||| step matches ExecutionStep::LoadPrevious(ExecutionStatus::Abort(err))
                && err.category is CodeInvariantError
            ||| step is Apply && event->Applied_0 is CodeInvariantError
        },
{
}

/// When an execution is recorded, each change of its plan was made by a step of its own, from the
/// third step on, in the order of the plan.
pub proof fn recorded_executions_have_made_each_change<T: Transaction, D, W>(
    txn_idx: TxnIndex,
    steps: Seq<ExecutionStep<T, D, W>>,
    events: Seq<ExecutionEvent<T, D, W>>,
    j: int,
    plan: ExecutionPlan<T, D>,
    m: int,
)
    requires
        execution_trace(txn_idx, steps, events),
        0 <= j < steps.len(),
        steps[j] == ExecutionStep::<T, D, W>::Record(plan),
        0 <= m < plan.ops@.len(),
    ensures
        2 + m < j,
        steps[2 + m] matches ExecutionStep::Apply { plan: p, next } && next == m && p.ops@[m]
            == plan.ops@[m] && p.status == plan.status && p.updates_outside == plan.updates_outside,
{
    changes_precede_the_record(txn_idx, steps, events, j, plan);
    assert(made_in_order(steps, plan, plan.ops@.len() as int));
    assert(steps[2 + m] is Apply);
    lemma_record_is_late(txn_idx, steps, events, j, plan);
}

/// An execution is recorded only after all changes of its plan.
proof fn lemma_record_is_late<T: Transaction, D, W>(
    txn_idx: TxnIndex,
    steps: Seq<ExecutionStep<T, D, W>>,
    events: Seq<ExecutionEvent<T, D, W>>,
    j: int,
    plan: ExecutionPlan<T, D>,
)
    requires
        execution_trace(txn_idx, steps, events),
        0 <= j < steps.len(),
        steps[j] == ExecutionStep::<T, D, W>::Record(plan),
    ensures
        j >= 2 + plan.ops@.len(),
{
    lemma_position(txn_idx, steps, events, j);
}

proof fn lemma_position<T: Transaction, D, W>(
    txn_idx: TxnIndex,
    steps: Seq<ExecutionStep<T, D, W>>,
    events: Seq<ExecutionEvent<T, D, W>>,
    j: int,
)
    requires
        execution_trace(txn_idx, steps, events),
        0 <= j < steps.len(),
    ensures
        steps[j] is LoadPrevious ==> j >= 1,
        steps[j].plan() is Some ==> j >= 2 + steps[j].changes_made(),
    decreases j,
{
    if j > 0 {
        lemma_position(txn_idx, steps, events, j - 1);
        assert(execution_goes_on(steps, events, j - 1));
    }
}

/// An execution is recorded with the status that it ended with, an abort as the error of its
/// transaction. Its reads are marked just before that if and only if it aborted because of
/// speculation, or one of its changes was found not to go with what it was based on.
pub proof fn the_record_tells_how_it_ended<T: Transaction, D, W>(
    txn_idx: TxnIndex,
    steps: Seq<ExecutionStep<T, D, W>>,
    events: Seq<ExecutionEvent<T, D, W>>,
    j: int,
    plan: ExecutionPlan<T, D>,
)
    requires
        execution_trace(txn_idx, steps, events),
        0 <= j < steps.len(),
        steps[j] == ExecutionStep::<T, D, W>::Record(plan),
    ensures
        j >= 3,
        events[0] matches ExecutionEvent::Executed(status) && match status {
            ExecutionStatus::Success(output) => *plan.status == ExecutionStatus::<
                T,
                Error<D>,
            >::Success(output),
            ExecutionStatus::SkipRest(output) => *plan.status == ExecutionStatus::<
                T,
                Error<D>,
            >::SkipRest(output),
            ExecutionStatus::Abort(err) => *plan.status == ExecutionStatus::<T, Error<D>>::Abort(
                Error::UserError(err),
            ),
        },
        steps[j - 1] is CaptureReadError || steps[j - 1] is TakeReads,
        steps[j - 1] is CaptureReadError <==> {
            ||| events[0] matches ExecutionEvent::Executed(ExecutionStatus::Abort(err))
                && err.category is SpeculativeExecutionError
            ||| exists|k: int|
                0 <= k < j && (#[trigger] events[k] matches ExecutionEvent::Applied(reply)
                    && reply is Inconsistent)
        },
{
    changes_precede_the_record(txn_idx, steps, events, j, plan);
    inconsistent_executions_are_marked(txn_idx, steps, events, j);
    lemma_position(txn_idx, steps, events, j);
    assert(execution_goes_on(steps, events, 0));
    assert(execution_goes_on(steps, events, j - 1));
    lemma_position(txn_idx, steps, events, j - 1);
    if exists|k: int| 0 <= k < j && #[trigger] is_inconsistent_reply(events[k]) {
        let k = choose|k: int| 0 <= k < j && #[trigger] is_inconsistent_reply(events[k]);
        assert(events[k] matches ExecutionEvent::Applied(reply) && reply is Inconsistent);
    }
    if exists|k: int|
        0 <= k < j && (#[trigger] events[k] matches ExecutionEvent::Applied(reply)
            && reply is Inconsistent) {
        let k = choose|k: int|
            0 <= k < j && (#[trigger] events[k] matches ExecutionEvent::Applied(reply)
                && reply is Inconsistent);
        assert(is_inconsistent_reply(events[k]));
    }
    assert(found_inconsistent(events, j) <==> steps[j - 1] is CaptureReadError);
}

} // verus!
