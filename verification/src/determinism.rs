//! Sequential runs are predictable: two runs of a block end alike, and a run of a part of a block,
//! or under a lower gas limit, is a part of a run of the block.
use crate::delayed_fields::current_base;
use crate::delayed_fields::delayed_updates;
use crate::delayed_fields::delayed_updates_order_independent;
use crate::delayed_fields::delayed_violation;
use crate::delayed_fields::first_phase_violation;
use crate::delayed_fields::is_functional;
use crate::delayed_fields::is_unchained;
use crate::delayed_fields::output_applied;
use crate::delayed_fields::second_phase_violation;
use crate::delayed_fields::update_follows;
use crate::errors::DelayedFieldFailure;
use crate::errors::Error;
use crate::errors::InvariantViolation;
use crate::fee_statement::FeeStatement;
use crate::patching::event_fails;
use crate::patching::event_patched;
use crate::patching::events_patched;
use crate::patching::events_violation;
use crate::patching::holds_identifiers;
use crate::patching::may_reply;
use crate::patching::patch_violation;
use crate::patching::read_patched;
use crate::patching::reads_patched;
use crate::patching::reads_violation;
use crate::patching::sequential_candidates;
use crate::patching::write_set_patched;
use crate::patching::write_set_violation;
use crate::patching::Replaced;
use crate::raw_bytes::bytes_contents;
use crate::sequential::materialization_violation;
use crate::sequential::output_materialized;
use crate::sequential::output_of;
use crate::sequential::trace_fees;
use crate::sequential::SequentialSetup;
use crate::sequential::SequentialStep;
use crate::task::ExecutionStatus;
use crate::task::ExecutorTask;
use crate::task::MaterializedOutput;
use crate::task::TransactionOutput;
use crate::txn_commit_hook::TransactionCommitHook;
use crate::types::ApplyBase;
use crate::types::DelayedChange;
use crate::types::Event;
use crate::types::Identifier;
use crate::types::Key;
use crate::types::Transaction;
use crate::types::WriteOp;
use crate::unsync_map::LatestView;
use crate::unsync_map::SequentialState;
use crate::unsync_map::UnsyncMap;
use bytes::Bytes;
use std::collections::HashSet;
use std::sync::Arc;
use vstd::prelude::*;

verus! {

/// Two states hold the same writes and the same delayed fields, and have seen the same reads.
pub open spec fn same_state<T: Transaction>(a: SequentialState<T>, b: SequentialState<T>) -> bool {
    &&& a.unsync_map.data() == b.unsync_map.data()
    &&& a.unsync_map.delayed_fields() == b.unsync_map.delayed_fields()
    &&& a.counter == b.counter
    &&& a.read_set@ == b.read_set@
}

/// Two buffers, or none, hold the same bytes.
pub open spec fn same_bytes(a: Option<Bytes>, b: Option<Bytes>) -> bool {
    match (a, b) {
        (Some(x), Some(y)) => bytes_contents(x) == bytes_contents(y),
        (None, None) => true,
        _ => false,
    }
}

/// Two writes are of the same kind, with the same bytes and metadata.
pub open spec fn same_write(a: WriteOp, b: WriteOp) -> bool {
    &&& a.kind == b.kind
    &&& same_bytes(a.bytes, b.bytes)
    &&& a.metadata == b.metadata
}

/// The same keys are written, with the same writes.
pub open spec fn same_writes(a: Map<Key, Arc<WriteOp>>, b: Map<Key, Arc<WriteOp>>) -> bool {
    &&& a.dom() == b.dom()
    &&& forall|key: Key| #[trigger] a.contains_key(key) ==> same_write(*a[key], *b[key])
}

/// Two events have the same header and the same payload.
pub open spec fn same_event<T: Transaction>(a: Event<T>, b: Event<T>) -> bool {
    a.header == b.header && a.data@ == b.data@
}

/// The same events, in the same order.
pub open spec fn same_events<T: Transaction>(a: Seq<Event<T>>, b: Seq<Event<T>>) -> bool {
    &&& a.len() == b.len()
    &&& forall|i: int| 0 <= i < a.len() ==> same_event(#[trigger] a[i], b[i])
}

/// What two executions wrote, emitted and used is the same.
pub open spec fn same_effects<T: Transaction>(
    a: TransactionOutput<T>,
    b: TransactionOutput<T>,
) -> bool {
    &&& a.resource_write_set@ == b.resource_write_set@
    &&& a.aggregator_v1_write_set@ == b.aggregator_v1_write_set@
    &&& a.module_write_set@ == b.module_write_set@
    &&& a.aggregator_v1_delta_set@ == b.aggregator_v1_delta_set@
    &&& a.delayed_field_change_set@ == b.delayed_field_change_set@
    &&& a.events@.len() == b.events@.len()
    &&& forall|i: int|
        #![trigger a.events@[i]]
        0 <= i < a.events@.len() ==> same_event(a.events@[i].0, b.events@[i].0) && a.events@[i].1
            == b.events@[i].1
    &&& a.fee_statement == b.fee_statement
    &&& a.skipped == b.skipped
}

/// What two outputs came to at commit is the same.
pub open spec fn same_materialized<T: Transaction>(
    a: MaterializedOutput<T>,
    b: MaterializedOutput<T>,
) -> bool {
    &&& a.aggregator_v1_delta_writes@.len() == b.aggregator_v1_delta_writes@.len()
    &&& forall|i: int|
        #![trigger a.aggregator_v1_delta_writes@[i]]
        0 <= i < a.aggregator_v1_delta_writes@.len() ==> {
            &&& a.aggregator_v1_delta_writes@[i].0 == b.aggregator_v1_delta_writes@[i].0
            &&& same_write(
                a.aggregator_v1_delta_writes@[i].1,
                b.aggregator_v1_delta_writes@[i].1,
            )
        }
    &&& same_writes(a.patched_resource_write_set@, b.patched_resource_write_set@)
    &&& same_events(a.patched_events@, b.patched_events@)
}

/// Two outputs are the same, at commit too.
pub open spec fn same_output<T: Transaction>(
    a: TransactionOutput<T>,
    b: TransactionOutput<T>,
) -> bool {
    &&& same_effects(a, b)
    &&& match (a.materialized, b.materialized) {
        (Some(x), Some(y)) => same_materialized(x, y),
        (None, None) => true,
        _ => false,
    }
}

/// Two executions ended in the same way.
pub open spec fn same_status<T: Transaction, D>(
    a: ExecutionStatus<T, D>,
    b: ExecutionStatus<T, D>,
) -> bool {
    match (a, b) {
        (ExecutionStatus::Success(x), ExecutionStatus::Success(y)) => same_effects(x, y),
        (ExecutionStatus::SkipRest(x), ExecutionStatus::SkipRest(y)) => same_effects(x, y),
        (ExecutionStatus::Abort(x), ExecutionStatus::Abort(y)) => x == y,
        _ => false,
    }
}

/// Replacing identifiers came to the same in both cases.
pub open spec fn same_reply(a: Replaced, b: Replaced) -> bool {
    match (a, b) {
        (Ok(x), Ok(y)) => bytes_contents(x.0) == bytes_contents(y.0) && x.1@ == y.1@,
        (Err(_), Err(_)) => true,
        _ => false,
    }
}

/// Replacing identifiers comes to the same on both views.
pub open spec fn replies_agree<T: Transaction, V, R>(replace: R, view1: V, view2: V) -> bool where
    R: Fn(&V, &Bytes, &T::Layout) -> Replaced,
 {
    forall|b1: Bytes, b2: Bytes, layout: T::Layout, r1: Replaced, r2: Replaced|
        #![trigger call_ensures(replace, (&view1, &b1, &layout), r1), call_ensures(replace, (&view2, &b2, &layout), r2)]
        bytes_contents(b1) == bytes_contents(b2) && call_ensures(
            replace,
            (&view1, &b1, &layout),
            r1,
        ) && call_ensures(replace, (&view2, &b2, &layout), r2) ==> same_reply(r1, r2)
}

proof fn lemma_writes_agree<T: Transaction, V, R>(
    writes: Map<Key, (Arc<WriteOp>, Option<Arc<T::Layout>>)>,
    replace: R,
    view1: V,
    view2: V,
    patched1: Map<Key, Arc<WriteOp>>,
    patched2: Map<Key, Arc<WriteOp>>,
) where R: Fn(&V, &Bytes, &T::Layout) -> Replaced
    requires
        replies_agree::<T, V, R>(replace, view1, view2),
        write_set_patched::<T, V, R>(writes, view1, replace, patched1),
        write_set_patched::<T, V, R>(writes, view2, replace, patched2),
    ensures
        same_writes(patched1, patched2),
{
    assert forall|key: Key| patched1.dom().contains(key) == patched2.dom().contains(key) by {
        assert(patched1.contains_key(key) == patched2.contains_key(key));
    }
    assert(patched1.dom() =~= patched2.dom());
    assert forall|key: Key| #[trigger] patched1.contains_key(key) implies same_write(
        *patched1[key],
        *patched2[key],
    ) by {
        assert(patched2.contains_key(key));
        let value = *writes[key].0;
        let layout = *writes[key].1->0;
        let r1 = choose|r: (Bytes, HashSet<Identifier>)| #[trigger]
            may_reply::<T, V, R>(view1, replace, value, layout, Ok(r)) && *patched1[key]
                == value.with_bytes_spec(r.0);
        let r2 = choose|r: (Bytes, HashSet<Identifier>)| #[trigger]
            may_reply::<T, V, R>(view2, replace, value, layout, Ok(r)) && *patched2[key]
                == value.with_bytes_spec(r.0);
        assert(same_reply(Ok(r1), Ok(r2)));
    }
}

proof fn lemma_reads_agree<T: Transaction, V, R>(
    reads: Map<Key, (Arc<WriteOp>, Arc<T::Layout>)>,
    ids: Set<Identifier>,
    replace: R,
    view1: V,
    view2: V,
    patched1: Map<Key, Arc<WriteOp>>,
    patched2: Map<Key, Arc<WriteOp>>,
) where R: Fn(&V, &Bytes, &T::Layout) -> Replaced
    requires
        replies_agree::<T, V, R>(replace, view1, view2),
        reads_patched::<T, V, R>(reads, ids, view1, replace, patched1),
        reads_patched::<T, V, R>(reads, ids, view2, replace, patched2),
    ensures
        same_writes(patched1, patched2),
{
    assert forall|key: Key| #[trigger] reads.contains_key(key) implies {
        &&& patched1.contains_key(key) == patched2.contains_key(key)
        &&& patched1.contains_key(key) ==> same_write(*patched1[key], *patched2[key])
    } by {
        let value = *reads[key].0;
        let layout = *reads[key].1;
        let write1 = if patched1.contains_key(key) {
            Some(*patched1[key])
        } else {
            None
        };
        let write2 = if patched2.contains_key(key) {
            Some(*patched2[key])
        } else {
            None
        };
        assert(read_patched::<T, V, R>(value, layout, ids, view1, replace, write1));
        assert(read_patched::<T, V, R>(value, layout, ids, view2, replace, write2));
        let r1 = choose|r: (Bytes, HashSet<Identifier>)|
            {
                &&& #[trigger] may_reply::<T, V, R>(view1, replace, value, layout, Ok(r))
                &&& match write1 {
                    Some(write) => !r.1@.disjoint(ids) && write == value.with_bytes_spec(r.0),
                    None => r.1@.disjoint(ids),
                }
            };
        let r2 = choose|r: (Bytes, HashSet<Identifier>)|
            {
                &&& #[trigger] may_reply::<T, V, R>(view2, replace, value, layout, Ok(r))
                &&& match write2 {
                    Some(write) => !r.1@.disjoint(ids) && write == value.with_bytes_spec(r.0),
                    None => r.1@.disjoint(ids),
                }
            };
        assert(same_reply(Ok(r1), Ok(r2)));
    }
    assert forall|key: Key| patched1.dom().contains(key) == patched2.dom().contains(key) by {
        assert(patched1.contains_key(key) == patched2.contains_key(key));
    }
    assert(patched1.dom() =~= patched2.dom());
    assert forall|key: Key| #[trigger] patched1.contains_key(key) implies same_write(
        *patched1[key],
        *patched2[key],
    ) by {
        assert(reads.contains_key(key));
    }
}

proof fn lemma_events_agree<T: Transaction, V, R>(
    events1: Seq<(Event<T>, Option<Arc<T::Layout>>)>,
    events2: Seq<(Event<T>, Option<Arc<T::Layout>>)>,
    replace: R,
    view1: V,
    view2: V,
    patched1: Seq<Event<T>>,
    patched2: Seq<Event<T>>,
) where R: Fn(&V, &Bytes, &T::Layout) -> Replaced
    requires
        replies_agree::<T, V, R>(replace, view1, view2),
        events1.len() == events2.len(),
        forall|i: int|
            #![trigger events1[i]]
            0 <= i < events1.len() ==> same_event(events1[i].0, events2[i].0) && events1[i].1
                == events2[i].1,
        events_patched::<T, V, R>(events1, view1, replace, patched1),
        events_patched::<T, V, R>(events2, view2, replace, patched2),
    ensures
        same_events(patched1, patched2),
{
    assert forall|i: int| 0 <= i < patched1.len() implies same_event(
        #[trigger] patched1[i],
        patched2[i],
    ) by {
        let event1 = events1[i];
        let event2 = events2[i];
        assert(event_patched::<T, V, R>(event1, view1, replace, patched1[i]));
        assert(event_patched::<T, V, R>(event2, view2, replace, patched2[i]));
        if let Some(layout) = event1.1 {
            let (d1, r1) = choose|data: Bytes, reply: (Bytes, HashSet<Identifier>)|
                {
                    &&& bytes_contents(data) == event1.0.data@
                    &&& #[trigger] call_ensures(replace, (&view1, &data, &*layout), Ok(reply))
                    &&& patched1[i].data@ == bytes_contents(reply.0)
                };
            let (d2, r2) = choose|data: Bytes, reply: (Bytes, HashSet<Identifier>)|
                {
                    &&& bytes_contents(data) == event2.0.data@
                    &&& #[trigger] call_ensures(replace, (&view2, &data, &*layout), Ok(reply))
                    &&& patched2[i].data@ == bytes_contents(reply.0)
                };
            assert(same_reply(Ok(r1), Ok(r2)));
        }
    }
}

proof fn lemma_materialized_agree<T: Transaction, S, R>(
    view1: LatestView<'_, T, S>,
    view2: LatestView<'_, T, S>,
    output1: TransactionOutput<T>,
    output2: TransactionOutput<T>,
    replace: R,
    materialized1: MaterializedOutput<T>,
    materialized2: MaterializedOutput<T>,
) where R: Fn(&LatestView<'_, T, S>, &Bytes, &T::Layout) -> Replaced
    requires
        replies_agree::<T, LatestView<'_, T, S>, R>(replace, view1, view2),
        same_state(*view1.state, *view2.state),
        same_effects(output1, output2),
        output_materialized(view1, output1, replace, materialized1),
        output_materialized(view2, output2, replace, materialized2),
    ensures
        same_materialized(materialized1, materialized2),
{
    let ids = output1.delayed_field_change_set@.dom();
    let data = view1.state.unsync_map.data();
    let read_set = view1.state.read_set@;
    let written = output1.resource_write_set@.dom();
    let (writes1, reads1) = choose|
        writes: Map<Key, Arc<WriteOp>>,
        reads: Map<Key, Arc<WriteOp>>,
    |
        {
            &&& #[trigger] write_set_patched::<T, LatestView<'_, T, S>, R>(
                output1.resource_write_set@,
                view1,
                replace,
                writes,
            )
            &&& #[trigger] reads_patched::<T, LatestView<'_, T, S>, R>(
                sequential_candidates::<T>(data, read_set, written),
                ids,
                view1,
                replace,
                reads,
            )
            &&& materialized1.patched_resource_write_set@ == writes.union_prefer_right(reads)
        };
    let (writes2, reads2) = choose|
        writes: Map<Key, Arc<WriteOp>>,
        reads: Map<Key, Arc<WriteOp>>,
    |
        {
            &&& #[trigger] write_set_patched::<T, LatestView<'_, T, S>, R>(
                output2.resource_write_set@,
                view2,
                replace,
                writes,
            )
            &&& #[trigger] reads_patched::<T, LatestView<'_, T, S>, R>(
                sequential_candidates::<T>(data, read_set, written),
                ids,
                view2,
                replace,
                reads,
            )
            &&& materialized2.patched_resource_write_set@ == writes.union_prefer_right(reads)
        };
    lemma_writes_agree::<T, LatestView<'_, T, S>, R>(
        output1.resource_write_set@,
        replace,
        view1,
        view2,
        writes1,
        writes2,
    );
    lemma_reads_agree::<T, LatestView<'_, T, S>, R>(
        sequential_candidates::<T>(data, read_set, written),
        ids,
        replace,
        view1,
        view2,
        reads1,
        reads2,
    );
    lemma_events_agree::<T, LatestView<'_, T, S>, R>(
        output1.events@,
        output2.events@,
        replace,
        view1,
        view2,
        materialized1.patched_events@,
        materialized2.patched_events@,
    );
    let all1 = materialized1.patched_resource_write_set@;
    let all2 = materialized2.patched_resource_write_set@;
    assert(all1.dom() =~= all2.dom());
    assert forall|key: Key| #[trigger] all1.contains_key(key) implies same_write(
        *all1[key],
        *all2[key],
    ) by {
        if reads1.contains_key(key) {
            assert(reads2.dom().contains(key));
        } else {
            assert(!reads2.dom().contains(key));
            assert(writes1.contains_key(key));
            assert(writes2.dom().contains(key));
        }
    }
}

proof fn lemma_applied_agree<T: Transaction, A>(
    before1: UnsyncMap<T>,
    before2: UnsyncMap<T>,
    output1: TransactionOutput<T>,
    output2: TransactionOutput<T>,
    apply: A,
    after1: UnsyncMap<T>,
    after2: UnsyncMap<T>,
) where A: Fn(&T::ApplyEntry, &T::FieldValue) -> Result<T::FieldValue, DelayedFieldFailure>
    requires
        is_functional::<T, A>(apply),
        is_unchained(output1.delayed_field_change_set@),
        before1.data() == before2.data(),
        before1.delayed_fields() == before2.delayed_fields(),
        same_effects(output1, output2),
        output_applied(before1, output1, apply, after1),
        output_applied(before2, output2, apply, after2),
    ensures
        after1.data() == after2.data(),
        after1.delayed_fields() == after2.delayed_fields(),
{
    let fields = before1.delayed_fields();
    let changes = output1.delayed_field_change_set@;
    let (order1, updates1) = choose|
        order: Seq<Identifier>,
        updates: Map<Identifier, Arc<T::FieldValue>>,
    |
        {
            &&& #[trigger] delayed_updates(fields, changes, apply, order, updates)
            &&& after1.delayed_fields() == fields.union_prefer_right(updates)
        };
    let (order2, updates2) = choose|
        order: Seq<Identifier>,
        updates: Map<Identifier, Arc<T::FieldValue>>,
    |
        {
            &&& #[trigger] delayed_updates(fields, changes, apply, order, updates)
            &&& after2.delayed_fields() == fields.union_prefer_right(updates)
        };
    delayed_updates_order_independent(
        fields,
        changes,
        apply,
        order1,
        updates1,
        order2,
        updates2,
    );
}

/// What makes sequential runs predictable, and what holds of those that are.
impl<T, E, S, L, R, A> SequentialSetup<T, E, S, L, R, A> where
    T: Transaction,
    E: ExecutorTask<Txn = T, View = S>,
    L: TransactionCommitHook<Txn = T>,
    R: Fn(&LatestView<'_, T, S>, &Bytes, &T::Layout) -> Replaced,
    A: Fn(&T::ApplyEntry, &T::FieldValue) -> Result<T::FieldValue, DelayedFieldFailure>,
 {
    /// The machine does the same with a transaction whenever it starts from the same state.
    pub open spec fn machine_is_functional(self) -> bool {
        forall|
            i: int,
            step1: SequentialStep<T, E::Error>,
            step2: SequentialStep<T, E::Error>,
        |
            #![trigger self.executes(i, step1), self.executes(i, step2)]
            0 <= i < self.block.len() && self.executes(i, step1) && self.executes(i, step2)
                && same_state(step1.before, step2.before) ==> {
                &&& same_status(step1.status, step2.status)
                &&& same_state(step1.executed, step2.executed)
            }
    }

    /// No transaction changes a delayed field relative to the new value of one that it changes
    /// in this way, too.
    pub open spec fn changes_are_unchained(self) -> bool {
        forall|i: int, step: SequentialStep<T, E::Error>|
            0 <= i < self.block.len() && #[trigger] self.executes(i, step) ==> (output_of(
                step.status,
            ) matches Some(output) ==> is_unchained(output.delayed_field_change_set@))
    }

    /// Identifiers are replaced by the same values whenever the state is the same.
    pub open spec fn replacing_is_functional(self) -> bool {
        forall|
            i: int,
            step1: SequentialStep<T, E::Error>,
            step2: SequentialStep<T, E::Error>,
        |
            #![trigger self.view_after(i, &step1), self.view_after(i, &step2)]
            same_state(step1.after, step2.after) ==> replies_agree::<T, LatestView<'_, T, S>, R>(
                self.replace,
                self.view_after(i, &step1),
                self.view_after(i, &step2),
            )
    }

    /// Everything that a run is given is a function of the state.
    pub open spec fn is_predictable(self) -> bool {
        &&& self.machine_is_functional()
        &&& self.changes_are_unchained()
        &&& self.replacing_is_functional()
        &&& is_functional::<T, A>(self.apply)
    }

    proof fn lemma_steps_agree(
        self,
        i: int,
        step1: SequentialStep<T, E::Error>,
        step2: SequentialStep<T, E::Error>,
        prior1: Seq<FeeStatement>,
        prior2: Seq<FeeStatement>,
    )
        requires
            self.is_predictable(),
            0 <= i < self.block.len(),
            self.commits(i, step1, prior1),
            self.commits(i, step2, prior2),
            same_state(step1.before, step2.before),
        ensures
            same_status(step1.status, step2.status),
            same_state(step1.after, step2.after),
            same_output(step1.output, step2.output),
    {
        reveal(SequentialSetup::commits);
        assert(self.executes(i, step1) && self.executes(i, step2));
        let output1 = output_of(step1.status)->0;
        let output2 = output_of(step2.status)->0;
        lemma_applied_agree(
            step1.executed.unsync_map,
            step2.executed.unsync_map,
            output1,
            output2,
            self.apply,
            step1.after.unsync_map,
            step2.after.unsync_map,
        );
        assert(same_state(step1.after, step2.after));
        lemma_materialized_agree(
            self.view_after(i, &step1),
            self.view_after(i, &step2),
            output1,
            output2,
            self.replace,
            step1.output.materialized->0,
            step2.output.materialized->0,
        );
    }

    proof fn lemma_traces_agree(
        self,
        trace1: Seq<SequentialStep<T, E::Error>>,
        trace2: Seq<SequentialStep<T, E::Error>>,
        i: int,
    )
        requires
            self.is_predictable(),
            self.committed(trace1),
            self.committed(trace2),
            0 <= i < trace1.len(),
            i < trace2.len(),
        ensures
            same_status(trace1[i].status, trace2[i].status),
            same_state(trace1[i].after, trace2[i].after),
            same_output(trace1[i].output, trace2[i].output),
        decreases i,
    {
        assert(self.starts(trace1.take(i), trace1[i].before));
        assert(self.starts(trace2.take(i), trace2[i].before));
        if i > 0 {
            self.lemma_traces_agree(trace1, trace2, i - 1);
            assert(trace1.take(i).last() == trace1[i - 1]);
            assert(trace2.take(i).last() == trace2[i - 1]);
        } else {
            assert(trace1[i].before.unsync_map.data() =~= trace2[i].before.unsync_map.data());
            assert(trace1[i].before.unsync_map.delayed_fields()
                =~= trace2[i].before.unsync_map.delayed_fields());
        }
        self.lemma_steps_agree(
            i,
            trace1[i],
            trace2[i],
            trace_fees(trace1.take(i)),
            trace_fees(trace2.take(i)),
        );
    }

    /// The shorter of two traces does not go on where the longer one does.
    proof fn lemma_traces_end_together(
        self,
        trace1: Seq<SequentialStep<T, E::Error>>,
        trace2: Seq<SequentialStep<T, E::Error>>,
        outputs1: Seq<TransactionOutput<T>>,
    )
        requires
            self.is_predictable(),
            self.succeeds(trace1, outputs1),
            self.committed(trace2),
        ensures
            trace2.len() <= trace1.len(),
    {
        let n = trace1.len() as int;
        if n < trace2.len() {
            assert(n > 0);
            assert(self.goes_on(trace2, n - 1));
            self.lemma_fees_agree(trace1, trace2, n);
        }
    }

    /// Two sequential runs of a block that succeed have the same outputs, provided that the
    /// machine and what computes delayed fields do the same in the same state: in which order
    /// maps are walked makes no difference.
    pub proof fn sequential_runs_agree(
        self,
        outputs1: Seq<TransactionOutput<T>>,
        outputs2: Seq<TransactionOutput<T>>,
    )
        requires
            self.is_predictable(),
            self.may_succeed(outputs1),
            self.may_succeed(outputs2),
        ensures
            same_outputs(outputs1, outputs2),
    {
        let trace1 = choose|trace: Seq<SequentialStep<T, E::Error>>| #[trigger]
            self.succeeds(trace, outputs1);
        let trace2 = choose|trace: Seq<SequentialStep<T, E::Error>>| #[trigger]
            self.succeeds(trace, outputs2);
        self.lemma_traces_end_together(trace1, trace2, outputs1);
        self.lemma_traces_end_together(trace2, trace1, outputs2);
        assert forall|i: int| #![trigger outputs1[i]] 0 <= i < outputs1.len() implies same_output(
            outputs1[i],
            outputs2[i],
        ) by {
            let output1 = outputs1[i];
            let output2 = outputs2[i];
            if i < trace1.len() {
                self.lemma_traces_agree(trace1, trace2, i);
            } else {
                assert(output1.resource_write_set@ =~= output2.resource_write_set@);
                assert(output1.aggregator_v1_write_set@ =~= output2.aggregator_v1_write_set@);
                assert(output1.module_write_set@ =~= output2.module_write_set@);
                assert(output1.aggregator_v1_delta_set@ =~= output2.aggregator_v1_delta_set@);
                assert(output1.delayed_field_change_set@ =~= output2.delayed_field_change_set@);
            }
        }
    }

    /// The fees of two traces are the same as far as both go.
    proof fn lemma_fees_agree(
        self,
        trace1: Seq<SequentialStep<T, E::Error>>,
        trace2: Seq<SequentialStep<T, E::Error>>,
        n: int,
    )
        requires
            self.is_predictable(),
            self.committed(trace1),
            self.committed(trace2),
            0 <= n <= trace1.len(),
            n <= trace2.len(),
        ensures
            trace_fees(trace1.take(n)) == trace_fees(trace2.take(n)),
            n > 0 ==> self.goes_on(trace1, n - 1) == self.goes_on(trace2, n - 1),
    {
        let fees1 = trace_fees(trace1.take(n));
        let fees2 = trace_fees(trace2.take(n));
        assert(fees1 =~= fees2) by {
            assert forall|i: int| 0 <= i < n implies fees1[i] == fees2[i] by {
                self.lemma_traces_agree(trace1, trace2, i);
            }
        }
        if n > 0 {
            self.lemma_traces_agree(trace1, trace2, n - 1);
        }
    }

    /// A transaction that starts after the same transactions starts from the same state.
    proof fn lemma_starts_agree(
        self,
        trace1: Seq<SequentialStep<T, E::Error>>,
        trace2: Seq<SequentialStep<T, E::Error>>,
        before1: SequentialState<T>,
        before2: SequentialState<T>,
    )
        requires
            self.is_predictable(),
            self.committed(trace1),
            self.committed(trace2),
            trace1.len() == trace2.len(),
            self.starts(trace1, before1),
            self.starts(trace2, before2),
        ensures
            same_state(before1, before2),
    {
        if trace1.len() > 0 {
            self.lemma_traces_agree(trace1, trace2, trace1.len() - 1);
        } else {
            assert(before1.unsync_map.data() =~= before2.unsync_map.data());
            assert(before1.unsync_map.delayed_fields() =~= before2.unsync_map.delayed_fields());
        }
    }

    /// A prefix of what was committed was committed.
    proof fn lemma_committed_take(self, trace: Seq<SequentialStep<T, E::Error>>, n: int)
        requires
            self.committed(trace),
            0 <= n <= trace.len(),
        ensures
            self.committed(trace.take(n)),
            forall|i: int| 0 <= i < n ==> #[trigger] self.goes_on(trace.take(n), i) == self.goes_on(
                trace,
                i,
            ),
    {
        let part = trace.take(n);
        assert forall|i: int| #![trigger part[i]] 0 <= i < part.len() implies {
            &&& self.starts(part.take(i), part[i].before)
            &&& self.commits(i, part[i], trace_fees(part.take(i)))
        } by {
            assert(part[i] == trace[i]);
            assert(part.take(i) =~= trace.take(i));
        }
        assert forall|i: int| 0 <= i < n implies #[trigger] self.goes_on(part, i) == self.goes_on(
            trace,
            i,
        ) by {
            assert(part.take(i + 1) =~= trace.take(i + 1));
        }
        assert forall|i: int| 0 <= i < part.len() - 1 implies #[trigger] self.goes_on(part, i) by {
            assert(self.goes_on(trace, i));
        }
    }

    /// A transaction that is committed in one run breaks no rule in another that turns to it after
    /// the same transactions, and does not abort there.
    proof fn lemma_committed_step_does_not_fail(
        self,
        trace1: Seq<SequentialStep<T, E::Error>>,
        trace2: Seq<SequentialStep<T, E::Error>>,
        step: SequentialStep<T, E::Error>,
        error: Error<E::Error>,
    )
        requires
            self.is_predictable(),
            self.committed(trace1),
            trace2.len() < trace1.len(),
        ensures
            !self.fails(trace2, step, error),
    {
        if self.fails(trace2, step, error) {
            let n = trace2.len() as int;
            let other = trace1[n];
            let prior = trace_fees(trace2);
            self.lemma_committed_take(trace1, n);
            assert(trace2.take(n) =~= trace2);
            assert(trace1.take(n).take(n) =~= trace1.take(n));
            self.lemma_fees_agree(trace1.take(n), trace2, n);
            assert(self.starts(trace1.take(n), other.before));
            self.lemma_starts_agree(trace1.take(n), trace2, other.before, step.before);
            assert(self.commits(n, other, trace_fees(trace1.take(n))));
            reveal(SequentialSetup::commits);
            assert(self.executes(n, other) && self.executes(n, step));
            assert(same_status(other.status, step.status));
            assert(output_of(step.status) is Some);
            let violation = error->Invariant_0;
            assert(self.violates(n, step, prior, violation));
            let output1 = output_of(other.status)->0;
            let output2 = output_of(step.status)->0;
            assert(output1.aggregator_v1_delta_set@.is_empty());
            let fields = step.executed.unsync_map.delayed_fields();
            let changes = output2.delayed_field_change_set@;
            if delayed_violation(fields, changes, self.apply, violation) {
                let (order, updates) = choose|
                    order: Seq<Identifier>,
                    updates: Map<Identifier, Arc<T::FieldValue>>,
                |
                    #[trigger]
                    delayed_updates(fields, changes, self.apply, order, updates);
                lemma_applied_changes_are_sound(
                    fields,
                    changes,
                    self.apply,
                    order,
                    updates,
                    violation,
                );
            } else {
                lemma_applied_agree(
                    other.executed.unsync_map,
                    step.executed.unsync_map,
                    output1,
                    output2,
                    self.apply,
                    other.after.unsync_map,
                    step.after.unsync_map,
                );
                assert(same_state(other.after, step.after));
                lemma_materialized_is_sound(
                    self.view_after(n, &other),
                    self.view_after(n, &step),
                    output1,
                    output2,
                    self.replace,
                    other.output.materialized->0,
                    violation,
                );
            }
        }
    }

    /// Two sequential runs of a block end alike, provided that the machine and what computes
    /// delayed fields do the same in the same state. Either both succeed, with the same outputs; or
    /// both are aborted, with the same error; or both break a rule. Which rule is reported, where
    /// an output breaks several, depends on the order in which maps are walked.
    pub proof fn sequential_runs_end_alike(
        self,
        result1: Result<Vec<TransactionOutput<T>>, Error<E::Error>>,
        result2: Result<Vec<TransactionOutput<T>>, Error<E::Error>>,
    )
        requires
            self.is_predictable(),
            self.may_return(result1),
            self.may_return(result2),
        ensures
            match (result1, result2) {
                (Ok(outputs1), Ok(outputs2)) => same_outputs(outputs1@, outputs2@),
                (Err(Error::UserError(err1)), Err(Error::UserError(err2))) => err1 == err2,
                (Err(Error::Invariant(_)), Err(Error::Invariant(_))) => true,
                _ => false,
            },
    {
        match (result1, result2) {
            (Ok(outputs1), Ok(outputs2)) => {
                self.sequential_runs_agree(outputs1@, outputs2@);
            },
            (Ok(outputs1), Err(error2)) => {
                self.lemma_success_excludes_failure(outputs1@, error2);
            },
            (Err(error1), Ok(outputs2)) => {
                self.lemma_success_excludes_failure(outputs2@, error1);
            },
            (Err(error1), Err(error2)) => {
                let (trace1, step1) = choose|
                    trace: Seq<SequentialStep<T, E::Error>>,
                    step: SequentialStep<T, E::Error>,
                |
                    #[trigger]
                    self.fails(trace, step, error1);
                let (trace2, step2) = choose|
                    trace: Seq<SequentialStep<T, E::Error>>,
                    step: SequentialStep<T, E::Error>,
                |
                    #[trigger]
                    self.fails(trace, step, error2);
                if trace1.len() < trace2.len() {
                    self.lemma_committed_step_does_not_fail(trace2, trace1, step1, error1);
                } else if trace2.len() < trace1.len() {
                    self.lemma_committed_step_does_not_fail(trace1, trace2, step2, error2);
                } else {
                    self.lemma_starts_agree(trace1, trace2, step1.before, step2.before);
                    let n = trace1.len() as int;
                    assert(self.executes(n, step1) && self.executes(n, step2));
                    assert(same_status(step1.status, step2.status));
                }
            },
        }
    }

    proof fn lemma_success_excludes_failure(
        self,
        outputs: Seq<TransactionOutput<T>>,
        error: Error<E::Error>,
    )
        requires
            self.is_predictable(),
            self.may_succeed(outputs),
        ensures
            !self.may_fail(error),
    {
        if self.may_fail(error) {
            let trace1 = choose|trace: Seq<SequentialStep<T, E::Error>>| #[trigger]
                self.succeeds(trace, outputs);
            let (trace2, step) = choose|
                trace: Seq<SequentialStep<T, E::Error>>,
                step: SequentialStep<T, E::Error>,
            |
                #[trigger]
                self.fails(trace, step, error);
            self.lemma_traces_end_together(trace1, trace2, outputs);
            let n = trace2.len() as int;
            if trace1.len() == n {
                self.lemma_fees_agree(trace1, trace2, n);
            }
            self.lemma_committed_step_does_not_fail(trace1, trace2, step, error);
        }
    }

    /// The run of the first `m` transactions of the block.
    pub open spec fn prefix(self, m: int) -> SequentialSetup<T, E, S, L, R, A> {
        SequentialSetup { block: self.block.take(m), ..self }
    }

    /// What was committed in a run of a prefix was committed in a run of the block, and the other
    /// way round, as far as the prefix goes.
    proof fn lemma_prefix_committed(self, trace: Seq<SequentialStep<T, E::Error>>, m: int)
        requires
            0 <= m <= self.block.len(),
            trace.len() <= m,
        ensures
            self.prefix(m).committed(trace) <==> self.committed(trace),
            forall|i: int| #[trigger] self.prefix(m).goes_on(trace, i) == self.goes_on(trace, i),
    {
        let part = self.prefix(m);
        reveal(SequentialSetup::commits);
        assert forall|i: int| #![trigger trace[i]] 0 <= i < trace.len() implies part.commits(
            i,
            trace[i],
            trace_fees(trace.take(i)),
        ) == self.commits(i, trace[i], trace_fees(trace.take(i))) by {
            assert(part.executes(i, trace[i]) == self.executes(i, trace[i]));
            assert(part.view_after(i, &trace[i]) == self.view_after(i, &trace[i]));
        }
        assert forall|i: int| #[trigger] part.goes_on(trace, i) == self.goes_on(trace, i) by {}
        if self.committed(trace) {
            assert forall|i: int| 0 <= i < trace.len() - 1 implies #[trigger] part.goes_on(
                trace,
                i,
            ) by {
                assert(self.goes_on(trace, i));
            }
        }
        if part.committed(trace) {
            assert forall|i: int| 0 <= i < trace.len() - 1 implies #[trigger] self.goes_on(
                trace,
                i,
            ) by {
                assert(part.goes_on(trace, i));
            }
        }
    }

    /// Where a run of the block succeeds, a run of its first `m` transactions may succeed with the
    /// first `m` outputs; and if runs are predictable, those are the only ones.
    pub proof fn prefixes_have_the_first_outputs(
        self,
        m: int,
        outputs: Seq<TransactionOutput<T>>,
        result: Result<Vec<TransactionOutput<T>>, Error<E::Error>>,
    )
        requires
            0 <= m <= self.block.len(),
            self.may_succeed(outputs),
        ensures
            self.prefix(m).may_succeed(outputs.take(m)),
            self.is_predictable() && self.prefix(m).may_return(result) ==> (
            result matches Ok(first) && same_outputs(first@, outputs.take(m))),
    {
        let part = self.prefix(m);
        let trace = choose|trace: Seq<SequentialStep<T, E::Error>>| #[trigger]
            self.succeeds(trace, outputs);
        let n = if trace.len() <= m {
            trace.len() as int
        } else {
            m
        };
        let first = trace.take(n);
        self.lemma_committed_take(trace, n);
        self.lemma_prefix_committed(first, m);
        if n < m {
            assert(self.goes_on(first, n - 1) == self.goes_on(trace, n - 1));
            assert(part.goes_on(first, n - 1) == self.goes_on(first, n - 1));
        }
        assert(part.succeeds(first, outputs.take(m)));
        assert(part.may_succeed(outputs.take(m)));
        if self.is_predictable() && part.may_return(result) {
            assert(part.is_predictable()) by {
                assert forall|i: int, step: SequentialStep<T, E::Error>|
                    0 <= i < m implies #[trigger] part.executes(i, step) == self.executes(
                    i,
                    step,
                ) by {}
                assert forall|
                    i: int,
                    step1: SequentialStep<T, E::Error>,
                    step2: SequentialStep<T, E::Error>,
                |
                    #![trigger part.view_after(i, &step1), part.view_after(i, &step2)]
                    same_state(step1.after, step2.after) implies replies_agree::<
                    T,
                    LatestView<'_, T, S>,
                    R,
                >(part.replace, part.view_after(i, &step1), part.view_after(i, &step2)) by {
                    assert(part.view_after(i, &step1) == self.view_after(i, &step1));
                    assert(part.view_after(i, &step2) == self.view_after(i, &step2));
                }
            }
            match result {
                Ok(others) => {
                    part.sequential_runs_agree(others@, outputs.take(m));
                },
                Err(error) => {
                    part.lemma_success_excludes_failure(outputs.take(m), error);
                },
            }
        }
    }

    /// The same run under another gas limit.
    pub open spec fn with_limit(self, limit: Option<u64>) -> SequentialSetup<T, E, S, L, R, A> {
        SequentialSetup { maybe_block_gas_limit: limit, ..self }
    }

    /// What was committed under a lower limit would have been committed under a higher one, too.
    proof fn lemma_lower_limit_committed(
        self,
        limit: Option<u64>,
        trace: Seq<SequentialStep<T, E::Error>>,
    )
        requires
            is_lower_limit(limit, self.maybe_block_gas_limit),
            self.with_limit(limit).committed(trace),
        ensures
            self.committed(trace),
    {
        let low = self.with_limit(limit);
        reveal(SequentialSetup::commits);
        assert forall|i: int| #![trigger trace[i]] 0 <= i < trace.len() implies {
            &&& self.starts(trace.take(i), trace[i].before)
            &&& self.commits(i, trace[i], trace_fees(trace.take(i)))
        } by {
            assert(low.starts(trace.take(i), trace[i].before));
            assert(low.commits(i, trace[i], trace_fees(trace.take(i))));
            assert(low.view_after(i, &trace[i]) == self.view_after(i, &trace[i]));
        }
        assert forall|i: int| 0 <= i < trace.len() - 1 implies #[trigger] self.goes_on(
            trace,
            i,
        ) by {
            assert(low.goes_on(trace, i));
        }
    }

    /// A lower gas limit only shortens what is committed: the outputs of a run under the lower
    /// limit are the first ones of a run under the higher limit, followed by skip outputs.
    pub proof fn lower_limits_shorten_the_run(
        self,
        limit: Option<u64>,
        outputs: Seq<TransactionOutput<T>>,
        fewer: Seq<TransactionOutput<T>>,
    )
        requires
            self.is_predictable(),
            is_lower_limit(limit, self.maybe_block_gas_limit),
            self.may_succeed(outputs),
            self.with_limit(limit).may_succeed(fewer),
        ensures
            outputs.len() == fewer.len(),
            exists|k: int| #[trigger] agree_up_to(fewer, outputs, k),
    {
        let low = self.with_limit(limit);
        let trace = choose|trace: Seq<SequentialStep<T, E::Error>>| #[trigger]
            self.succeeds(trace, outputs);
        let shorter = choose|trace: Seq<SequentialStep<T, E::Error>>| #[trigger]
            low.succeeds(trace, fewer);
        self.lemma_lower_limit_committed(limit, shorter);
        self.lemma_traces_end_together(trace, shorter, outputs);
        let k = shorter.len() as int;
        assert forall|i: int| #![trigger fewer[i]] 0 <= i < fewer.len() implies if i < k {
            same_output(fewer[i], outputs[i])
        } else {
            fewer[i].is_skip_output()
        } by {
            if i < k {
                self.lemma_traces_agree(shorter, trace, i);
                assert(outputs[i] == trace[i].output);
            }
        }
        assert(agree_up_to(fewer, outputs, k));
    }
}

/// `a` is at most `b`, where no limit is the highest.
pub open spec fn is_lower_limit(a: Option<u64>, b: Option<u64>) -> bool {
    b matches Some(high) ==> (a matches Some(low) && low <= high)
}

/// Two lists of outputs are the same.
pub open spec fn same_outputs<T: Transaction>(
    a: Seq<TransactionOutput<T>>,
    b: Seq<TransactionOutput<T>>,
) -> bool {
    &&& a.len() == b.len()
    &&& forall|i: int| #![trigger a[i]] 0 <= i < a.len() ==> same_output(a[i], b[i])
}

/// The first `k` of `a` are the same as those of `b`, and the rest are those of skipped
/// transactions.
pub open spec fn agree_up_to<T: Transaction>(
    a: Seq<TransactionOutput<T>>,
    b: Seq<TransactionOutput<T>>,
    k: int,
) -> bool {
    &&& 0 <= k <= a.len()
    &&& forall|i: int|
        #![trigger a[i]]
        0 <= i < a.len() ==> if i < k {
            same_output(a[i], b[i])
        } else {
            a[i].is_skip_output()
        }
}

/// Changes that have been made break no rule.
proof fn lemma_applied_changes_are_sound<T: Transaction, A>(
    fields: Map<Identifier, Arc<T::FieldValue>>,
    changes: Map<Identifier, DelayedChange<T>>,
    apply: A,
    order: Seq<Identifier>,
    updates: Map<Identifier, Arc<T::FieldValue>>,
    violation: InvariantViolation,
) where A: Fn(&T::ApplyEntry, &T::FieldValue) -> Result<T::FieldValue, DelayedFieldFailure>
    requires
        is_functional::<T, A>(apply),
        is_unchained(changes),
        delayed_updates(fields, changes, apply, order, updates),
    ensures
        !delayed_violation(fields, changes, apply, violation),
{
    assert(order.take(order.len() as int) =~= order);
    assert forall|id: Identifier| #[trigger] changes.contains_key(id) implies update_follows(
        fields,
        changes,
        apply,
        order,
        updates,
        id,
    ) && updates.contains_key(id) by {
        assert(order.contains(id) <==> changes[id].is_second_phase());
        assert(updates.contains_key(id));
    }
    assert forall|id: Identifier| changes.contains_key(id) implies !(
    #[trigger] first_phase_violation(fields, changes, apply, id, violation)) by {
        assert(update_follows(fields, changes, apply, order, updates, id));
    }
    assert forall|others: Seq<Identifier>, n: int, made: Map<Identifier, Arc<T::FieldValue>>|
        !(#[trigger] second_phase_violation(
            fields,
            changes,
            apply,
            others,
            n,
            made,
            violation,
        )) by {
        if second_phase_violation(fields, changes, apply, others, n, made, violation) {
            let id = others[n];
            assert(others.contains(id));
            assert(changes.contains_key(id));
            assert(update_follows(fields, changes, apply, order, updates, id));
            if let DelayedChange::Apply(entry, ApplyBase::Current(base_id)) = changes[id] {
                if changes.contains_key(base_id) {
                    assert(!changes[base_id].is_second_phase());
                    assert(made.contains_key(base_id));
                    assert(update_follows(fields, changes, apply, others, made, base_id));
                    assert(update_follows(fields, changes, apply, order, updates, base_id));
                    assert(made[base_id] == updates[base_id]);
                }
                assert(current_base::<T>(fields, changes, others, made, id, base_id)
                    == current_base::<T>(fields, changes, order, updates, id, base_id));
            }
        }
    }
}

/// An output that has been materialized breaks no rule on another view that answers alike.
proof fn lemma_materialized_is_sound<T: Transaction, S, R>(
    view1: LatestView<'_, T, S>,
    view2: LatestView<'_, T, S>,
    output1: TransactionOutput<T>,
    output2: TransactionOutput<T>,
    replace: R,
    materialized: MaterializedOutput<T>,
    violation: InvariantViolation,
) where R: Fn(&LatestView<'_, T, S>, &Bytes, &T::Layout) -> Replaced
    requires
        replies_agree::<T, LatestView<'_, T, S>, R>(replace, view1, view2),
        same_state(*view1.state, *view2.state),
        same_effects(output1, output2),
        output_materialized(view1, output1, replace, materialized),
    ensures
        !materialization_violation(view2, output2, replace, violation),
{
    let writes = output1.resource_write_set@;
    let candidates = sequential_candidates::<T>(
        view1.state.unsync_map.data(),
        view1.state.read_set@,
        writes.dom(),
    );
    let ids = output1.delayed_field_change_set@.dom();
    let (patched_writes, patched_reads) = choose|
        w: Map<Key, Arc<WriteOp>>,
        r: Map<Key, Arc<WriteOp>>,
    |
        {
            &&& #[trigger] write_set_patched::<T, LatestView<'_, T, S>, R>(
                writes,
                view1,
                replace,
                w,
            )
            &&& #[trigger] reads_patched::<T, LatestView<'_, T, S>, R>(
                candidates,
                ids,
                view1,
                replace,
                r,
            )
            &&& materialized.patched_resource_write_set@ == w.union_prefer_right(r)
        };
    if write_set_violation::<T, LatestView<'_, T, S>, R>(writes, view2, replace, violation) {
        let key = choose|key: Key| #[trigger]
            writes.contains_key(key) && holds_identifiers::<T>(writes[key]) && patch_violation::<
                T,
                LatestView<'_, T, S>,
                R,
            >(view2, replace, *writes[key].0, *writes[key].1->0, violation);
        assert(patched_writes.contains_key(key));
        lemma_patched_is_sound::<T, LatestView<'_, T, S>, R>(
            view1,
            view2,
            replace,
            writes[key].0,
            writes[key].1->0,
            violation,
        );
    }
    if reads_violation::<T, LatestView<'_, T, S>, R>(candidates, view2, replace, violation) {
        let key = choose|key: Key| #[trigger]
            candidates.contains_key(key) && patch_violation::<T, LatestView<'_, T, S>, R>(
                view2,
                replace,
                *candidates[key].0,
                *candidates[key].1,
                violation,
            );
        lemma_patched_is_sound::<T, LatestView<'_, T, S>, R>(
            view1,
            view2,
            replace,
            candidates[key].0,
            candidates[key].1,
            violation,
        );
    }
    if events_violation::<T, LatestView<'_, T, S>, R>(output2.events@, view2, replace, violation) {
        let i = choose|i: int|
            0 <= i < output2.events@.len() && #[trigger] event_fails::<
                T,
                LatestView<'_, T, S>,
                R,
            >(output2.events@[i], view2, replace);
        let event1 = output1.events@[i];
        let event2 = output2.events@[i];
        assert(event_patched::<T, LatestView<'_, T, S>, R>(
            event1,
            view1,
            replace,
            materialized.patched_events@[i],
        ));
        let layout = event1.1->0;
        let (d1, r1) = choose|data: Bytes, reply: (Bytes, HashSet<Identifier>)|
            {
                &&& bytes_contents(data) == event1.0.data@
                &&& #[trigger] call_ensures(replace, (&view1, &data, &*layout), Ok(reply))
                &&& materialized.patched_events@[i].data@ == bytes_contents(reply.0)
            };
        let d2 = choose|data: Bytes|
            {
                &&& bytes_contents(data) == event2.0.data@
                &&& #[trigger] call_ensures(
                    replace,
                    (&view2, &data, &*layout),
                    Err(DelayedFieldFailure),
                )
            };
        assert(same_reply(Ok(r1), Err(DelayedFieldFailure)));
    }
}

/// A value whose identifiers were replaced breaks no rule on another view that answers alike.
proof fn lemma_patched_is_sound<T: Transaction, V, R>(
    view1: V,
    view2: V,
    replace: R,
    value: Arc<WriteOp>,
    layout: Arc<T::Layout>,
    violation: InvariantViolation,
) where R: Fn(&V, &Bytes, &T::Layout) -> Replaced
    requires
        replies_agree::<T, V, R>(replace, view1, view2),
        exists|reply: (Bytes, HashSet<Identifier>)| #[trigger]
            may_reply::<T, V, R>(view1, replace, *value, *layout, Ok(reply)),
    ensures
        !patch_violation::<T, V, R>(view2, replace, *value, *layout, violation),
{
    let reply = choose|reply: (Bytes, HashSet<Identifier>)| #[trigger]
        may_reply::<T, V, R>(view1, replace, *value, *layout, Ok(reply));
    assert(may_reply::<T, V, R>(view2, replace, *value, *layout, Err(DelayedFieldFailure))
        ==> same_reply(Ok(reply), Err(DelayedFieldFailure)));
}

} // verus!
