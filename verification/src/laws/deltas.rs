//! What becomes of the aggregator deltas of a committed transaction.
use crate::errors::InvariantViolation;
use crate::parallel::deltas::delta_goes_on;
use crate::parallel::deltas::delta_step_at;
use crate::parallel::deltas::delta_trace;
use crate::parallel::deltas::delta_violation;
use crate::parallel::deltas::deltas_become_writes;
use crate::parallel::deltas::written_at;
use crate::parallel::deltas::BaseValue;
use crate::parallel::deltas::DeltaEvent;
use crate::parallel::deltas::DeltaStep;
use crate::parallel::deltas::DeltaWrites;
use crate::raw_bytes::bytes_contents;
use crate::types::Key;
use crate::types::Transaction;
use std::sync::Arc;
use vstd::prelude::*;

verus! {

/// Every answer that the cache, the storage, the delta and the encoder can give may be handed back.
pub proof fn deltas_accept_every_answer<T: Transaction>(
    state: DeltaWrites<T>,
    op: Arc<T::DeltaOp>,
    value: u128,
    base: BaseValue,
    applied: Option<u128>,
    bytes: Vec<u8>,
)
    ensures
        match state.step {
            DeltaStep::Materialize { key: _ } => state.step.expects(DeltaEvent::Materialized(value))
                && state.step.expects(DeltaEvent::NeedsBase(op)),
            DeltaStep::ReadBase { key: _, op: _ } => state.step.expects(DeltaEvent::Base(base)),
            DeltaStep::ProvideBase { key: _, op: _, write: _, base: _ } => state.step.expects(
                DeltaEvent::Provided,
            ),
            DeltaStep::ApplyDelta { key: _, op: _, base: _ } => state.step.expects(
                DeltaEvent::Applied(applied),
            ),
            DeltaStep::Serialize { key: _, value: _ } => state.step.expects(
                DeltaEvent::Serialized(bytes),
            ),
            DeltaStep::Done => true,
        },
{
}

/// The first key with a delta is taken up first; without one, all is done at once. A key is taken
/// up by asking the cache for the value that its delta leads to.
pub proof fn deltas_are_taken_up_in_order<T: Transaction>(keys: Seq<Key>, n: nat)
    ensures
        n < keys.len() ==> (delta_step_at::<T>(keys, n) matches DeltaStep::Materialize { key }
            && key == keys[n as int]),
        n >= keys.len() ==> delta_step_at::<T>(keys, n) is Done,
{
}

/// A delta is refused if and only if the value below it cannot be read from storage, is no integer
/// or is missing there, or the delta does not apply to it; each for that reason.
pub proof fn deltas_are_refused_for_a_reason<T: Transaction>(event: DeltaEvent<T>)
    ensures
        match event {
            DeltaEvent::Base(BaseValue::Unreadable) => delta_violation(event) == Some(
                InvariantViolation::StorageReadFailed,
            ),
            DeltaEvent::Base(BaseValue::NotInteger) => delta_violation(event) == Some(
                InvariantViolation::BaseValueNotInteger,
            ),
            DeltaEvent::Base(BaseValue::Missing) => delta_violation(event) == Some(
                InvariantViolation::BaseValueMissing,
            ),
            DeltaEvent::Base(BaseValue::Value(_, _)) => delta_violation(event) is None,
            DeltaEvent::Applied(None) => delta_violation(event) == Some(
                InvariantViolation::DeltaApplyFailed,
            ),
            DeltaEvent::Applied(Some(_)) => delta_violation(event) is None,
            DeltaEvent::Materialized(_) => delta_violation(event) is None,
            DeltaEvent::NeedsBase(_) => delta_violation(event) is None,
            DeltaEvent::Provided => delta_violation(event) is None,
            DeltaEvent::Serialized(_) => delta_violation(event) is None,
        },
{
}

/// What the cache says that a delta leads to is what is turned into bytes. If the cache needs the
/// value below, storage is asked for it under the same key; the cache is given what storage holds;
/// the delta that the cache named is applied to the integer in it; and what that gives is turned
/// into bytes. Meanwhile nothing is written.
pub proof fn values_are_found_before_they_are_written<T: Transaction>(
    state: DeltaWrites<T>,
    event: DeltaEvent<T>,
    after: DeltaWrites<T>,
)
    requires
        state.step.expects(event),
        delta_violation(event) is None,
        state.leads_to(event, after),
        !(state.step is Serialize),
    ensures
        after.keys@ == state.keys@,
        after.writes@ == state.writes@,
        match (state.step, event) {
            (
                DeltaStep::Materialize { key },
                DeltaEvent::Materialized(value),
            ) => after.step matches DeltaStep::Serialize { key: k, value: v } && k == key && v
                == value,
            (
                DeltaStep::Materialize { key },
                DeltaEvent::NeedsBase(op),
            ) => after.step matches DeltaStep::ReadBase { key: k, op: o } && k == key && o == op,
            (
                DeltaStep::ReadBase { key, op },
                DeltaEvent::Base(BaseValue::Value(write, base)),
            ) => after.step matches DeltaStep::ProvideBase { key: k, op: o, write: w, base: b } && k
                == key && o == op && w == write && b == base,
            (
                DeltaStep::ProvideBase { key, op, write: _, base },
                DeltaEvent::Provided,
            ) => after.step matches DeltaStep::ApplyDelta { key: k, op: o, base: b } && k == key
                && o == op && b == base,
            (
                DeltaStep::ApplyDelta { key, op: _, base: _ },
                DeltaEvent::Applied(Some(value)),
            ) => after.step matches DeltaStep::Serialize { key: k, value: v } && k == key && v
                == value,
            _ => false,
        },
{
}

/// When a value has been turned into bytes, one write is added after those there are. It is under
/// the key at hand, replaces what is there, has no metadata, and has just these bytes: as many, and
/// the same at each position. Then the next key is taken up, or all is done.
pub proof fn serialized_bytes_are_written<T: Transaction>(
    state: DeltaWrites<T>,
    bytes: Vec<u8>,
    after: DeltaWrites<T>,
)
    requires
        state.wf(),
        state.step is Serialize,
        state.leads_to(DeltaEvent::Serialized(bytes), after),
    ensures
        ({
            let n = state.writes@.len() as int;
            let added = after.writes@[n];
            &&& after.keys@ == state.keys@
            &&& after.writes@.len() == n + 1
            &&& forall|i: int| 0 <= i < n ==> #[trigger] after.writes@[i] == state.writes@[i]
            &&& added.0 == state.step->Serialize_key
            &&& added.0 == state.keys@[n]
            &&& added.1.kind is Modification
            &&& added.1.metadata is None
            &&& added.1.bytes is Some
            &&& bytes_contents(added.1.bytes->0).len() == bytes@.len()
            &&& forall|p: int|
                0 <= p < bytes@.len() ==> #[trigger] bytes_contents(added.1.bytes->0)[p]
                    == bytes@[p]
            &&& n + 1 < state.keys@.len() ==> (after.step matches DeltaStep::Materialize { key }
                && key == state.keys@[n + 1])
            &&& n + 1 >= state.keys@.len() ==> after.step is Done
        }),
{
    let n = state.writes@.len() as int;
    assert forall|i: int| 0 <= i < n implies #[trigger] after.writes@[i] == state.writes@[i] by {
        assert(after.writes@.take(n)[i] == state.writes@[i]);
    }
}

/// When all deltas are done, there is one write for each key, in the order of the keys. For each
/// there was a step at which the value of its delta was turned into bytes, and the write has just
/// these: as many, and the same at each position. It replaces what is under the key and has no
/// metadata. The value is what the cache said that the delta leads to, or what the delta made of
/// the integer that storage held, which the cache had been given.
pub proof fn each_delta_is_written_in_full<T: Transaction>(
    keys: Seq<Key>,
    states: Seq<DeltaWrites<T>>,
    events: Seq<DeltaEvent<T>>,
    i: int,
) -> (j: int)
    requires
        delta_trace(keys, states, events),
        states.last().step is Done,
        0 <= i < keys.len(),
    ensures
        states.last().writes@.len() == keys.len(),
        states.last().writes@[i].0 == keys[i],
        ({
            let write = states.last().writes@[i].1;
            &&& 0 <= j < events.len()
            &&& events[j] matches DeltaEvent::Serialized(bytes)
            &&& write.bytes matches Some(b)
            &&& bytes_contents(b) == bytes@
            &&& bytes_contents(b).len() == bytes@.len()
            &&& forall|p: int|
                0 <= p < bytes@.len() ==> #[trigger] bytes_contents(b)[p] == bytes@[p]
            &&& write.kind is Modification
            &&& write.metadata is None
        }),
        states[j].step matches DeltaStep::Serialize { key, value } && key == keys[i] && {
            ||| {
                &&& j >= 1
                &&& states[j - 1].step matches DeltaStep::Materialize { key: asked } && asked
                    == keys[i]
                &&& events[j - 1] matches DeltaEvent::Materialized(found) && found == value
            }
            ||| {
                &&& j >= 4
                &&& states[j - 4].step matches DeltaStep::Materialize { key: asked } && asked
                    == keys[i]
                &&& events[j - 4] matches DeltaEvent::NeedsBase(op)
                &&& states[j - 3].step matches DeltaStep::ReadBase { key: read, op: o } && read
                    == keys[i] && o == op
                &&& events[j - 3] matches DeltaEvent::Base(BaseValue::Value(stored, base))
                &&& states[j - 2].step matches DeltaStep::ProvideBase {
                    key: given,
                    op: _,
                    write: w,
                    base: _,
                } && given == keys[i] && w == stored
                &&& states[j - 1].step matches DeltaStep::ApplyDelta { key: _, op: o, base: b } && o
                    == op && b == base
                &&& events[j - 1] matches DeltaEvent::Applied(Some(found)) && found == value
            }
        },
{
    deltas_become_writes(keys, states, events);
    assert(states.last().writes@[i].0 == keys[i]);
    let j = choose|j: int| #[trigger]
        written_at(states, events, j, keys[i], states.last().writes@[i].1);
    if j >= 1 {
        assert(delta_goes_on(states, events, j - 1));
    }
    if j >= 4 {
        assert(delta_goes_on(states, events, j - 4));
        assert(delta_goes_on(states, events, j - 3));
        assert(delta_goes_on(states, events, j - 2));
    }
    j
}

/// If turning a value into bytes always gives the same bytes, then two deltas that lead to the same
/// value are written with the same bytes, however often and wherever that value was come to.
pub proof fn equal_values_are_written_alike<T: Transaction>(
    keys: Seq<Key>,
    states: Seq<DeltaWrites<T>>,
    events: Seq<DeltaEvent<T>>,
    encoded: spec_fn(u128) -> Seq<u8>,
    i: int,
) -> (j: int)
    requires
        delta_trace(keys, states, events),
        states.last().step is Done,
        0 <= i < keys.len(),
        forall|k: int|
            #![trigger states[k]]
            0 <= k < events.len() ==> (states[k].step matches DeltaStep::Serialize { key: _, value }
                ==> events[k]->Serialized_0@ == encoded(value)),
    ensures
        0 <= j < events.len(),
        states[j].step matches DeltaStep::Serialize { key, value } && key == keys[i] && (
        states.last().writes@[i].1.bytes matches Some(b) && bytes_contents(b) == encoded(value)),
{
    let j = each_delta_is_written_in_full(keys, states, events, i);
    assert(states[j].step is Serialize);
    j
}

} // verus!
