//! Turning the aggregator deltas of a committed transaction into writes.
use crate::errors::InvariantViolation;
use crate::raw_bytes::bytes_contents;
use crate::raw_bytes::bytes_from_vec;
use crate::types::Key;
use crate::types::Transaction;
use crate::types::WriteOp;
use crate::types::WriteOpKind;
use std::sync::Arc;
use vstd::prelude::*;

verus! {

/// What storage holds under the key of an aggregator.
pub enum BaseValue {
    /// Storage could not be read.
    Unreadable,
    /// Something that is no integer.
    NotInteger,
    /// Nothing.
    Missing,
    /// The stored value, and the integer that it holds.
    Value(Arc<WriteOp>, u128),
}

/// What is to be done next about the delta under `key`.
pub enum DeltaStep<T: Transaction> {
    /// Have the cache add the delta to the value below it.
    Materialize { key: Key },
    /// Read the value under the key from storage.
    ReadBase { key: Key, op: Arc<T::DeltaOp> },
    /// Give the cache the stored value `write`, which holds the integer `base`.
    ProvideBase { key: Key, op: Arc<T::DeltaOp>, write: Arc<WriteOp>, base: u128 },
    /// Apply the delta to the integer that storage holds.
    ApplyDelta { key: Key, op: Arc<T::DeltaOp>, base: u128 },
    /// Turn the value into bytes.
    Serialize { key: Key, value: u128 },
    /// All deltas have been turned into writes.
    Done,
}

/// What came of a step about a delta.
pub enum DeltaEvent<T: Transaction> {
    /// The value that the delta leads to.
    Materialized(u128),
    /// The cache holds no value below the delta.
    NeedsBase(Arc<T::DeltaOp>),
    /// What storage holds.
    Base(BaseValue),
    /// The cache has been given the stored value.
    Provided,
    /// The value that the delta leads to, if it applies.
    Applied(Option<u128>),
    /// The bytes of the value.
    Serialized(Vec<u8>),
}

/// The deltas of a transaction on their way to becoming writes.
pub struct DeltaWrites<T: Transaction> {
    /// The keys with deltas.
    pub keys: Vec<Key>,
    /// The writes so far: one for each of the first keys.
    pub writes: Vec<(Key, WriteOp)>,
    pub step: DeltaStep<T>,
}

/// `write` replaces what was under its key by `bytes`.
pub open spec fn modifies(write: WriteOp, bytes: Seq<u8>) -> bool {
    &&& write.kind == WriteOpKind::Modification
    &&& write.metadata is None
    &&& write.bytes matches Some(b) && bytes_contents(b) == bytes
}

impl<T: Transaction> DeltaStep<T> {
    /// The key whose delta the step is about.
    pub open spec fn key(self) -> Option<Key> {
        match self {
            DeltaStep::Materialize { key } => Some(key),
            DeltaStep::ReadBase { key, op: _ } => Some(key),
            DeltaStep::ProvideBase { key, op: _, write: _, base: _ } => Some(key),
            DeltaStep::ApplyDelta { key, op: _, base: _ } => Some(key),
            DeltaStep::Serialize { key, value: _ } => Some(key),
            DeltaStep::Done => None,
        }
    }

    /// `event` is of the kind that this step comes to.
    pub open spec fn expects(self, event: DeltaEvent<T>) -> bool {
        match self {
            DeltaStep::Materialize { key: _ } => event is Materialized || event is NeedsBase,
            DeltaStep::ReadBase { key: _, op: _ } => event is Base,
            DeltaStep::ProvideBase { key: _, op: _, write: _, base: _ } => event is Provided,
            DeltaStep::ApplyDelta { key: _, op: _, base: _ } => event is Applied,
            DeltaStep::Serialize { key: _, value: _ } => event is Serialized,
            DeltaStep::Done => false,
        }
    }
}

/// The step with which the delta under `keys[n]` is taken up.
pub open spec fn delta_step_at<T: Transaction>(keys: Seq<Key>, n: nat) -> DeltaStep<T> {
    if n < keys.len() {
        DeltaStep::Materialize { key: keys[n as int] }
    } else {
        DeltaStep::Done
    }
}

/// The rule that is broken when a step about a delta comes to `event`.
pub open spec fn delta_violation<T: Transaction>(event: DeltaEvent<T>) -> Option<
    InvariantViolation,
> {
    match event {
        DeltaEvent::Base(BaseValue::Unreadable) => Some(InvariantViolation::StorageReadFailed),
        DeltaEvent::Base(BaseValue::NotInteger) => Some(InvariantViolation::BaseValueNotInteger),
        DeltaEvent::Base(BaseValue::Missing) => Some(InvariantViolation::BaseValueMissing),
        DeltaEvent::Applied(None) => Some(InvariantViolation::DeltaApplyFailed),
        _ => None,
    }
}

impl<T: Transaction> DeltaWrites<T> {
    /// There is one write for each of the first keys, and the step is about the key after them,
    /// or there is none.
    pub open spec fn wf(&self) -> bool {
        let n = self.writes@.len();
        &&& n <= self.keys@.len()
        &&& forall|i: int| 0 <= i < n ==> (#[trigger] self.writes@[i]).0 == self.keys@[i]
        &&& self.step.key() == if n < self.keys@.len() {
            Some(self.keys@[n as int])
        } else {
            None
        }
    }

    /// `after` is what `self` becomes when its step comes to `event`.
    pub open spec fn leads_to(&self, event: DeltaEvent<T>, after: DeltaWrites<T>) -> bool {
        &&& after.keys@ == self.keys@
        &&& match (self.step, event) {
            (DeltaStep::Materialize { key }, DeltaEvent::Materialized(value)) => {
                &&& after.writes@ == self.writes@
                &&& after.step == (DeltaStep::<T>::Serialize { key, value })
            },
            (DeltaStep::Materialize { key }, DeltaEvent::NeedsBase(op)) => {
                &&& after.writes@ == self.writes@
                &&& after.step == (DeltaStep::<T>::ReadBase { key, op })
            },
            (DeltaStep::ReadBase { key, op }, DeltaEvent::Base(BaseValue::Value(write, base))) => {
                &&& after.writes@ == self.writes@
                &&& after.step == (DeltaStep::<T>::ProvideBase { key, op, write, base })
            },
            (DeltaStep::ProvideBase { key, op, write: _, base }, DeltaEvent::Provided) => {
                &&& after.writes@ == self.writes@
                &&& after.step == (DeltaStep::<T>::ApplyDelta { key, op, base })
            },
            (DeltaStep::ApplyDelta { key, op: _, base: _ }, DeltaEvent::Applied(Some(value))) => {
                &&& after.writes@ == self.writes@
                &&& after.step == (DeltaStep::<T>::Serialize { key, value })
            },
            (DeltaStep::Serialize { key, value: _ }, DeltaEvent::Serialized(bytes)) => {
                let n = self.writes@.len();
                &&& after.writes@.len() == n + 1
                &&& after.writes@.take(n as int) == self.writes@
                &&& after.writes@[n as int].0 == key
                &&& modifies(after.writes@[n as int].1, bytes@)
                &&& after.step == delta_step_at::<T>(self.keys@, n + 1)
            },
            _ => false,
        }
    }

    /// The deltas under `keys` before anything was done about them.
    pub fn start(keys: Vec<Key>) -> (r: DeltaWrites<T>)
        ensures
            r.wf(),
            r.keys@ == keys@,
            r.writes@.len() == 0,
            r.step == delta_step_at::<T>(keys@, 0),
    {
        let step = if keys.len() > 0 {
            DeltaStep::Materialize { key: keys[0] }
        } else {
            DeltaStep::Done
        };
        DeltaWrites { keys, writes: Vec::new(), step }
    }

    /// What comes after this, when its step has come to `event`. The deltas are taken up one
    /// after the other. Where the cache cannot tell the value that a delta leads to, the delta
    /// is applied to the integer that storage holds, and the cache is given the stored value. What
    /// the delta leads to replaces what is under the key.
    pub fn next(self, event: DeltaEvent<T>) -> (r: Result<DeltaWrites<T>, InvariantViolation>)
        requires
            self.wf(),
            self.step.expects(event),
        ensures
            match delta_violation(event) {
                Some(violation) => r == Err::<DeltaWrites<T>, InvariantViolation>(violation),
                None => r matches Ok(after) && after.wf() && self.leads_to(event, after),
            },
    {
        let ghost before = self;
        let DeltaWrites { keys, mut writes, step } = self;
        let step = match (step, event) {
            (DeltaStep::Materialize { key }, DeltaEvent::Materialized(value)) => {
                DeltaStep::Serialize { key, value }
            },
            (DeltaStep::Materialize { key }, DeltaEvent::NeedsBase(op)) => {
                DeltaStep::ReadBase { key, op }
            },
            (DeltaStep::ReadBase { key, op }, DeltaEvent::Base(base)) => {
                match base {
                    BaseValue::Unreadable => {
                        return Err(InvariantViolation::StorageReadFailed);
                    },
                    BaseValue::NotInteger => {
                        return Err(InvariantViolation::BaseValueNotInteger);
                    },
                    BaseValue::Missing => {
                        return Err(InvariantViolation::BaseValueMissing);
                    },
                    BaseValue::Value(write, base) => DeltaStep::ProvideBase {
                        key,
                        op,
                        write,
                        base,
                    },
                }
            },
            (DeltaStep::ProvideBase { key, op, write: _, base }, _) => DeltaStep::ApplyDelta {
                key,
                op,
                base,
            },
            (DeltaStep::ApplyDelta { key, op: _, base: _ }, DeltaEvent::Applied(applied)) => {
                match applied {
                    Some(value) => DeltaStep::Serialize { key, value },
                    None => {
                        return Err(InvariantViolation::DeltaApplyFailed);
                    },
                }
            },
            (DeltaStep::Serialize { key, value: _ }, DeltaEvent::Serialized(bytes)) => {
                writes.push((key, WriteOp::modification(bytes_from_vec(bytes))));
                let n: usize = writes.len();
                assert(writes@.take(n - 1) =~= before.writes@);
                if n < keys.len() {
                    DeltaStep::Materialize { key: keys[n] }
                } else {
                    DeltaStep::Done
                }
            },
            (_, _) => DeltaStep::Done,
        };
        Ok(DeltaWrites { keys, writes, step })
    }
}

/// State `i` came to an event of the kind that its step expects and that breaks no rule, and was
/// followed by a state that this leads to.
pub open spec fn delta_goes_on<T: Transaction>(
    states: Seq<DeltaWrites<T>>,
    events: Seq<DeltaEvent<T>>,
    i: int,
) -> bool {
    &&& states[i].step.expects(events[i])
    &&& delta_violation(events[i]) is None
    &&& states[i].leads_to(events[i], states[i + 1])
    &&& states[i + 1].wf()
}

/// `states` are the states that the deltas under `keys` go through, and `events` what their steps
/// came to.
pub open spec fn delta_trace<T: Transaction>(
    keys: Seq<Key>,
    states: Seq<DeltaWrites<T>>,
    events: Seq<DeltaEvent<T>>,
) -> bool {
    &&& states.len() == events.len() + 1
    &&& states[0].keys@ == keys
    &&& states[0].writes@.len() == 0
    &&& states[0].step == delta_step_at::<T>(keys, 0)
    &&& states[0].wf()
    &&& forall|i: int| 0 <= i < events.len() ==> #[trigger] delta_goes_on(states, events, i)
}

/// At `j` it was known that the delta under `key` leads to `value`: the cache said so, or it is
/// what the delta made of the integer that storage holds, and the cache was given the stored value.
pub open spec fn value_known<T: Transaction>(
    states: Seq<DeltaWrites<T>>,
    events: Seq<DeltaEvent<T>>,
    j: int,
    key: Key,
    value: u128,
) -> bool {
    ||| {
        &&& j >= 1
        &&& states[j - 1].step == (DeltaStep::<T>::Materialize { key })
        &&& events[j - 1] == DeltaEvent::<T>::Materialized(value)
    }
    ||| {
        &&& j >= 4
        &&& states[j - 4].step == (DeltaStep::<T>::Materialize { key })
        &&& states[j - 3].step is ReadBase
        &&& states[j - 2].step is ProvideBase
        &&& events[j - 4] matches DeltaEvent::NeedsBase(op)
        &&& events[j - 3] matches DeltaEvent::Base(BaseValue::Value(write, base))
        &&& states[j - 2].step == (DeltaStep::<T>::ProvideBase { key, op, write, base })
        &&& states[j - 1].step == (DeltaStep::<T>::ApplyDelta { key, op, base })
        &&& events[j - 1] == DeltaEvent::<T>::Applied(Some(value))
    }
}

/// At `j` the value that the delta under `key` leads to was turned into bytes, and `write` writes
/// these.
pub open spec fn written_at<T: Transaction>(
    states: Seq<DeltaWrites<T>>,
    events: Seq<DeltaEvent<T>>,
    j: int,
    key: Key,
    write: WriteOp,
) -> bool {
    &&& 0 <= j < events.len()
    &&& states[j].step matches DeltaStep::Serialize { key: k, value } && k == key && value_known(
        states,
        events,
        j,
        key,
        value,
    )
    &&& events[j] matches DeltaEvent::Serialized(bytes) && modifies(write, bytes@)
}

/// The steps before a value is turned into bytes.
proof fn lemma_value_known<T: Transaction>(
    keys: Seq<Key>,
    states: Seq<DeltaWrites<T>>,
    events: Seq<DeltaEvent<T>>,
    j: int,
    key: Key,
    value: u128,
)
    requires
        delta_trace(keys, states, events),
        0 <= j < states.len(),
        states[j].step == (DeltaStep::<T>::Serialize { key, value }),
    ensures
        value_known(states, events, j, key, value),
{
    assert(delta_goes_on(states, events, j - 1));
    if states[j - 1].step is ApplyDelta {
        assert(delta_goes_on(states, events, j - 2));
        assert(delta_goes_on(states, events, j - 3));
        assert(delta_goes_on(states, events, j - 4));
    }
}

proof fn lemma_written<T: Transaction>(
    keys: Seq<Key>,
    states: Seq<DeltaWrites<T>>,
    events: Seq<DeltaEvent<T>>,
    m: int,
    i: int,
)
    requires
        delta_trace(keys, states, events),
        0 <= m < states.len(),
        0 <= i < states[m].writes@.len(),
    ensures
        states[m].keys@ == keys,
        exists|j: int| #[trigger]
            written_at(states, events, j, states[m].keys@[i], states[m].writes@[i].1) && j < m,
    decreases m,
{
    assert(delta_goes_on(states, events, m - 1));
    let before = states[m - 1].writes@;
    if i < before.len() {
        lemma_written(keys, states, events, m - 1, i);
        if states[m - 1].step is Serialize {
            assert(states[m].writes@.take(before.len() as int)[i] == before[i]);
        }
        assert(states[m].writes@[i] == before[i]);
        let j = choose|j: int| #[trigger]
            written_at(states, events, j, states[m - 1].keys@[i], before[i].1) && j < m - 1;
        assert(written_at(states, events, j, states[m].keys@[i], states[m].writes@[i].1));
    } else {
        lemma_keys_stay(keys, states, events, m - 1);
        let value = states[m - 1].step->Serialize_value;
        lemma_value_known(keys, states, events, m - 1, keys[i], value);
        assert(written_at(states, events, m - 1, states[m].keys@[i], states[m].writes@[i].1));
    }
}

proof fn lemma_keys_stay<T: Transaction>(
    keys: Seq<Key>,
    states: Seq<DeltaWrites<T>>,
    events: Seq<DeltaEvent<T>>,
    m: int,
)
    requires
        delta_trace(keys, states, events),
        0 <= m < states.len(),
    ensures
        states[m].keys@ == keys,
        states[m].wf(),
    decreases m,
{
    if m > 0 {
        assert(delta_goes_on(states, events, m - 1));
        lemma_keys_stay(keys, states, events, m - 1);
    }
}

/// When all is done, there is one write for each key with a delta, in the order of the keys, and
/// it replaces what is under the key by the bytes of the value that the delta leads to.
pub proof fn deltas_become_writes<T: Transaction>(
    keys: Seq<Key>,
    states: Seq<DeltaWrites<T>>,
    events: Seq<DeltaEvent<T>>,
)
    requires
        delta_trace(keys, states, events),
        states.last().step is Done,
    ensures
        states.last().writes@.len() == keys.len(),
        forall|i: int|
            #![trigger states.last().writes@[i]]
            0 <= i < keys.len() ==> {
                &&& states.last().writes@[i].0 == keys[i]
                &&& exists|j: int| #[trigger]
                    written_at(states, events, j, keys[i], states.last().writes@[i].1)
            },
{
    let m = states.len() - 1;
    lemma_keys_stay(keys, states, events, m);
    assert forall|i: int| #![trigger states.last().writes@[i]] 0 <= i < keys.len() implies {
        &&& states.last().writes@[i].0 == keys[i]
        &&& exists|j: int| #[trigger]
            written_at(states, events, j, keys[i], states.last().writes@[i].1)
    } by {
        lemma_written(keys, states, events, m, i);
    }
}

/// Turning deltas into writes comes to an end: after at most five steps for each key, all is
/// done.
pub proof fn deltas_come_to_an_end<T: Transaction>(
    keys: Seq<Key>,
    states: Seq<DeltaWrites<T>>,
    events: Seq<DeltaEvent<T>>,
)
    requires
        delta_trace(keys, states, events),
    ensures
        events.len() <= 5 * keys.len(),
{
    lemma_delta_steps(keys, states, events, states.len() - 1);
}

/// How many steps of the delta at hand have been made.
spec fn steps_made<T: Transaction>(step: DeltaStep<T>) -> int {
    match step {
        DeltaStep::Materialize { key: _ } => 0,
        DeltaStep::ReadBase { key: _, op: _ } => 1,
        DeltaStep::ProvideBase { key: _, op: _, write: _, base: _ } => 2,
        DeltaStep::ApplyDelta { key: _, op: _, base: _ } => 3,
        DeltaStep::Serialize { key: _, value: _ } => 4,
        DeltaStep::Done => 0,
    }
}

proof fn lemma_delta_steps<T: Transaction>(
    keys: Seq<Key>,
    states: Seq<DeltaWrites<T>>,
    events: Seq<DeltaEvent<T>>,
    m: int,
)
    requires
        delta_trace(keys, states, events),
        0 <= m < states.len(),
    ensures
        m <= 5 * states[m].writes@.len() + steps_made(states[m].step),
        m <= 5 * keys.len(),
    decreases m,
{
    lemma_keys_stay(keys, states, events, m);
    if m > 0 {
        assert(delta_goes_on(states, events, m - 1));
        lemma_delta_steps(keys, states, events, m - 1);
    }
}

} // verus!
