//! Applying the output of a transaction to the state of a sequential run.
use crate::errors::DelayedFieldFailure;
use crate::errors::InvariantViolation;
use crate::host::share;
use crate::task::TransactionOutput;
use crate::types::ApplyBase;
use crate::types::DelayedChange;
use crate::types::Identifier;
use crate::types::Key;
use crate::types::Transaction;
use crate::types::WriteOp;
use crate::unsync_map::UnsyncMap;
use std::collections::HashMap;
use std::sync::Arc;
use vstd::prelude::*;

verus! {

broadcast use vstd::std_specs::hash::group_hash_axioms;

/// A write set whose values hold no delayed fields.
pub open spec fn without_layouts<T: Transaction>(writes: Map<Key, Arc<WriteOp>>) -> Map<
    Key,
    (Arc<WriteOp>, Option<Arc<T::Layout>>),
> {
    writes.map_values(|write: Arc<WriteOp>| (write, None::<Arc<T::Layout>>))
}

/// The writes of `data` overwritten by those of `output`.
pub open spec fn data_after<T: Transaction>(
    data: Map<Key, (Arc<WriteOp>, Option<Arc<T::Layout>>)>,
    output: TransactionOutput<T>,
) -> Map<Key, (Arc<WriteOp>, Option<Arc<T::Layout>>)> {
    data.union_prefer_right(output.resource_write_set@).union_prefer_right(
        without_layouts::<T>(output.aggregator_v1_write_set@),
    ).union_prefer_right(without_layouts::<T>(output.module_write_set@))
}

/// Records `writes`, each with its layout.
fn write_resources<T: Transaction>(
    unsync_map: &mut UnsyncMap<T>,
    writes: &HashMap<Key, (Arc<WriteOp>, Option<Arc<T::Layout>>)>,
)
    ensures
        final(unsync_map).data() == old(unsync_map).data().union_prefer_right(writes@),
        final(unsync_map).delayed_fields() == old(unsync_map).delayed_fields(),
{
    let ghost data = unsync_map.data();
    let ghost delayed_fields = unsync_map.delayed_fields();
    let ghost mut visited: Set<Key> = Set::empty();
    for entry in it: writes.iter()
        invariant
            unsync_map.delayed_fields() == delayed_fields,
            unsync_map.data() == data.union_prefer_right(writes@.restrict(visited)),
            forall|k: Key| #[trigger]
                visited.contains(k) <==> exists|j: int|
                    0 <= j < it.index() && *(#[trigger] it.seq()[j]).0 == k,
    {
        let (key, write) = entry;
        let layout = match &write.1 {
            Some(layout) => Some(share(layout)),
            None => None,
        };
        unsync_map.write(*key, share(&write.0), layout);
        proof {
            let before = visited;
            visited = visited.insert(*key);
            assert(data.union_prefer_right(writes@.restrict(visited))
                =~= data.union_prefer_right(writes@.restrict(before)).insert(*key, *write));
        }
    }
    proof {
        assert(writes@.restrict(visited) =~= writes@);
    }
}

/// Records `writes`, none of which holds delayed fields.
fn write_plain<T: Transaction>(
    unsync_map: &mut UnsyncMap<T>,
    writes: &HashMap<Key, Arc<WriteOp>>,
)
    ensures
        final(unsync_map).data() == old(unsync_map).data().union_prefer_right(
            without_layouts::<T>(writes@),
        ),
        final(unsync_map).delayed_fields() == old(unsync_map).delayed_fields(),
{
    let ghost data = unsync_map.data();
    let ghost delayed_fields = unsync_map.delayed_fields();
    let ghost plain = without_layouts::<T>(writes@);
    let ghost mut visited: Set<Key> = Set::empty();
    for entry in it: writes.iter()
        invariant
            plain == without_layouts::<T>(writes@),
            unsync_map.delayed_fields() == delayed_fields,
            unsync_map.data() == data.union_prefer_right(plain.restrict(visited)),
            forall|k: Key| #[trigger]
                visited.contains(k) <==> exists|j: int|
                    0 <= j < it.index() && *(#[trigger] it.seq()[j]).0 == k,
    {
        let (key, write) = entry;
        unsync_map.write(*key, share(write), None);
        proof {
            let before = visited;
            visited = visited.insert(*key);
            assert(data.union_prefer_right(plain.restrict(visited)) =~= data.union_prefer_right(
                plain.restrict(before),
            ).insert(*key, (*write, None::<Arc<T::Layout>>)));
        }
    }
    proof {
        assert(plain.restrict(visited) =~= plain);
    }
}

/// `a` stands before `b` in `order`.
pub open spec fn comes_before(order: Seq<Identifier>, a: Identifier, b: Identifier) -> bool {
    exists|i: int, j: int| 0 <= i < j < order.len() && order[i] == a && order[j] == b
}

/// `order` lists the changes that start from a field as the transaction leaves it, each
/// once.
pub open spec fn lists_second_phase<T: Transaction>(
    changes: Map<Identifier, DelayedChange<T>>,
    order: Seq<Identifier>,
) -> bool {
    &&& order.no_duplicates()
    &&& forall|id: Identifier| #[trigger]
        order.contains(id) <==> changes.contains_key(id) && changes[id].is_second_phase()
}

/// The value that the change to `id` starts from, where it starts from `base_id` as the
/// transaction leaves it: the new value of `base_id` if that is known by the turn of `id`,
/// and otherwise the value it had before.
pub open spec fn current_base<T: Transaction>(
    fields: Map<Identifier, Arc<T::FieldValue>>,
    changes: Map<Identifier, DelayedChange<T>>,
    order: Seq<Identifier>,
    updates: Map<Identifier, Arc<T::FieldValue>>,
    id: Identifier,
    base_id: Identifier,
) -> Option<Arc<T::FieldValue>> {
    if changes.contains_key(base_id) && (!changes[base_id].is_second_phase() || comes_before(
        order,
        base_id,
        id,
    )) {
        Some(updates[base_id])
    } else if fields.contains_key(base_id) {
        Some(fields[base_id])
    } else {
        None
    }
}

/// `updates[id]` is what the change to `id` makes of the value that it starts from.
pub open spec fn update_follows<T: Transaction, A>(
    fields: Map<Identifier, Arc<T::FieldValue>>,
    changes: Map<Identifier, DelayedChange<T>>,
    apply: A,
    order: Seq<Identifier>,
    updates: Map<Identifier, Arc<T::FieldValue>>,
    id: Identifier,
) -> bool where A: Fn(&T::ApplyEntry, &T::FieldValue) -> Result<T::FieldValue, DelayedFieldFailure> {
    match changes[id] {
        DelayedChange::Create(value) => !fields.contains_key(id) && updates[id] == value,
        DelayedChange::Apply(entry, ApplyBase::Previous(base_id)) => {
            &&& fields.contains_key(base_id)
            &&& call_ensures(apply, (&*entry, &*fields[base_id]), Ok(*updates[id]))
        },
        DelayedChange::Apply(entry, ApplyBase::Current(base_id)) => {
            let base = current_base::<T>(fields, changes, order, updates, id, base_id);
            &&& base is Some
            &&& call_ensures(apply, (&*entry, &*base->0), Ok(*updates[id]))
        },
    }
}

/// `updates` holds the new values of all fields that are changed, but for those that
/// `order` lists from `n` on.
pub open spec fn updates_up_to<T: Transaction, A>(
    fields: Map<Identifier, Arc<T::FieldValue>>,
    changes: Map<Identifier, DelayedChange<T>>,
    apply: A,
    order: Seq<Identifier>,
    n: int,
    updates: Map<Identifier, Arc<T::FieldValue>>,
) -> bool where A: Fn(&T::ApplyEntry, &T::FieldValue) -> Result<T::FieldValue, DelayedFieldFailure> {
    &&& lists_second_phase(changes, order)
    &&& 0 <= n <= order.len()
    &&& forall|id: Identifier| #[trigger]
        updates.contains_key(id) <==> changes.contains_key(id) && (!changes[id].is_second_phase()
            || order.take(n).contains(id))
    &&& forall|id: Identifier| #[trigger]
        updates.contains_key(id) ==> update_follows(fields, changes, apply, order, updates, id)
}

/// `updates` holds the new value of every field that `changes` changes, where the changes
/// that start from a field as the transaction leaves it are made in `order`.
pub open spec fn delayed_updates<T: Transaction, A>(
    fields: Map<Identifier, Arc<T::FieldValue>>,
    changes: Map<Identifier, DelayedChange<T>>,
    apply: A,
    order: Seq<Identifier>,
    updates: Map<Identifier, Arc<T::FieldValue>>,
) -> bool where A: Fn(&T::ApplyEntry, &T::FieldValue) -> Result<T::FieldValue, DelayedFieldFailure> {
    updates_up_to(fields, changes, apply, order, order.len() as int, updates)
}

/// The change to `id` breaks rule `violation`, whatever the other changes are.
pub open spec fn first_phase_violation<T: Transaction, A>(
    fields: Map<Identifier, Arc<T::FieldValue>>,
    changes: Map<Identifier, DelayedChange<T>>,
    apply: A,
    id: Identifier,
    violation: InvariantViolation,
) -> bool where A: Fn(&T::ApplyEntry, &T::FieldValue) -> Result<T::FieldValue, DelayedFieldFailure> {
    match changes[id] {
        DelayedChange::Create(value) => {
            &&& violation == InvariantViolation::DuplicateDelayedField
            &&& fields.contains_key(id)
        },
        DelayedChange::Apply(entry, ApplyBase::Previous(base_id)) => {
            ||| {
                &&& violation == InvariantViolation::MissingDelayedField
                &&& !fields.contains_key(base_id)
            }
            ||| {
                &&& violation == InvariantViolation::DelayedApplyFailed
                &&& fields.contains_key(base_id)
                &&& call_ensures(apply, (&*entry, &*fields[base_id]), Err(DelayedFieldFailure))
            }
        },
        DelayedChange::Apply(entry, ApplyBase::Current(base_id)) => false,
    }
}

/// The change that stands at `n` in `order` breaks rule `violation`, when those before it
/// have been made.
pub open spec fn second_phase_violation<T: Transaction, A>(
    fields: Map<Identifier, Arc<T::FieldValue>>,
    changes: Map<Identifier, DelayedChange<T>>,
    apply: A,
    order: Seq<Identifier>,
    n: int,
    updates: Map<Identifier, Arc<T::FieldValue>>,
    violation: InvariantViolation,
) -> bool where A: Fn(&T::ApplyEntry, &T::FieldValue) -> Result<T::FieldValue, DelayedFieldFailure> {
    &&& updates_up_to(fields, changes, apply, order, n, updates)
    &&& n < order.len()
    &&& changes[order[n]] matches DelayedChange::Apply(entry, ApplyBase::Current(base_id))
    &&& match current_base::<T>(fields, changes, order, updates, order[n], base_id) {
        None => violation == InvariantViolation::MissingDelayedField,
        Some(base) => {
            &&& violation == InvariantViolation::DelayedApplyFailed
            &&& call_ensures(apply, (&*entry, &*base), Err(DelayedFieldFailure))
        },
    }
}

/// Some change breaks rule `violation`.
pub open spec fn delayed_violation<T: Transaction, A>(
    fields: Map<Identifier, Arc<T::FieldValue>>,
    changes: Map<Identifier, DelayedChange<T>>,
    apply: A,
    violation: InvariantViolation,
) -> bool where A: Fn(&T::ApplyEntry, &T::FieldValue) -> Result<T::FieldValue, DelayedFieldFailure> {
    ||| exists|id: Identifier|
        changes.contains_key(id) && #[trigger] first_phase_violation(
            fields,
            changes,
            apply,
            id,
            violation,
        )
    ||| exists|order: Seq<Identifier>, n: int, updates: Map<Identifier, Arc<T::FieldValue>>|
        #[trigger]
        second_phase_violation(fields, changes, apply, order, n, updates, violation)
}

/// The changes that start from a field as the transaction leaves it, put aside in the first
/// phase: the field, the one it starts from, and the change.
spec fn put_aside<T: Transaction>(
    changes: Map<Identifier, DelayedChange<T>>,
    visited: Set<Identifier>,
    second_phase: Seq<(Identifier, Identifier, Arc<T::ApplyEntry>)>,
) -> bool {
    &&& forall|j: int|
        #![trigger second_phase[j]]
        0 <= j < second_phase.len() ==> {
            let (id, base_id, entry) = second_phase[j];
            &&& visited.contains(id)
            &&& changes.contains_key(id)
            &&& changes[id] == DelayedChange::<T>::Apply(entry, ApplyBase::Current(base_id))
        }
    &&& forall|j: int, k: int|
        #![trigger second_phase[j], second_phase[k]]
        0 <= j < k < second_phase.len() ==> second_phase[j].0 != second_phase[k].0
    &&& forall|id: Identifier| #[trigger]
        visited.contains(id) && changes.contains_key(id) && changes[id].is_second_phase()
            ==> exists|j: int| 0 <= j < second_phase.len() && (#[trigger] second_phase[j]).0 == id
}

/// At the turn of the change that stands at `n`, the fields with a new value are those that
/// the change may start from.
proof fn lemma_known_bases<T: Transaction, A>(
    fields: Map<Identifier, Arc<T::FieldValue>>,
    changes: Map<Identifier, DelayedChange<T>>,
    apply: A,
    order: Seq<Identifier>,
    n: int,
    updates: Map<Identifier, Arc<T::FieldValue>>,
    base_id: Identifier,
) where A: Fn(&T::ApplyEntry, &T::FieldValue) -> Result<T::FieldValue, DelayedFieldFailure>
    requires
        updates_up_to(fields, changes, apply, order, n, updates),
        n < order.len(),
    ensures
        updates.contains_key(base_id) <==> changes.contains_key(base_id) && (
        !changes[base_id].is_second_phase() || comes_before(order, base_id, order[n])),
{
    if order.take(n).contains(base_id) {
        let i = choose|i: int| 0 <= i < n && order.take(n)[i] == base_id;
        assert(order[i] == base_id && 0 <= i < n < order.len());
    }
    if comes_before(order, base_id, order[n]) {
        let (i, j) = choose|i: int, j: int|
            0 <= i < j < order.len() && order[i] == base_id && order[j] == order[n];
        assert(j == n);
        assert(order.take(n)[i] == base_id);
    }
}

/// Making the change that stands at `n` keeps what is known of the others.
proof fn lemma_updates_extend<T: Transaction, A>(
    fields: Map<Identifier, Arc<T::FieldValue>>,
    changes: Map<Identifier, DelayedChange<T>>,
    apply: A,
    order: Seq<Identifier>,
    n: int,
    updates: Map<Identifier, Arc<T::FieldValue>>,
    value: Arc<T::FieldValue>,
) where A: Fn(&T::ApplyEntry, &T::FieldValue) -> Result<T::FieldValue, DelayedFieldFailure>
    requires
        updates_up_to(fields, changes, apply, order, n, updates),
        n < order.len(),
        changes[order[n]] matches DelayedChange::Apply(entry, ApplyBase::Current(base_id)) && {
            let base = current_base::<T>(fields, changes, order, updates, order[n], base_id);
            base is Some && call_ensures(apply, (&*entry, &*base->0), Ok(*value))
        },
    ensures
        updates_up_to(fields, changes, apply, order, n + 1, updates.insert(order[n], value)),
{
    let id = order[n];
    let extended = updates.insert(id, value);
    assert(order.contains(id));
    assert(order.take(n + 1) =~= order.take(n).push(id));
    assert forall|other: Identifier| order.take(n + 1).contains(other) <==> other == id
        || order.take(n).contains(other) by {
        if order.take(n).contains(other) {
            let i = choose|i: int| 0 <= i < n && order.take(n)[i] == other;
            assert(order.take(n + 1)[i] == other);
        }
        assert(order.take(n + 1)[n] == id);
    }
    assert(!order.take(n).contains(id)) by {
        if order.take(n).contains(id) {
            let i = choose|i: int| 0 <= i < n && order.take(n)[i] == id;
            assert(order[i] == order[n]);
        }
    }
    assert(!updates.contains_key(id));
    assert forall|other: Identifier| #[trigger] extended.contains_key(other) implies update_follows(
        fields,
        changes,
        apply,
        order,
        extended,
        other,
    ) by {
        if other != id {
            assert(updates.contains_key(other));
            assert(update_follows(fields, changes, apply, order, updates, other));
            if let DelayedChange::Apply(_, ApplyBase::Current(base_id)) = changes[other] {
                assert(order.take(n).contains(other));
                let k = choose|k: int| 0 <= k < n && order.take(n)[k] == other;
                assert(order[k] == other);
                if base_id == id && comes_before(order, id, other) {
                    let (i, j) = choose|i: int, j: int|
                        0 <= i < j < order.len() && order[i] == id && order[j] == other;
                    assert(i == n && j == k);
                }
            }
        } else {
            assert(changes[id] matches DelayedChange::Apply(_, ApplyBase::Current(base_id)) && (
            base_id == id ==> !comes_before(order, id, id))) by {
                if comes_before(order, id, id) {
                    let (i, j) = choose|i: int, j: int|
                        0 <= i < j < order.len() && order[i] == id && order[j] == id;
                    assert(false);
                }
            }
        }
    }
}

/// The new values of the fields that `changes` changes.
fn compute_updates<T: Transaction, A>(
    unsync_map: &UnsyncMap<T>,
    changes: &HashMap<Identifier, DelayedChange<T>>,
    apply: &A,
) -> (r: Result<HashMap<Identifier, Arc<T::FieldValue>>, InvariantViolation>) where
    A: Fn(&T::ApplyEntry, &T::FieldValue) -> Result<T::FieldValue, DelayedFieldFailure>,

    requires
        forall|entry: &T::ApplyEntry, base: &T::FieldValue| #[trigger]
            call_requires(*apply, (entry, base)),
    ensures
        r matches Ok(updates) ==> exists|order: Seq<Identifier>| #[trigger]
            delayed_updates(unsync_map.delayed_fields(), changes@, *apply, order, updates@),
        r matches Err(violation) ==> delayed_violation(
            unsync_map.delayed_fields(),
            changes@,
            *apply,
            violation,
        ),
{
    let ghost fields = unsync_map.delayed_fields();
    let mut second_phase: Vec<(Identifier, Identifier, Arc<T::ApplyEntry>)> = Vec::new();
    let mut updates: HashMap<Identifier, Arc<T::FieldValue>> = HashMap::new();
    let ghost mut visited: Set<Identifier> = Set::empty();
    for item in it: changes.iter()
        invariant
            fields == unsync_map.delayed_fields(),
            forall|entry: &T::ApplyEntry, base: &T::FieldValue| #[trigger]
                call_requires(*apply, (entry, base)),
            it.seq().no_duplicates(),
            forall|k: Identifier| #[trigger]
                visited.contains(k) <==> exists|j: int|
                    0 <= j < it.index() && *(#[trigger] it.seq()[j]).0 == k,
            forall|id: Identifier| #[trigger]
                updates@.contains_key(id) <==> visited.contains(id) && changes@.contains_key(id)
                    && !changes@[id].is_second_phase(),
            forall|id: Identifier| #[trigger]
                updates@.contains_key(id) ==> update_follows(
                    fields,
                    changes@,
                    *apply,
                    Seq::empty(),
                    updates@,
                    id,
                ),
            put_aside(changes@, visited, second_phase@),
    {
        let (id, change) = item;
        assert(!visited.contains(*id));
        let ghost before = visited;
        let ghost second_phase_before = second_phase@;
        match change {
            DelayedChange::Create(value) => {
                if unsync_map.fetch_delayed_field(id).is_some() {
                    assert(first_phase_violation(
                        fields,
                        changes@,
                        *apply,
                        *id,
                        InvariantViolation::DuplicateDelayedField,
                    ));
                    return Err(InvariantViolation::DuplicateDelayedField);
                }
                updates.insert(*id, share(value));
            },
            DelayedChange::Apply(entry, base) => {
                match base {
                    ApplyBase::Previous(base_id) => {
                        match unsync_map.fetch_delayed_field(base_id) {
                            None => {
                                assert(first_phase_violation(
                                    fields,
                                    changes@,
                                    *apply,
                                    *id,
                                    InvariantViolation::MissingDelayedField,
                                ));
                                return Err(InvariantViolation::MissingDelayedField);
                            },
                            Some(base_value) => {
                                match apply(&**entry, &*base_value) {
                                    Ok(value) => {
                                        updates.insert(*id, Arc::new(value));
                                    },
                                    Err(failure) => {
                                        assert(failure == DelayedFieldFailure);
                                        assert(first_phase_violation(
                                            fields,
                                            changes@,
                                            *apply,
                                            *id,
                                            InvariantViolation::DelayedApplyFailed,
                                        ));
                                        return Err(InvariantViolation::DelayedApplyFailed);
                                    },
                                }
                            },
                        }
                    },
                    ApplyBase::Current(base_id) => {
                        second_phase.push((*id, *base_id, share(entry)));
                    },
                }
            },
        }
        proof {
            visited = visited.insert(*id);
            assert forall|other: Identifier|
                #[trigger] visited.contains(other) && changes@.contains_key(other)
                    && changes@[other].is_second_phase() implies exists|j: int|
                0 <= j < second_phase@.len() && (#[trigger] second_phase@[j]).0 == other by {
                if other == *id {
                    assert(second_phase@[second_phase@.len() - 1].0 == other);
                } else {
                    assert(before.contains(other));
                    let j = choose|j: int|
                        0 <= j < second_phase_before.len() && (
                        #[trigger] second_phase_before[j]).0 == other;
                    assert(second_phase@[j].0 == other);
                }
            }
        }
    }
    let ghost order = Seq::new(second_phase@.len(), |j: int| second_phase@[j].0);
    proof {
        assert(order.take(0) =~= Seq::empty());
        assert forall|id: Identifier| #[trigger] order.contains(id) <==> changes@.contains_key(id)
            && changes@[id].is_second_phase() by {
            if changes@.contains_key(id) && changes@[id].is_second_phase() {
                assert(visited.contains(id));
                let j = choose|j: int|
                    0 <= j < second_phase@.len() && (#[trigger] second_phase@[j]).0 == id;
                assert(order[j] == id);
            }
        }
        assert forall|id: Identifier| #[trigger] updates@.contains_key(id) implies update_follows(
            fields,
            changes@,
            *apply,
            order,
            updates@,
            id,
        ) by {
            assert(update_follows(fields, changes@, *apply, Seq::empty(), updates@, id));
        }
    }
    let mut n: usize = 0;
    while n < second_phase.len()
        invariant
            n <= second_phase.len(),
            fields == unsync_map.delayed_fields(),
            forall|entry: &T::ApplyEntry, base: &T::FieldValue| #[trigger]
                call_requires(*apply, (entry, base)),
            put_aside(changes@, visited, second_phase@),
            order == Seq::new(second_phase@.len(), |j: int| second_phase@[j].0),
            updates_up_to(fields, changes@, *apply, order, n as int, updates@),
        decreases second_phase.len() - n,
    {
        let (id, base_id, entry) = &second_phase[n];
        let ghost updates_before = updates@;
        assert(order[n as int] == *id);
        assert(changes@[*id] == DelayedChange::<T>::Apply(*entry, ApplyBase::Current(*base_id)));
        proof {
            lemma_known_bases(fields, changes@, *apply, order, n as int, updates@, *base_id);
        }
        let base = match updates.get(base_id) {
            Some(value) => Some(share(value)),
            None => unsync_map.fetch_delayed_field(base_id),
        };
        assert(base == current_base::<T>(fields, changes@, order, updates@, *id, *base_id));
        match base {
            None => {
                assert(second_phase_violation(
                    fields,
                    changes@,
                    *apply,
                    order,
                    n as int,
                    updates@,
                    InvariantViolation::MissingDelayedField,
                ));
                return Err(InvariantViolation::MissingDelayedField);
            },
            Some(base_value) => {
                match apply(&**entry, &*base_value) {
                    Ok(value) => {
                        updates.insert(*id, Arc::new(value));
                    },
                    Err(failure) => {
                        assert(failure == DelayedFieldFailure);
                        assert(second_phase_violation(
                            fields,
                            changes@,
                            *apply,
                            order,
                            n as int,
                            updates@,
                            InvariantViolation::DelayedApplyFailed,
                        ));
                        return Err(InvariantViolation::DelayedApplyFailed);
                    },
                }
            },
        }
        proof {
            lemma_updates_extend(
                fields,
                changes@,
                *apply,
                order,
                n as int,
                updates_before,
                updates@[*id],
            );
        }
        n = n + 1;
    }
    let r = Ok(updates);
    assert(delayed_updates(unsync_map.delayed_fields(), changes@, *apply, order, r->Ok_0@));
    r
}

/// What applying `output` makes of a map that holds `before`, when all its changes to
/// delayed fields can be made.
pub open spec fn output_applied<T: Transaction, A>(
    before: UnsyncMap<T>,
    output: TransactionOutput<T>,
    apply: A,
    after: UnsyncMap<T>,
) -> bool where A: Fn(&T::ApplyEntry, &T::FieldValue) -> Result<T::FieldValue, DelayedFieldFailure> {
    &&& after.data() == data_after(before.data(), output)
    &&& exists|order: Seq<Identifier>, updates: Map<Identifier, Arc<T::FieldValue>>|
        {
            &&& #[trigger] delayed_updates(
                before.delayed_fields(),
                output.delayed_field_change_set@,
                apply,
                order,
                updates,
            )
            &&& after.delayed_fields() == before.delayed_fields().union_prefer_right(updates)
        }
}

/// Applies the writes of `output`, and its changes to delayed fields. A change whose base
/// is a field as it was before the transaction sees none of the other changes; one whose
/// base is a field as the transaction leaves it sees the first kind, and those of its own
/// kind that come before it.
///
/// If a change breaks a rule, no delayed field is changed.
pub fn apply_output_sequential<T: Transaction, A>(
    unsync_map: &mut UnsyncMap<T>,
    output: &TransactionOutput<T>,
    apply: &A,
) -> (r: Result<(), InvariantViolation>) where
    A: Fn(&T::ApplyEntry, &T::FieldValue) -> Result<T::FieldValue, DelayedFieldFailure>,

    requires
        forall|entry: &T::ApplyEntry, base: &T::FieldValue| #[trigger]
            call_requires(*apply, (entry, base)),
    ensures
        final(unsync_map).data() == data_after(old(unsync_map).data(), *output),
        r is Ok ==> output_applied(*old(unsync_map), *output, *apply, *final(unsync_map)),
        r matches Err(violation) ==> {
            &&& delayed_violation(
                old(unsync_map).delayed_fields(),
                output.delayed_field_change_set@,
                *apply,
                violation,
            )
            &&& final(unsync_map).delayed_fields() == old(unsync_map).delayed_fields()
        },
{
    write_resources(unsync_map, &output.resource_write_set);
    write_plain(unsync_map, &output.aggregator_v1_write_set);
    write_plain(unsync_map, &output.module_write_set);
    let ghost data = unsync_map.data();
    let ghost fields = unsync_map.delayed_fields();
    let updates = match compute_updates(unsync_map, &output.delayed_field_change_set, apply) {
        Ok(updates) => updates,
        Err(violation) => {
            return Err(violation);
        },
    };
    let ghost order = choose|order: Seq<Identifier>| #[trigger]
        delayed_updates(fields, output.delayed_field_change_set@, *apply, order, updates@);
    let ghost mut visited: Set<Identifier> = Set::empty();
    for item in it: updates.iter()
        invariant
            unsync_map.data() == data,
            unsync_map.delayed_fields() == fields.union_prefer_right(updates@.restrict(visited)),
            forall|k: Identifier| #[trigger]
                visited.contains(k) <==> exists|j: int|
                    0 <= j < it.index() && *(#[trigger] it.seq()[j]).0 == k,
    {
        let (id, value) = item;
        unsync_map.write_delayed_field(*id, share(value));
        proof {
            let before = visited;
            visited = visited.insert(*id);
            assert(fields.union_prefer_right(updates@.restrict(visited))
                =~= fields.union_prefer_right(updates@.restrict(before)).insert(*id, *value));
        }
    }
    proof {
        assert(updates@.restrict(visited) =~= updates@);
        assert(delayed_updates(
            fields,
            output.delayed_field_change_set@,
            *apply,
            order,
            updates@,
        ));
    }
    Ok(())
}

/// Applying a change to a base has at most one result.
pub open spec fn is_functional<T: Transaction, A>(apply: A) -> bool where
    A: Fn(&T::ApplyEntry, &T::FieldValue) -> Result<T::FieldValue, DelayedFieldFailure>,
 {
    forall|
        entry: &T::ApplyEntry,
        base: &T::FieldValue,
        r1: Result<T::FieldValue, DelayedFieldFailure>,
        r2: Result<T::FieldValue, DelayedFieldFailure>,
    |
        #![trigger call_ensures(apply, (entry, base), r1), call_ensures(apply, (entry, base), r2)]
        call_ensures(apply, (entry, base), r1) && call_ensures(apply, (entry, base), r2) ==> r1
            == r2
}

/// No change starts from the new value of a field whose change does so, too.
pub open spec fn is_unchained<T: Transaction>(changes: Map<Identifier, DelayedChange<T>>) -> bool {
    forall|id: Identifier| #[trigger]
        changes.contains_key(id) ==> match changes[id] {
            DelayedChange::Apply(_, ApplyBase::Current(base_id)) => !(changes.contains_key(base_id)
                && changes[base_id].is_second_phase()),
            _ => true,
        }
}

/// The order in which the changes to delayed fields are walked does not matter, as long as
/// none of them starts from the new value of a field whose change starts from a new value
/// itself.
pub proof fn delayed_updates_order_independent<T: Transaction, A>(
    fields: Map<Identifier, Arc<T::FieldValue>>,
    changes: Map<Identifier, DelayedChange<T>>,
    apply: A,
    order1: Seq<Identifier>,
    updates1: Map<Identifier, Arc<T::FieldValue>>,
    order2: Seq<Identifier>,
    updates2: Map<Identifier, Arc<T::FieldValue>>,
) where A: Fn(&T::ApplyEntry, &T::FieldValue) -> Result<T::FieldValue, DelayedFieldFailure>
    requires
        is_functional::<T, A>(apply),
        is_unchained(changes),
        delayed_updates(fields, changes, apply, order1, updates1),
        delayed_updates(fields, changes, apply, order2, updates2),
    ensures
        updates1 == updates2,
{
    assert(order1.take(order1.len() as int) =~= order1);
    assert(order2.take(order2.len() as int) =~= order2);
    assert forall|id: Identifier| updates1.contains_key(id) <==> updates2.contains_key(id) by {
        assert(order1.contains(id) <==> order2.contains(id));
    }
    assert forall|id: Identifier|
        #![trigger updates1[id]]
        updates1.contains_key(id) && !changes[id].is_second_phase() implies updates1[id]
        == updates2[id] by {
        assert(updates2.contains_key(id));
        assert(update_follows(fields, changes, apply, order1, updates1, id));
        assert(update_follows(fields, changes, apply, order2, updates2, id));
    }
    assert forall|id: Identifier|
        #![trigger updates1[id]]
        updates1.contains_key(id) && changes[id].is_second_phase() implies updates1[id]
        == updates2[id] by {
        assert(updates2.contains_key(id));
        assert(update_follows(fields, changes, apply, order1, updates1, id));
        assert(update_follows(fields, changes, apply, order2, updates2, id));
        if let DelayedChange::Apply(entry, ApplyBase::Current(base_id)) = changes[id] {
            let base1 = current_base::<T>(fields, changes, order1, updates1, id, base_id);
            let base2 = current_base::<T>(fields, changes, order2, updates2, id, base_id);
            if changes.contains_key(base_id) {
                assert(!changes[base_id].is_second_phase());
                assert(updates1.contains_key(base_id));
                assert(updates1[base_id] == updates2[base_id]);
            }
            assert(base1 == base2);
        }
    }
    assert(updates1 =~= updates2);
}

/// Applying an output leaves alone every key that it does not write and every delayed field
/// that it does not change, and removes nothing.
pub proof fn applied_output_keeps_the_rest<T: Transaction, A>(
    before: UnsyncMap<T>,
    output: TransactionOutput<T>,
    apply: A,
    after: UnsyncMap<T>,
    key: Key,
    id: Identifier,
) where A: Fn(&T::ApplyEntry, &T::FieldValue) -> Result<T::FieldValue, DelayedFieldFailure>
    requires
        output_applied(before, output, apply, after),
    ensures
        before.data().contains_key(key) ==> after.data().contains_key(key),
        !output.resource_write_set@.contains_key(key)
            && !output.aggregator_v1_write_set@.contains_key(key)
            && !output.module_write_set@.contains_key(key) ==> {
            &&& after.data().contains_key(key) <==> before.data().contains_key(key)
            &&& before.data().contains_key(key) ==> after.data()[key] == before.data()[key]
        },
        before.delayed_fields().contains_key(id) ==> after.delayed_fields().contains_key(id),
        after.delayed_fields().contains_key(id) <==> before.delayed_fields().contains_key(id)
            || output.delayed_field_change_set@.contains_key(id),
        !output.delayed_field_change_set@.contains_key(id)
            && before.delayed_fields().contains_key(id) ==> after.delayed_fields()[id]
            == before.delayed_fields()[id],
{
    let changes = output.delayed_field_change_set@;
    let (order, updates) = choose|
        order: Seq<Identifier>,
        updates: Map<Identifier, Arc<T::FieldValue>>,
    |
        {
            &&& #[trigger] delayed_updates(before.delayed_fields(), changes, apply, order, updates)
            &&& after.delayed_fields() == before.delayed_fields().union_prefer_right(updates)
        };
    assert(order.take(order.len() as int) =~= order);
    assert(updates.contains_key(id) <==> changes.contains_key(id)) by {
        assert(order.contains(id) <==> changes.contains_key(id) && changes[id].is_second_phase());
    }
}

/// An output whose created fields are new, whose other changes start from fields that exist
/// or that the first phase makes, and whose changes all apply, breaks no rule.
pub proof fn sound_changes_are_applied<T: Transaction, A>(
    fields: Map<Identifier, Arc<T::FieldValue>>,
    changes: Map<Identifier, DelayedChange<T>>,
    apply: A,
    violation: InvariantViolation,
) where A: Fn(&T::ApplyEntry, &T::FieldValue) -> Result<T::FieldValue, DelayedFieldFailure>
    requires
        forall|id: Identifier| #[trigger]
            changes.contains_key(id) ==> match changes[id] {
                DelayedChange::Create(_) => !fields.contains_key(id),
                DelayedChange::Apply(_, ApplyBase::Previous(base_id)) => fields.contains_key(
                    base_id,
                ),
                DelayedChange::Apply(_, ApplyBase::Current(base_id)) => fields.contains_key(base_id)
                    || (changes.contains_key(base_id) && !changes[base_id].is_second_phase()),
            },
        forall|entry: &T::ApplyEntry, base: &T::FieldValue|
            !(#[trigger] call_ensures(apply, (entry, base), Err(DelayedFieldFailure))),
    ensures
        !delayed_violation(fields, changes, apply, violation),
{
    assert forall|order: Seq<Identifier>, n: int, updates: Map<Identifier, Arc<T::FieldValue>>|
        !(#[trigger] second_phase_violation(
            fields,
            changes,
            apply,
            order,
            n,
            updates,
            violation,
        )) by {
        if second_phase_violation(fields, changes, apply, order, n, updates, violation) {
            assert(order.contains(order[n]));
            assert(changes.contains_key(order[n]));
        }
    }
}

/// An output that creates a field which exists, or changes one relative to a field which did
/// not exist before, is never applied.
pub proof fn unsound_changes_are_refused<T: Transaction, A>(
    before: UnsyncMap<T>,
    output: TransactionOutput<T>,
    apply: A,
    after: UnsyncMap<T>,
    id: Identifier,
) where A: Fn(&T::ApplyEntry, &T::FieldValue) -> Result<T::FieldValue, DelayedFieldFailure>
    requires
        output.delayed_field_change_set@.contains_key(id),
        match output.delayed_field_change_set@[id] {
            DelayedChange::Create(_) => before.delayed_fields().contains_key(id),
            DelayedChange::Apply(
                _,
                ApplyBase::Previous(base_id),
            ) => !before.delayed_fields().contains_key(base_id),
            DelayedChange::Apply(_, ApplyBase::Current(base_id)) => {
                &&& !before.delayed_fields().contains_key(base_id)
                &&& !output.delayed_field_change_set@.contains_key(base_id)
            },
        },
    ensures
        !output_applied(before, output, apply, after),
{
    let fields = before.delayed_fields();
    let changes = output.delayed_field_change_set@;
    assert forall|order: Seq<Identifier>, updates: Map<Identifier, Arc<T::FieldValue>>|
        !(#[trigger] delayed_updates(fields, changes, apply, order, updates)) by {
        if delayed_updates(fields, changes, apply, order, updates) {
            assert(order.take(order.len() as int) =~= order);
            assert(order.contains(id) <==> changes[id].is_second_phase());
            assert(updates.contains_key(id));
            assert(update_follows(fields, changes, apply, order, updates, id));
        }
    }
}

} // verus!
