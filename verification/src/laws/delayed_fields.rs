//! What applying an output makes of the state of a sequential run, key by key and field by field.
use crate::delayed_fields::comes_before;
use crate::delayed_fields::current_base;
use crate::delayed_fields::data_after;
use crate::delayed_fields::delayed_updates;
use crate::delayed_fields::delayed_violation;
use crate::delayed_fields::first_phase_violation;
use crate::delayed_fields::output_applied;
use crate::delayed_fields::second_phase_violation;
use crate::delayed_fields::update_follows;
use crate::errors::DelayedFieldFailure;
use crate::errors::InvariantViolation;
use crate::task::TransactionOutput;
use crate::types::ApplyBase;
use crate::types::DelayedChange;
use crate::types::Identifier;
use crate::types::Key;
use crate::types::Transaction;
use crate::types::WriteOp;
use crate::unsync_map::UnsyncMap;
use std::sync::Arc;
use vstd::prelude::*;

verus! {

/// Whether or not the changes to delayed fields can be made, what is found under a key afterwards
/// is the module that was written there; if there is none, the aggregator; if there is none, the
/// resource, with its layout; and if nothing was written, what was there before.
pub proof fn latest_write_is_found<T: Transaction>(
    data: Map<Key, (Arc<WriteOp>, Option<Arc<T::Layout>>)>,
    output: TransactionOutput<T>,
    key: Key,
)
    ensures
        ({
            let after = data_after::<T>(data, output);
            let modules = output.module_write_set@;
            let aggregators = output.aggregator_v1_write_set@;
            let resources = output.resource_write_set@;
            &&& modules.contains_key(key) ==> after.contains_key(key) && after[key].0
                == modules[key] && after[key].1 is None
            &&& aggregators.contains_key(key) && !modules.contains_key(key) ==> after.contains_key(
                key,
            ) && after[key].0 == aggregators[key] && after[key].1 is None
            &&& resources.contains_key(key) && !modules.contains_key(key)
                && !aggregators.contains_key(key) ==> after.contains_key(key) && after[key].0
                == resources[key].0 && after[key].1 == resources[key].1
            &&& !resources.contains_key(key) && !modules.contains_key(key)
                && !aggregators.contains_key(key) ==> {
                &&& after.contains_key(key) == data.contains_key(key)
                &&& after.contains_key(key) ==> after[key] == data[key]
            }
        }),
{
}

/// When an output has been applied, what is fetched under a key is the module that it wrote there;
/// if there is none, the aggregator; if there is none, the resource, with its layout; and if it
/// wrote nothing, what was there before.
pub proof fn applied_writes_are_fetched<T: Transaction, A>(
    before: UnsyncMap<T>,
    output: TransactionOutput<T>,
    apply: A,
    after: UnsyncMap<T>,
    key: Key,
) where A: Fn(&T::ApplyEntry, &T::FieldValue) -> Result<T::FieldValue, DelayedFieldFailure>
    requires
        output_applied(before, output, apply, after),
    ensures
        output.module_write_set@.contains_key(key) ==> after.data().contains_key(key)
            && after.data()[key].0 == output.module_write_set@[key] && after.data()[key].1 is None,
        output.aggregator_v1_write_set@.contains_key(key) && !output.module_write_set@.contains_key(
            key,
        ) ==> after.data().contains_key(key) && after.data()[key].0
            == output.aggregator_v1_write_set@[key] && after.data()[key].1 is None,
        output.resource_write_set@.contains_key(key) && !output.module_write_set@.contains_key(key)
            && !output.aggregator_v1_write_set@.contains_key(key) ==> after.data().contains_key(key)
            && after.data()[key].0 == output.resource_write_set@[key].0 && after.data()[key].1
            == output.resource_write_set@[key].1,
        !output.resource_write_set@.contains_key(key) && !output.module_write_set@.contains_key(key)
            && !output.aggregator_v1_write_set@.contains_key(key) ==> {
            &&& after.data().contains_key(key) == before.data().contains_key(key)
            &&& after.data().contains_key(key) ==> after.data()[key] == before.data()[key]
        },
{
}

/// When an output has been applied, a field that it creates did not exist and has the value that it
/// was created with; one that it changes has a value that the change gives for its base; and every
/// other field is as it was. The base of a change is another field as it was before, where the
/// change says so. Otherwise it is that field as it is afterwards, if the output changes it and not
/// in the same way, and as it was if the output does not change it.
pub proof fn applied_changes_are_fetched<T: Transaction, A>(
    before: UnsyncMap<T>,
    output: TransactionOutput<T>,
    apply: A,
    after: UnsyncMap<T>,
    id: Identifier,
) where A: Fn(&T::ApplyEntry, &T::FieldValue) -> Result<T::FieldValue, DelayedFieldFailure>
    requires
        output_applied(before, output, apply, after),
    ensures
        ({
            let changes = output.delayed_field_change_set@;
            let old_fields = before.delayed_fields();
            let new_fields = after.delayed_fields();
            &&& !changes.contains_key(id) ==> {
                &&& new_fields.contains_key(id) == old_fields.contains_key(id)
                &&& new_fields.contains_key(id) ==> new_fields[id] == old_fields[id]
            }
            &&& changes.contains_key(id) ==> new_fields.contains_key(id) && match changes[id] {
                DelayedChange::Create(value) => !old_fields.contains_key(id) && new_fields[id]
                    == value,
                DelayedChange::Apply(entry, ApplyBase::Previous(base_id)) => {
                    &&& old_fields.contains_key(base_id)
                    &&& call_ensures(apply, (&*entry, &*old_fields[base_id]), Ok(*new_fields[id]))
                },
                DelayedChange::Apply(entry, ApplyBase::Current(base_id)) => {
                    if !changes.contains_key(base_id) {
                        &&& old_fields.contains_key(base_id)
                        &&& call_ensures(
                            apply,
                            (&*entry, &*old_fields[base_id]),
                            Ok(*new_fields[id]),
                        )
                    } else if !(changes[base_id] matches DelayedChange::Apply(
                        _,
                        ApplyBase::Current(_),
                    )) {
                        &&& new_fields.contains_key(base_id)
                        &&& call_ensures(
                            apply,
                            (&*entry, &*new_fields[base_id]),
                            Ok(*new_fields[id]),
                        )
                    } else {
                        ||| {
                            &&& old_fields.contains_key(base_id)
                            &&& call_ensures(
                                apply,
                                (&*entry, &*old_fields[base_id]),
                                Ok(*new_fields[id]),
                            )
                        }
                        ||| {
                            &&& base_id != id
                            &&& call_ensures(
                                apply,
                                (&*entry, &*new_fields[base_id]),
                                Ok(*new_fields[id]),
                            )
                        }
                    }
                },
            }
        }),
{
    let fields = before.delayed_fields();
    let changes = output.delayed_field_change_set@;
    let (order, updates) = choose|
        order: Seq<Identifier>,
        updates: Map<Identifier, Arc<T::FieldValue>>,
    |
        {
            &&& #[trigger] delayed_updates(fields, changes, apply, order, updates)
            &&& after.delayed_fields() == fields.union_prefer_right(updates)
        };
    assert(order.take(order.len() as int) =~= order);
    assert forall|other: Identifier| updates.contains_key(other) == changes.contains_key(other) by {
        assert(order.contains(other) <==> changes.contains_key(other)
            && changes[other].is_second_phase());
    }
    if changes.contains_key(id) {
        assert(updates.contains_key(id));
        assert(update_follows(fields, changes, apply, order, updates, id));
        if let DelayedChange::Apply(_, ApplyBase::Current(base_id)) = changes[id] {
            assert(updates.contains_key(base_id) == changes.contains_key(base_id));
            if base_id == id {
                assert(!comes_before(order, id, id)) by {
                    if comes_before(order, id, id) {
                        let (i, j) = choose|i: int, j: int|
                            0 <= i < j < order.len() && order[i] == id && order[j] == id;
                        assert(order[i] == order[j]);
                    }
                }
            }
        }
    } else {
        assert(!updates.contains_key(id));
    }
}

/// Of two changes that start from each other's new values, one is made first and starts from the
/// old value of the other.
pub proof fn fields_do_not_start_from_each_other<T: Transaction, A>(
    before: UnsyncMap<T>,
    output: TransactionOutput<T>,
    apply: A,
    after: UnsyncMap<T>,
    a: Identifier,
    b: Identifier,
) where A: Fn(&T::ApplyEntry, &T::FieldValue) -> Result<T::FieldValue, DelayedFieldFailure>
    requires
        output_applied(before, output, apply, after),
        output.delayed_field_change_set@.contains_key(a),
        output.delayed_field_change_set@.contains_key(b),
        output.delayed_field_change_set@[a] matches DelayedChange::Apply(
            _,
            ApplyBase::Current(x),
        ) && x == b,
        output.delayed_field_change_set@[b] matches DelayedChange::Apply(
            _,
            ApplyBase::Current(x),
        ) && x == a,
    ensures
        ({
            let old_fields = before.delayed_fields();
            let new_fields = after.delayed_fields();
            let changes = output.delayed_field_change_set@;
            ||| {
                &&& old_fields.contains_key(b)
                &&& call_ensures(
                    apply,
                    (&*changes[a]->Apply_0, &*old_fields[b]),
                    Ok(*new_fields[a]),
                )
            }
            ||| {
                &&& old_fields.contains_key(a)
                &&& call_ensures(
                    apply,
                    (&*changes[b]->Apply_0, &*old_fields[a]),
                    Ok(*new_fields[b]),
                )
            }
        }),
{
    let fields = before.delayed_fields();
    let changes = output.delayed_field_change_set@;
    let (order, updates) = choose|
        order: Seq<Identifier>,
        updates: Map<Identifier, Arc<T::FieldValue>>,
    |
        {
            &&& #[trigger] delayed_updates(fields, changes, apply, order, updates)
            &&& after.delayed_fields() == fields.union_prefer_right(updates)
        };
    assert(order.take(order.len() as int) =~= order);
    assert(order.contains(a) && order.contains(b));
    assert(updates.contains_key(a) && updates.contains_key(b));
    assert(update_follows(fields, changes, apply, order, updates, a));
    assert(update_follows(fields, changes, apply, order, updates, b));
    assert(!(comes_before(order, a, b) && comes_before(order, b, a))) by {
        if comes_before(order, a, b) && comes_before(order, b, a) {
            let (i, j) = choose|i: int, j: int|
                0 <= i < j < order.len() && order[i] == a && order[j] == b;
            let (k, l) = choose|k: int, l: int|
                0 <= k < l < order.len() && order[k] == b && order[l] == a;
            assert(j == k && i == l);
        }
    }
}

/// The changes that start from a field as the output leaves it are made one after the other, each
/// once. Each starts from the new value of its base, where that was created, changed from an old
/// value, or changed by one of these before it; and from the old value otherwise.
pub proof fn changes_are_made_in_some_order<T: Transaction, A>(
    before: UnsyncMap<T>,
    output: TransactionOutput<T>,
    apply: A,
    after: UnsyncMap<T>,
) -> (order: Seq<Identifier>) where
    A: Fn(&T::ApplyEntry, &T::FieldValue) -> Result<T::FieldValue, DelayedFieldFailure>,

    requires
        output_applied(before, output, apply, after),
    ensures
        forall|i: int, j: int|
            #![trigger order[i], order[j]]
            0 <= i < j < order.len() ==> order[i] != order[j],
        forall|id: Identifier| #[trigger]
            output.delayed_field_change_set@.contains_key(id) && (
            output.delayed_field_change_set@[id] matches DelayedChange::Apply(
                _,
                ApplyBase::Current(_),
            )) ==> exists|k: int| 0 <= k < order.len() && #[trigger] order[k] == id,
        forall|k: int|
            #![trigger order[k]]
            0 <= k < order.len() ==> {
                let changes = output.delayed_field_change_set@;
                let old_fields = before.delayed_fields();
                let new_fields = after.delayed_fields();
                &&& changes.contains_key(order[k])
                &&& changes[order[k]] matches DelayedChange::Apply(
                    entry,
                    ApplyBase::Current(base_id),
                )
                &&& {
                    ||| {
                        &&& changes.contains_key(base_id)
                        &&& !(changes[base_id] matches DelayedChange::Apply(
                            _,
                            ApplyBase::Current(_),
                        )) || exists|m: int| 0 <= m < k && #[trigger] order[m] == base_id
                        &&& call_ensures(
                            apply,
                            (&*entry, &*new_fields[base_id]),
                            Ok(*new_fields[order[k]]),
                        )
                    }
                    ||| {
                        &&& !changes.contains_key(base_id) || {
                            &&& changes[base_id] matches DelayedChange::Apply(
                                _,
                                ApplyBase::Current(_),
                            )
                            &&& forall|m: int| 0 <= m < k ==> #[trigger] order[m] != base_id
                        }
                        &&& old_fields.contains_key(base_id)
                        &&& call_ensures(
                            apply,
                            (&*entry, &*old_fields[base_id]),
                            Ok(*new_fields[order[k]]),
                        )
                    }
                }
            },
{
    let fields = before.delayed_fields();
    let changes = output.delayed_field_change_set@;
    let (order, updates) = choose|
        order: Seq<Identifier>,
        updates: Map<Identifier, Arc<T::FieldValue>>,
    |
        {
            &&& #[trigger] delayed_updates(fields, changes, apply, order, updates)
            &&& after.delayed_fields() == fields.union_prefer_right(updates)
        };
    assert(order.take(order.len() as int) =~= order);
    assert forall|id: Identifier| #[trigger]
        changes.contains_key(id) && (changes[id] matches DelayedChange::Apply(
            _,
            ApplyBase::Current(_),
        )) implies exists|k: int| 0 <= k < order.len() && #[trigger] order[k] == id by {
        assert(order.contains(id));
    }
    assert forall|id: Identifier| updates.contains_key(id) == changes.contains_key(id) by {
        assert(order.contains(id) <==> changes.contains_key(id) && changes[id].is_second_phase());
    }
    assert forall|k: int| #![trigger order[k]] 0 <= k < order.len() implies {
        let new_fields = after.delayed_fields();
        &&& changes.contains_key(order[k])
        &&& changes[order[k]] matches DelayedChange::Apply(entry, ApplyBase::Current(base_id))
        &&& {
            ||| {
                &&& changes.contains_key(base_id)
                &&& !(changes[base_id] matches DelayedChange::Apply(_, ApplyBase::Current(_)))
                    || exists|m: int| 0 <= m < k && #[trigger] order[m] == base_id
                &&& call_ensures(
                    apply,
                    (&*entry, &*new_fields[base_id]),
                    Ok(*new_fields[order[k]]),
                )
            }
            ||| {
                &&& !changes.contains_key(base_id) || {
                    &&& changes[base_id] matches DelayedChange::Apply(_, ApplyBase::Current(_))
                    &&& forall|m: int| 0 <= m < k ==> #[trigger] order[m] != base_id
                }
                &&& fields.contains_key(base_id)
                &&& call_ensures(apply, (&*entry, &*fields[base_id]), Ok(*new_fields[order[k]]))
            }
        }
    } by {
        let id = order[k];
        assert(order.contains(id));
        assert(updates.contains_key(id));
        assert(update_follows(fields, changes, apply, order, updates, id));
        if let DelayedChange::Apply(_, ApplyBase::Current(base_id)) = changes[id] {
            assert(updates.contains_key(base_id) == changes.contains_key(base_id));
            assert(comes_before(order, base_id, id) <==> exists|m: int|
                0 <= m < k && #[trigger] order[m] == base_id) by {
                if comes_before(order, base_id, id) {
                    let (m, n) = choose|m: int, n: int|
                        0 <= m < n < order.len() && order[m] == base_id && order[n] == id;
                    assert(n == k);
                    assert(order[m] == base_id);
                }
                if exists|m: int| 0 <= m < k && #[trigger] order[m] == base_id {
                    let m = choose|m: int| 0 <= m < k && #[trigger] order[m] == base_id;
                    assert(order[m] == base_id && order[k] == id);
                }
            }
        }
    }
    order
}

/// Applying an output is refused only for a reason: it creates a field that exists; or it changes a
/// field relative to one that does not exist, nor is made in the first phase; or it has a change
/// that does not apply to a value of its base.
pub proof fn refused_changes_are_unsound<T: Transaction, A>(
    fields: Map<Identifier, Arc<T::FieldValue>>,
    changes: Map<Identifier, DelayedChange<T>>,
    apply: A,
    violation: InvariantViolation,
) -> (id: Identifier) where
    A: Fn(&T::ApplyEntry, &T::FieldValue) -> Result<T::FieldValue, DelayedFieldFailure>,

    requires
        delayed_violation(fields, changes, apply, violation),
    ensures
        changes.contains_key(id),
        match changes[id] {
            DelayedChange::Create(_) => {
                &&& violation == InvariantViolation::DuplicateDelayedField
                &&& fields.contains_key(id)
            },
            DelayedChange::Apply(entry, ApplyBase::Previous(base_id)) => {
                if fields.contains_key(base_id) {
                    &&& violation == InvariantViolation::DelayedApplyFailed
                    &&& call_ensures(apply, (&*entry, &*fields[base_id]), Err(DelayedFieldFailure))
                } else {
                    violation == InvariantViolation::MissingDelayedField
                }
            },
            DelayedChange::Apply(entry, ApplyBase::Current(base_id)) => {
                ||| {
                    &&& violation == InvariantViolation::MissingDelayedField
                    &&& !fields.contains_key(base_id)
                    &&& changes.contains_key(base_id) ==> {
                        changes[base_id] matches DelayedChange::Apply(_, ApplyBase::Current(_))
                    }
                }
                ||| {
                    &&& violation == InvariantViolation::DelayedApplyFailed
                    &&& !changes.contains_key(base_id)
                    &&& fields.contains_key(base_id)
                    &&& call_ensures(apply, (&*entry, &*fields[base_id]), Err(DelayedFieldFailure))
                }
                ||| {
                    &&& violation == InvariantViolation::DelayedApplyFailed
                    &&& changes.contains_key(base_id)
                    &&& exists|base: Arc<T::FieldValue>| #[trigger]
                        call_ensures(apply, (&*entry, &*base), Err(DelayedFieldFailure))
                }
            },
        },
{
    if exists|id: Identifier|
        changes.contains_key(id) && #[trigger] first_phase_violation(
            fields,
            changes,
            apply,
            id,
            violation,
        ) {
        choose|id: Identifier|
            changes.contains_key(id) && #[trigger] first_phase_violation(
                fields,
                changes,
                apply,
                id,
                violation,
            )
    } else {
        let (order, n, updates) = choose|
            order: Seq<Identifier>,
            n: int,
            updates: Map<Identifier, Arc<T::FieldValue>>,
        |
            #[trigger]
            second_phase_violation(fields, changes, apply, order, n, updates, violation);
        let id = order[n];
        assert(order.contains(id));
        if let DelayedChange::Apply(entry, ApplyBase::Current(base_id)) = changes[id] {
            let base = current_base::<T>(fields, changes, order, updates, id, base_id);
            if base is Some {
                assert(call_ensures(apply, (&*entry, &*base->0), Err(DelayedFieldFailure)));
            }
        }
        id
    }
}

} // verus!
