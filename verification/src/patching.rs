//! Replacing the identifiers of delayed fields by the values they stand for.
use crate::errors::DelayedFieldFailure;
use crate::errors::InvariantViolation;
use crate::host::share;
use crate::raw_bytes::bytes_contents;
use crate::raw_bytes::bytes_from_vec;
use crate::raw_bytes::bytes_to_vec;
use crate::types::Event;
use crate::types::Identifier;
use crate::types::Incarnation;
use crate::types::Key;
use crate::types::Transaction;
use crate::types::TxnIndex;
use crate::types::WriteOp;
use crate::types::WriteOpKind;
use crate::unsync_map::UnsyncMap;
use bytes::Bytes;
use std::collections::HashMap;
use std::collections::HashSet;
use std::sync::Arc;
use vstd::prelude::*;

verus! {

broadcast use vstd::std_specs::hash::group_hash_axioms;

/// What came of replacing the identifiers in some bytes: the new bytes, and the identifiers
/// that were found.
pub type Replaced = Result<(Bytes, HashSet<Identifier>), DelayedFieldFailure>;

/// A value that a transaction has read.
pub enum DataRead<T: Transaction> {
    /// A value that another transaction wrote, or that storage held.
    Versioned(Option<(TxnIndex, Incarnation)>, Arc<WriteOp>, Option<Arc<T::Layout>>),
    /// Less than the value itself: whether it exists, its size, its metadata.
    Partial,
}

/// The value of a write holds identifiers of delayed fields: it has a layout and is there.
pub open spec fn holds_identifiers<T: Transaction>(
    write: (Arc<WriteOp>, Option<Arc<T::Layout>>),
) -> bool {
    write.1 is Some && write.0.kind != WriteOpKind::Deletion
}

/// Replacing the identifiers in `value` may come to `reply`.
pub open spec fn may_reply<T: Transaction, V, R>(
    latest_view: V,
    replace: R,
    value: WriteOp,
    layout: T::Layout,
    reply: Replaced,
) -> bool where R: Fn(&V, &Bytes, &T::Layout) -> Replaced {
    value.bytes matches Some(bytes) && call_ensures(replace, (&latest_view, &bytes, &layout), reply)
}

/// `patched` is `value` with its identifiers replaced.
pub open spec fn is_patch<T: Transaction, V, R>(
    latest_view: V,
    replace: R,
    value: WriteOp,
    layout: T::Layout,
    patched: WriteOp,
) -> bool where R: Fn(&V, &Bytes, &T::Layout) -> Replaced {
    exists|reply: (Bytes, HashSet<Identifier>)| #[trigger]
        may_reply::<T, V, R>(latest_view, replace, value, layout, Ok(reply)) && patched
            == value.with_bytes_spec(reply.0)
}

/// Replacing the identifiers in `value` breaks rule `violation`.
pub open spec fn patch_violation<T: Transaction, V, R>(
    latest_view: V,
    replace: R,
    value: WriteOp,
    layout: T::Layout,
    violation: InvariantViolation,
) -> bool where R: Fn(&V, &Bytes, &T::Layout) -> Replaced {
    ||| violation == InvariantViolation::ValueWithoutBytes && value.bytes is None
    ||| violation == InvariantViolation::ReplaceFailed && may_reply::<T, V, R>(
        latest_view,
        replace,
        value,
        layout,
        Err(DelayedFieldFailure),
    )
}

/// `patched` holds the writes of `writes` that hold identifiers, with these replaced, and no
/// others.
pub open spec fn write_set_patched<T: Transaction, V, R>(
    writes: Map<Key, (Arc<WriteOp>, Option<Arc<T::Layout>>)>,
    latest_view: V,
    replace: R,
    patched: Map<Key, Arc<WriteOp>>,
) -> bool where R: Fn(&V, &Bytes, &T::Layout) -> Replaced {
    &&& forall|key: Key| #[trigger]
        patched.contains_key(key) <==> writes.contains_key(key) && holds_identifiers::<T>(
            writes[key],
        )
    &&& forall|key: Key| #[trigger]
        patched.contains_key(key) ==> is_patch::<T, V, R>(
            latest_view,
            replace,
            *writes[key].0,
            *writes[key].1->0,
            *patched[key],
        )
}

/// Some write that holds identifiers breaks rule `violation`.
pub open spec fn write_set_violation<T: Transaction, V, R>(
    writes: Map<Key, (Arc<WriteOp>, Option<Arc<T::Layout>>)>,
    latest_view: V,
    replace: R,
    violation: InvariantViolation,
) -> bool where R: Fn(&V, &Bytes, &T::Layout) -> Replaced {
    exists|key: Key| #[trigger]
        writes.contains_key(key) && holds_identifiers::<T>(writes[key]) && patch_violation::<
            T,
            V,
            R,
        >(latest_view, replace, *writes[key].0, *writes[key].1->0, violation)
}

/// Replaces the identifiers in every write that holds some. Returns those writes, and their
/// keys.
pub fn map_id_to_values_in_write_set<T: Transaction, V, R>(
    resource_write_set: Option<&HashMap<Key, (Arc<WriteOp>, Option<Arc<T::Layout>>)>>,
    latest_view: &V,
    replace: &R,
) -> (r: Result<(HashMap<Key, Arc<WriteOp>>, HashSet<Key>), InvariantViolation>) where
    R: Fn(&V, &Bytes, &T::Layout) -> Replaced,

    requires
        forall|bytes: &Bytes, layout: &T::Layout| #[trigger]
            call_requires(*replace, (latest_view, bytes, layout)),
    ensures
        r matches Ok((patched, keys)) ==> {
            &&& keys@ == patched@.dom()
            &&& match resource_write_set {
                Some(writes) => write_set_patched::<T, V, R>(
                    writes@,
                    *latest_view,
                    *replace,
                    patched@,
                ),
                None => patched@.is_empty(),
            }
        },
        r matches Err(violation) ==> {
            &&& resource_write_set matches Some(writes)
            &&& write_set_violation::<T, V, R>(writes@, *latest_view, *replace, violation)
        },
{
    let mut write_set_keys: HashSet<Key> = HashSet::new();
    let mut patched_resource_write_set: HashMap<Key, Arc<WriteOp>> = HashMap::new();
    if let Some(writes) = resource_write_set {
        let ghost mut visited: Set<Key> = Set::empty();
        for entry in it: writes.iter()
            invariant
                forall|bytes: &Bytes, layout: &T::Layout| #[trigger]
                    call_requires(*replace, (latest_view, bytes, layout)),
                resource_write_set == Some(writes),
                write_set_keys@ == patched_resource_write_set@.dom(),
                forall|k: Key| #[trigger]
                    visited.contains(k) <==> exists|j: int|
                        0 <= j < it.index() && *(#[trigger] it.seq()[j]).0 == k,
                forall|k: Key| #[trigger]
                    patched_resource_write_set@.contains_key(k) <==> visited.contains(k)
                        && writes@.contains_key(k) && holds_identifiers::<T>(writes@[k]),
                forall|k: Key| #[trigger]
                    patched_resource_write_set@.contains_key(k) ==> is_patch::<T, V, R>(
                        *latest_view,
                        *replace,
                        *writes@[k].0,
                        *writes@[k].1->0,
                        *patched_resource_write_set@[k],
                    ),
        {
            let (key, write) = entry;
            assert(writes@.contains_key(*key) && writes@[*key] == *write);
            if let Some(layout) = &write.1 {
                if !write.0.is_deletion() {
                    write_set_keys.insert(*key);
                    match &write.0.bytes {
                        Some(bytes) => {
                            match replace(latest_view, bytes, &**layout) {
                                Ok(reply) => {
                                    assert(may_reply::<T, V, R>(
                                        *latest_view,
                                        *replace,
                                        *write.0,
                                        **layout,
                                        Ok(reply),
                                    ));
                                    let patched = write.0.with_bytes(reply.0);
                                    assert(is_patch::<T, V, R>(
                                        *latest_view,
                                        *replace,
                                        *write.0,
                                        **layout,
                                        patched,
                                    ));
                                    patched_resource_write_set.insert(*key, Arc::new(patched));
                                },
                                Err(failure) => {
                                    assert(failure == DelayedFieldFailure);
                                    return Err(InvariantViolation::ReplaceFailed);
                                },
                            }
                        },
                        None => {
                            return Err(InvariantViolation::ValueWithoutBytes);
                        },
                    }
                }
            }
            proof {
                visited = visited.insert(*key);
            }
        }
    }
    Ok((patched_resource_write_set, write_set_keys))
}

/// Whether two sets of identifiers have no element in common.
fn is_disjoint(a: &HashSet<Identifier>, b: &HashSet<Identifier>) -> (r: bool)
    ensures
        r == a@.disjoint(b@),
{
    let ghost mut visited: Set<Identifier> = Set::empty();
    for id in it: a.iter()
        invariant
            forall|k: Identifier| #[trigger]
                visited.contains(k) <==> exists|j: int|
                    0 <= j < it.index() && *(#[trigger] it.seq()[j]) == k,
            forall|k: Identifier| #[trigger] visited.contains(k) ==> a@.contains(k) && !b@.contains(k),
    {
        assert(a@.contains(*id));
        if b.contains(id) {
            return false;
        }
        proof {
            visited = visited.insert(*id);
        }
    }
    proof {
        assert forall|k: Identifier| a@.contains(k) implies !b@.contains(k) by {
            assert(visited.contains(k));
        }
    }
    true
}

/// Whether a value that was read is to be written, too, and as what: replacing its
/// identifiers found one of `delayed_field_keys`.
pub open spec fn read_patched<T: Transaction, V, R>(
    value: WriteOp,
    layout: T::Layout,
    delayed_field_keys: Set<Identifier>,
    latest_view: V,
    replace: R,
    patched: Option<WriteOp>,
) -> bool where R: Fn(&V, &Bytes, &T::Layout) -> Replaced {
    exists|reply: (Bytes, HashSet<Identifier>)|
        {
            &&& #[trigger] may_reply::<T, V, R>(latest_view, replace, value, layout, Ok(reply))
            &&& match patched {
                Some(write) => {
                    &&& !reply.1@.disjoint(delayed_field_keys)
                    &&& write == value.with_bytes_spec(reply.0)
                },
                None => reply.1@.disjoint(delayed_field_keys),
            }
        }
}

/// Replaces the identifiers in `value`. Returns the result if one of them is in
/// `delayed_field_keys`.
pub fn replace_ids_with_values<T: Transaction, V, R>(
    value: &WriteOp,
    layout: &T::Layout,
    latest_view: &V,
    delayed_field_keys: &HashSet<Identifier>,
    replace: &R,
) -> (r: Result<Option<WriteOp>, InvariantViolation>) where
    R: Fn(&V, &Bytes, &T::Layout) -> Replaced,

    requires
        forall|bytes: &Bytes, layout: &T::Layout| #[trigger]
            call_requires(*replace, (latest_view, bytes, layout)),
    ensures
        r matches Ok(patched) ==> read_patched::<T, V, R>(
            *value,
            *layout,
            delayed_field_keys@,
            *latest_view,
            *replace,
            patched,
        ),
        r matches Err(violation) ==> patch_violation::<T, V, R>(
            *latest_view,
            *replace,
            *value,
            *layout,
            violation,
        ),
{
    match &value.bytes {
        Some(bytes) => {
            match replace(latest_view, bytes, layout) {
                Ok(reply) => {
                    assert(may_reply::<T, V, R>(
                        *latest_view,
                        *replace,
                        *value,
                        *layout,
                        Ok(reply),
                    ));
                    if !is_disjoint(&reply.1, delayed_field_keys) {
                        Ok(Some(value.with_bytes(reply.0)))
                    } else {
                        Ok(None)
                    }
                },
                Err(failure) => {
                    assert(failure == DelayedFieldFailure);
                    Err(InvariantViolation::ReplaceFailed)
                },
            }
        },
        None => Err(InvariantViolation::ValueWithoutBytes),
    }
}

/// `patched` holds those of `reads` in which one of `delayed_field_keys` is found, with
/// their identifiers replaced, and no others.
pub open spec fn reads_patched<T: Transaction, V, R>(
    reads: Map<Key, (Arc<WriteOp>, Arc<T::Layout>)>,
    delayed_field_keys: Set<Identifier>,
    latest_view: V,
    replace: R,
    patched: Map<Key, Arc<WriteOp>>,
) -> bool where R: Fn(&V, &Bytes, &T::Layout) -> Replaced {
    &&& forall|key: Key| #[trigger] patched.contains_key(key) ==> reads.contains_key(key)
    &&& forall|key: Key| #[trigger]
        reads.contains_key(key) ==> read_patched::<T, V, R>(
            *reads[key].0,
            *reads[key].1,
            delayed_field_keys,
            latest_view,
            replace,
            if patched.contains_key(key) {
                Some(*patched[key])
            } else {
                None
            },
        )
}

/// One of `reads` breaks rule `violation`.
pub open spec fn reads_violation<T: Transaction, V, R>(
    reads: Map<Key, (Arc<WriteOp>, Arc<T::Layout>)>,
    latest_view: V,
    replace: R,
    violation: InvariantViolation,
) -> bool where R: Fn(&V, &Bytes, &T::Layout) -> Replaced {
    exists|key: Key| #[trigger]
        reads.contains_key(key) && patch_violation::<T, V, R>(
            latest_view,
            replace,
            *reads[key].0,
            *reads[key].1,
            violation,
        )
}

/// Looking at the read under `key` extends what is known of the reads in `visited`.
proof fn lemma_reads_patched_extend<T: Transaction, V, R>(
    reads: Map<Key, (Arc<WriteOp>, Arc<T::Layout>)>,
    visited: Set<Key>,
    key: Key,
    delayed_field_keys: Set<Identifier>,
    latest_view: V,
    replace: R,
    before: Map<Key, Arc<WriteOp>>,
    after: Map<Key, Arc<WriteOp>>,
) where R: Fn(&V, &Bytes, &T::Layout) -> Replaced
    requires
        !visited.contains(key),
        reads_patched::<T, V, R>(
            reads.restrict(visited),
            delayed_field_keys,
            latest_view,
            replace,
            before,
        ),
        after == before || (after.contains_key(key) && after == before.insert(key, after[key])),
        after.contains_key(key) ==> reads.contains_key(key),
        reads.contains_key(key) ==> read_patched::<T, V, R>(
            *reads[key].0,
            *reads[key].1,
            delayed_field_keys,
            latest_view,
            replace,
            if after.contains_key(key) {
                Some(*after[key])
            } else {
                None
            },
        ),
    ensures
        reads_patched::<T, V, R>(
            reads.restrict(visited.insert(key)),
            delayed_field_keys,
            latest_view,
            replace,
            after,
        ),
{
    let extended = reads.restrict(visited.insert(key));
    assert forall|other: Key| #[trigger] extended.contains_key(other) implies read_patched::<
        T,
        V,
        R,
    >(
        *extended[other].0,
        *extended[other].1,
        delayed_field_keys,
        latest_view,
        replace,
        if after.contains_key(other) {
            Some(*after[other])
        } else {
            None
        },
    ) by {
        if other != key {
            assert(reads.restrict(visited).contains_key(other));
        }
    }
}

/// The values among `reads` that hold identifiers and are not written by the transaction
/// that read them.
pub open spec fn parallel_candidates<T: Transaction>(
    reads: Map<Key, DataRead<T>>,
    write_set_keys: Set<Key>,
) -> Map<Key, (Arc<WriteOp>, Arc<T::Layout>)> {
    Map::new(
        |key: Key|
            {
                &&& reads.contains_key(key)
                &&& !write_set_keys.contains(key)
                &&& reads[key] matches DataRead::Versioned(_, _, Some(_))
            },
        |key: Key| (reads[key]->Versioned_1, reads[key]->Versioned_2->0),
    )
}

/// The values under the keys of `read_set` that hold identifiers and are not written by the
/// transaction that read them.
pub open spec fn sequential_candidates<T: Transaction>(
    data: Map<Key, (Arc<WriteOp>, Option<Arc<T::Layout>>)>,
    read_set: Set<Key>,
    write_set_keys: Set<Key>,
) -> Map<Key, (Arc<WriteOp>, Arc<T::Layout>)> {
    Map::new(
        |key: Key|
            {
                &&& read_set.contains(key)
                &&& !write_set_keys.contains(key)
                &&& data.contains_key(key)
                &&& data[key].1 is Some
            },
        |key: Key| (data[key].0, data[key].1->0),
    )
}

/// The values that a transaction has read, not written, and that hold a delayed field which
/// it changed: such a value changes with the field, so it is to be written with its
/// identifiers replaced. These are the reads of a parallel run.
pub fn map_id_to_values_in_read_set_parallel<T: Transaction, V, R>(
    delayed_field_keys: Option<&HashSet<Identifier>>,
    write_set_keys: &HashSet<Key>,
    read_set: Option<&HashMap<Key, DataRead<T>>>,
    latest_view: &V,
    replace: &R,
) -> (r: Result<HashMap<Key, Arc<WriteOp>>, InvariantViolation>) where
    R: Fn(&V, &Bytes, &T::Layout) -> Replaced,

    requires
        forall|bytes: &Bytes, layout: &T::Layout| #[trigger]
            call_requires(*replace, (latest_view, bytes, layout)),
    ensures
        match (delayed_field_keys, read_set) {
            (Some(ids), Some(reads)) => {
                let candidates = parallel_candidates(reads@, write_set_keys@);
                &&& r matches Ok(patched) ==> reads_patched::<T, V, R>(
                    candidates,
                    ids@,
                    *latest_view,
                    *replace,
                    patched@,
                )
                &&& r matches Err(violation) ==> reads_violation::<T, V, R>(
                    candidates,
                    *latest_view,
                    *replace,
                    violation,
                )
            },
            _ => r matches Ok(patched) && patched@.is_empty(),
        },
{
    let mut patched_resource_write_set: HashMap<Key, Arc<WriteOp>> = HashMap::new();
    if let (Some(ids), Some(reads)) = (delayed_field_keys, read_set) {
        let ghost candidates = parallel_candidates(reads@, write_set_keys@);
        let ghost mut visited: Set<Key> = Set::empty();
        for entry in it: reads.iter()
            invariant
                forall|bytes: &Bytes, layout: &T::Layout| #[trigger]
                    call_requires(*replace, (latest_view, bytes, layout)),
                delayed_field_keys == Some(ids),
                read_set == Some(reads),
                candidates == parallel_candidates(reads@, write_set_keys@),
                forall|k: Key| #[trigger]
                    visited.contains(k) <==> exists|j: int|
                        0 <= j < it.index() && *(#[trigger] it.seq()[j]).0 == k,
                it.seq().no_duplicates(),
                reads_patched::<T, V, R>(
                    candidates.restrict(visited),
                    ids@,
                    *latest_view,
                    *replace,
                    patched_resource_write_set@,
                ),
        {
            let (key, data_read) = entry;
            assert(reads@.contains_key(*key) && reads@[*key] == *data_read);
            assert(!visited.contains(*key));
            let ghost patched_before = patched_resource_write_set@;
            if !write_set_keys.contains(key) {
                if let DataRead::Versioned(_version, value, Some(layout)) = data_read {
                    assert(candidates.contains_key(*key));
                    assert(candidates[*key] == (*value, *layout));
                    match replace_ids_with_values::<T, V, R>(
                        &**value,
                        &**layout,
                        latest_view,
                        ids,
                        replace,
                    ) {
                        Ok(Some(patched)) => {
                            patched_resource_write_set.insert(*key, Arc::new(patched));
                        },
                        Ok(None) => {},
                        Err(violation) => {
                            return Err(violation);
                        },
                    }
                }
            }
            proof {
                lemma_reads_patched_extend::<T, V, R>(
                    candidates,
                    visited,
                    *key,
                    ids@,
                    *latest_view,
                    *replace,
                    patched_before,
                    patched_resource_write_set@,
                );
                visited = visited.insert(*key);
            }
        }
        assert(candidates.restrict(visited) =~= candidates);
    }
    Ok(patched_resource_write_set)
}

/// The values that a transaction has read, not written, and that hold a delayed field which
/// it changed: such a value changes with the field, so it is to be written with its
/// identifiers replaced. These are the reads of a sequential run, whose values `unsync_map`
/// holds.
pub fn map_id_to_values_in_read_set_sequential<T: Transaction, V, R>(
    delayed_field_keys: Option<&HashSet<Identifier>>,
    write_set_keys: &HashSet<Key>,
    read_set: &HashSet<Key>,
    unsync_map: &UnsyncMap<T>,
    latest_view: &V,
    replace: &R,
) -> (r: Result<HashMap<Key, Arc<WriteOp>>, InvariantViolation>) where
    R: Fn(&V, &Bytes, &T::Layout) -> Replaced,

    requires
        forall|bytes: &Bytes, layout: &T::Layout| #[trigger]
            call_requires(*replace, (latest_view, bytes, layout)),
    ensures
        match delayed_field_keys {
            Some(ids) => {
                let candidates = sequential_candidates::<T>(
                    unsync_map.data(),
                    read_set@,
                    write_set_keys@,
                );
                &&& r matches Ok(patched) ==> reads_patched::<T, V, R>(
                    candidates,
                    ids@,
                    *latest_view,
                    *replace,
                    patched@,
                )
                &&& r matches Err(violation) ==> reads_violation::<T, V, R>(
                    candidates,
                    *latest_view,
                    *replace,
                    violation,
                )
            },
            None => r matches Ok(patched) && patched@.is_empty(),
        },
{
    let mut patched_resource_write_set: HashMap<Key, Arc<WriteOp>> = HashMap::new();
    if let Some(ids) = delayed_field_keys {
        let ghost candidates = sequential_candidates::<T>(
            unsync_map.data(),
            read_set@,
            write_set_keys@,
        );
        let ghost mut visited: Set<Key> = Set::empty();
        for key in it: read_set.iter()
            invariant
                forall|bytes: &Bytes, layout: &T::Layout| #[trigger]
                    call_requires(*replace, (latest_view, bytes, layout)),
                delayed_field_keys == Some(ids),
                candidates == sequential_candidates::<T>(
                    unsync_map.data(),
                    read_set@,
                    write_set_keys@,
                ),
                forall|k: Key| #[trigger]
                    visited.contains(k) <==> exists|j: int|
                        0 <= j < it.index() && *(#[trigger] it.seq()[j]) == k,
                it.seq().no_duplicates(),
                reads_patched::<T, V, R>(
                    candidates.restrict(visited),
                    ids@,
                    *latest_view,
                    *replace,
                    patched_resource_write_set@,
                ),
        {
            assert(read_set@.contains(*key));
            assert(!visited.contains(*key));
            let ghost patched_before = patched_resource_write_set@;
            if !write_set_keys.contains(key) {
                if let Some((value, Some(layout))) = unsync_map.fetch_data(key) {
                    assert(candidates.contains_key(*key));
                    assert(candidates[*key] == (value, layout));
                    match replace_ids_with_values::<T, V, R>(
                        &*value,
                        &*layout,
                        latest_view,
                        ids,
                        replace,
                    ) {
                        Ok(Some(patched)) => {
                            patched_resource_write_set.insert(*key, Arc::new(patched));
                        },
                        Ok(None) => {},
                        Err(violation) => {
                            return Err(violation);
                        },
                    }
                }
            }
            proof {
                lemma_reads_patched_extend::<T, V, R>(
                    candidates,
                    visited,
                    *key,
                    ids@,
                    *latest_view,
                    *replace,
                    patched_before,
                    patched_resource_write_set@,
                );
                visited = visited.insert(*key);
            }
        }
        assert(candidates.restrict(visited) =~= candidates);
    }
    Ok(patched_resource_write_set)
}

/// `patched` is `event` with the identifiers in its payload replaced, if it has a layout, and
/// `event` itself otherwise.
pub open spec fn event_patched<T: Transaction, V, R>(
    event: (Event<T>, Option<Arc<T::Layout>>),
    latest_view: V,
    replace: R,
    patched: Event<T>,
) -> bool where R: Fn(&V, &Bytes, &T::Layout) -> Replaced {
    &&& patched.header == event.0.header
    &&& match event.1 {
        Some(layout) => exists|data: Bytes, reply: (Bytes, HashSet<Identifier>)|
            {
                &&& bytes_contents(data) == event.0.data@
                &&& #[trigger] call_ensures(replace, (&latest_view, &data, &*layout), Ok(reply))
                &&& patched.data@ == bytes_contents(reply.0)
            },
        None => patched.data@ == event.0.data@,
    }
}

/// The identifiers in the payload of `event` cannot be replaced.
pub open spec fn event_fails<T: Transaction, V, R>(
    event: (Event<T>, Option<Arc<T::Layout>>),
    latest_view: V,
    replace: R,
) -> bool where R: Fn(&V, &Bytes, &T::Layout) -> Replaced {
    event.1 matches Some(layout) && exists|data: Bytes|
        {
            &&& bytes_contents(data) == event.0.data@
            &&& #[trigger] call_ensures(
                replace,
                (&latest_view, &data, &*layout),
                Err(DelayedFieldFailure),
            )
        }
}

/// `patched` are `events` one by one, with the identifiers in their payloads replaced.
pub open spec fn events_patched<T: Transaction, V, R>(
    events: Seq<(Event<T>, Option<Arc<T::Layout>>)>,
    latest_view: V,
    replace: R,
    patched: Seq<Event<T>>,
) -> bool where R: Fn(&V, &Bytes, &T::Layout) -> Replaced {
    &&& patched.len() == events.len()
    &&& forall|i: int|
        #![trigger patched[i]]
        0 <= i < events.len() ==> event_patched::<T, V, R>(
            events[i],
            latest_view,
            replace,
            patched[i],
        )
}

/// The payload of one of `events` breaks rule `violation`.
pub open spec fn events_violation<T: Transaction, V, R>(
    events: Seq<(Event<T>, Option<Arc<T::Layout>>)>,
    latest_view: V,
    replace: R,
    violation: InvariantViolation,
) -> bool where R: Fn(&V, &Bytes, &T::Layout) -> Replaced {
    &&& violation == InvariantViolation::ReplaceFailed
    &&& exists|i: int|
        0 <= i < events.len() && #[trigger] event_fails::<T, V, R>(events[i], latest_view, replace)
}

/// Replaces the identifiers in the payloads of `events`. The events keep their order, and
/// those without a layout stay as they are.
pub fn map_id_to_values_events<T: Transaction, V, R>(
    events: &Vec<(Event<T>, Option<Arc<T::Layout>>)>,
    latest_view: &V,
    replace: &R,
) -> (r: Result<Vec<Event<T>>, InvariantViolation>) where
    R: Fn(&V, &Bytes, &T::Layout) -> Replaced,

    requires
        forall|bytes: &Bytes, layout: &T::Layout| #[trigger]
            call_requires(*replace, (latest_view, bytes, layout)),
    ensures
        r matches Ok(patched) ==> events_patched::<T, V, R>(
            events@,
            *latest_view,
            *replace,
            patched@,
        ),
        r matches Err(violation) ==> events_violation::<T, V, R>(
            events@,
            *latest_view,
            *replace,
            violation,
        ),
{
    let mut patched_events: Vec<Event<T>> = Vec::new();
    let mut i: usize = 0;
    while i < events.len()
        invariant
            i <= events.len(),
            forall|bytes: &Bytes, layout: &T::Layout| #[trigger]
                call_requires(*replace, (latest_view, bytes, layout)),
            events_patched::<T, V, R>(
                events@.take(i as int),
                *latest_view,
                *replace,
                patched_events@,
            ),
        decreases events.len() - i,
    {
        let (event, layout) = &events[i];
        let event_data: Vec<u8> = vstd::slice::slice_to_vec(event.data.as_slice());
        let patched_data: Vec<u8> = match layout {
            Some(layout) => {
                let data = bytes_from_vec(event_data);
                match replace(latest_view, &data, &**layout) {
                    Ok(reply) => {
                        assert(call_ensures(
                            *replace,
                            (latest_view, &data, &**layout),
                            Ok(reply),
                        ));
                        bytes_to_vec(&reply.0)
                    },
                    Err(failure) => {
                        assert(failure == DelayedFieldFailure);
                        assert(event_fails::<T, V, R>(events@[i as int], *latest_view, *replace));
                        return Err(InvariantViolation::ReplaceFailed);
                    },
                }
            },
            None => event_data,
        };
        let patched_event = Event { header: share(&event.header), data: patched_data };
        assert(event_patched::<T, V, R>(
            events@[i as int],
            *latest_view,
            *replace,
            patched_event,
        ));
        patched_events.push(patched_event);
        i = i + 1;
    }
    assert(events@.take(i as int) =~= events@);
    Ok(patched_events)
}

/// Adds the writes of `more` to `writes`.
pub fn extend_writes(writes: &mut HashMap<Key, Arc<WriteOp>>, more: &HashMap<Key, Arc<WriteOp>>)
    ensures
        final(writes)@ == old(writes)@.union_prefer_right(more@),
{
    let ghost before = writes@;
    let ghost mut visited: Set<Key> = Set::empty();
    for entry in it: more.iter()
        invariant
            writes@ == before.union_prefer_right(more@.restrict(visited)),
            forall|k: Key| #[trigger]
                visited.contains(k) <==> exists|j: int|
                    0 <= j < it.index() && *(#[trigger] it.seq()[j]).0 == k,
    {
        let (key, write) = entry;
        writes.insert(*key, share(write));
        proof {
            let earlier = visited;
            visited = visited.insert(*key);
            assert(before.union_prefer_right(more@.restrict(visited))
                =~= before.union_prefer_right(more@.restrict(earlier)).insert(*key, *write));
        }
    }
    assert(more@.restrict(visited) =~= more@);
}

/// The keys of a map.
pub fn key_set<W>(map: &HashMap<Identifier, W>) -> (keys: HashSet<Identifier>)
    ensures
        keys@ == map@.dom(),
{
    let mut keys: HashSet<Identifier> = HashSet::new();
    for entry in it: map.iter()
        invariant
            forall|k: Identifier| #[trigger]
                keys@.contains(k) <==> exists|j: int|
                    0 <= j < it.index() && *(#[trigger] it.seq()[j]).0 == k,
    {
        keys.insert(*entry.0);
    }
    assert(keys@ =~= map@.dom());
    keys
}

/// A resource that a transaction wrote, be it a deletion, is never written because it was read, in
/// a sequential run.
pub proof fn sequential_reads_spare_writes<T: Transaction, V, R>(
    writes: Map<Key, (Arc<WriteOp>, Option<Arc<T::Layout>>)>,
    data: Map<Key, (Arc<WriteOp>, Option<Arc<T::Layout>>)>,
    read_set: Set<Key>,
    delayed_field_keys: Set<Identifier>,
    latest_view: V,
    replace: R,
    patched_writes: Map<Key, Arc<WriteOp>>,
    patched_reads: Map<Key, Arc<WriteOp>>,
    key: Key,
) where R: Fn(&V, &Bytes, &T::Layout) -> Replaced
    requires
        write_set_patched::<T, V, R>(writes, latest_view, replace, patched_writes),
        reads_patched::<T, V, R>(
            sequential_candidates::<T>(data, read_set, writes.dom()),
            delayed_field_keys,
            latest_view,
            replace,
            patched_reads,
        ),
        writes.contains_key(key),
    ensures
        !patched_reads.contains_key(key),
        patched_writes.union_prefer_right(patched_reads).contains_key(key) <==> holds_identifiers::<
            T,
        >(writes[key]),
        holds_identifiers::<T>(writes[key]) ==> patched_writes.union_prefer_right(
            patched_reads,
        )[key] == patched_writes[key],
{
    assert(patched_writes.contains_key(key) <==> holds_identifiers::<T>(writes[key]));
}

/// A resource that a transaction wrote, be it a deletion, is never written because it was read, in
/// a parallel run.
pub proof fn parallel_reads_spare_writes<T: Transaction, V, R>(
    writes: Map<Key, (Arc<WriteOp>, Option<Arc<T::Layout>>)>,
    reads: Map<Key, DataRead<T>>,
    delayed_field_keys: Set<Identifier>,
    latest_view: V,
    replace: R,
    patched_writes: Map<Key, Arc<WriteOp>>,
    patched_reads: Map<Key, Arc<WriteOp>>,
    key: Key,
) where R: Fn(&V, &Bytes, &T::Layout) -> Replaced
    requires
        write_set_patched::<T, V, R>(writes, latest_view, replace, patched_writes),
        reads_patched::<T, V, R>(
            parallel_candidates(reads, writes.dom()),
            delayed_field_keys,
            latest_view,
            replace,
            patched_reads,
        ),
        writes.contains_key(key),
    ensures
        !patched_reads.contains_key(key),
        patched_writes.union_prefer_right(patched_reads).contains_key(key) <==> holds_identifiers::<
            T,
        >(writes[key]),
        holds_identifiers::<T>(writes[key]) ==> patched_writes.union_prefer_right(
            patched_reads,
        )[key] == patched_writes[key],
{
    assert(patched_writes.contains_key(key) <==> holds_identifiers::<T>(writes[key]));
}

/// Replacing identifiers changes the bytes of a write and nothing else: a creation stays a
/// creation, and the metadata stays what it was.
pub proof fn patches_change_bytes_only<T: Transaction, V, R>(
    writes: Map<Key, (Arc<WriteOp>, Option<Arc<T::Layout>>)>,
    latest_view: V,
    replace: R,
    patched: Map<Key, Arc<WriteOp>>,
    key: Key,
) where R: Fn(&V, &Bytes, &T::Layout) -> Replaced
    requires
        write_set_patched::<T, V, R>(writes, latest_view, replace, patched),
        patched.contains_key(key),
    ensures
        patched[key].kind == writes[key].0.kind,
        patched[key].metadata == writes[key].0.metadata,
        patched[key].bytes is Some,
        patched[key].kind != WriteOpKind::Deletion,
{
}

/// Where every write that holds identifiers has bytes, and identifiers are always replaced, no
/// rule is broken.
pub proof fn sound_writes_are_patched<T: Transaction, V, R>(
    writes: Map<Key, (Arc<WriteOp>, Option<Arc<T::Layout>>)>,
    latest_view: V,
    replace: R,
    violation: InvariantViolation,
) where R: Fn(&V, &Bytes, &T::Layout) -> Replaced
    requires
        forall|key: Key| #[trigger]
            writes.contains_key(key) && holds_identifiers::<T>(writes[key])
                ==> writes[key].0.bytes is Some,
        forall|bytes: &Bytes, layout: &T::Layout|
            !(#[trigger] call_ensures(
                replace,
                (&latest_view, bytes, layout),
                Err(DelayedFieldFailure),
            )),
    ensures
        !write_set_violation::<T, V, R>(writes, latest_view, replace, violation),
{
}

/// Sequential and parallel runs look at the same reads: if the values that were captured are
/// those that the map holds under the keys that were read, then so are the values whose
/// identifiers are to be replaced.
pub proof fn runs_look_at_the_same_reads<T: Transaction>(
    reads: Map<Key, DataRead<T>>,
    data: Map<Key, (Arc<WriteOp>, Option<Arc<T::Layout>>)>,
    read_set: Set<Key>,
    write_set_keys: Set<Key>,
)
    requires
        forall|key: Key| #[trigger]
            reads.contains_key(key) ==> match reads[key] {
                DataRead::Versioned(_, value, layout) => {
                    &&& read_set.contains(key)
                    &&& data.contains_key(key)
                    &&& data[key] == (value, layout)
                },
                DataRead::Partial => !data.contains_key(key) || data[key].1 is None,
            },
        forall|key: Key| #[trigger]
            read_set.contains(key) && data.contains_key(key) && data[key].1 is Some
                ==> reads.contains_key(key),
    ensures
        parallel_candidates(reads, write_set_keys) == sequential_candidates::<T>(
            data,
            read_set,
            write_set_keys,
        ),
{
    assert(parallel_candidates(reads, write_set_keys) =~= sequential_candidates::<T>(
        data,
        read_set,
        write_set_keys,
    ));
}

} // verus!
