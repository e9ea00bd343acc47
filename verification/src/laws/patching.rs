//! What replacing identifiers makes of writes, reads and events, one by one.
use crate::errors::DelayedFieldFailure;
use crate::errors::InvariantViolation;
use crate::patching::event_fails;
use crate::patching::event_patched;
use crate::patching::events_patched;
use crate::patching::events_violation;
use crate::patching::holds_identifiers;
use crate::patching::is_patch;
use crate::patching::may_reply;
use crate::patching::parallel_candidates;
use crate::patching::patch_violation;
use crate::patching::read_patched;
use crate::patching::reads_patched;
use crate::patching::reads_violation;
use crate::patching::sequential_candidates;
use crate::patching::write_set_patched;
use crate::patching::write_set_violation;
use crate::patching::DataRead;
use crate::patching::Replaced;
use crate::raw_bytes::bytes_contents;
use crate::types::Event;
use crate::types::Identifier;
use crate::types::Key;
use crate::types::Transaction;
use crate::types::WriteOp;
use bytes::Bytes;
use std::collections::HashSet;
use std::sync::Arc;
use vstd::prelude::*;

verus! {

/// A write is among the patched ones if and only if it has a layout and is no deletion. It is then
/// the same write, but for its bytes: these are what replacing the identifiers in its own bytes, by
/// its own layout, came to.
pub proof fn each_write_with_a_layout_is_patched<T: Transaction, V, R>(
    writes: Map<Key, (Arc<WriteOp>, Option<Arc<T::Layout>>)>,
    latest_view: V,
    replace: R,
    patched: Map<Key, Arc<WriteOp>>,
    key: Key,
) where R: Fn(&V, &Bytes, &T::Layout) -> Replaced
    requires
        write_set_patched::<T, V, R>(writes, latest_view, replace, patched),
    ensures
        writes.contains_key(key) && writes[key].1 is Some && !(writes[key].0.kind
            is Deletion) <==> patched.contains_key(key),
        patched.contains_key(key) ==> {
            &&& patched[key].kind == writes[key].0.kind
            &&& patched[key].metadata == writes[key].0.metadata
            &&& writes[key].0.bytes is Some
            &&& exists|reply: (Bytes, HashSet<Identifier>)|
                {
                    &&& #[trigger] call_ensures(
                        replace,
                        (&latest_view, &writes[key].0.bytes->0, &*writes[key].1->0),
                        Ok(reply),
                    )
                    &&& patched[key].bytes == Some(reply.0)
                }
        },
{
    if patched.contains_key(key) {
        let value = *writes[key].0;
        let layout = *writes[key].1->0;
        assert(is_patch::<T, V, R>(latest_view, replace, value, layout, *patched[key]));
        let reply = choose|reply: (Bytes, HashSet<Identifier>)| #[trigger]
            may_reply::<T, V, R>(latest_view, replace, value, layout, Ok(reply)) && *patched[key]
                == value.with_bytes_spec(reply.0);
        assert(call_ensures(
            replace,
            (&latest_view, &writes[key].0.bytes->0, &*writes[key].1->0),
            Ok(reply),
        ));
    }
    assert(writes.contains_key(key) && holds_identifiers::<T>(writes[key])
        <==> patched.contains_key(key));
}

/// What it means that `write`, if it is there, is what the value `read` became that was read: a
/// write of the same kind and metadata, whose bytes are what replacing its identifiers came to, if
/// one of these is among `ids`, and nothing if none is.
spec fn read_became<T: Transaction, V, R>(
    read: WriteOp,
    layout: T::Layout,
    ids: Set<Identifier>,
    latest_view: V,
    replace: R,
    write: Option<WriteOp>,
) -> bool where R: Fn(&V, &Bytes, &T::Layout) -> Replaced {
    &&& read.bytes is Some
    &&& exists|reply: (Bytes, HashSet<Identifier>)|
        {
            &&& #[trigger] call_ensures(
                replace,
                (&latest_view, &read.bytes->0, &layout),
                Ok(reply),
            )
            &&& (exists|id: Identifier| #[trigger] reply.1@.contains(id) && ids.contains(id))
                <==> write is Some
            &&& write matches Some(w) ==> w.kind == read.kind && w.metadata == read.metadata
                && w.bytes == Some(reply.0)
        }
}

/// The write under `key`, if there is one.
spec fn write_under(writes: Map<Key, Arc<WriteOp>>, key: Key) -> Option<WriteOp> {
    if writes.contains_key(key) {
        Some(*writes[key])
    } else {
        None
    }
}

proof fn lemma_read_became<T: Transaction, V, R>(
    read: Arc<WriteOp>,
    layout: Arc<T::Layout>,
    ids: Set<Identifier>,
    latest_view: V,
    replace: R,
    write: Option<WriteOp>,
) where R: Fn(&V, &Bytes, &T::Layout) -> Replaced
    requires
        read_patched::<T, V, R>(*read, *layout, ids, latest_view, replace, write),
    ensures
        read_became::<T, V, R>(*read, *layout, ids, latest_view, replace, write),
{
    let reply = choose|reply: (Bytes, HashSet<Identifier>)|
        {
            &&& #[trigger] may_reply::<T, V, R>(latest_view, replace, *read, *layout, Ok(reply))
            &&& match write {
                Some(w) => {
                    &&& !reply.1@.disjoint(ids)
                    &&& w == read.with_bytes_spec(reply.0)
                },
                None => reply.1@.disjoint(ids),
            }
        };
    assert(call_ensures(replace, (&latest_view, &read.bytes->0, &*layout), Ok(reply)));
}

/// In a parallel run, a value that was read becomes a write if and only if it was read in full with
/// a layout, its key was not written, and replacing its identifiers finds one that was changed. The
/// write is then the value with its identifiers replaced.
pub proof fn each_parallel_read_is_patched<T: Transaction, V, R>(
    reads: Map<Key, DataRead<T>>,
    written: Set<Key>,
    ids: Set<Identifier>,
    latest_view: V,
    replace: R,
    patched: Map<Key, Arc<WriteOp>>,
    key: Key,
) where R: Fn(&V, &Bytes, &T::Layout) -> Replaced
    requires
        reads_patched::<T, V, R>(
            parallel_candidates(reads, written),
            ids,
            latest_view,
            replace,
            patched,
        ),
    ensures
        patched.contains_key(key) ==> {
            &&& reads.contains_key(key)
            &&& !written.contains(key)
            &&& reads[key] matches DataRead::Versioned(_, _, Some(_))
        },
        reads.contains_key(key) && !written.contains(key) ==> (
        reads[key] matches DataRead::Versioned(_, value, Some(layout)) ==> {
            &&& value.bytes is Some
            &&& exists|reply: (Bytes, HashSet<Identifier>)|
                {
                    &&& #[trigger] call_ensures(
                        replace,
                        (&latest_view, &value.bytes->0, &*layout),
                        Ok(reply),
                    )
                    &&& (exists|id: Identifier| #[trigger]
                        reply.1@.contains(id) && ids.contains(id)) <==> patched.contains_key(key)
                    &&& patched.contains_key(key) ==> {
                        &&& patched[key].kind == value.kind
                        &&& patched[key].metadata == value.metadata
                        &&& patched[key].bytes == Some(reply.0)
                    }
                }
        }),
{
    let candidates = parallel_candidates(reads, written);
    if patched.contains_key(key) {
        assert(candidates.contains_key(key));
    }
    if candidates.contains_key(key) {
        lemma_read_became::<T, V, R>(
            candidates[key].0,
            candidates[key].1,
            ids,
            latest_view,
            replace,
            write_under(patched, key),
        );
    } else {
        assert(reads.contains_key(key) && !written.contains(key) ==> !(
        reads[key] matches DataRead::Versioned(_, _, Some(_))));
    }
}

/// In a sequential run, a value becomes a write because it was read if and only if its key was read
/// and not written, it has a layout, and replacing its identifiers finds one that was changed. The
/// write is then the value with its identifiers replaced.
pub proof fn each_sequential_read_is_patched<T: Transaction, V, R>(
    data: Map<Key, (Arc<WriteOp>, Option<Arc<T::Layout>>)>,
    read_set: Set<Key>,
    written: Set<Key>,
    ids: Set<Identifier>,
    latest_view: V,
    replace: R,
    patched: Map<Key, Arc<WriteOp>>,
    key: Key,
) where R: Fn(&V, &Bytes, &T::Layout) -> Replaced
    requires
        reads_patched::<T, V, R>(
            sequential_candidates::<T>(data, read_set, written),
            ids,
            latest_view,
            replace,
            patched,
        ),
    ensures
        patched.contains_key(key) ==> read_set.contains(key) && !written.contains(key)
            && data.contains_key(key) && data[key].1 is Some,
        read_set.contains(key) && !written.contains(key) && data.contains_key(key) && data[key].1
            is Some ==> {
            &&& data[key].0.bytes is Some
            &&& exists|reply: (Bytes, HashSet<Identifier>)|
                {
                    &&& #[trigger] call_ensures(
                        replace,
                        (&latest_view, &data[key].0.bytes->0, &*data[key].1->0),
                        Ok(reply),
                    )
                    &&& (exists|id: Identifier| #[trigger]
                        reply.1@.contains(id) && ids.contains(id)) <==> patched.contains_key(key)
                    &&& patched.contains_key(key) ==> {
                        &&& patched[key].kind == data[key].0.kind
                        &&& patched[key].metadata == data[key].0.metadata
                        &&& patched[key].bytes == Some(reply.0)
                    }
                }
        },
{
    let candidates = sequential_candidates::<T>(data, read_set, written);
    if patched.contains_key(key) {
        assert(candidates.contains_key(key));
    }
    if candidates.contains_key(key) {
        lemma_read_became::<T, V, R>(
            candidates[key].0,
            candidates[key].1,
            ids,
            latest_view,
            replace,
            write_under(patched, key),
        );
    }
}

/// A single value that was read becomes a write if and only if replacing its identifiers finds one
/// that was changed, and the write is then the value with its identifiers replaced.
pub proof fn a_read_becomes_a_write_through_its_fields<T: Transaction, V, R>(
    value: Arc<WriteOp>,
    layout: Arc<T::Layout>,
    ids: Set<Identifier>,
    latest_view: V,
    replace: R,
    patched: Option<WriteOp>,
) where R: Fn(&V, &Bytes, &T::Layout) -> Replaced
    requires
        read_patched::<T, V, R>(*value, *layout, ids, latest_view, replace, patched),
    ensures
        value.bytes is Some,
        exists|reply: (Bytes, HashSet<Identifier>)|
            {
                &&& #[trigger] call_ensures(
                    replace,
                    (&latest_view, &value.bytes->0, &*layout),
                    Ok(reply),
                )
                &&& (exists|id: Identifier| #[trigger] reply.1@.contains(id) && ids.contains(id))
                    <==> patched is Some
                &&& patched matches Some(write) ==> {
                    &&& write.kind == value.kind
                    &&& write.metadata == value.metadata
                    &&& write.bytes == Some(reply.0)
                }
            },
{
    lemma_read_became::<T, V, R>(value, layout, ids, latest_view, replace, patched);
}

/// There are as many events afterwards, in the same order and with the same headers. The payload of
/// an event with a layout, wherever it stands, is what replacing the identifiers in it came to;
/// that of an event without one is as it was.
pub proof fn each_event_with_a_layout_is_patched<T: Transaction, V, R>(
    events: Seq<(Event<T>, Option<Arc<T::Layout>>)>,
    latest_view: V,
    replace: R,
    patched: Seq<Event<T>>,
    i: int,
) where R: Fn(&V, &Bytes, &T::Layout) -> Replaced
    requires
        events_patched::<T, V, R>(events, latest_view, replace, patched),
        0 <= i < events.len(),
    ensures
        patched.len() == events.len(),
        patched[i].header == events[i].0.header,
        events[i].1 is None ==> patched[i].data@ == events[i].0.data@,
        events[i].1 matches Some(layout) ==> exists|
            payload: Bytes,
            reply: (Bytes, HashSet<Identifier>),
        |
            {
                &&& #[trigger] call_ensures(replace, (&latest_view, &payload, &*layout), Ok(reply))
                &&& bytes_contents(payload) == events[i].0.data@
                &&& patched[i].data@ == bytes_contents(reply.0)
            },
{
    assert(event_patched::<T, V, R>(events[i], latest_view, replace, patched[i]));
}

/// Two events of a list with the same payload and the same layout are patched alike, wherever they
/// stand, if replacing identifiers has one result for the same bytes.
pub proof fn equal_events_are_patched_alike<T: Transaction, V, R>(
    events: Seq<(Event<T>, Option<Arc<T::Layout>>)>,
    latest_view: V,
    replace: R,
    patched: Seq<Event<T>>,
    i: int,
    j: int,
) where R: Fn(&V, &Bytes, &T::Layout) -> Replaced
    requires
        events_patched::<T, V, R>(events, latest_view, replace, patched),
        0 <= i < events.len(),
        0 <= j < events.len(),
        events[i].0.data@ == events[j].0.data@,
        events[i].1 == events[j].1,
        forall|b1: Bytes, b2: Bytes, layout: T::Layout, r1: Replaced, r2: Replaced|
            bytes_contents(b1) == bytes_contents(b2) && #[trigger] call_ensures(
                replace,
                (&latest_view, &b1, &layout),
                r1,
            ) && #[trigger] call_ensures(replace, (&latest_view, &b2, &layout), r2) ==> (
            r1 matches Ok(x) ==> (r2 matches Ok(y) && bytes_contents(x.0) == bytes_contents(y.0))),
    ensures
        patched[i].data@ == patched[j].data@,
{
    each_event_with_a_layout_is_patched::<T, V, R>(events, latest_view, replace, patched, i);
    each_event_with_a_layout_is_patched::<T, V, R>(events, latest_view, replace, patched, j);
    if let Some(layout) = events[i].1 {
        let (b1, r1) = choose|payload: Bytes, reply: (Bytes, HashSet<Identifier>)|
            {
                &&& #[trigger] call_ensures(replace, (&latest_view, &payload, &*layout), Ok(reply))
                &&& bytes_contents(payload) == events[i].0.data@
                &&& patched[i].data@ == bytes_contents(reply.0)
            };
        let (b2, r2) = choose|payload: Bytes, reply: (Bytes, HashSet<Identifier>)|
            {
                &&& #[trigger] call_ensures(replace, (&latest_view, &payload, &*layout), Ok(reply))
                &&& bytes_contents(payload) == events[j].0.data@
                &&& patched[j].data@ == bytes_contents(reply.0)
            };
        let a: Replaced = Ok(r1);
        let b: Replaced = Ok(r2);
        assert(call_ensures(replace, (&latest_view, &b1, &*layout), a));
        assert(call_ensures(replace, (&latest_view, &b2, &*layout), b));
    }
}

/// Patching writes is refused only for a write that has a layout, is no deletion, and has no bytes,
/// or whose identifiers could not be replaced.
pub proof fn refused_writes_have_a_reason<T: Transaction, V, R>(
    writes: Map<Key, (Arc<WriteOp>, Option<Arc<T::Layout>>)>,
    latest_view: V,
    replace: R,
    violation: InvariantViolation,
) -> (key: Key) where R: Fn(&V, &Bytes, &T::Layout) -> Replaced
    requires
        write_set_violation::<T, V, R>(writes, latest_view, replace, violation),
    ensures
        writes.contains_key(key),
        writes[key].1 is Some,
        !(writes[key].0.kind is Deletion),
        match writes[key].0.bytes {
            None => violation == InvariantViolation::ValueWithoutBytes,
            Some(bytes) => {
                &&& violation == InvariantViolation::ReplaceFailed
                &&& call_ensures(
                    replace,
                    (&latest_view, &bytes, &*writes[key].1->0),
                    Err(DelayedFieldFailure),
                )
            },
        },
{
    choose|key: Key| #[trigger]
        writes.contains_key(key) && holds_identifiers::<T>(writes[key]) && patch_violation::<
            T,
            V,
            R,
        >(latest_view, replace, *writes[key].0, *writes[key].1->0, violation)
}

/// Patching the reads of a parallel run is refused only for a value that was read in full with a
/// layout, whose key was not written, and that has no bytes or whose identifiers could not be
/// replaced.
pub proof fn refused_parallel_reads_have_a_reason<T: Transaction, V, R>(
    reads: Map<Key, DataRead<T>>,
    written: Set<Key>,
    latest_view: V,
    replace: R,
    violation: InvariantViolation,
) -> (key: Key) where R: Fn(&V, &Bytes, &T::Layout) -> Replaced
    requires
        reads_violation::<T, V, R>(
            parallel_candidates(reads, written),
            latest_view,
            replace,
            violation,
        ),
    ensures
        reads.contains_key(key),
        !written.contains(key),
        reads[key] matches DataRead::Versioned(_, value, Some(layout)) && match value.bytes {
            None => violation == InvariantViolation::ValueWithoutBytes,
            Some(bytes) => {
                &&& violation == InvariantViolation::ReplaceFailed
                &&& call_ensures(
                    replace,
                    (&latest_view, &bytes, &*layout),
                    Err(DelayedFieldFailure),
                )
            },
        },
{
    let candidates = parallel_candidates(reads, written);
    let key = choose|key: Key| #[trigger]
        candidates.contains_key(key) && patch_violation::<T, V, R>(
            latest_view,
            replace,
            *candidates[key].0,
            *candidates[key].1,
            violation,
        );
    key
}

/// Patching the reads of a sequential run is refused only for a value with a layout, whose key was
/// read and not written, and that has no bytes or whose identifiers could not be replaced.
pub proof fn refused_sequential_reads_have_a_reason<T: Transaction, V, R>(
    data: Map<Key, (Arc<WriteOp>, Option<Arc<T::Layout>>)>,
    read_set: Set<Key>,
    written: Set<Key>,
    latest_view: V,
    replace: R,
    violation: InvariantViolation,
) -> (key: Key) where R: Fn(&V, &Bytes, &T::Layout) -> Replaced
    requires
        reads_violation::<T, V, R>(
            sequential_candidates::<T>(data, read_set, written),
            latest_view,
            replace,
            violation,
        ),
    ensures
        read_set.contains(key),
        !written.contains(key),
        data.contains_key(key),
        data[key].1 is Some,
        match data[key].0.bytes {
            None => violation == InvariantViolation::ValueWithoutBytes,
            Some(bytes) => {
                &&& violation == InvariantViolation::ReplaceFailed
                &&& call_ensures(
                    replace,
                    (&latest_view, &bytes, &*data[key].1->0),
                    Err(DelayedFieldFailure),
                )
            },
        },
{
    let candidates = sequential_candidates::<T>(data, read_set, written);
    let key = choose|key: Key| #[trigger]
        candidates.contains_key(key) && patch_violation::<T, V, R>(
            latest_view,
            replace,
            *candidates[key].0,
            *candidates[key].1,
            violation,
        );
    key
}

/// Patching events is refused only for an event with a layout whose identifiers could not be
/// replaced.
pub proof fn refused_events_have_a_reason<T: Transaction, V, R>(
    events: Seq<(Event<T>, Option<Arc<T::Layout>>)>,
    latest_view: V,
    replace: R,
    violation: InvariantViolation,
) -> (i: int) where R: Fn(&V, &Bytes, &T::Layout) -> Replaced
    requires
        events_violation::<T, V, R>(events, latest_view, replace, violation),
    ensures
        0 <= i < events.len(),
        violation == InvariantViolation::ReplaceFailed,
        events[i].1 is Some,
        exists|payload: Bytes|
            {
                &&& #[trigger] call_ensures(
                    replace,
                    (&latest_view, &payload, &*events[i].1->0),
                    Err(DelayedFieldFailure),
                )
                &&& bytes_contents(payload) == events[i].0.data@
            },
{
    choose|i: int|
        0 <= i < events.len() && #[trigger] event_fails::<T, V, R>(events[i], latest_view, replace)
}

} // verus!
