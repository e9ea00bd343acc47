//! The speculative execution of a transaction.
use crate::errors::Error;
use crate::errors::ErrorCategory;
use crate::errors::InvariantViolation;
use crate::errors::TransactionError;
use crate::host::share;
use crate::lists::lemma_push;
use crate::parallel::scheduler::SchedulerTask;
use crate::task::ExecutionStatus;
use crate::task::TransactionOutput;
use crate::types::DelayedChange;
use crate::types::Identifier;
use crate::types::Key;
use crate::types::Transaction;
use crate::types::TxnIndex;
use crate::types::WriteOp;
use std::collections::HashMap;
use std::collections::HashSet;
use std::sync::Arc;
use vstd::prelude::*;

verus! {

broadcast use vstd::std_specs::hash::group_hash_axioms;

/// A change to what the versioned cache holds of a transaction.
pub enum CacheOp<T: Transaction> {
    /// Write the value of a resource.
    WriteResource(Key, Arc<WriteOp>, Option<Arc<T::Layout>>),
    /// Write the value of an aggregator.
    WriteAggregatorV1(Key, Arc<WriteOp>),
    WriteModule(Key, Arc<WriteOp>),
    /// Add a delta to an aggregator.
    AddDelta(Key, Arc<T::DeltaOp>),
    /// Record a change to a delayed field.
    RecordChange(Identifier, DelayedChange<T>),
    /// Remove the module that an earlier incarnation wrote.
    RemoveModule(Key),
    /// Remove the value or delta that an earlier incarnation wrote.
    RemoveData(Key),
    /// Remove the change to a delayed field that an earlier incarnation made.
    RemoveDelayedField(Identifier),
}

impl<T: Transaction> CacheOp<T> {
    /// The order in which changes are made: writes, changes to delayed fields, removals.
    pub open spec fn rank(self) -> int {
        match self {
            CacheOp::WriteResource(_, _, _) => 0,
            CacheOp::WriteAggregatorV1(_, _) => 1,
            CacheOp::WriteModule(_, _) => 2,
            CacheOp::AddDelta(_, _) => 3,
            CacheOp::RecordChange(_, _) => 4,
            CacheOp::RemoveModule(_) => 5,
            CacheOp::RemoveData(_) => 5,
            CacheOp::RemoveDelayedField(_) => 6,
        }
    }

    /// The key or the delayed field that is changed.
    pub open spec fn subject(self) -> u64 {
        match self {
            CacheOp::WriteResource(key, _, _) => key,
            CacheOp::WriteAggregatorV1(key, _) => key,
            CacheOp::WriteModule(key, _) => key,
            CacheOp::AddDelta(key, _) => key,
            CacheOp::RecordChange(id, _) => id,
            CacheOp::RemoveModule(key) => key,
            CacheOp::RemoveData(key) => key,
            CacheOp::RemoveDelayedField(id) => id,
        }
    }

    fn get_subject(&self) -> (r: u64)
        ensures
            r == self.subject(),
    {
        match self {
            CacheOp::WriteResource(key, _, _) => *key,
            CacheOp::WriteAggregatorV1(key, _) => *key,
            CacheOp::WriteModule(key, _) => *key,
            CacheOp::AddDelta(key, _) => *key,
            CacheOp::RecordChange(id, _) => *id,
            CacheOp::RemoveModule(key) => *key,
            CacheOp::RemoveData(key) => *key,
            CacheOp::RemoveDelayedField(id) => *id,
        }
    }
}

/// `output` writes `key`, or adds a delta to it.
pub open spec fn writes_key<T: Transaction>(
    output: Option<TransactionOutput<T>>,
    key: Key,
) -> bool {
    output matches Some(o) && (o.resource_write_set@.contains_key(key)
        || o.aggregator_v1_write_set@.contains_key(key) || o.module_write_set@.contains_key(key)
        || o.aggregator_v1_delta_set@.contains_key(key))
}

/// `output` changes the delayed field `id`.
pub open spec fn changes_field<T: Transaction>(
    output: Option<TransactionOutput<T>>,
    id: Identifier,
) -> bool {
    output matches Some(o) && o.delayed_field_change_set@.contains_key(id)
}

/// `op` is called for, when an execution has come to `output` and an earlier incarnation wrote
/// the keys of `modified`, those of modules where it says so, and changed the fields of
/// `delayed`: what the output holds is recorded, and what it does not write again is removed.
pub open spec fn is_called_for<T: Transaction>(
    output: Option<TransactionOutput<T>>,
    modified: Map<Key, bool>,
    delayed: Set<Identifier>,
    op: CacheOp<T>,
) -> bool {
    match op {
        CacheOp::WriteResource(key, write, layout) => output matches Some(o)
            && o.resource_write_set@.contains_key(key) && o.resource_write_set@[key] == (
            write,
            layout,
        ),
        CacheOp::WriteAggregatorV1(key, write) => output matches Some(o)
            && o.aggregator_v1_write_set@.contains_key(key) && o.aggregator_v1_write_set@[key]
            == write,
        CacheOp::WriteModule(key, write) => output matches Some(o)
            && o.module_write_set@.contains_key(key) && o.module_write_set@[key] == write,
        CacheOp::AddDelta(key, delta) => output matches Some(o)
            && o.aggregator_v1_delta_set@.contains_key(key) && o.aggregator_v1_delta_set@[key]
            == delta,
        CacheOp::RecordChange(id, change) => output matches Some(o)
            && o.delayed_field_change_set@.contains_key(id) && o.delayed_field_change_set@[id]
            == change,
        CacheOp::RemoveModule(key) => modified.contains_key(key) && modified[key] && !writes_key(
            output,
            key,
        ),
        CacheOp::RemoveData(key) => modified.contains_key(key) && !modified[key] && !writes_key(
            output,
            key,
        ),
        CacheOp::RemoveDelayedField(id) => delayed.contains(id) && !changes_field(output, id),
    }
}

/// `ops` lists, in their order and each once, the changes that are called for and come before
/// `rank`.
pub open spec fn lists_ops<T: Transaction>(
    output: Option<TransactionOutput<T>>,
    modified: Map<Key, bool>,
    delayed: Set<Identifier>,
    rank: int,
    ops: Seq<CacheOp<T>>,
) -> bool {
    &&& ops.no_duplicates()
    &&& forall|op: CacheOp<T>| #[trigger]
        ops.contains(op) <==> is_called_for(output, modified, delayed, op) && op.rank() < rank
    &&& forall|i: int, j: int|
        #![trigger ops[i], ops[j]]
        0 <= i < j < ops.len() ==> ops[i].rank() <= ops[j].rank()
}

/// `ops` lists the changes that are called for.
pub open spec fn lists_all_ops<T: Transaction>(
    output: Option<TransactionOutput<T>>,
    modified: Map<Key, bool>,
    delayed: Set<Identifier>,
    ops: Seq<CacheOp<T>>,
) -> bool {
    lists_ops(output, modified, delayed, 7, ops)
}

/// The number of sets of `output` that hold `key`.
pub open spec fn times_written<T: Transaction>(output: TransactionOutput<T>, key: Key) -> int {
    (if output.resource_write_set@.contains_key(key) { 1int } else { 0 })
        + (if output.aggregator_v1_write_set@.contains_key(key) { 1int } else { 0 })
        + (if output.module_write_set@.contains_key(key) { 1int } else { 0 })
        + (if output.aggregator_v1_delta_set@.contains_key(key) { 1int } else { 0 })
}

/// `output` writes more than the keys of `modified`, each once.
pub open spec fn writes_outside<T: Transaction>(
    output: Option<TransactionOutput<T>>,
    modified: Map<Key, bool>,
) -> bool {
    output matches Some(o) && exists|key: Key| #[trigger]
        times_written(o, key) > if modified.contains_key(key) {
            1int
        } else {
            0
        }
}

/// Between two ranks: of the changes of `rank`, those to subjects in `visited` are listed.
spec fn lists_some<T: Transaction>(
    output: Option<TransactionOutput<T>>,
    modified: Map<Key, bool>,
    delayed: Set<Identifier>,
    rank: int,
    visited: Set<u64>,
    ops: Seq<CacheOp<T>>,
) -> bool {
    &&& ops.no_duplicates()
    &&& forall|op: CacheOp<T>| #[trigger]
        ops.contains(op) <==> is_called_for(output, modified, delayed, op) && (op.rank() < rank || (
        op.rank() == rank && visited.contains(op.subject())))
    &&& forall|i: int, j: int|
        #![trigger ops[i], ops[j]]
        0 <= i < j < ops.len() ==> ops[i].rank() <= ops[j].rank()
}

proof fn lemma_list_one<T: Transaction>(
    output: Option<TransactionOutput<T>>,
    modified: Map<Key, bool>,
    delayed: Set<Identifier>,
    rank: int,
    visited: Set<u64>,
    ops: Seq<CacheOp<T>>,
    op: CacheOp<T>,
)
    requires
        lists_some(output, modified, delayed, rank, visited, ops),
        is_called_for(output, modified, delayed, op),
        op.rank() == rank,
        !visited.contains(op.subject()),
    ensures
        lists_some(output, modified, delayed, rank, visited.insert(op.subject()), ops.push(op)),
{
    lemma_push(ops, op);
    let after = ops.push(op);
    assert forall|i: int, j: int|
        #![trigger after[i], after[j]]
        0 <= i < j < after.len() implies after[i].rank() <= after[j].rank() by {
        if j == ops.len() {
            assert(ops.contains(ops[i]));
        }
    }
    assert forall|other: CacheOp<T>| #[trigger]
        after.contains(other) <==> is_called_for(output, modified, delayed, other) && (
        other.rank() < rank || (other.rank() == rank && visited.insert(op.subject()).contains(
            other.subject(),
        ))) by {
        if is_called_for(output, modified, delayed, other) && other.rank() == rank
            && other.subject() == op.subject() {
            assert(other == op);
        }
    }
}

/// `op` is what is called for at `rank` of `subject`, if anything is.
spec fn is_op_for<T: Transaction>(
    output: Option<TransactionOutput<T>>,
    modified: Map<Key, bool>,
    delayed: Set<Identifier>,
    rank: int,
    subject: u64,
    op: Option<CacheOp<T>>,
) -> bool {
    match op {
        Some(op) => is_called_for(output, modified, delayed, op) && op.rank() == rank
            && op.subject() == subject,
        None => forall|other: CacheOp<T>| #[trigger]
            is_called_for(output, modified, delayed, other) && other.rank() == rank
                ==> other.subject() != subject,
    }
}

/// Lists the changes that come at `rank`: `make` says which one is called for by an entry of `map`,
/// if any, and no others are.
fn list_entries<T: Transaction, V, F>(
    ops: &mut Vec<CacheOp<T>>,
    map: &HashMap<u64, V>,
    make: F,
    Ghost(output): Ghost<Option<TransactionOutput<T>>>,
    Ghost(modified): Ghost<Map<Key, bool>>,
    Ghost(delayed): Ghost<Set<Identifier>>,
    Ghost(rank): Ghost<int>,
) where F: Fn(&u64, &V) -> Option<CacheOp<T>>
    requires
        lists_ops(output, modified, delayed, rank, old(ops)@),
        forall|subject: &u64, entry: &V| #[trigger] call_requires(make, (subject, entry)),
        forall|subject: &u64, entry: &V, op: Option<CacheOp<T>>|
            map@.contains_key(*subject) && map@[*subject] == *entry && #[trigger] call_ensures(
                make,
                (subject, entry),
                op,
            ) ==> is_op_for(output, modified, delayed, rank, *subject, op),
        forall|op: CacheOp<T>| #[trigger]
            is_called_for(output, modified, delayed, op) && op.rank() == rank
                ==> map@.contains_key(op.subject()),
    ensures
        lists_ops(output, modified, delayed, rank + 1, final(ops)@),
{
    let ghost mut visited: Set<u64> = Set::empty();
    for item in it: map.iter()
        invariant
            forall|subject: &u64, entry: &V| #[trigger] call_requires(make, (subject, entry)),
            forall|subject: &u64, entry: &V, op: Option<CacheOp<T>>|
                map@.contains_key(*subject) && map@[*subject] == *entry && #[trigger] call_ensures(
                    make,
                    (subject, entry),
                    op,
                ) ==> is_op_for(output, modified, delayed, rank, *subject, op),
            it.seq().no_duplicates(),
            forall|k: u64| #[trigger]
                visited.contains(k) <==> exists|j: int|
                    0 <= j < it.index() && *(#[trigger] it.seq()[j]).0 == k,
            lists_some(output, modified, delayed, rank, visited, ops@),
    {
        let (subject, entry) = item;
        assert(map@.contains_key(*subject) && map@[*subject] == *entry);
        assert(!visited.contains(*subject)) by {
            if visited.contains(*subject) {
                let j = choose|j: int|
                    0 <= j < it.index() && *(#[trigger] it.seq()[j]).0 == *subject;
                assert(map@[*it.seq()[j].0] == *it.seq()[j].1);
                assert(it.seq()[j] == it.seq()[it.index() as int]);
            }
        }
        match make(subject, entry) {
            Some(op) => {
                proof {
                    lemma_list_one(output, modified, delayed, rank, visited, ops@, op);
                }
                ops.push(op);
            },
            None => {},
        }
        proof {
            visited = visited.insert(*subject);
        }
    }
}

/// The keys that are written by `ops`, the writes of `output`, and whether they are more than
/// those of `modified`, each once.
fn note_writes<T: Transaction>(
    ops: &Vec<CacheOp<T>>,
    output: &TransactionOutput<T>,
    modified: &HashMap<Key, bool>,
    delayed: &HashSet<Identifier>,
) -> (r: (HashSet<Key>, bool))
    requires
        lists_ops(Some(*output), modified@, delayed@, 4, ops@),
    ensures
        forall|key: Key| #[trigger] r.0@.contains(key) <==> writes_key(Some(*output), key),
        r.1 == writes_outside(Some(*output), modified@),
{
    let mut written: HashSet<Key> = HashSet::new();
    let mut updates_outside: bool = false;
    let mut i: usize = 0;
    while i < ops.len()
        invariant
            i <= ops.len(),
            forall|key: Key| #[trigger]
                written@.contains(key) <==> exists|j: int|
                    0 <= j < i && (#[trigger] ops@[j]).subject() == key,
            updates_outside <==> exists|j: int| 0 <= j < i && #[trigger] is_outside(
                ops@,
                modified@,
                j,
            ),
        decreases ops.len() - i,
    {
        let key: Key = ops[i].get_subject();
        let known: bool = modified.contains_key(&key);
        let again: bool = written.contains(&key);
        assert(is_outside(ops@, modified@, i as int) <==> !known || again);
        if !known || again {
            updates_outside = true;
        }
        written.insert(key);
        i = i + 1;
    }
    proof {
        lemma_writes_noted(ops@, *output, modified@, delayed@);
    }
    (written, updates_outside)
}

/// The write that stands at `j` is of a key that is not in `modified`, or was written before.
spec fn is_outside<T: Transaction>(
    ops: Seq<CacheOp<T>>,
    modified: Map<Key, bool>,
    j: int,
) -> bool {
    !modified.contains_key(ops[j].subject()) || exists|k: int|
        0 <= k < j && (#[trigger] ops[k]).subject() == ops[j].subject()
}

/// The write of `key` that comes at `rank`.
spec fn write_at<T: Transaction>(output: TransactionOutput<T>, rank: int, key: Key) -> CacheOp<T> {
    if rank == 0 {
        CacheOp::WriteResource(
            key,
            output.resource_write_set@[key].0,
            output.resource_write_set@[key].1,
        )
    } else if rank == 1 {
        CacheOp::WriteAggregatorV1(key, output.aggregator_v1_write_set@[key])
    } else if rank == 2 {
        CacheOp::WriteModule(key, output.module_write_set@[key])
    } else {
        CacheOp::AddDelta(key, output.aggregator_v1_delta_set@[key])
    }
}

/// A set of `output` whose writes come at `rank` holds `key`.
spec fn is_written_at<T: Transaction>(
    output: TransactionOutput<T>,
    rank: int,
    key: Key,
) -> bool {
    if rank == 0 {
        output.resource_write_set@.contains_key(key)
    } else if rank == 1 {
        output.aggregator_v1_write_set@.contains_key(key)
    } else if rank == 2 {
        output.module_write_set@.contains_key(key)
    } else {
        rank == 3 && output.aggregator_v1_delta_set@.contains_key(key)
    }
}

proof fn lemma_write_listed<T: Transaction>(
    ops: Seq<CacheOp<T>>,
    output: TransactionOutput<T>,
    modified: Map<Key, bool>,
    delayed: Set<Identifier>,
    rank: int,
    key: Key,
) -> (j: int)
    requires
        lists_ops(Some(output), modified, delayed, 4, ops),
        is_written_at(output, rank, key),
    ensures
        0 <= j < ops.len(),
        ops[j] == write_at(output, rank, key),
        ops[j].subject() == key,
        ops[j].rank() == rank,
{
    let op = write_at(output, rank, key);
    assert(is_called_for(Some(output), modified, delayed, op));
    assert(ops.contains(op));
    choose|j: int| 0 <= j < ops.len() && ops[j] == op
}

proof fn lemma_writes_noted<T: Transaction>(
    ops: Seq<CacheOp<T>>,
    output: TransactionOutput<T>,
    modified: Map<Key, bool>,
    delayed: Set<Identifier>,
)
    requires
        lists_ops(Some(output), modified, delayed, 4, ops),
    ensures
        forall|key: Key|
            writes_key(Some(output), key) <==> exists|j: int|
                0 <= j < ops.len() && (#[trigger] ops[j]).subject() == key,
        writes_outside(Some(output), modified) <==> exists|j: int|
            0 <= j < ops.len() && #[trigger] is_outside(ops, modified, j),
{
    assert forall|j: int| 0 <= j < ops.len() implies {
        let op = #[trigger] ops[j];
        &&& 0 <= op.rank() < 4
        &&& is_written_at(output, op.rank(), op.subject())
        &&& op == write_at(output, op.rank(), op.subject())
    } by {
        assert(ops.contains(ops[j]));
    }
    assert forall|key: Key|
        writes_key(Some(output), key) <==> exists|j: int|
            0 <= j < ops.len() && (#[trigger] ops[j]).subject() == key by {
        if writes_key(Some(output), key) {
            let rank = choose|rank: int| #[trigger] is_written_at(output, rank, key);
            assert(is_written_at(output, 0, key) || is_written_at(output, 1, key)
                || is_written_at(output, 2, key) || is_written_at(output, 3, key));
            let j = lemma_write_listed(ops, output, modified, delayed, rank, key);
            assert(ops[j].subject() == key);
        }
    }
    if exists|j: int| 0 <= j < ops.len() && #[trigger] is_outside(ops, modified, j) {
        let j = choose|j: int| 0 <= j < ops.len() && #[trigger] is_outside(ops, modified, j);
        let key = ops[j].subject();
        assert(is_written_at(output, ops[j].rank(), key));
        if modified.contains_key(key) {
            let k = choose|k: int|
                0 <= k < j && (#[trigger] ops[k]).subject() == ops[j].subject();
            assert(ops[k] != ops[j]);
            assert(ops[k].rank() != ops[j].rank());
            assert(is_written_at(output, ops[k].rank(), key));
            assert(times_written(output, key) > 1);
        } else {
            assert(times_written(output, key) > 0);
        }
    }
    if writes_outside(Some(output), modified) {
        let key = choose|key: Key| #[trigger]
            times_written(output, key) > if modified.contains_key(key) {
                1int
            } else {
                0
            };
        let a = if is_written_at(output, 0, key) {
            0int
        } else if is_written_at(output, 1, key) {
            1
        } else if is_written_at(output, 2, key) {
            2
        } else {
            3
        };
        let b = if is_written_at(output, 3, key) {
            3int
        } else if is_written_at(output, 2, key) {
            2
        } else if is_written_at(output, 1, key) {
            1
        } else {
            0
        };
        let i = lemma_write_listed(ops, output, modified, delayed, a, key);
        let j = lemma_write_listed(ops, output, modified, delayed, b, key);
        if modified.contains_key(key) {
            assert(a != b);
            assert(i != j);
            if i < j {
                assert(is_outside(ops, modified, j));
            } else {
                assert(is_outside(ops, modified, i));
            }
        } else {
            assert(is_outside(ops, modified, i));
        }
    }
}

/// Lists the removal of the changes to delayed fields that were made before and are not made
/// again.
fn list_field_removals<T: Transaction>(
    ops: &mut Vec<CacheOp<T>>,
    output: Option<&TransactionOutput<T>>,
    modified: &HashMap<Key, bool>,
    delayed: &HashSet<Identifier>,
)
    requires
        lists_ops(deref_output(output), modified@, delayed@, 6, old(ops)@),
    ensures
        lists_all_ops(deref_output(output), modified@, delayed@, final(ops)@),
{
    let ghost out = deref_output(output);
    let ghost mut visited: Set<u64> = Set::empty();
    for id in it: delayed.iter()
        invariant
            out == deref_output(output),
            it.seq().no_duplicates(),
            forall|k: u64| #[trigger]
                visited.contains(k) <==> exists|j: int|
                    0 <= j < it.index() && *(#[trigger] it.seq()[j]) == k,
            lists_some(out, modified@, delayed@, 6, visited, ops@),
    {
        assert(delayed@.contains(*id));
        assert(!visited.contains(*id));
        let changed: bool = match output {
            Some(output) => output.delayed_field_change_set.contains_key(id),
            None => false,
        };
        if !changed {
            let op = CacheOp::RemoveDelayedField(*id);
            proof {
                lemma_list_one(out, modified@, delayed@, 6, visited, ops@, op);
            }
            ops.push(op);
        }
        proof {
            visited = visited.insert(*id);
        }
    }
}

/// The output that is referred to, if there is one.
pub open spec fn deref_output<T: Transaction>(output: Option<&TransactionOutput<T>>) -> Option<
    TransactionOutput<T>,
> {
    match output {
        Some(output) => Some(*output),
        None => None,
    }
}

/// The changes to the versioned cache that an execution calls for, and whether it wrote more
/// than the incarnation before it.
pub fn plan_updates<T: Transaction>(
    output: Option<&TransactionOutput<T>>,
    modified: &HashMap<Key, bool>,
    delayed: &HashSet<Identifier>,
) -> (r: (Vec<CacheOp<T>>, bool))
    ensures
        lists_all_ops(deref_output(output), modified@, delayed@, r.0@),
        r.1 == writes_outside(deref_output(output), modified@),
{
    let mut ops: Vec<CacheOp<T>> = Vec::new();
    let mut written: HashSet<Key> = HashSet::new();
    let mut updates_outside: bool = false;
    let ghost out = deref_output(output);
    if let Some(output) = output {
        let resource = |key: &u64, write: &(Arc<WriteOp>, Option<Arc<T::Layout>>)| -> (op: Option<
            CacheOp<T>,
        >)
            ensures
                op == Some(CacheOp::<T>::WriteResource(*key, write.0, write.1)),
            {
                let layout = match &write.1 {
                    Some(layout) => Some(share(layout)),
                    None => None,
                };
                Some(CacheOp::WriteResource(*key, share(&write.0), layout))
            };
        list_entries(
            &mut ops,
            &output.resource_write_set,
            resource,
            Ghost(out),
            Ghost(modified@),
            Ghost(delayed@),
            Ghost(0),
        );
        let aggregator = |key: &u64, write: &Arc<WriteOp>| -> (op: Option<CacheOp<T>>)
            ensures
                op == Some(CacheOp::<T>::WriteAggregatorV1(*key, *write)),
            { Some(CacheOp::WriteAggregatorV1(*key, share(write))) };
        list_entries(
            &mut ops,
            &output.aggregator_v1_write_set,
            aggregator,
            Ghost(out),
            Ghost(modified@),
            Ghost(delayed@),
            Ghost(1),
        );
        let module = |key: &u64, write: &Arc<WriteOp>| -> (op: Option<CacheOp<T>>)
            ensures
                op == Some(CacheOp::<T>::WriteModule(*key, *write)),
            { Some(CacheOp::WriteModule(*key, share(write))) };
        list_entries(
            &mut ops,
            &output.module_write_set,
            module,
            Ghost(out),
            Ghost(modified@),
            Ghost(delayed@),
            Ghost(2),
        );
        let delta = |key: &u64, delta: &Arc<T::DeltaOp>| -> (op: Option<CacheOp<T>>)
            ensures
                op == Some(CacheOp::<T>::AddDelta(*key, *delta)),
            { Some(CacheOp::AddDelta(*key, share(delta))) };
        list_entries(
            &mut ops,
            &output.aggregator_v1_delta_set,
            delta,
            Ghost(out),
            Ghost(modified@),
            Ghost(delayed@),
            Ghost(3),
        );
        let noted = note_writes(&ops, output, modified, delayed);
        written = noted.0;
        updates_outside = noted.1;
        let change = |id: &u64, change: &DelayedChange<T>| -> (op: Option<CacheOp<T>>)
            ensures
                op == Some(CacheOp::<T>::RecordChange(*id, *change)),
            { Some(CacheOp::RecordChange(*id, change.share())) };
        list_entries(
            &mut ops,
            &output.delayed_field_change_set,
            change,
            Ghost(out),
            Ghost(modified@),
            Ghost(delayed@),
            Ghost(4),
        );
    }
    let removal = |key: &u64, is_module: &bool| -> (op: Option<CacheOp<T>>)
        ensures
            op == if written@.contains(*key) {
                None
            } else if *is_module {
                Some(CacheOp::<T>::RemoveModule(*key))
            } else {
                Some(CacheOp::<T>::RemoveData(*key))
            },
        {
            if written.contains(key) {
                None
            } else if *is_module {
                Some(CacheOp::RemoveModule(*key))
            } else {
                Some(CacheOp::RemoveData(*key))
            }
        };
    list_entries(
        &mut ops,
        modified,
        removal,
        Ghost(out),
        Ghost(modified@),
        Ghost(delayed@),
        Ghost(5),
    );
    list_field_removals(&mut ops, output, modified, delayed);
    (ops, updates_outside)
}

/// What is to be done with the outcome of an execution.
pub struct ExecutionPlan<T: Transaction, D> {
    /// The changes to the versioned cache, in the order in which they are made.
    pub ops: Vec<CacheOp<T>>,
    /// The execution wrote more than the incarnation before it.
    pub updates_outside: bool,
    /// The execution rests on state that speculation has since replaced.
    pub inconsistent: bool,
    /// What is recorded of the execution.
    pub status: Arc<ExecutionStatus<T, Error<D>>>,
}

/// How a change to the versioned cache went.
#[derive(Clone, Copy, Debug, PartialEq, Eq, Structural)]
pub enum ApplyReply {
    Applied,
    /// The change does not go with the state that it was based on.
    Inconsistent,
    /// The cache reports that the code is wrong.
    CodeInvariantError,
}

/// What is to be done next about the execution of a transaction.
pub enum ExecutionStep<T: Transaction, D, W> {
    /// Execute transaction `txn_idx`, on top of the latest versions of what it reads. Deltas are
    /// turned into writes only if `materialize_deltas`.
    Execute { txn_idx: TxnIndex, materialize_deltas: bool },
    /// Look up what the incarnation before wrote.
    LoadPrevious(ExecutionStatus<T, TransactionError<D>>),
    /// Make the change number `next` of the plan.
    Apply { plan: ExecutionPlan<T, D>, next: usize },
    /// Take out the reads that were captured.
    TakeReads(ExecutionPlan<T, D>),
    /// Mark the reads that were taken out as failed.
    CaptureReadError(ExecutionPlan<T, D>),
    /// Record the reads that were taken out, with their mark, and the status of the plan.
    Record(ExecutionPlan<T, D>),
    /// Report that the execution is over.
    FinishExecution { updates_outside: bool },
    /// Halt the block, because a module was both read and written.
    Halt,
    /// The execution is over, and this is the next task of the worker.
    Return(SchedulerTask<W>),
}

/// What came of a step of an execution.
pub enum ExecutionEvent<T: Transaction, D, W> {
    /// How the execution ended.
    Executed(ExecutionStatus<T, TransactionError<D>>),
    /// The keys that the incarnation before wrote, and whether they are those of modules; the
    /// delayed fields that it changed.
    Previous(Option<HashMap<Key, bool>>, Option<HashSet<Identifier>>),
    /// How a change to the versioned cache went.
    Applied(ApplyReply),
    /// The step was made.
    Made,
    /// The answer to a question.
    Answer(bool),
    /// The task that came out.
    Task(SchedulerTask<W>),
}

/// The map, or an empty one.
pub open spec fn map_or_empty(map: Option<HashMap<Key, bool>>) -> Map<Key, bool> {
    match map {
        Some(map) => map@,
        None => Map::empty(),
    }
}

/// The set, or an empty one.
pub open spec fn set_or_empty(set: Option<HashSet<Identifier>>) -> Set<Identifier> {
    match set {
        Some(set) => set@,
        None => Set::empty(),
    }
}

/// The output that an execution comes to, if it does.
pub open spec fn speculative_output<T: Transaction, D>(
    status: ExecutionStatus<T, TransactionError<D>>,
) -> Option<TransactionOutput<T>> {
    match status {
        ExecutionStatus::Success(output) => Some(output),
        ExecutionStatus::SkipRest(output) => Some(output),
        ExecutionStatus::Abort(_) => None,
    }
}

/// What is recorded of an execution that ended with `status`.
pub open spec fn recorded_status<T: Transaction, D>(
    status: ExecutionStatus<T, TransactionError<D>>,
) -> ExecutionStatus<T, Error<D>> {
    match status {
        ExecutionStatus::Success(output) => ExecutionStatus::Success(output),
        ExecutionStatus::SkipRest(output) => ExecutionStatus::SkipRest(output),
        ExecutionStatus::Abort(err) => ExecutionStatus::Abort(Error::UserError(err)),
    }
}

/// `plan` is the plan for an execution that ended with `status`.
pub open spec fn is_plan_for<T: Transaction, D>(
    status: ExecutionStatus<T, TransactionError<D>>,
    modified: Map<Key, bool>,
    delayed: Set<Identifier>,
    plan: ExecutionPlan<T, D>,
) -> bool {
    &&& lists_all_ops(speculative_output(status), modified, delayed, plan.ops@)
    &&& plan.updates_outside == writes_outside(speculative_output(status), modified)
    &&& plan.inconsistent == (status matches ExecutionStatus::Abort(err) && err.category
        == ErrorCategory::SpeculativeExecutionError)
    &&& *plan.status == recorded_status(status)
}

/// The plan for an execution that ended with `status`. Whatever the status, no action is taken on
/// it yet: it is recorded, and looked at when the transaction is committed.
pub fn plan_execution<T: Transaction, D>(
    status: ExecutionStatus<T, TransactionError<D>>,
    modified: &HashMap<Key, bool>,
    delayed: &HashSet<Identifier>,
) -> (r: Result<ExecutionPlan<T, D>, InvariantViolation>)
    ensures
        r is Err <==> (status matches ExecutionStatus::Abort(err) && err.category
            == ErrorCategory::CodeInvariantError),
        r matches Ok(plan) ==> is_plan_for(status, modified@, delayed@, plan),
        r matches Err(violation) ==> violation == InvariantViolation::CodeInvariantError,
{
    match status {
        ExecutionStatus::Success(output) => {
            let (ops, updates_outside) = plan_updates(Some(&output), modified, delayed);
            Ok(
                ExecutionPlan {
                    ops,
                    updates_outside,
                    inconsistent: false,
                    status: Arc::new(ExecutionStatus::Success(output)),
                },
            )
        },
        ExecutionStatus::SkipRest(output) => {
            let (ops, updates_outside) = plan_updates(Some(&output), modified, delayed);
            Ok(
                ExecutionPlan {
                    ops,
                    updates_outside,
                    inconsistent: false,
                    status: Arc::new(ExecutionStatus::SkipRest(output)),
                },
            )
        },
        ExecutionStatus::Abort(err) => {
            let inconsistent: bool = match err.category {
                ErrorCategory::CodeInvariantError => {
                    return Err(InvariantViolation::CodeInvariantError);
                },
                ErrorCategory::SpeculativeExecutionError => true,
                ErrorCategory::ValidError => false,
            };
            let (ops, updates_outside) = plan_updates(None, modified, delayed);
            Ok(
                ExecutionPlan {
                    ops,
                    updates_outside,
                    inconsistent,
                    status: Arc::new(ExecutionStatus::Abort(Error::UserError(err))),
                },
            )
        },
    }
}

impl<T: Transaction, D, W> ExecutionStep<T, D, W> {
    /// There is a change to make, if it is the step to make one.
    pub open spec fn wf(self) -> bool {
        self matches ExecutionStep::Apply { plan, next } ==> next < plan.ops@.len()
    }

    /// `event` is of the kind that this step comes to.
    pub open spec fn expects(self, event: ExecutionEvent<T, D, W>) -> bool {
        match self {
            ExecutionStep::Execute { txn_idx: _, materialize_deltas: _ } => event is Executed,
            ExecutionStep::LoadPrevious(_) => event is Previous,
            ExecutionStep::Apply { plan: _, next: _ } => event is Applied,
            ExecutionStep::TakeReads(_) => event is Made,
            ExecutionStep::CaptureReadError(_) => event is Made,
            ExecutionStep::Record(_) => event is Answer,
            ExecutionStep::FinishExecution { updates_outside: _ } => event is Task,
            ExecutionStep::Halt => event is Answer,
            ExecutionStep::Return(_) => false,
        }
    }

    /// The step at which `next` changes of `plan` have been made.
    pub open spec fn applying(plan: ExecutionPlan<T, D>, next: int) -> ExecutionStep<T, D, W> {
        if next < plan.ops@.len() {
            ExecutionStep::Apply { plan, next: next as usize }
        } else {
            ExecutionStep::TakeReads(plan)
        }
    }

    /// `following` is the first step of a plan for an execution that ended with `status`.
    pub open spec fn starts_plan(
        status: ExecutionStatus<T, TransactionError<D>>,
        modified: Map<Key, bool>,
        delayed: Set<Identifier>,
        following: ExecutionStep<T, D, W>,
    ) -> bool {
        exists|plan: ExecutionPlan<T, D>| #[trigger]
            is_plan_for(status, modified, delayed, plan) && following == Self::applying(plan, 0)
    }

    /// This step breaks rule `violation` when it comes to `event`.
    pub open spec fn violates(
        self,
        event: ExecutionEvent<T, D, W>,
        violation: InvariantViolation,
    ) -> bool {
        &&& violation == InvariantViolation::CodeInvariantError
        &&& match self {
            ExecutionStep::LoadPrevious(ExecutionStatus::Abort(err)) => err.category
                == ErrorCategory::CodeInvariantError,
            ExecutionStep::Apply { plan: _, next: _ } => event->Applied_0
                == ApplyReply::CodeInvariantError,
            _ => false,
        }
    }

    /// `following` is the step after this one, when it has come to `event`.
    pub open spec fn leads_to(
        self,
        event: ExecutionEvent<T, D, W>,
        following: ExecutionStep<T, D, W>,
    ) -> bool {
        match self {
            ExecutionStep::Execute { txn_idx: _, materialize_deltas: _ } => following
                == ExecutionStep::<T, D, W>::LoadPrevious(event->Executed_0),
            ExecutionStep::LoadPrevious(status) => Self::starts_plan(
                status,
                map_or_empty(event->Previous_0),
                set_or_empty(event->Previous_1),
                following,
            ),
            ExecutionStep::Apply { plan, next } => {
                &&& event->Applied_0 != ApplyReply::CodeInvariantError
                &&& following == Self::applying(
                    ExecutionPlan {
                        inconsistent: plan.inconsistent || event->Applied_0
                            == ApplyReply::Inconsistent,
                        ..plan
                    },
                    next + 1,
                )
            },
            ExecutionStep::TakeReads(plan) => following == if plan.inconsistent {
                ExecutionStep::<T, D, W>::CaptureReadError(plan)
            } else {
                ExecutionStep::Record(plan)
            },
            ExecutionStep::CaptureReadError(plan) => following
                == ExecutionStep::<T, D, W>::Record(plan),
            ExecutionStep::Record(plan) => following == if event->Answer_0 {
                ExecutionStep::<T, D, W>::FinishExecution { updates_outside: plan.updates_outside }
            } else {
                ExecutionStep::Halt
            },
            ExecutionStep::FinishExecution { updates_outside: _ } => following
                == ExecutionStep::<T, D, W>::Return(event->Task_0),
            ExecutionStep::Halt => following == ExecutionStep::<T, D, W>::Return(
                SchedulerTask::NoTask,
            ),
            ExecutionStep::Return(_) => false,
        }
    }

    /// The error of the block after this step, if it comes to `event`: a module was both read and
    /// written, where that has halted a block that was not halted before.
    pub open spec fn error_after(
        self,
        maybe_error: Option<Error<D>>,
        event: ExecutionEvent<T, D, W>,
    ) -> Option<Error<D>> {
        match (self, event) {
            (ExecutionStep::Halt, ExecutionEvent::Answer(true)) => Some(Error::ModulePathReadWrite),
            _ => maybe_error,
        }
    }

    /// The step with which the execution of transaction `txn_idx` starts. It leaves deltas as they
    /// are: what they amount to is only known at commit.
    pub open spec fn first(txn_idx: TxnIndex) -> ExecutionStep<T, D, W> {
        ExecutionStep::Execute { txn_idx, materialize_deltas: false }
    }

    /// The first step of the execution of transaction `txn_idx`.
    pub fn start(txn_idx: TxnIndex) -> (r: ExecutionStep<T, D, W>)
        ensures
            r == Self::first(txn_idx),
            r.wf(),
    {
        ExecutionStep::Execute { txn_idx, materialize_deltas: false }
    }

    /// The step after this one, when it has come to `event`. What the execution wrote is recorded
    /// in the versioned cache, and what the incarnation before wrote and this one did not is
    /// removed; then the status of the execution is recorded with its reads. Where that finds a
    /// module both read and written, the block is halted, and that is its error.
    pub fn next(
        self,
        maybe_error: &mut Option<Error<D>>,
        event: ExecutionEvent<T, D, W>,
    ) -> (r: Result<ExecutionStep<T, D, W>, InvariantViolation>)
        requires
            self.wf(),
            self.expects(event),
        ensures
            r matches Ok(following) ==> following.wf() && self.leads_to(event, following),
            r matches Err(violation) ==> self.violates(event, violation),
            r is Err <==> self.violates(event, InvariantViolation::CodeInvariantError),
            *final(maybe_error) == self.error_after(*old(maybe_error), event),
    {
        match (self, event) {
            (
                ExecutionStep::Execute { txn_idx: _, materialize_deltas: _ },
                ExecutionEvent::Executed(status),
            ) => Ok(ExecutionStep::LoadPrevious(status)),
            (ExecutionStep::LoadPrevious(status), ExecutionEvent::Previous(modified, delayed)) => {
                let ghost ended = status;
                let modified = match modified {
                    Some(modified) => modified,
                    None => HashMap::new(),
                };
                let delayed = match delayed {
                    Some(delayed) => delayed,
                    None => HashSet::new(),
                };
                match plan_execution(status, &modified, &delayed) {
                    Ok(plan) => {
                        assert(is_plan_for(ended, modified@, delayed@, plan));
                        let ghost planned = plan;
                        let following = if plan.ops.len() == 0 {
                            ExecutionStep::TakeReads(plan)
                        } else {
                            ExecutionStep::Apply { plan, next: 0 }
                        };
                        assert(following == Self::applying(planned, 0));
                        assert(Self::starts_plan(ended, modified@, delayed@, following));
                        Ok(following)
                    },
                    Err(violation) => Err(violation),
                }
            },
            (ExecutionStep::Apply { plan, next }, ExecutionEvent::Applied(reply)) => {
                let mut plan = plan;
                let total: usize = plan.ops.len();
                match reply {
                    ApplyReply::Applied => {},
                    ApplyReply::Inconsistent => {
                        plan.inconsistent = true;
                    },
                    ApplyReply::CodeInvariantError => {
                        return Err(InvariantViolation::CodeInvariantError);
                    },
                }
                let following: usize = next + 1;
                if following < total {
                    Ok(ExecutionStep::Apply { plan, next: following })
                } else {
                    Ok(ExecutionStep::TakeReads(plan))
                }
            },
            (ExecutionStep::TakeReads(plan), _) => {
                if plan.inconsistent {
                    Ok(ExecutionStep::CaptureReadError(plan))
                } else {
                    Ok(ExecutionStep::Record(plan))
                }
            },
            (ExecutionStep::CaptureReadError(plan), _) => Ok(ExecutionStep::Record(plan)),
            (ExecutionStep::Record(plan), ExecutionEvent::Answer(true)) => Ok(
                ExecutionStep::FinishExecution { updates_outside: plan.updates_outside },
            ),
            (ExecutionStep::Record(_), _) => Ok(ExecutionStep::Halt),
            (ExecutionStep::FinishExecution { updates_outside: _ }, ExecutionEvent::Task(task)) => {
                Ok(ExecutionStep::Return(task))
            },
            (ExecutionStep::Halt, ExecutionEvent::Answer(true)) => {
                *maybe_error = Some(Error::ModulePathReadWrite);
                Ok(ExecutionStep::Return(SchedulerTask::NoTask))
            },
            (_, _) => Ok(ExecutionStep::Return(SchedulerTask::NoTask)),
        }
    }
}

/// What a transaction has under a key in the versioned cache.
pub enum DataEntry<T: Transaction> {
    /// The value of a resource, or of an aggregator, which has no layout.
    Value(Arc<WriteOp>, Option<Arc<T::Layout>>),
    /// A delta to an aggregator.
    Delta(Arc<T::DeltaOp>),
}

/// The entries that a transaction has in the versioned cache.
#[verifier::reject_recursive_types(T)]
pub struct OwnEntries<T: Transaction> {
    pub data: Map<Key, DataEntry<T>>,
    pub modules: Map<Key, Arc<WriteOp>>,
    pub fields: Map<Identifier, DelayedChange<T>>,
}

/// The entries after one change.
pub open spec fn entries_after_op<T: Transaction>(
    entries: OwnEntries<T>,
    op: CacheOp<T>,
) -> OwnEntries<T> {
    match op {
        CacheOp::WriteResource(key, write, layout) => OwnEntries {
            data: entries.data.insert(key, DataEntry::Value(write, layout)),
            ..entries
        },
        CacheOp::WriteAggregatorV1(key, write) => OwnEntries {
            data: entries.data.insert(key, DataEntry::Value(write, None)),
            ..entries
        },
        CacheOp::WriteModule(key, write) => OwnEntries {
            modules: entries.modules.insert(key, write),
            ..entries
        },
        CacheOp::AddDelta(key, delta) => OwnEntries {
            data: entries.data.insert(key, DataEntry::Delta(delta)),
            ..entries
        },
        CacheOp::RecordChange(id, change) => OwnEntries {
            fields: entries.fields.insert(id, change),
            ..entries
        },
        CacheOp::RemoveModule(key) => OwnEntries {
            modules: entries.modules.remove(key),
            ..entries
        },
        CacheOp::RemoveData(key) => OwnEntries { data: entries.data.remove(key), ..entries },
        CacheOp::RemoveDelayedField(id) => OwnEntries {
            fields: entries.fields.remove(id),
            ..entries
        },
    }
}

/// The entries after a list of changes.
pub open spec fn entries_after<T: Transaction>(
    entries: OwnEntries<T>,
    ops: Seq<CacheOp<T>>,
) -> OwnEntries<T>
    decreases ops.len(),
{
    if ops.len() == 0 {
        entries
    } else {
        entries_after_op(entries_after(entries, ops.drop_last()), ops.last())
    }
}

/// A key under which an earlier incarnation wrote a module is written as one by `output`, if at
/// all, and one under which it wrote something else is not.
pub open spec fn keeps_kinds<T: Transaction>(
    output: Option<TransactionOutput<T>>,
    modified: Map<Key, bool>,
) -> bool {
    output matches Some(o) ==> forall|key: Key| #[trigger]
        modified.contains_key(key) ==> if modified[key] {
            &&& !o.resource_write_set@.contains_key(key)
            &&& !o.aggregator_v1_write_set@.contains_key(key)
            &&& !o.aggregator_v1_delta_set@.contains_key(key)
        } else {
            !o.module_write_set@.contains_key(key)
        }
}

/// A kind of entry.
#[derive(Clone, Copy, Debug, PartialEq, Eq, Structural)]
pub enum EntryKind {
    Data,
    Module,
    Field,
}

impl<T: Transaction> OwnEntries<T> {
    /// There is an entry of `kind` for `subject`.
    pub open spec fn has(self, kind: EntryKind, subject: u64) -> bool {
        match kind {
            EntryKind::Data => self.data.contains_key(subject),
            EntryKind::Module => self.modules.contains_key(subject),
            EntryKind::Field => self.fields.contains_key(subject),
        }
    }

    /// `self` and `other` have the same entry of `kind` for `subject`, or none.
    spec fn agrees(self, other: OwnEntries<T>, kind: EntryKind, subject: u64) -> bool {
        &&& self.has(kind, subject) == other.has(kind, subject)
        &&& match kind {
            EntryKind::Data => self.data[subject] == other.data[subject],
            EntryKind::Module => self.modules[subject] == other.modules[subject],
            EntryKind::Field => self.fields[subject] == other.fields[subject],
        }
    }
}

impl<T: Transaction> CacheOp<T> {
    /// The change makes an entry of `kind` for `subject`.
    spec fn makes(self, kind: EntryKind, subject: u64) -> bool {
        &&& self.subject() == subject
        &&& match kind {
            EntryKind::Data => self.rank() == 0 || self.rank() == 1 || self.rank() == 3,
            EntryKind::Module => self.rank() == 2,
            EntryKind::Field => self.rank() == 4,
        }
    }

    /// The change removes the entry of `kind` for `subject`.
    spec fn removes(self, kind: EntryKind, subject: u64) -> bool {
        match kind {
            EntryKind::Data => self == CacheOp::<T>::RemoveData(subject),
            EntryKind::Module => self == CacheOp::<T>::RemoveModule(subject),
            EntryKind::Field => self == CacheOp::<T>::RemoveDelayedField(subject),
        }
    }
}

/// One of `ops` makes an entry of `kind` for `subject`.
spec fn some_makes<T: Transaction>(ops: Seq<CacheOp<T>>, kind: EntryKind, subject: u64) -> bool {
    exists|i: int| 0 <= i < ops.len() && (#[trigger] ops[i]).makes(kind, subject)
}

/// One of `ops` removes the entry of `kind` for `subject`.
spec fn some_removes<T: Transaction>(ops: Seq<CacheOp<T>>, kind: EntryKind, subject: u64) -> bool {
    exists|i: int| 0 <= i < ops.len() && (#[trigger] ops[i]).removes(kind, subject)
}

proof fn lemma_some_last<T: Transaction>(ops: Seq<CacheOp<T>>, kind: EntryKind, subject: u64)
    requires
        ops.len() > 0,
    ensures
        some_makes(ops, kind, subject) <==> some_makes(ops.drop_last(), kind, subject)
            || ops.last().makes(kind, subject),
        some_removes(ops, kind, subject) <==> some_removes(ops.drop_last(), kind, subject)
            || ops.last().removes(kind, subject),
{
    let rest = ops.drop_last();
    assert(ops[ops.len() - 1] == ops.last());
    assert forall|i: int| 0 <= i < rest.len() implies #[trigger] rest[i] == ops[i] by {}
    if some_makes(rest, kind, subject) {
        let i = choose|i: int| 0 <= i < rest.len() && (#[trigger] rest[i]).makes(kind, subject);
        assert(ops[i].makes(kind, subject));
    }
    if some_removes(rest, kind, subject) {
        let i = choose|i: int| 0 <= i < rest.len() && (#[trigger] rest[i]).removes(kind, subject);
        assert(ops[i].removes(kind, subject));
    }
    if some_makes(ops, kind, subject) {
        let i = choose|i: int| 0 <= i < ops.len() && (#[trigger] ops[i]).makes(kind, subject);
        assert(i < rest.len() ==> rest[i].makes(kind, subject));
    }
    if some_removes(ops, kind, subject) {
        let i = choose|i: int| 0 <= i < ops.len() && (#[trigger] ops[i]).removes(kind, subject);
        assert(i < rest.len() ==> rest[i].removes(kind, subject));
    }
}

/// What became of the entry of `kind` for `subject` after a list of changes that does not both make
/// and remove it: it is there if it was and none of the changes removed it, or if one made it.
proof fn lemma_entries_after<T: Transaction>(
    entries: OwnEntries<T>,
    ops: Seq<CacheOp<T>>,
    kind: EntryKind,
    subject: u64,
)
    requires
        !(some_makes(ops, kind, subject) && some_removes(ops, kind, subject)),
    ensures
        entries_after(entries, ops).has(kind, subject) <==> {
            ||| entries.has(kind, subject) && !some_removes(ops, kind, subject)
            ||| some_makes(ops, kind, subject)
        },
    decreases ops.len(),
{
    if ops.len() > 0 {
        lemma_some_last(ops, kind, subject);
        lemma_entries_after(entries, ops.drop_last(), kind, subject);
    }
}

/// Where the one at `i` is the only one of `ops` that makes or removes an entry of `kind` for its
/// subject, it says what the entry is.
proof fn lemma_entry_made<T: Transaction>(
    entries: OwnEntries<T>,
    ops: Seq<CacheOp<T>>,
    kind: EntryKind,
    i: int,
)
    requires
        0 <= i < ops.len(),
        ops[i].makes(kind, ops[i].subject()),
        forall|j: int|
            #![trigger ops[j]]
            0 <= j < ops.len() && j != i ==> !ops[j].makes(kind, ops[i].subject())
                && !ops[j].removes(kind, ops[i].subject()),
    ensures
        entries_after(entries, ops).agrees(
            entries_after_op(entries, ops[i]),
            kind,
            ops[i].subject(),
        ),
    decreases ops.len(),
{
    let rest = ops.drop_last();
    let last = ops.len() - 1;
    assert(ops[last] == ops.last());
    assert forall|j: int| 0 <= j < rest.len() implies #[trigger] rest[j] == ops[j] by {}
    if i < last {
        assert(rest[i] == ops[i]);
        lemma_entry_made(entries, rest, kind, i);
        assert(!ops[last].makes(kind, ops[i].subject()));
    }
}

/// When the changes of a plan have been made, the transaction has exactly the entries of its latest
/// output in the versioned cache: none that it wrote is missing, and none of an earlier incarnation
/// is left. What stands under a key is what the output holds there, if only one of its sets does;
/// and the change to a delayed field is the one that the output holds.
pub proof fn cache_holds_the_latest_output<T: Transaction>(
    output: Option<TransactionOutput<T>>,
    modified: Map<Key, bool>,
    delayed: Set<Identifier>,
    ops: Seq<CacheOp<T>>,
    entries: OwnEntries<T>,
    subject: u64,
)
    requires
        lists_all_ops(output, modified, delayed, ops),
        keeps_kinds(output, modified),
        forall|key: Key| #[trigger]
            entries.data.contains_key(key) <==> modified.contains_key(key) && !modified[key],
        forall|key: Key| #[trigger]
            entries.modules.contains_key(key) <==> modified.contains_key(key) && modified[key],
        entries.fields.dom() == delayed,
    ensures
        ({
            let after = entries_after(entries, ops);
            &&& after.data.contains_key(subject) <==> (output matches Some(o) && (
            o.resource_write_set@.contains_key(subject) || o.aggregator_v1_write_set@.contains_key(
                subject,
            ) || o.aggregator_v1_delta_set@.contains_key(subject)))
            &&& after.modules.contains_key(subject) <==> (output matches Some(o)
                && o.module_write_set@.contains_key(subject))
            &&& after.fields.contains_key(subject) <==> (output matches Some(o)
                && o.delayed_field_change_set@.contains_key(subject))
            &&& output matches Some(o) ==> {
                &&& o.resource_write_set@.contains_key(subject) && times_written(o, subject) == 1
                    ==> after.data[subject] == DataEntry::<T>::Value(
                    o.resource_write_set@[subject].0,
                    o.resource_write_set@[subject].1,
                )
                &&& o.aggregator_v1_write_set@.contains_key(subject) && times_written(o, subject)
                    == 1 ==> after.data[subject] == DataEntry::<T>::Value(
                    o.aggregator_v1_write_set@[subject],
                    None,
                )
                &&& o.aggregator_v1_delta_set@.contains_key(subject) && times_written(o, subject)
                    == 1 ==> after.data[subject] == DataEntry::<T>::Delta(
                    o.aggregator_v1_delta_set@[subject],
                )
                &&& o.module_write_set@.contains_key(subject) ==> after.modules[subject]
                    == o.module_write_set@[subject]
                &&& o.delayed_field_change_set@.contains_key(subject) ==> after.fields[subject]
                    == o.delayed_field_change_set@[subject]
            }
        }),
{
    assert forall|op: CacheOp<T>| ops.contains(op) <==> is_called_for(
        output,
        modified,
        delayed,
        op,
    ) by {
        assert(op.rank() < 7);
    }
    assert forall|i: int| 0 <= i < ops.len() implies is_called_for(
        output,
        modified,
        delayed,
        #[trigger] ops[i],
    ) by {
        assert(ops.contains(ops[i]));
    }
    lemma_entries_after(entries, ops, EntryKind::Data, subject);
    lemma_entries_after(entries, ops, EntryKind::Module, subject);
    lemma_entries_after(entries, ops, EntryKind::Field, subject);
    assert(some_removes(ops, EntryKind::Data, subject) <==> ops.contains(
        CacheOp::RemoveData(subject),
    ));
    assert(some_removes(ops, EntryKind::Module, subject) <==> ops.contains(
        CacheOp::RemoveModule(subject),
    ));
    assert(some_removes(ops, EntryKind::Field, subject) <==> ops.contains(
        CacheOp::RemoveDelayedField(subject),
    ));
    if let Some(o) = output {
        if o.resource_write_set@.contains_key(subject) {
            let write = o.resource_write_set@[subject];
            lemma_called_for_is_made(
                output,
                modified,
                delayed,
                ops,
                entries,
                CacheOp::WriteResource(subject, write.0, write.1),
                EntryKind::Data,
            );
        }
        if o.aggregator_v1_write_set@.contains_key(subject) {
            lemma_called_for_is_made(
                output,
                modified,
                delayed,
                ops,
                entries,
                CacheOp::WriteAggregatorV1(subject, o.aggregator_v1_write_set@[subject]),
                EntryKind::Data,
            );
        }
        if o.aggregator_v1_delta_set@.contains_key(subject) {
            lemma_called_for_is_made(
                output,
                modified,
                delayed,
                ops,
                entries,
                CacheOp::AddDelta(subject, o.aggregator_v1_delta_set@[subject]),
                EntryKind::Data,
            );
        }
        if o.module_write_set@.contains_key(subject) {
            lemma_called_for_is_made(
                output,
                modified,
                delayed,
                ops,
                entries,
                CacheOp::WriteModule(subject, o.module_write_set@[subject]),
                EntryKind::Module,
            );
        }
        if o.delayed_field_change_set@.contains_key(subject) {
            lemma_called_for_is_made(
                output,
                modified,
                delayed,
                ops,
                entries,
                CacheOp::RecordChange(subject, o.delayed_field_change_set@[subject]),
                EntryKind::Field,
            );
        }
    }
}

proof fn lemma_called_for_is_made<T: Transaction>(
    output: Option<TransactionOutput<T>>,
    modified: Map<Key, bool>,
    delayed: Set<Identifier>,
    ops: Seq<CacheOp<T>>,
    entries: OwnEntries<T>,
    op: CacheOp<T>,
    kind: EntryKind,
)
    requires
        lists_all_ops(output, modified, delayed, ops),
        is_called_for(output, modified, delayed, op),
        op.makes(kind, op.subject()),
    ensures
        some_makes(ops, kind, op.subject()),
        (forall|other: CacheOp<T>| #[trigger]
            is_called_for(output, modified, delayed, other) && other != op ==> !other.makes(
                kind,
                op.subject(),
            ) && !other.removes(kind, op.subject())) ==> entries_after(entries, ops).agrees(
            entries_after_op(entries, op),
            kind,
            op.subject(),
        ),
{
    assert(op.rank() < 7);
    assert(ops.contains(op));
    let i = choose|i: int| 0 <= i < ops.len() && ops[i] == op;
    assert(ops[i].makes(kind, op.subject()));
    if forall|other: CacheOp<T>| #[trigger]
        is_called_for(output, modified, delayed, other) && other != op ==> !other.makes(
            kind,
            op.subject(),
        ) && !other.removes(kind, op.subject()) {
        assert forall|j: int| #![trigger ops[j]] 0 <= j < ops.len() && j != i implies !ops[j].makes(
            kind,
            op.subject(),
        ) && !ops[j].removes(kind, op.subject()) by {
            assert(ops.contains(ops[j]));
            assert(is_called_for(output, modified, delayed, ops[j]));
            assert(ops[j] != ops[i]);
        }
        lemma_entry_made(entries, ops, kind, i);
    }
}

/// An execution that writes a key which the incarnation before it did not write is noticed. If no
/// key is in more than one of the sets of the output, nothing else is.
pub proof fn new_keys_are_noticed<T: Transaction>(
    output: TransactionOutput<T>,
    modified: Map<Key, bool>,
)
    ensures
        (exists|key: Key| #[trigger] writes_key(Some(output), key) && !modified.contains_key(key))
            ==> writes_outside(Some(output), modified),
        (forall|key: Key| #[trigger] times_written(output, key) <= 1) && writes_outside(
            Some(output),
            modified,
        ) ==> exists|key: Key| #[trigger]
            writes_key(Some(output), key) && !modified.contains_key(key),
{
    if exists|key: Key| #[trigger] writes_key(Some(output), key) && !modified.contains_key(key) {
        let key = choose|key: Key| #[trigger]
            writes_key(Some(output), key) && !modified.contains_key(key);
        assert(times_written(output, key) > 0);
    }
    if (forall|key: Key| #[trigger] times_written(output, key) <= 1) && writes_outside(
        Some(output),
        modified,
    ) {
        let key = choose|key: Key| #[trigger]
            times_written(output, key) > if modified.contains_key(key) {
                1int
            } else {
                0
            };
        assert(writes_key(Some(output), key) && !modified.contains_key(key));
    }
}

/// Step `i` came to an event of its kind, and was followed by the step that this leads to.
pub open spec fn execution_goes_on<T: Transaction, D, W>(
    steps: Seq<ExecutionStep<T, D, W>>,
    events: Seq<ExecutionEvent<T, D, W>>,
    i: int,
) -> bool {
    &&& steps[i].wf()
    &&& steps[i].expects(events[i])
    &&& steps[i].leads_to(events[i], steps[i + 1])
}

/// `steps` are the steps of the execution of transaction `txn_idx` from its start, and `events`
/// what they came to.
pub open spec fn execution_trace<T: Transaction, D, W>(
    txn_idx: TxnIndex,
    steps: Seq<ExecutionStep<T, D, W>>,
    events: Seq<ExecutionEvent<T, D, W>>,
) -> bool {
    &&& steps.len() == events.len() + 1
    &&& steps[0] == ExecutionStep::<T, D, W>::first(txn_idx)
    &&& forall|i: int|
        0 <= i < events.len() ==> #[trigger] execution_goes_on(steps, events, i)
}

impl<T: Transaction, D, W> ExecutionStep<T, D, W> {
    /// The plan that is being carried out.
    pub open spec fn plan(self) -> Option<ExecutionPlan<T, D>> {
        match self {
            ExecutionStep::Apply { plan, next: _ } => Some(plan),
            ExecutionStep::TakeReads(plan) => Some(plan),
            ExecutionStep::CaptureReadError(plan) => Some(plan),
            ExecutionStep::Record(plan) => Some(plan),
            _ => None,
        }
    }

    /// The number of changes of the plan that have been made.
    pub open spec fn changes_made(self) -> int {
        match self {
            ExecutionStep::Apply { plan: _, next } => next as int,
            _ => self.plan()->0.ops@.len() as int,
        }
    }
}

/// `a` and `b` are the same plan, but for what was found out about its consistency.
pub open spec fn same_plan<T: Transaction, D>(
    a: ExecutionPlan<T, D>,
    b: ExecutionPlan<T, D>,
) -> bool {
    &&& a.ops == b.ops
    &&& a.updates_outside == b.updates_outside
    &&& a.status == b.status
}

/// The first `n` changes of `plan` were made by the steps from the third on, one by one.
pub open spec fn made_in_order<T: Transaction, D, W>(
    steps: Seq<ExecutionStep<T, D, W>>,
    plan: ExecutionPlan<T, D>,
    n: int,
) -> bool {
    forall|m: int|
        0 <= m < n ==> {
            &&& #[trigger] steps[2 + m] matches ExecutionStep::Apply { plan: p, next }
            &&& next == m
            &&& same_plan(p, plan)
        }
}

proof fn lemma_carried_out<T: Transaction, D, W>(
    txn_idx: TxnIndex,
    steps: Seq<ExecutionStep<T, D, W>>,
    events: Seq<ExecutionEvent<T, D, W>>,
    j: int,
)
    requires
        execution_trace(txn_idx, steps, events),
        0 <= j < steps.len(),
    ensures
        steps[j] is Execute ==> j == 0,
        steps[j] is LoadPrevious ==> j == 1 && steps[j] == ExecutionStep::<
            T,
            D,
            W,
        >::LoadPrevious(events[0]->Executed_0),
        steps[j].plan() matches Some(plan) ==> {
            &&& j >= 2
            &&& steps[2].plan() matches Some(start)
            &&& same_plan(start, plan)
            &&& steps[j] is Apply ==> j == 2 + steps[j].changes_made()
            &&& steps[j] is TakeReads ==> j == 2 + steps[j].changes_made()
            &&& made_in_order(steps, plan, steps[j].changes_made())
        },
    decreases j,
{
    if j > 0 {
        lemma_carried_out(txn_idx, steps, events, j - 1);
        assert(execution_goes_on(steps, events, j - 1));
        if let ExecutionStep::Apply { plan: before, next } = steps[j - 1] {
            let plan = steps[j].plan()->0;
            assert(same_plan(before, plan));
            assert(before.ops@.len() == before.ops.len());
            assert(steps[j].changes_made() == next + 1);
            assert forall|m: int| 0 <= m < next + 1 implies {
                &&& #[trigger] steps[2 + m] matches ExecutionStep::Apply { plan: p, next: n }
                &&& n == m
                &&& same_plan(p, plan)
            } by {
                if m == next {
                    assert(2 + m == j - 1);
                }
            }
        }
    }
}

/// When the status of an execution is recorded, all changes to the versioned cache that the
/// execution calls for have been made, in their order and each once, and the status is the one that
/// the execution ended with.
pub proof fn changes_precede_the_record<T: Transaction, D, W>(
    txn_idx: TxnIndex,
    steps: Seq<ExecutionStep<T, D, W>>,
    events: Seq<ExecutionEvent<T, D, W>>,
    j: int,
    plan: ExecutionPlan<T, D>,
)
    requires
        execution_trace(txn_idx, steps, events),
        0 <= j < steps.len(),
        steps[j] == ExecutionStep::<T, D, W>::Record(plan),
    ensures
        made_in_order(steps, plan, plan.ops@.len() as int),
        *plan.status == recorded_status(events[0]->Executed_0),
        lists_all_ops(
            speculative_output(events[0]->Executed_0),
            map_or_empty(events[1]->Previous_0),
            set_or_empty(events[1]->Previous_1),
            plan.ops@,
        ),
        plan.updates_outside == writes_outside(
            speculative_output(events[0]->Executed_0),
            map_or_empty(events[1]->Previous_0),
        ),
{
    lemma_carried_out(txn_idx, steps, events, j);
    lemma_carried_out(txn_idx, steps, events, 1);
    assert(execution_goes_on(steps, events, 0));
    assert(execution_goes_on(steps, events, 1));
}

/// The change was found not to go with the state that it was based on.
pub open spec fn is_inconsistent_reply<T: Transaction, D, W>(
    event: ExecutionEvent<T, D, W>,
) -> bool {
    event matches ExecutionEvent::Applied(reply) && reply == ApplyReply::Inconsistent
}

/// By step `j`, the execution has aborted because of speculation, or one of its changes was found
/// not to go with the state that it was based on.
pub open spec fn found_inconsistent<T: Transaction, D, W>(
    events: Seq<ExecutionEvent<T, D, W>>,
    j: int,
) -> bool {
    ||| events[0] matches ExecutionEvent::Executed(ExecutionStatus::Abort(err)) && err.category
        == ErrorCategory::SpeculativeExecutionError
    ||| exists|k: int| 0 <= k < j && #[trigger] is_inconsistent_reply(events[k])
}

/// The plan says whether the execution was found inconsistent.
proof fn lemma_inconsistency<T: Transaction, D, W>(
    txn_idx: TxnIndex,
    steps: Seq<ExecutionStep<T, D, W>>,
    events: Seq<ExecutionEvent<T, D, W>>,
    j: int,
)
    requires
        execution_trace(txn_idx, steps, events),
        0 <= j < steps.len(),
        steps[j].plan() is Some,
    ensures
        steps[j].plan()->0.inconsistent <==> found_inconsistent(events, j),
    decreases j,
{
    lemma_carried_out(txn_idx, steps, events, j);
    assert(execution_goes_on(steps, events, j - 1));
    if steps[j - 1] is LoadPrevious {
        lemma_carried_out(txn_idx, steps, events, j - 1);
        assert(execution_goes_on(steps, events, 0));
    } else {
        lemma_inconsistency(txn_idx, steps, events, j - 1);
        assert(found_inconsistent(events, j) <==> found_inconsistent(events, j - 1)
            || is_inconsistent_reply(events[j - 1]));
    }
}

/// The reads that were taken out, and that are recorded with the execution, are marked as failed
/// before that if and only if the execution was found inconsistent.
pub proof fn inconsistent_executions_are_marked<T: Transaction, D, W>(
    txn_idx: TxnIndex,
    steps: Seq<ExecutionStep<T, D, W>>,
    events: Seq<ExecutionEvent<T, D, W>>,
    j: int,
)
    requires
        execution_trace(txn_idx, steps, events),
        0 <= j < steps.len(),
        steps[j] is Record,
    ensures
        j > 0,
        steps[j - 1] is CaptureReadError <==> found_inconsistent(events, j),
{
    lemma_carried_out(txn_idx, steps, events, j);
    lemma_inconsistency(txn_idx, steps, events, j);
    assert(execution_goes_on(steps, events, j - 1));
    if steps[j - 1] is CaptureReadError {
        assert(execution_goes_on(steps, events, j - 2));
    }
}

/// The execution was recorded at `j` and reported, and the task that this gave is the next one.
pub open spec fn ends_recorded<T: Transaction, D, W>(
    steps: Seq<ExecutionStep<T, D, W>>,
    events: Seq<ExecutionEvent<T, D, W>>,
    j: int,
) -> bool {
    &&& 0 <= j
    &&& steps.len() == j + 3
    &&& steps[j] matches ExecutionStep::Record(plan)
    &&& events[j] == ExecutionEvent::<T, D, W>::Answer(true)
    &&& steps[j + 1] == (ExecutionStep::<T, D, W>::FinishExecution {
        updates_outside: plan.updates_outside,
    })
    &&& events[j + 1] matches ExecutionEvent::Task(task)
    &&& steps[j + 2] == ExecutionStep::<T, D, W>::Return(task)
}

/// A module was found both read and written at `j`, and the block was halted. That is its error if
/// it was not halted before.
pub open spec fn ends_halted<T: Transaction, D, W>(
    steps: Seq<ExecutionStep<T, D, W>>,
    events: Seq<ExecutionEvent<T, D, W>>,
    j: int,
) -> bool {
    &&& 0 <= j
    &&& steps.len() == j + 3
    &&& steps[j] is Record
    &&& events[j] == ExecutionEvent::<T, D, W>::Answer(false)
    &&& steps[j + 1] == ExecutionStep::<T, D, W>::Halt
    &&& events[j + 1] matches ExecutionEvent::Answer(halted)
    &&& steps[j + 1].error_after(None, events[j + 1]) == if halted {
        Some(Error::<D>::ModulePathReadWrite)
    } else {
        None
    }
    &&& steps[j + 2] == ExecutionStep::<T, D, W>::Return(SchedulerTask::NoTask)
}

/// An execution that breaks no rule is recorded and reported, or halts the block.
pub proof fn executions_are_recorded_or_halt<T: Transaction, D, W>(
    txn_idx: TxnIndex,
    steps: Seq<ExecutionStep<T, D, W>>,
    events: Seq<ExecutionEvent<T, D, W>>,
)
    requires
        execution_trace(txn_idx, steps, events),
        steps.last() is Return,
    ensures
        exists|j: int| #[trigger] ends_recorded(steps, events, j) || ends_halted(steps, events, j),
{
    let n = steps.len() - 1;
    assert(execution_goes_on(steps, events, n - 1));
    assert(execution_goes_on(steps, events, n - 2));
    if steps[n - 1] is FinishExecution {
        assert(ends_recorded(steps, events, n - 2));
    } else {
        assert(ends_halted(steps, events, n - 2));
        assert(!ends_recorded(steps, events, n - 2));
    }
}

} // verus!
