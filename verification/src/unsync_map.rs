//! The state that a sequential run builds up.
use crate::host::share;
use crate::types::Identifier;
use crate::types::Key;
use crate::types::Transaction;
use crate::types::TxnIndex;
use crate::types::WriteOp;
use std::collections::HashMap;
use std::collections::HashSet;
use std::sync::Arc;
use vstd::prelude::*;

verus! {

broadcast use vstd::std_specs::hash::group_hash_axioms;

/// The latest writes, and the latest values of the delayed fields.
pub struct UnsyncMap<T: Transaction> {
    map: HashMap<Key, (Arc<WriteOp>, Option<Arc<T::Layout>>)>,
    delayed_field_map: HashMap<Identifier, Arc<T::FieldValue>>,
}

impl<T: Transaction> UnsyncMap<T> {
    /// The latest write under each key.
    pub closed spec fn data(&self) -> Map<Key, (Arc<WriteOp>, Option<Arc<T::Layout>>)> {
        self.map@
    }

    /// The latest value of each delayed field.
    pub closed spec fn delayed_fields(&self) -> Map<Identifier, Arc<T::FieldValue>> {
        self.delayed_field_map@
    }

    pub fn new() -> (r: Self)
        ensures
            r.data() == Map::<Key, (Arc<WriteOp>, Option<Arc<T::Layout>>)>::empty(),
            r.delayed_fields() == Map::<Identifier, Arc<T::FieldValue>>::empty(),
    {
        UnsyncMap { map: HashMap::new(), delayed_field_map: HashMap::new() }
    }

    /// Records a write under `key`.
    pub fn write(&mut self, key: Key, value: Arc<WriteOp>, layout: Option<Arc<T::Layout>>)
        ensures
            final(self).data() == old(self).data().insert(key, (value, layout)),
            final(self).delayed_fields() == old(self).delayed_fields(),
    {
        self.map.insert(key, (value, layout));
    }

    /// The latest write under `key`.
    pub fn fetch_data(&self, key: &Key) -> (r: Option<(Arc<WriteOp>, Option<Arc<T::Layout>>)>)
        ensures
            r is Some <==> self.data().contains_key(*key),
            r matches Some(entry) ==> entry == self.data()[*key],
    {
        match self.map.get(key) {
            Some(entry) => {
                let layout = match &entry.1 {
                    Some(layout) => Some(share(layout)),
                    None => None,
                };
                Some((share(&entry.0), layout))
            },
            None => None,
        }
    }

    /// Sets the value of the delayed field `id`.
    pub fn write_delayed_field(&mut self, id: Identifier, value: Arc<T::FieldValue>)
        ensures
            final(self).data() == old(self).data(),
            final(self).delayed_fields() == old(self).delayed_fields().insert(id, value),
    {
        self.delayed_field_map.insert(id, value);
    }

    /// The latest value of the delayed field `id`.
    pub fn fetch_delayed_field(&self, id: &Identifier) -> (r: Option<Arc<T::FieldValue>>)
        ensures
            r is Some <==> self.delayed_fields().contains_key(*id),
            r matches Some(value) ==> value == self.delayed_fields()[*id],
    {
        match self.delayed_field_map.get(id) {
            Some(value) => Some(share(value)),
            None => None,
        }
    }
}

/// What a transaction executes on in a sequential run.
pub struct SequentialState<T: Transaction> {
    pub unsync_map: UnsyncMap<T>,
    /// The source of new identifiers.
    pub counter: u32,
    /// The keys that the transaction has read.
    pub read_set: HashSet<Key>,
}

/// The state that transaction `txn_idx` of a sequential run sees.
pub struct LatestView<'a, T: Transaction, S> {
    pub base_view: &'a S,
    pub state: &'a SequentialState<T>,
    pub txn_idx: TxnIndex,
}

} // verus!
