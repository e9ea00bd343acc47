//! The values that transactions read and write.
use crate::host::share;
use bytes::Bytes;
use std::sync::Arc;
use vstd::prelude::*;

verus! {

/// The position of a transaction in its block.
pub type TxnIndex = u32;

/// How many times a transaction was executed before.
pub type Incarnation = u32;

/// A round of validation.
pub type Wave = u32;

/// The number that a storage key goes by.
pub type Key = u64;

/// The number that a delayed field goes by.
pub type Identifier = u64;

/// The types that a kind of transaction brings with it. Execution hands their values
/// around and never looks into them.
pub trait Transaction: Sized {
    /// Where the delayed fields are in the bytes of a value.
    type Layout;

    /// A change to an aggregator whose value is not known yet.
    type DeltaOp;

    /// A change to a delayed field, relative to another value.
    type ApplyEntry;

    /// The value of a delayed field.
    type FieldValue;

    /// All of an event but its payload.
    type EventHeader;
}

#[derive(Clone, Copy, Debug, PartialEq, Eq, Structural)]
pub enum WriteOpKind {
    Creation,
    Modification,
    Deletion,
}

/// What a transaction writes under a key.
pub struct WriteOp {
    pub kind: WriteOpKind,
    pub bytes: Option<Bytes>,
    /// The number that the metadata of the write goes by.
    pub metadata: Option<u64>,
}

impl WriteOp {
    /// This write with its bytes replaced.
    pub open spec fn with_bytes_spec(self, bytes: Bytes) -> WriteOp {
        WriteOp { kind: self.kind, bytes: Some(bytes), metadata: self.metadata }
    }

    /// This write with its bytes replaced by `bytes`.
    pub fn with_bytes(&self, bytes: Bytes) -> (r: WriteOp)
        ensures
            r == self.with_bytes_spec(bytes),
    {
        WriteOp { kind: self.kind, bytes: Some(bytes), metadata: self.metadata }
    }

    /// A write that replaces what was there by `bytes`.
    pub fn modification(bytes: Bytes) -> (r: WriteOp)
        ensures
            r.kind == WriteOpKind::Modification,
            r.bytes == Some(bytes),
            r.metadata is None,
    {
        WriteOp { kind: WriteOpKind::Modification, bytes: Some(bytes), metadata: None }
    }

    pub fn is_deletion(&self) -> (r: bool)
        ensures
            r == (self.kind == WriteOpKind::Deletion),
    {
        self.kind == WriteOpKind::Deletion
    }
}

/// The field that a change to a delayed field starts from.
#[derive(Clone, Copy, Debug, PartialEq, Eq, Structural)]
pub enum ApplyBase {
    /// The field as it was before the transaction.
    Previous(Identifier),
    /// The field as the transaction leaves it.
    Current(Identifier),
}

/// What a transaction does to a delayed field.
pub enum DelayedChange<T: Transaction> {
    Create(Arc<T::FieldValue>),
    Apply(Arc<T::ApplyEntry>, ApplyBase),
}

impl<T: Transaction> DelayedChange<T> {
    /// Whether the change starts from a field as this transaction leaves it.
    pub open spec fn is_second_phase(self) -> bool {
        self matches DelayedChange::Apply(_, ApplyBase::Current(_))
    }

    /// The same change once more.
    pub fn share(&self) -> (r: DelayedChange<T>)
        ensures
            r == *self,
    {
        match self {
            DelayedChange::Create(value) => DelayedChange::Create(share(value)),
            DelayedChange::Apply(entry, base) => DelayedChange::Apply(share(entry), *base),
        }
    }
}

/// An event that a transaction emits.
pub struct Event<T: Transaction> {
    pub header: Arc<T::EventHeader>,
    pub data: Vec<u8>,
}

} // verus!
