//! The execution of one transaction, and what comes out of it.
use crate::errors::TransactionError;
use crate::fee_statement::FeeStatement;
use crate::types::DelayedChange;
use crate::types::Event;
use crate::types::Identifier;
use crate::types::Key;
use crate::types::Transaction;
use crate::types::TxnIndex;
use crate::types::WriteOp;
use crate::unsync_map::SequentialState;
use std::collections::HashMap;
use std::sync::Arc;
use vstd::prelude::*;

verus! {

/// The part of an output that is only known once the transaction is committed: the
/// values behind identifiers, and the writes that deltas amount to.
pub struct MaterializedOutput<T: Transaction> {
    pub aggregator_v1_delta_writes: Vec<(Key, WriteOp)>,
    pub patched_resource_write_set: HashMap<Key, Arc<WriteOp>>,
    pub patched_events: Vec<Event<T>>,
}

/// What the execution of a transaction wrote, emitted and used.
pub struct TransactionOutput<T: Transaction> {
    pub resource_write_set: HashMap<Key, (Arc<WriteOp>, Option<Arc<T::Layout>>)>,
    pub aggregator_v1_write_set: HashMap<Key, Arc<WriteOp>>,
    pub module_write_set: HashMap<Key, Arc<WriteOp>>,
    pub aggregator_v1_delta_set: HashMap<Key, Arc<T::DeltaOp>>,
    pub delayed_field_change_set: HashMap<Identifier, DelayedChange<T>>,
    pub events: Vec<(Event<T>, Option<Arc<T::Layout>>)>,
    pub fee_statement: FeeStatement,
    /// The transaction was not executed, because the block stopped before it.
    pub skipped: bool,
    pub materialized: Option<MaterializedOutput<T>>,
}

impl<T: Transaction> TransactionOutput<T> {
    /// The output of a transaction that was not executed: it wrote, emitted and used
    /// nothing.
    pub open spec fn is_skip_output(self) -> bool {
        &&& self.skipped
        &&& self.resource_write_set@.is_empty()
        &&& self.aggregator_v1_write_set@.is_empty()
        &&& self.module_write_set@.is_empty()
        &&& self.aggregator_v1_delta_set@.is_empty()
        &&& self.delayed_field_change_set@.is_empty()
        &&& self.events@.len() == 0
        &&& self.fee_statement == (FeeStatement {
            execution_gas_used: 0,
            io_gas_used: 0,
            storage_gas_used: 0,
        })
        &&& self.materialized is None
    }

    /// The output of a transaction that comes after the end of the block.
    pub fn skip_output() -> (r: Self)
        ensures
            r.is_skip_output(),
    {
        TransactionOutput {
            resource_write_set: HashMap::new(),
            aggregator_v1_write_set: HashMap::new(),
            module_write_set: HashMap::new(),
            aggregator_v1_delta_set: HashMap::new(),
            delayed_field_change_set: HashMap::new(),
            events: Vec::new(),
            fee_statement: FeeStatement {
                execution_gas_used: 0,
                io_gas_used: 0,
                storage_gas_used: 0,
            },
            skipped: true,
            materialized: None,
        }
    }
}

/// How the execution of a transaction ended.
pub enum ExecutionStatus<T: Transaction, D> {
    /// The transaction was executed.
    Success(TransactionOutput<T>),
    /// The transaction was executed, and the rest of the block is to be skipped.
    SkipRest(TransactionOutput<T>),
    /// The transaction could not be executed.
    Abort(D),
}

/// The virtual machine that executes transactions.
pub trait ExecutorTask: Sized {
    type Txn: Transaction;

    /// The storage under the block.
    type View;

    /// What a machine is made from.
    type Argument: Copy;

    /// What a machine reports when it fails.
    type Error;

    /// `executor` may be what `init` makes of `argument`. A machine that says nothing of this may
    /// be anything.
    open spec fn initialized(argument: Self::Argument, executor: Self) -> bool {
        true
    }

    /// Executing `txn` as number `txn_idx` of its block, on top of `before`, may end with
    /// `status` and leave `after` behind. A machine that says nothing of this may do anything.
    open spec fn may_execute(
        &self,
        base_view: Self::View,
        before: SequentialState<Self::Txn>,
        txn: Self::Txn,
        txn_idx: TxnIndex,
        materialize_deltas: bool,
        status: ExecutionStatus<Self::Txn, TransactionError<Self::Error>>,
        after: SequentialState<Self::Txn>,
    ) -> bool {
        true
    }

    /// Makes a machine.
    fn init(argument: Self::Argument) -> (executor: Self)
        ensures
            Self::initialized(argument, executor),
    ;

    /// Executes `txn` on top of `state`. The keys that it reads are added to the read set
    /// of `state`; what it fetches from `base_view` may be kept in the map of `state`, and
    /// new identifiers are drawn from its counter.
    fn execute_transaction(
        &self,
        base_view: &Self::View,
        state: &mut SequentialState<Self::Txn>,
        txn: &Self::Txn,
        txn_idx: TxnIndex,
        materialize_deltas: bool,
    ) -> (status: ExecutionStatus<Self::Txn, TransactionError<Self::Error>>)
        ensures
            self.may_execute(
                *base_view,
                *old(state),
                *txn,
                txn_idx,
                materialize_deltas,
                status,
                *final(state),
            ),
    ;
}

} // verus!
