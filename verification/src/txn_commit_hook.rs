//! Listening to the transactions of a block as they are committed.
use crate::task::TransactionOutput;
use crate::types::Transaction;
use crate::types::TxnIndex;
use vstd::prelude::*;

verus! {

/// A listener that is told what becomes of the transactions of a block.
pub trait TransactionCommitHook: Sized {
    type Txn: Transaction;

    /// The listener has been told that transaction `txn_idx` was committed with `output`, or does
    /// not tell.
    open spec fn told_committed(
        &self,
        txn_idx: TxnIndex,
        output: TransactionOutput<Self::Txn>,
    ) -> bool {
        true
    }

    /// The listener has been told that transaction `txn_idx` aborted the block, or does not tell.
    open spec fn told_aborted(&self, txn_idx: TxnIndex) -> bool {
        true
    }

    /// The listener may be told that transaction `txn_idx` was committed with `output`. One that
    /// says nothing of this may be told anything.
    open spec fn expects_commit(
        &self,
        txn_idx: TxnIndex,
        output: TransactionOutput<Self::Txn>,
    ) -> bool {
        true
    }

    /// The listener may be told that transaction `txn_idx` aborted the block. One that says
    /// nothing of this may be told so of any transaction.
    open spec fn expects_abort(&self, txn_idx: TxnIndex) -> bool {
        true
    }

    fn on_transaction_committed(&self, txn_idx: TxnIndex, output: &TransactionOutput<Self::Txn>)
        requires
            self.expects_commit(txn_idx, *output),
        ensures
            self.told_committed(txn_idx, *output),
    ;

    fn on_execution_aborted(&self, txn_idx: TxnIndex)
        requires
            self.expects_abort(txn_idx),
        ensures
            self.told_aborted(txn_idx),
    ;
}

} // verus!
