//! How the execution of a block can fail.
use vstd::prelude::*;

verus! {

/// What kind of failure the executor of a transaction reports.
#[derive(Clone, Copy, Debug, PartialEq, Eq, Structural)]
pub enum ErrorCategory {
    /// Something happened that the code rules out.
    CodeInvariantError,
    /// The transaction read state that speculation has since replaced.
    SpeculativeExecutionError,
    /// An ordinary failure, which aborts the block.
    ValidError,
}

/// A failure of the executor, with its category.
#[derive(Debug)]
pub struct TransactionError<D> {
    pub category: ErrorCategory,
    pub error: D,
}

/// A rule of block execution that its inputs broke.
#[derive(Clone, Copy, Debug, PartialEq, Eq, Structural)]
pub enum InvariantViolation {
    /// Sequential execution left aggregator deltas in an output.
    DeltasNotMaterialized,
    /// The gas of the committed transactions does not fit in a fee statement.
    FeeOverflow,
    /// A delayed field is created that exists already.
    DuplicateDelayedField,
    /// A delayed field is derived from one that does not exist.
    MissingDelayedField,
    /// A change does not apply to the delayed field that it is based on.
    DelayedApplyFailed,
    /// A value that holds delayed fields has no bytes.
    ValueWithoutBytes,
    /// The identifiers in a value could not be replaced.
    ReplaceFailed,
    /// Sequential execution reported an error that only speculation can have.
    DelayedFieldsError,
    /// The executor, or a store, reports that the code is wrong.
    CodeInvariantError,
    /// No reads were recorded for a transaction that has been executed.
    ReadSetNotRecorded,
    /// The recorded reads were captured incorrectly.
    IncorrectUse,
    /// Reads that failed in speculation are found valid at commit.
    SpeculativeErrorStillValid,
    /// A transaction that is about to commit would have to be executed again.
    ReExecutionNeeded,
    /// All transactions are committed, yet one is still to be executed.
    ExecutionTaskAfterLastCommit,
    /// Reading the base value of a delta from storage failed.
    StorageReadFailed,
    /// The base value of a delta is not an integer.
    BaseValueNotInteger,
    /// There is no base value for a delta.
    BaseValueMissing,
    /// A committed delta does not apply to its base value.
    DeltaApplyFailed,
}

/// A delayed field, or a value that holds one, could not be computed.
#[derive(Clone, Copy, Debug, PartialEq, Eq, Structural)]
pub struct DelayedFieldFailure;

/// Why a block has no outputs.
#[derive(Debug)]
pub enum Error<D> {
    /// A module was both read and written, which parallel execution does not support.
    ModulePathReadWrite,
    /// A transaction aborted the block.
    UserError(TransactionError<D>),
    /// A rule of block execution was broken.
    Invariant(InvariantViolation),
}

} // verus!
