//! The tasks that workers are given.
use crate::types::Incarnation;
use crate::types::TxnIndex;
use crate::types::Wave;
use vstd::prelude::*;

verus! {

/// What is to be done about the execution of a transaction. `W` is the handle of an execution
/// that waits for another transaction.
pub enum ExecutionTaskType<W> {
    /// Execute it.
    Execution,
    /// Wake up the execution that waits.
    Wakeup(W),
}

/// A task of a worker.
pub enum SchedulerTask<W> {
    ValidationTask(TxnIndex, Incarnation, Wave),
    ExecutionTask(TxnIndex, Incarnation, ExecutionTaskType<W>),
    /// There is nothing to do right now.
    NoTask,
    /// There is nothing left to do.
    Done,
}

impl<W> SchedulerTask<W> {
    pub fn is_execution_task(&self) -> (r: bool)
        ensures
            r == (self is ExecutionTask),
    {
        match self {
            SchedulerTask::ExecutionTask(_, _, _) => true,
            _ => false,
        }
    }
}

} // verus!
