//! Verified block execution.
//!
//! A block is an ordered list of transactions. [`executor::BlockExecutor`] runs it one
//! transaction after the other, or speculatively on the workers of a thread pool, and
//! hands back one output per transaction.
#![allow(unused_imports)]

pub mod delayed_fields;
pub mod determinism;
pub mod errors;
pub mod executor;
pub mod fee_statement;
pub mod host;
pub mod laws;
mod lists;
pub mod parallel;
pub mod patching;
pub mod raw_bytes;
pub mod sequential;
pub mod task;
pub mod txn_commit_hook;
pub mod types;
pub mod unsync_map;
