//! The decisions of the workers of a parallel run. Each is a machine that says what to do
//! next; whoever drives it does that on the shared state, and tells it what came of it.
pub mod commit;
pub mod deltas;
pub mod execution;
pub mod materialize;
pub mod scheduler;
pub mod validation;
pub mod worker;
