//! What holds of the library, said of inputs and results.
pub mod commit;
pub mod delayed_fields;
pub mod deltas;
pub mod execution;
pub mod executor;
pub mod fees;
pub mod materialize;
pub mod patching;
pub mod sequential;
pub mod validation;
pub mod worker;
