//! What the machine and the runtime provide: processors, a pool of threads and shared
//! pointers.
use std::sync::Arc;
use vstd::prelude::*;

verus! {

/// `rayon::ThreadPool`, the threads on which the workers of a parallel run live. It is
/// carried through and never looked into.
#[verifier::external_type_specification]
#[verifier::external_body]
pub struct ExThreadPool(rayon::ThreadPool);

/// `num_cpus::get`: the number of logical processors that this process may use, at least
/// one. The number depends on the machine and on the limits the process runs under, so
/// nothing more is claimed of it.
#[verifier::external_body]
pub(crate) fn available_cpus() -> (n: usize)
    ensures
        n >= 1,
{
    num_cpus::get()
}

/// `<Arc<A> as Clone>::clone`: a second pointer to the very same value.
#[verifier::external_body]
pub(crate) fn share<A>(a: &Arc<A>) -> (r: Arc<A>)
    ensures
        r == *a,
{
    Arc::clone(a)
}

} // verus!
