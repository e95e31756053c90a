//! The thread pool that work runs on.

use vstd::prelude::*;

verus! {

/// `rayon::current_num_threads`: the threads of the pool that the caller runs in, or of
/// the global pool. A pool has at least one thread, whether their number was set or taken
/// from the machine. More is not claimed: the number is the machine's and the pool's.
#[verifier::external_body]
pub(crate) fn current_num_threads() -> (threads: usize)
    ensures
        threads >= 1,
{
    rayon::current_num_threads()
}

/// `rayon::current_thread_index`: the caller's place among its pool's threads, or `None`
/// outside of any pool. It depends on where the call runs, so nothing is claimed of it.
#[verifier::external_body]
pub(crate) fn current_thread_index() -> (index: Option<usize>)
{
    rayon::current_thread_index()
}

} // verus!
