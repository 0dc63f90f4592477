//! The worker pool that the packed engine hands its rows to.

use rayon::{ThreadPool, ThreadPoolBuildError, ThreadPoolBuilder};
use vstd::prelude::*;

verus! {

/// `rayon::ThreadPool`, carried through and never looked into.
#[verifier::external_type_specification]
#[verifier::external_body]
pub struct ExThreadPool(rayon::ThreadPool);

/// `rayon::ThreadPoolBuildError`, the reason why no pool could be built.
#[verifier::external_type_specification]
#[verifier::external_body]
pub struct ExThreadPoolBuildError(rayon::ThreadPoolBuildError);

/// Builds a pool with `rayon::ThreadPoolBuilder::build`, after asking for
/// `threads` workers with `num_threads`; zero leaves the size to rayon, which
/// then goes by the host's parallelism. Nothing is claimed of the outcome: the
/// host may refuse the threads.
#[verifier::external_body]
pub(crate) fn build_pool(threads: usize) -> Result<ThreadPool, ThreadPoolBuildError> {
    ThreadPoolBuilder::new().num_threads(threads).build()
}

/// The number of workers in the pool, from
/// `rayon::ThreadPool::current_num_threads`. Nothing is claimed of it.
#[verifier::external_body]
pub(crate) fn pool_threads(pool: &ThreadPool) -> usize {
    pool.current_num_threads()
}

} // verus!
