use vstd::prelude::*;
use rayon::prelude::{IndexedParallelIterator, IntoParallelRefIterator, ParallelIterator};
use rayon::{ThreadPool, ThreadPoolBuildError, ThreadPoolBuilder};
use crate::executor::{run_task, OrderedItem};

verus! {

#[verifier::external_type_specification]
#[verifier::external_body]
pub struct ExThreadPool(ThreadPool);

#[verifier::external_type_specification]
#[verifier::external_body]
pub struct ExThreadPoolBuildError(ThreadPoolBuildError);

/// Relies on rayon's `ThreadPoolBuilder` (`new`, `num_threads`, `build`): a
/// fresh pool of worker threads, or the error that kept it from starting.
#[verifier::external_body]
pub(crate) fn build_pool(n: usize) -> Result<ThreadPool, ThreadPoolBuildError> {
    ThreadPoolBuilder::new().num_threads(n).build()
}

/// Relies on rayon's `ThreadPool::install` and its indexed parallel iterator
/// over a slice (`par_iter`, `enumerate`, `with_max_len(1)`, `map`,
/// `collect_into_vec`): every element becomes a job of its own on the pool,
/// `run_task` is applied to each element with its position, and the results
/// are collected in the order of the elements.
#[verifier::external_body]
pub(crate) fn run_in_pool<T, R, F>(pool: &ThreadPool, params: &Vec<T>, function: &F) -> (out: Vec<
    OrderedItem<R>,
>) where T: Copy + Send + Sync, R: Send, F: Fn(T) -> R + Sync
    requires
        forall|i: int| 0 <= i < params.len() ==> function.requires((params[i],)),
    ensures
        out.len() == params.len(),
        forall|j: int|
            0 <= j < out.len() ==> (#[trigger] out[j]).index == j && function.ensures(
                (params[j],),
                out[j].item,
            ),
{
    pool.install(|| {
        let mut out = Vec::new();
        params.par_iter().enumerate().with_max_len(1).map(|(i, x)| run_task(function, *x, i))
            .collect_into_vec(&mut out);
        out
    })
}

} // verus!
