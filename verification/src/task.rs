use std::future::Future;
use vstd::prelude::*;

verus! {

/// A unit of work that an executor runs on its own, asynchronously.
///
/// `run` hands out the work as a future of the named type `RunFuture`; the
/// executor polls it to completion and gives back its output.
pub trait Task: Sized + Send + 'static {
    /// What the task produces when it completes.
    type Output: Send + 'static;

    /// The future that performs the task.
    type RunFuture: Future<Output = Self::Output> + Send;

    /// The work of the task.
    fn run(self) -> Self::RunFuture;
}

/// A unit of work that is run together with the other tasks of its type that
/// were submitted meanwhile, in one call of `batch_run`.
pub trait BatchTask: Sized + Send + 'static {
    /// The future that processes one batch.
    type BatchFuture: Future<Output = ()> + Send;

    /// Processes one batch: `list` holds the tasks of the batch, in the order
    /// in which they were submitted, and is never empty.
    fn batch_run(list: Vec<Self>) -> Self::BatchFuture;
}

} // verus!
