pub mod channel;
pub mod task;
pub mod worker;

pub use channel::{collect_batch, detached_submission, release_waiters, waiting_submission};
pub use task::{BatchTask, Task};
pub use worker::{BatchWorker, Stage, WorkerAction, WorkerEvent};
