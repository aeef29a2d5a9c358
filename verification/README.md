# mini_actor

A small task executor on the Tokio runtime: individual tasks are spawned and
awaited, and batch tasks are collected per type and processed together by one
worker per type.

- `src/` is the verified library (Verus):
  - `task.rs`: the `Task` and `BatchTask` traits that users implement;
  - `worker.rs`: `BatchWorker`, the decisions of a batch worker as a state
    machine (take a submission, add what is queued, run the batch, release its
    waiters), with its model and the laws it keeps;
  - `channel.rs`: the parts of a worker's cycle that touch Tokio channels
    without waiting: draining the queue into the batch, releasing waiters,
    building submissions.
- `app/` is the Tokio plumbing: the `Actor`, its registry of workers and the
  async loop that performs what a `BatchWorker` asks for.
- `tests/` exercises the library, alone and driven on a Tokio runtime.
