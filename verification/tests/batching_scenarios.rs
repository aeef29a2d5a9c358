use std::future::Future;
use std::pin::Pin;
use std::sync::atomic::{AtomicUsize, Ordering};
use std::sync::{Arc, Mutex};
use std::time::Duration;

use mini_actor::{
    collect_batch, detached_submission, release_waiters, waiting_submission, BatchTask,
    BatchWorker, Stage, Task, WorkerAction, WorkerEvent,
};
use tokio::runtime::{Builder, Runtime};
use tokio::sync::mpsc::{unbounded_channel, UnboundedReceiver, UnboundedSender};
use tokio::sync::oneshot;
use tokio::time::{sleep, timeout};

type Item<BT> = (BT, Option<oneshot::Sender<()>>);
type Boxed<O> = Pin<Box<dyn Future<Output = O> + Send>>;

fn runtime() -> Runtime {
    Builder::new_multi_thread()
        .worker_threads(2)
        .enable_all()
        .build()
        .unwrap()
}

// The loop that an executor runs for one batch task type, on the library's
// decisions.
async fn drive<BT: BatchTask>(mut rx: UnboundedReceiver<Item<BT>>) {
    let mut worker: BatchWorker<BT, oneshot::Sender<()>> = BatchWorker::new();
    loop {
        let event = WorkerEvent::Arrived(rx.recv().await);
        assert!(worker.expects(&event));
        match worker.step(event) {
            WorkerAction::PollQueue => {
                assert_eq!(worker.current_stage(), Stage::Collecting);
                let tasks = collect_batch(&mut worker, &mut rx);
                BT::batch_run(tasks).await;
                assert!(worker.expects(&WorkerEvent::BatchDone));
                if let WorkerAction::Release(slots) = worker.step(WorkerEvent::BatchDone) {
                    release_waiters(slots);
                }
            }
            _ => break,
        }
    }
}

fn start_worker<BT: BatchTask>(rt: &Runtime) -> UnboundedSender<Item<BT>> {
    let (tx, rx) = unbounded_channel::<Item<BT>>();
    rt.spawn(drive::<BT>(rx));
    tx
}

async fn submit_and_wait<BT: BatchTask>(
    tx: &UnboundedSender<Item<BT>>,
    task: BT,
) -> Result<(), oneshot::error::RecvError> {
    let (item, done) = waiting_submission(task);
    tx.send(item).unwrap();
    done.await
}

#[derive(Clone)]
struct CounterTask {
    counter: Arc<AtomicUsize>,
    increment: usize,
}

impl BatchTask for CounterTask {
    type BatchFuture = Boxed<()>;
    fn batch_run(list: Vec<Self>) -> Self::BatchFuture {
        Box::pin(async move {
            if list.is_empty() {
                return;
            }
            let total: usize = list.iter().map(|t| t.increment).sum();
            list[0].counter.fetch_add(total, Ordering::SeqCst);
        })
    }
}

#[derive(Clone)]
struct LogTask {
    message: String,
    log_storage: Arc<Mutex<Vec<String>>>,
}

impl BatchTask for LogTask {
    type BatchFuture = Boxed<()>;
    fn batch_run(list: Vec<Self>) -> Self::BatchFuture {
        Box::pin(async move {
            let storage = list[0].log_storage.clone();
            let mut logs = storage.lock().unwrap();
            for task in list {
                logs.push(format!("BATCH: {}", task.message));
            }
        })
    }
}

#[derive(Clone)]
struct BatchSizeTask {
    sizes: Arc<Mutex<Vec<usize>>>,
    order: Arc<Mutex<Vec<u32>>>,
    id: u32,
}

impl BatchTask for BatchSizeTask {
    type BatchFuture = Boxed<()>;
    fn batch_run(list: Vec<Self>) -> Self::BatchFuture {
        Box::pin(async move {
            list[0].sizes.lock().unwrap().push(list.len());
            let mut order = list[0].order.lock().unwrap();
            for t in list.iter() {
                order.push(t.id);
            }
        })
    }
}

#[derive(Clone)]
struct DelayedBatchTask {
    id: u32,
    delay_ms: u64,
    results: Arc<Mutex<Vec<u32>>>,
}

impl BatchTask for DelayedBatchTask {
    type BatchFuture = Boxed<()>;
    fn batch_run(list: Vec<Self>) -> Self::BatchFuture {
        Box::pin(async move {
            let results = list[0].results.clone();
            sleep(Duration::from_millis(list[0].delay_ms)).await;
            let mut guard = results.lock().unwrap();
            for task in list {
                guard.push(task.id);
            }
        })
    }
}

#[derive(Clone)]
struct PanicBatchTask;

impl BatchTask for PanicBatchTask {
    type BatchFuture = Boxed<()>;
    fn batch_run(_list: Vec<Self>) -> Self::BatchFuture {
        Box::pin(async move {
            panic!("This batch task panics intentionally");
        })
    }
}

struct SimpleTask {
    id: u32,
    value: String,
}

impl Task for SimpleTask {
    type Output = String;
    type RunFuture = Boxed<String>;
    fn run(self) -> Self::RunFuture {
        Box::pin(async move { format!("Task {} completed with value: {}", self.id, self.value) })
    }
}

#[test]
fn task_trait_runs_on_the_runtime() {
    let rt = runtime();
    let result = rt.block_on(async {
        rt.spawn(SimpleTask { id: 1, value: "test".to_string() }.run()).await
    });
    assert_eq!(result.unwrap(), "Task 1 completed with value: test");
}

#[test]
fn detached_batch_tasks_are_all_run() {
    let rt = runtime();
    let counter = Arc::new(AtomicUsize::new(0));
    let tx = start_worker::<CounterTask>(&rt);
    rt.block_on(async {
        for inc in [1usize, 2, 3] {
            tx.send(detached_submission(CounterTask { counter: counter.clone(), increment: inc }))
                .unwrap();
        }
        sleep(Duration::from_millis(100)).await;
    });
    assert_eq!(counter.load(Ordering::SeqCst), 6);
}

#[test]
fn waiting_submission_returns_after_earlier_ones_ran() {
    let rt = runtime();
    let counter = Arc::new(AtomicUsize::new(0));
    let tx = start_worker::<CounterTask>(&rt);
    let result = rt.block_on(async {
        tx.send(detached_submission(CounterTask { counter: counter.clone(), increment: 5 }))
            .unwrap();
        tx.send(detached_submission(CounterTask { counter: counter.clone(), increment: 10 }))
            .unwrap();
        submit_and_wait(&tx, CounterTask { counter: counter.clone(), increment: 15 }).await
    });
    assert!(result.is_ok());
    assert_eq!(counter.load(Ordering::SeqCst), 30);
}

#[test]
fn every_log_message_is_stored_once() {
    let rt = runtime();
    let log_storage = Arc::new(Mutex::new(Vec::new()));
    let tx = start_worker::<LogTask>(&rt);
    rt.block_on(async {
        for m in ["First log", "Second log"] {
            tx.send(detached_submission(LogTask {
                message: m.to_string(),
                log_storage: log_storage.clone(),
            }))
            .unwrap();
        }
        submit_and_wait(&tx, LogTask {
            message: "Third log".to_string(),
            log_storage: log_storage.clone(),
        })
        .await
        .unwrap();
    });
    let logs = log_storage.lock().unwrap();
    assert_eq!(logs.len(), 3);
    assert!(logs.contains(&"BATCH: First log".to_string()));
    assert!(logs.contains(&"BATCH: Second log".to_string()));
    assert!(logs.contains(&"BATCH: Third log".to_string()));
}

#[test]
fn high_volume_of_submissions_sums_up() {
    let rt = runtime();
    let counter = Arc::new(AtomicUsize::new(0));
    let tx = start_worker::<CounterTask>(&rt);
    rt.block_on(async {
        for i in 0..100 {
            tx.send(detached_submission(CounterTask { counter: counter.clone(), increment: i }))
                .unwrap();
        }
        submit_and_wait(&tx, CounterTask { counter: counter.clone(), increment: 0 })
            .await
            .unwrap();
    });
    assert_eq!(counter.load(Ordering::SeqCst), 4950);
}

#[test]
fn submissions_queued_together_form_one_batch_in_order() {
    let rt = runtime();
    let sizes = Arc::new(Mutex::new(Vec::new()));
    let order = Arc::new(Mutex::new(Vec::new()));
    let (tx, rx) = unbounded_channel::<Item<BatchSizeTask>>();
    for id in 1..=4u32 {
        tx.send(detached_submission(BatchSizeTask { sizes: sizes.clone(), order: order.clone(), id }))
            .unwrap();
    }
    let (last, done) =
        waiting_submission(BatchSizeTask { sizes: sizes.clone(), order: order.clone(), id: 5 });
    tx.send(last).unwrap();
    rt.spawn(drive::<BatchSizeTask>(rx));
    rt.block_on(async { done.await.unwrap() });
    assert_eq!(*sizes.lock().unwrap(), vec![5]);
    assert_eq!(*order.lock().unwrap(), vec![1, 2, 3, 4, 5]);
}

#[test]
fn worker_serves_successive_batches() {
    let rt = runtime();
    let counter = Arc::new(AtomicUsize::new(0));
    let tx = start_worker::<CounterTask>(&rt);
    rt.block_on(async {
        submit_and_wait(&tx, CounterTask { counter: counter.clone(), increment: 1 })
            .await
            .unwrap();
        submit_and_wait(&tx, CounterTask { counter: counter.clone(), increment: 2 })
            .await
            .unwrap();
    });
    assert_eq!(counter.load(Ordering::SeqCst), 3);
}

#[test]
fn panicking_batch_reports_an_error_to_its_waiter() {
    let rt = runtime();
    let tx = start_worker::<PanicBatchTask>(&rt);
    let result = rt.block_on(async {
        timeout(Duration::from_millis(500), submit_and_wait(&tx, PanicBatchTask)).await
    });
    assert!(result.is_ok());
    assert!(result.unwrap().is_err());
}

#[test]
fn worker_ends_when_the_channel_closes() {
    let rt = runtime();
    let counter = Arc::new(AtomicUsize::new(0));
    let (tx, rx) = unbounded_channel::<Item<CounterTask>>();
    tx.send(detached_submission(CounterTask { counter: counter.clone(), increment: 7 })).unwrap();
    drop(tx);
    let finished = rt.block_on(async { timeout(Duration::from_millis(500), drive(rx)).await });
    assert!(finished.is_ok());
    assert_eq!(counter.load(Ordering::SeqCst), 7);
}

#[test]
fn waiter_returns_only_after_a_slow_batch_has_run() {
    let rt = runtime();
    let results = Arc::new(Mutex::new(Vec::new()));
    let tx = start_worker::<DelayedBatchTask>(&rt);
    let observed = results.clone();
    let result = rt.block_on(async {
        timeout(
            Duration::from_millis(500),
            async {
                let r = submit_and_wait(&tx, DelayedBatchTask {
                    id: 1,
                    delay_ms: 100,
                    results: results.clone(),
                })
                .await;
                let seen = observed.lock().unwrap().clone();
                (r, seen)
            },
        )
        .await
    });
    assert!(result.is_ok());
    let (waited, seen_on_return) = result.unwrap();
    assert!(waited.is_ok());
    assert_eq!(seen_on_return, vec![1]);
    let guard = results.lock().unwrap();
    assert_eq!(guard.len(), 1);
    assert_eq!(guard[0], 1);
}
