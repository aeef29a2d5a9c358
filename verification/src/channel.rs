use crate::worker::{
    lemma_records_poll, queued_of, tasks_of, BatchWorker, Stage, WorkerAction, WorkerEvent,
    WorkerModel,
};
use tokio::sync::mpsc::UnboundedReceiver;
use tokio::sync::oneshot;
use vstd::prelude::*;

verus! {

/// The receiving half of tokio's unbounded channel, through which the
/// submissions of one batch task type reach their worker.
#[verifier::external_type_specification]
#[verifier::external_body]
#[verifier::reject_recursive_types(T)]
pub struct ExUnboundedReceiver<T>(tokio::sync::mpsc::UnboundedReceiver<T>);

/// The sending half of a tokio oneshot channel: the waiter of a submission.
#[verifier::external_type_specification]
#[verifier::external_body]
#[verifier::reject_recursive_types(T)]
pub struct ExOneshotSender<T>(tokio::sync::oneshot::Sender<T>);

/// The receiving half of a tokio oneshot channel: what a waiting submitter
/// awaits.
#[verifier::external_type_specification]
#[verifier::external_body]
#[verifier::reject_recursive_types(T)]
pub struct ExOneshotReceiver<T>(tokio::sync::oneshot::Receiver<T>);

/// The error a oneshot receiver yields when its sender is dropped unsent.
/// Verus needs it declared because `oneshot::Receiver`, declared above, is a
/// future whose output names it.
#[verifier::external_type_specification]
#[verifier::external_body]
pub struct ExOneshotRecvError(tokio::sync::oneshot::error::RecvError);

/// Calls `UnboundedReceiver::try_recv`, which takes the next queued message
/// without waiting, and turns its error (`Empty` or `Disconnected`: nothing
/// queued now) into `None`. The look is recorded in the worker's ghost log of
/// looks at the queue (`polled`), with what it gave; the worker itself is not
/// touched. What is queued depends on what other threads sent and when, so
/// nothing more is stated of the result.
#[verifier::external_body]
fn take_queued<T, W>(
    queue: &mut UnboundedReceiver<(T, Option<W>)>,
    worker: &mut BatchWorker<T, W>,
) -> (r: Option<(T, Option<W>)>)
    ensures
        BatchWorker::records_poll(*old(worker), *final(worker), r),
{
    match queue.try_recv() {
        Ok(v) => Some(v),
        Err(_) => None,
    }
}

/// Calls `oneshot::Sender::send` with `()`, which consumes the sender and
/// completes its channel. Whether the receiver still listens is up to
/// another task, so the outcome (which is ignored) is not stated.
#[verifier::external_body]
fn signal(waiter: oneshot::Sender<()>) {
    let _ = waiter.send(());
}

/// Calls `oneshot::channel`, which makes a fresh channel and returns its two
/// halves. Nothing about the halves can be stated as plain values.
#[verifier::external_body]
fn signal_channel() -> (pair: (oneshot::Sender<()>, oneshot::Receiver<()>)) {
    oneshot::channel::<()>()
}

/// How many of the slots hold a waiter.
pub open spec fn count_waiting<W>(slots: Seq<Option<W>>) -> nat
    decreases slots.len(),
{
    if slots.len() == 0 {
        0
    } else {
        count_waiting(slots.drop_last()) + if slots.last() is Some {
            1nat
        } else {
            0nat
        }
    }
}

/// What closing a batch by draining the queue amounts to, from the model
/// `pre` to the model `post`, handing out `tasks`: the looks at the queue made
/// meanwhile (`polled` beyond `pre`'s) all gave a submission but the last,
/// which found nothing queued unless `usize::MAX` looks were made; every
/// submission they gave joined the batch, in order; and the batch's tasks are
/// handed out.
pub open spec fn drains_into_batch<T, W>(
    pre: WorkerModel<T, W>,
    post: WorkerModel<T, W>,
    tasks: Seq<T>,
) -> bool {
    let looks = post.polled.skip(pre.polled.len() as int);
    &&& pre.stage == Stage::Collecting
    &&& post.stage == Stage::Running
    &&& post.completed == pre.completed
    &&& pre.polled.len() < post.polled.len()
    &&& post.polled.take(pre.polled.len() as int) == pre.polled
    &&& forall|i: int| 0 <= i < looks.len() - 1 ==> #[trigger] looks[i] is Some
    &&& looks.last() is None || looks.len() == usize::MAX
    &&& post.current == pre.current + queued_of(looks)
    &&& post.taken == pre.taken + queued_of(looks)
    &&& tasks == tasks_of(post.current)
}

proof fn lemma_queued_of_all_some<X>(polls: Seq<Option<X>>)
    requires
        forall|i: int| 0 <= i < polls.len() ==> #[trigger] polls[i] is Some,
    ensures
        queued_of(polls).len() == polls.len(),
        forall|i: int| 0 <= i < polls.len() ==> polls[i] == Some(#[trigger] queued_of(polls)[i]),
    decreases polls.len(),
{
    if polls.len() > 0 {
        lemma_queued_of_all_some(polls.drop_last());
        assert forall|i: int| 0 <= i < polls.len() implies polls[i] == Some(
            #[trigger] queued_of(polls)[i],
        ) by {
            if i < polls.len() - 1 {
                assert(polls.drop_last()[i] == polls[i]);
            }
        }
    }
}

/// Draining the queue discards nothing and stops only at an empty queue: the
/// batch handed out is the batch in hand followed by one submission for each
/// look that gave one, in the order the looks were made, which is every look
/// but the last when the last found nothing queued. In particular the tasks
/// handed out are those of the batch in hand followed by those of the
/// submissions the looks gave.
pub proof fn lemma_drained_batch_keeps_every_submission<T, W>(
    pre: WorkerModel<T, W>,
    post: WorkerModel<T, W>,
    tasks: Seq<T>,
)
    requires
        drains_into_batch(pre, post, tasks),
    ensures
        ({
            let looks = post.polled.skip(pre.polled.len() as int);
            &&& tasks == tasks_of(pre.current) + tasks_of(queued_of(looks))
            &&& looks.last() is None ==> {
                &&& post.current.len() == pre.current.len() + looks.len() - 1
                &&& forall|i: int|
                    0 <= i < looks.len() - 1 ==> looks[i] == Some(
                        #[trigger] post.current[pre.current.len() + i],
                    )
            }
            &&& looks.last() is Some ==> post.current.len() == pre.current.len() + usize::MAX
        }),
{
    let looks = post.polled.skip(pre.polled.len() as int);
    assert(tasks_of(pre.current + queued_of(looks)) =~= tasks_of(pre.current) + tasks_of(
        queued_of(looks),
    ));
    if looks.last() is None {
        let front = looks.drop_last();
        lemma_queued_of_all_some(front);
        assert(queued_of(looks) =~= queued_of(front));
        assert forall|i: int| 0 <= i < looks.len() - 1 implies looks[i] == Some(
            #[trigger] post.current[pre.current.len() + i],
        ) by {
            assert(front[i] == looks[i]);
            assert(post.current[pre.current.len() + i] == queued_of(front)[i]);
        }
    } else {
        lemma_queued_of_all_some(looks);
    }
}

/// Adds to the batch in hand everything already queued on `queue`, in the
/// order in which it comes off the channel, then closes the batch and hands
/// out its tasks to be run.
///
/// Every look at the queue is recorded in `polled`: the batch is closed only
/// once a look finds nothing queued (or after `usize::MAX` looks, more than a
/// batch could ever hold), and every submission a look gives joins the batch,
/// in order.
pub fn collect_batch<T, W>(
    worker: &mut BatchWorker<T, W>,
    queue: &mut UnboundedReceiver<(T, Option<W>)>,
) -> (tasks: Vec<T>)
    requires
        old(worker)@.stage == Stage::Collecting,
    ensures
        final(worker)@.stage == Stage::Running,
        final(worker)@.completed == old(worker)@.completed,
        old(worker)@.current.len() <= final(worker)@.current.len(),
        final(worker)@.current.take(old(worker)@.current.len() as int) == old(worker)@.current,
        final(worker)@.taken == old(worker)@.taken + final(worker)@.current.skip(
            old(worker)@.current.len() as int,
        ),
        tasks@ == tasks_of(final(worker)@.current),
        old(worker)@.polled.len() < final(worker)@.polled.len(),
        final(worker)@.polled.take(old(worker)@.polled.len() as int) == old(worker)@.polled,
        forall|i: int|
            old(worker)@.polled.len() <= i < final(worker)@.polled.len() - 1
                ==> #[trigger] final(worker)@.polled[i] is Some,
        final(worker)@.polled.last() is None || final(worker)@.polled.len()
            - old(worker)@.polled.len() == usize::MAX,
        final(worker)@.current == old(worker)@.current + queued_of(
            final(worker)@.polled.skip(old(worker)@.polled.len() as int),
        ),
        drains_into_batch(old(worker)@, final(worker)@, tasks@),
{
    let ghost start = *worker;
    let ghost k = start@.polled.len() as int;
    // At most usize::MAX looks at the queue, so that the loop provably ends;
    // no batch of that many submissions could be held in memory anyway.
    let mut budget: usize = usize::MAX;
    let mut draining = true;
    while draining && budget > 0
        invariant
            worker@.stage == Stage::Collecting,
            worker@.completed == start@.completed,
            start@.current.len() <= worker@.current.len(),
            worker@.current.take(start@.current.len() as int) == start@.current,
            worker@.taken == start@.taken + worker@.current.skip(start@.current.len() as int),
            k == start@.polled.len(),
            worker@.polled.len() == k + (usize::MAX - budget),
            worker@.polled.take(k) == start@.polled,
            worker@.current == start@.current + queued_of(worker@.polled.skip(k)),
            draining ==> forall|i: int|
                k <= i < worker@.polled.len() ==> #[trigger] worker@.polled[i] is Some,
            !draining ==> {
                &&& worker@.polled.len() > k
                &&& worker@.polled.last() is None
                &&& forall|i: int|
                    k <= i < worker@.polled.len() - 1 ==> #[trigger] worker@.polled[i] is Some
            },
        decreases budget,
    {
        budget = budget - 1;
        let ghost before = *worker;
        let got = take_queued(queue, worker);
        proof {
            lemma_records_poll(before, *worker, got);
            assert(worker@.polled.take(k) =~= start@.polled);
            assert(worker@.polled.skip(k).drop_last() =~= before@.polled.skip(k));
            assert(worker@.polled.skip(k).last() == got);
        }
        match got {
            Some(sub) => {
                let ghost mid = *worker;
                let _ = worker.step(WorkerEvent::Queued(Some(sub)));
                proof {
                    assert(worker@.current.take(start@.current.len() as int) =~= start@.current);
                    assert(worker@.current.skip(start@.current.len() as int) =~= mid@.current.skip(
                        start@.current.len() as int,
                    ).push(sub));
                    assert(worker@.current =~= start@.current + queued_of(worker@.polled.skip(k)));
                }
            },
            None => {
                draining = false;
                proof {
                    assert(worker@.current =~= start@.current + queued_of(worker@.polled.skip(k)));
                }
            },
        }
    }
    proof {
        assert(worker@.polled.len() > k);
    }
    let tasks = match worker.step(WorkerEvent::Queued(None)) {
        WorkerAction::RunBatch(tasks) => tasks,
        _ => {
            proof {
                assert(false);
            }
            Vec::new()
        },
    };
    proof {
        let looks = worker@.polled.skip(k);
        assert(worker@.current.skip(start@.current.len() as int) =~= queued_of(looks));
        assert forall|i: int| 0 <= i < looks.len() - 1 implies #[trigger] looks[i] is Some by {
            assert(looks[i] == worker@.polled[k + i]);
        }
    }
    tasks
}

/// Signals, in order, every waiter present in `slots` that its batch has been
/// run; returns how many were signalled.
pub fn release_waiters(slots: Vec<Option<oneshot::Sender<()>>>) -> (released: usize)
    ensures
        released == count_waiting(slots@),
{
    let ghost all = slots@;
    // The length of a vector fits in a usize, and so does the count.
    let total: usize = slots.len();
    assert(all.len() == total);
    let mut released: usize = 0;
    for slot in it: slots.into_iter()
        invariant
            it.seq() == all,
            all.len() <= usize::MAX,
            released == count_waiting(all.take(it.index() as int)),
            released <= it.index(),
    {
        proof {
            assert(all.take(it.index() + 1).drop_last() =~= all.take(it.index() as int));
        }
        match slot {
            Some(waiter) => {
                signal(waiter);
                released = released + 1;
            },
            None => {},
        }
    }
    proof {
        assert(all.take(all.len() as int) =~= all);
    }
    released
}

/// A submission whose submitter waits for its batch: the task with a fresh
/// waiter, and the receiver on which the submitter learns that the batch ran.
pub fn waiting_submission<T>(task: T) -> (r: ((T, Option<oneshot::Sender<()>>), oneshot::Receiver<()>))
    ensures
        r.0.0 == task,
        r.0.1 is Some,
{
    let (waiter, done) = signal_channel();
    ((task, Some(waiter)), done)
}

/// A submission whose submitter does not wait: the task, with no waiter.
pub fn detached_submission<T, W>(task: T) -> (r: (T, Option<W>))
    ensures
        r.0 == task,
        r.1 is None,
{
    (task, None)
}

} // verus!
