use vstd::prelude::*;

verus! {

/// The tasks of a sequence of submissions, in order.
pub open spec fn tasks_of<T, W>(subs: Seq<(T, Option<W>)>) -> Seq<T> {
    subs.map_values(|s: (T, Option<W>)| s.0)
}

/// The waiter slots of a sequence of submissions, in order (`None` for a
/// submission whose submitter does not wait).
pub open spec fn waiters_of<T, W>(subs: Seq<(T, Option<W>)>) -> Seq<Option<W>> {
    subs.map_values(|s: (T, Option<W>)| s.1)
}

/// The batches one after the other.
pub open spec fn concat<A>(batches: Seq<Seq<A>>) -> Seq<A>
    decreases batches.len(),
{
    if batches.len() == 0 {
        Seq::empty()
    } else {
        concat(batches.drop_last()) + batches.last()
    }
}

/// Where a batch worker stands in its cycle.
#[derive(Clone, Copy, Debug, PartialEq, Eq, Structural)]
pub enum Stage {
    /// Waiting for the next submission.
    Idle,
    /// A batch has been started; what is already queued is being added to it.
    Collecting,
    /// The batch is being run.
    Running,
    /// The channel of submissions is closed; the worker is done.
    Stopped,
}

/// What the driver of a worker observed, and hands to it.
pub enum WorkerEvent<T, W> {
    /// The outcome of waiting for the next submission: `None` once the
    /// channel is closed.
    Arrived(Option<(T, Option<W>)>),
    /// The outcome of looking at the queue without waiting: `None` when
    /// nothing is queued.
    Queued(Option<(T, Option<W>)>),
    /// The batch handed out last has been run to completion.
    BatchDone,
}

/// What the worker asks its driver to do next.
pub enum WorkerAction<T, W> {
    /// Look at the queue without waiting, and report with `Queued`.
    PollQueue,
    /// Run these tasks as one batch, and report with `BatchDone`.
    RunBatch(Vec<T>),
    /// Signal every waiter present in these slots, then wait for the next
    /// submission and report with `Arrived`.
    Release(Vec<Option<W>>),
    /// Stop: no submission will come.
    Stop,
}

enum Phase<T, W> {
    Idle,
    Collecting(Vec<T>, Vec<Option<W>>),
    Running(Vec<Option<W>>),
    Stopped,
}

/// The model of a batch worker.
pub ghost struct WorkerModel<T, W> {
    /// Where the worker stands.
    pub stage: Stage,
    /// Every submission taken off the channel, in order.
    pub taken: Seq<(T, Option<W>)>,
    /// The batches run to completion, in order.
    pub completed: Seq<Seq<(T, Option<W>)>>,
    /// The batch being collected or run (empty when there is none).
    pub current: Seq<(T, Option<W>)>,
    /// Every look at the queue without waiting, in order, with what it gave:
    /// a submission, or `None` when nothing was queued.
    pub polled: Seq<Option<(T, Option<W>)>>,
}

/// The decisions of the loop that processes one type of batch task: it takes
/// a submission, adds to it everything already queued, runs the lot as one
/// batch and then releases the waiters of that batch.
pub struct BatchWorker<T, W> {
    phase: Phase<T, W>,
    taken: Ghost<Seq<(T, Option<W>)>>,
    done: Ghost<Seq<Seq<(T, Option<W>)>>>,
    batch: Ghost<Seq<(T, Option<W>)>>,
    polls: Ghost<Seq<Option<(T, Option<W>)>>>,
}

/// Whether a worker at `stage` can take `event`.
pub open spec fn accepts<T, W>(stage: Stage, event: WorkerEvent<T, W>) -> bool {
    match event {
        WorkerEvent::Arrived(_) => stage == Stage::Idle,
        WorkerEvent::Queued(_) => stage == Stage::Collecting,
        WorkerEvent::BatchDone => stage == Stage::Running,
    }
}

/// What one step does: from the model `pre`, the event leads to the model
/// `post` and to `action`.
pub open spec fn steps_to<T, W>(
    pre: WorkerModel<T, W>,
    event: WorkerEvent<T, W>,
    post: WorkerModel<T, W>,
    action: WorkerAction<T, W>,
) -> bool {
    match event {
        WorkerEvent::Arrived(Some(sub)) => {
            &&& post.stage == Stage::Collecting
            &&& post.current == seq![sub]
            &&& post.taken == pre.taken.push(sub)
            &&& post.completed == pre.completed
            &&& action is PollQueue
        },
        WorkerEvent::Arrived(None) => {
            &&& post.stage == Stage::Stopped
            &&& post.current == pre.current
            &&& post.taken == pre.taken
            &&& post.completed == pre.completed
            &&& action is Stop
        },
        WorkerEvent::Queued(Some(sub)) => {
            &&& post.stage == Stage::Collecting
            &&& post.current == pre.current.push(sub)
            &&& post.taken == pre.taken.push(sub)
            &&& post.completed == pre.completed
            &&& action is PollQueue
        },
        WorkerEvent::Queued(None) => {
            &&& post.stage == Stage::Running
            &&& post.current == pre.current
            &&& post.taken == pre.taken
            &&& post.completed == pre.completed
            &&& action matches WorkerAction::RunBatch(tasks) && tasks@ == tasks_of(pre.current)
        },
        WorkerEvent::BatchDone => {
            &&& post.stage == Stage::Idle
            &&& post.current == Seq::<(T, Option<W>)>::empty()
            &&& post.taken == pre.taken
            &&& post.completed == pre.completed.push(pre.current)
            &&& action matches WorkerAction::Release(waiters) && waiters@ == waiters_of(
                pre.current,
            )
        },
    }
}

impl<T, W> View for BatchWorker<T, W> {
    type V = WorkerModel<T, W>;

    closed spec fn view(&self) -> WorkerModel<T, W> {
        WorkerModel {
            stage: match self.phase {
                Phase::Idle => Stage::Idle,
                Phase::Collecting(_, _) => Stage::Collecting,
                Phase::Running(_) => Stage::Running,
                Phase::Stopped => Stage::Stopped,
            },
            taken: self.taken@,
            completed: self.done@,
            current: self.batch@,
            polled: self.polls@,
        }
    }
}

/// The model of a worker that holds together: the completed batches followed
/// by the batch in hand are the submissions taken, no batch is empty, and
/// there is a batch in hand exactly while collecting or running.
pub open spec fn model_wf<T, W>(m: WorkerModel<T, W>) -> bool {
    &&& concat(m.completed) + m.current == m.taken
    &&& forall|i: int| 0 <= i < m.completed.len() ==> #[trigger] m.completed[i].len() > 0
    &&& (m.stage == Stage::Collecting || m.stage == Stage::Running) <==> m.current.len() > 0
}

impl<T, W> BatchWorker<T, W> {
    /// The worker's invariant.
    #[verifier::type_invariant]
    pub closed spec fn wf(&self) -> bool {
        &&& model_wf(self@)
        &&& match self.phase {
            Phase::Collecting(tasks, waiters) => {
                &&& tasks@ == tasks_of(self.batch@)
                &&& waiters@ == waiters_of(self.batch@)
            },
            Phase::Running(waiters) => waiters@ == waiters_of(self.batch@),
            _ => true,
        }
    }

    /// A worker that has taken nothing yet and waits for the first submission.
    pub fn new() -> (w: Self)
        ensures
            w@.stage == Stage::Idle,
            w@.taken == Seq::<(T, Option<W>)>::empty(),
            w@.completed == Seq::<Seq<(T, Option<W>)>>::empty(),
            w@.current == Seq::<(T, Option<W>)>::empty(),
            w@.polled == Seq::<Option<(T, Option<W>)>>::empty(),
    {
        let w = BatchWorker {
            phase: Phase::Idle,
            taken: Ghost(Seq::empty()),
            done: Ghost(Seq::empty()),
            batch: Ghost(Seq::empty()),
            polls: Ghost(Seq::empty()),
        };
        proof {
            assert(concat(w.done@) + w.batch@ =~= w.taken@);
        }
        w
    }

    /// Where the worker stands.
    pub fn current_stage(&self) -> (s: Stage)
        ensures
            s == self@.stage,
    {
        match self.phase {
            Phase::Idle => Stage::Idle,
            Phase::Collecting(_, _) => Stage::Collecting,
            Phase::Running(_) => Stage::Running,
            Phase::Stopped => Stage::Stopped,
        }
    }

    /// Whether the worker can take `event` now.
    pub fn expects(&self, event: &WorkerEvent<T, W>) -> (b: bool)
        ensures
            b == accepts(self@.stage, *event),
    {
        let s = self.current_stage();
        match event {
            WorkerEvent::Arrived(_) => s == Stage::Idle,
            WorkerEvent::Queued(_) => s == Stage::Collecting,
            WorkerEvent::BatchDone => s == Stage::Running,
        }
    }

    /// Takes one event and says what to do next.
    pub fn step(&mut self, event: WorkerEvent<T, W>) -> (action: WorkerAction<T, W>)
        requires
            accepts(old(self)@.stage, event),
        ensures
            steps_to(old(self)@, event, final(self)@, action),
            final(self)@.polled == old(self)@.polled,
    {
        proof {
            use_type_invariant(&*self);
        }
        let mut prev = Self::new();
        std::mem::swap(self, &mut prev);
        proof {
            use_type_invariant(&prev);
        }
        let (next, action) = prev.advance(event);
        *self = next;
        action
    }

    fn advance(self, event: WorkerEvent<T, W>) -> (r: (Self, WorkerAction<T, W>))
        requires
            self.wf(),
            accepts(self@.stage, event),
        ensures
            steps_to(self@, event, r.0@, r.1),
            r.0@.polled == self@.polled,
    {
        let BatchWorker { phase, taken, done, batch, polls } = self;
        match event {
            WorkerEvent::Arrived(arrived) => match arrived {
                Some(sub) => {
                    let ghost s = sub;
                    let (task, waiter) = sub;
                    let mut tasks = Vec::new();
                    tasks.push(task);
                    let mut waiters = Vec::new();
                    waiters.push(waiter);
                    proof {
                        assert(tasks@ =~= tasks_of(seq![s]));
                        assert(waiters@ =~= waiters_of(seq![s]));
                        assert(concat(done@) + seq![s] =~= taken@.push(s));
                    }
                    let next = BatchWorker {
                        phase: Phase::Collecting(tasks, waiters),
                        taken: Ghost(taken@.push(s)),
                        done,
                        batch: Ghost(Seq::empty().push(s)),
                        polls,
                    };
                    (next, WorkerAction::PollQueue)
                },
                None => {
                    let next = BatchWorker { phase: Phase::Stopped, taken, done, batch, polls };
                    (next, WorkerAction::Stop)
                },
            },
            WorkerEvent::Queued(queued) => {
                match phase {
                    Phase::Collecting(mut tasks, mut waiters) => match queued {
                        Some(sub) => {
                            let ghost s = sub;
                            let (task, waiter) = sub;
                            tasks.push(task);
                            waiters.push(waiter);
                            proof {
                                assert(tasks@ =~= tasks_of(batch@.push(s)));
                                assert(waiters@ =~= waiters_of(batch@.push(s)));
                                assert(concat(done@) + batch@.push(s) =~= taken@.push(s));
                            }
                            let next = BatchWorker {
                                phase: Phase::Collecting(tasks, waiters),
                                taken: Ghost(taken@.push(s)),
                                done,
                                batch: Ghost(batch@.push(s)),
                                polls,
                            };
                            (next, WorkerAction::PollQueue)
                        },
                        None => {
                            let next = BatchWorker {
                                phase: Phase::Running(waiters),
                                taken,
                                done,
                                batch,
                                polls,
                            };
                            (next, WorkerAction::RunBatch(tasks))
                        },
                    },
                    _ => {
                        proof {
                            assert(false);
                        }
                        (BatchWorker { phase, taken, done, batch, polls }, WorkerAction::Stop)
                    },
                }
            },
            WorkerEvent::BatchDone => {
                match phase {
                    Phase::Running(waiters) => {
                        let ghost finished = batch@;
                        proof {
                            lemma_concat_push(done@, finished);
                            assert(concat(done@.push(finished)) + Seq::<(T, Option<W>)>::empty()
                                =~= taken@);
                            assert forall|i: int| 0 <= i < done@.push(finished).len() implies
                                #[trigger] done@.push(finished)[i].len() > 0 by {
                                if i < done@.len() {
                                    assert(done@.push(finished)[i] == done@[i]);
                                }
                            }
                        }
                        let next = BatchWorker {
                            phase: Phase::Idle,
                            taken,
                            done: Ghost(done@.push(finished)),
                            batch: Ghost(Seq::empty()),
                            polls,
                        };
                        (next, WorkerAction::Release(waiters))
                    },
                    _ => {
                        proof {
                            assert(false);
                        }
                        (BatchWorker { phase, taken, done, batch, polls }, WorkerAction::Stop)
                    },
                }
            },
        }
    }
}

/// Appending a batch appends its submissions.
pub proof fn lemma_concat_push<A>(batches: Seq<Seq<A>>, b: Seq<A>)
    ensures
        concat(batches.push(b)) == concat(batches) + b,
{
    assert(batches.push(b).drop_last() =~= batches);
}

/// The worker's model always holds together (see `model_wf`): in particular
/// every submission taken off the channel lies in exactly one batch, and the
/// batches keep the order in which the submissions were taken.
pub proof fn lemma_worker_model_wf<T, W>(w: &BatchWorker<T, W>)
    requires
        w.wf(),
    ensures
        model_wf(w@),
{
}

/// Every step keeps the model together: from a model that holds together,
/// any accepted event leads to one that holds together.
pub proof fn lemma_step_keeps_model_wf<T, W>(
    pre: WorkerModel<T, W>,
    event: WorkerEvent<T, W>,
    post: WorkerModel<T, W>,
    action: WorkerAction<T, W>,
)
    requires
        model_wf(pre),
        accepts(pre.stage, event),
        steps_to(pre, event, post, action),
    ensures
        model_wf(post),
{
    match event {
        WorkerEvent::Arrived(Some(sub)) => {
            assert(concat(post.completed) + post.current =~= post.taken);
        },
        WorkerEvent::Queued(Some(sub)) => {
            assert(concat(post.completed) + post.current =~= post.taken);
        },
        WorkerEvent::BatchDone => {
            lemma_concat_push(pre.completed, pre.current);
            assert(concat(post.completed) + post.current =~= post.taken);
            assert forall|i: int| 0 <= i < post.completed.len() implies
                #[trigger] post.completed[i].len() > 0 by {
                if i < pre.completed.len() {
                    assert(post.completed[i] == pre.completed[i]);
                }
            }
        },
        _ => {},
    }
}

/// The tasks handed out to run and the waiter slots released after them
/// belong to the same submissions, position by position: closing a batch and
/// finishing it hands out the tasks and then the waiters of the batch in
/// hand, and that batch becomes the last completed one.
pub proof fn lemma_released_waiters_follow_run_tasks<T, W>(
    m0: WorkerModel<T, W>,
    m1: WorkerModel<T, W>,
    run: WorkerAction<T, W>,
    m2: WorkerModel<T, W>,
    release: WorkerAction<T, W>,
)
    requires
        m0.stage == Stage::Collecting,
        steps_to(m0, WorkerEvent::Queued(None), m1, run),
        steps_to(m1, WorkerEvent::BatchDone, m2, release),
    ensures
        run matches WorkerAction::RunBatch(tasks) && release matches WorkerAction::Release(slots)
            && tasks@.len() == slots@.len() && forall|i: int|
            0 <= i < tasks@.len() ==> (#[trigger] tasks@[i], slots@[i]) == m0.current[i],
        m2.completed.last() == m0.current,
        m2.taken == m0.taken,
{
}

/// A stopped worker takes no further event.
pub proof fn lemma_stopped_is_final<T, W>(event: WorkerEvent<T, W>)
    ensures
        !accepts(Stage::Stopped, event),
{
}

/// Submissions taken in quick succession form one batch: after the first
/// submission arrives at an idle worker and the next ones are found queued,
/// the first empty look at the queue hands out a single batch holding the
/// tasks of all of them, in the order in which they were taken.
///
/// `subs` are the submissions taken, `models` the worker's model before the
/// first event and after each one, and `actions` what each event led to.
pub proof fn lemma_quick_succession_forms_one_batch<T, W>(
    subs: Seq<(T, Option<W>)>,
    models: Seq<WorkerModel<T, W>>,
    actions: Seq<WorkerAction<T, W>>,
)
    requires
        subs.len() >= 1,
        models.len() == subs.len() + 2,
        actions.len() == subs.len() + 1,
        models[0].stage == Stage::Idle,
        steps_to(models[0], WorkerEvent::Arrived(Some(subs[0])), models[1], actions[0]),
        forall|i: int|
            #![trigger actions[i]]
            1 <= i < subs.len() ==> steps_to(
                models[i],
                WorkerEvent::Queued(Some(subs[i])),
                models[i + 1],
                actions[i],
            ),
        steps_to(
            models[subs.len() as int],
            WorkerEvent::Queued(None),
            models[subs.len() + 1int],
            actions[subs.len() as int],
        ),
    ensures
        forall|i: int| 0 <= i < subs.len() ==> #[trigger] actions[i] is PollQueue,
        actions[subs.len() as int] matches WorkerAction::RunBatch(tasks) && tasks@ == tasks_of(
            subs,
        ),
        models[subs.len() + 1int].stage == Stage::Running,
        models[subs.len() + 1int].current == subs,
        models[subs.len() + 1int].taken == models[0].taken + subs,
        models[subs.len() + 1int].completed == models[0].completed,
{
    lemma_batch_prefix(subs, models, actions, subs.len() as int);
    assert(subs.take(subs.len() as int) =~= subs);
    assert forall|i: int| 0 <= i < subs.len() implies #[trigger] actions[i] is PollQueue by {
        if i >= 1 {
            assert(steps_to(models[i], WorkerEvent::Queued(Some(subs[i])), models[i + 1], actions[i]));
        }
    }
}

proof fn lemma_batch_prefix<T, W>(
    subs: Seq<(T, Option<W>)>,
    models: Seq<WorkerModel<T, W>>,
    actions: Seq<WorkerAction<T, W>>,
    j: int,
)
    requires
        1 <= j <= subs.len(),
        models.len() == subs.len() + 2,
        actions.len() == subs.len() + 1,
        steps_to(models[0], WorkerEvent::Arrived(Some(subs[0])), models[1], actions[0]),
        forall|i: int|
            #![trigger actions[i]]
            1 <= i < subs.len() ==> steps_to(
                models[i],
                WorkerEvent::Queued(Some(subs[i])),
                models[i + 1],
                actions[i],
            ),
    ensures
        models[j].stage == Stage::Collecting,
        models[j].current == subs.take(j),
        models[j].taken == models[0].taken + subs.take(j),
        models[j].completed == models[0].completed,
    decreases j,
{
    if j == 1 {
        assert(subs.take(1) =~= seq![subs[0]]);
    } else {
        lemma_batch_prefix(subs, models, actions, j - 1);
        assert(steps_to(
            models[j - 1],
            WorkerEvent::Queued(Some(subs[j - 1])),
            models[j],
            actions[j - 1],
        ));
        assert(subs.take(j) =~= subs.take(j - 1).push(subs[j - 1]));
        assert(models[0].taken + subs.take(j) =~= (models[0].taken + subs.take(j - 1)).push(
            subs[j - 1],
        ));
    }
}

impl<T, W> BatchWorker<T, W> {
    /// `post` is `pre` with one more look at the queue recorded, one that
    /// gave `r`; nothing else differs.
    pub closed spec fn records_poll(pre: Self, post: Self, r: Option<(T, Option<W>)>) -> bool {
        &&& post.phase == pre.phase
        &&& post.taken@ == pre.taken@
        &&& post.done@ == pre.done@
        &&& post.batch@ == pre.batch@
        &&& post.polls@ == pre.polls@.push(r)
    }
}

/// Recording a look at the queue changes the model only by appending what
/// the look gave to `polled`, and keeps the worker's invariant.
pub proof fn lemma_records_poll<T, W>(
    pre: BatchWorker<T, W>,
    post: BatchWorker<T, W>,
    r: Option<(T, Option<W>)>,
)
    requires
        BatchWorker::records_poll(pre, post, r),
    ensures
        post@.stage == pre@.stage,
        post@.taken == pre@.taken,
        post@.completed == pre@.completed,
        post@.current == pre@.current,
        post@.polled == pre@.polled.push(r),
        pre.wf() ==> post.wf(),
{
}

/// The submissions that a run of looks at the queue gave, in order.
pub open spec fn queued_of<X>(polls: Seq<Option<X>>) -> Seq<X>
    decreases polls.len(),
{
    if polls.len() == 0 {
        Seq::empty()
    } else {
        queued_of(polls.drop_last()) + match polls.last() {
            Some(x) => seq![x],
            None => Seq::<X>::empty(),
        }
    }
}

} // verus!
