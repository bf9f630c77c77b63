//! The pool as a state machine over mathematical values.
//!
//! A `PoolModel` records what a pool is at one instant: its life-cycle state,
//! each worker's state, the queue, and the history of submissions. The
//! transitions are spec functions, `wf` is the invariant that every transition
//! preserves, and the lemmas at the end say what the invariant buys.

use crate::message::Message;
use vstd::prelude::*;

verus! {

/// The pool's life cycle. It only ever moves forward:
/// `Running`, then `ShuttingDown`, then `Terminated`.
#[derive(Clone, Copy, Debug, PartialEq, Eq, Structural)]
pub enum PoolState {
    /// Accepting jobs; every worker is live.
    Running,
    /// The stop markers are queued; workers are draining and exiting.
    ShuttingDown,
    /// Every worker has exited and has been joined.
    Terminated,
}

impl PoolState {
    /// The position of a state in the life cycle.
    pub open spec fn rank(self) -> nat {
        match self {
            PoolState::Running => 0,
            PoolState::ShuttingDown => 1,
            PoolState::Terminated => 2,
        }
    }

    /// The state that follows `self`; `Terminated` is final.
    pub open spec fn successor(self) -> PoolState {
        match self {
            PoolState::Running => PoolState::ShuttingDown,
            PoolState::ShuttingDown => PoolState::Terminated,
            PoolState::Terminated => PoolState::Terminated,
        }
    }

    /// Whether a pool in state `self` may be in state `next` one step later.
    pub open spec fn may_become(self, next: PoolState) -> bool {
        next == self || (self != PoolState::Terminated && next == self.successor())
    }
}

/// One worker's life cycle: it runs until it receives a stop marker, and its
/// thread is joined once after that.
#[derive(Clone, Copy, Debug, PartialEq, Eq, Structural)]
pub enum WorkerState {
    /// The worker's loop is live: it will receive again.
    Running,
    /// The worker has consumed its stop marker; its thread awaits the join.
    Exited,
    /// The thread has been joined and its handle is gone.
    Joined,
}

/// Why a worker's receive step handed out no job.
#[derive(Clone, Copy, Debug, PartialEq, Eq, Structural)]
pub enum Stop {
    /// The worker received a stop marker and has left its loop.
    Terminated,
    /// Nothing is queued: a worker thread waits here.
    Idle,
    /// Nothing is queued and the sending side is gone.
    Disconnected,
    /// The worker had left its loop before this step: it receives nothing.
    Exited,
}

/// `n` stop markers in a row.
pub open spec fn markers<T>(n: nat) -> Seq<Message<T>> {
    Seq::new(n, |i: int| Message::Terminate)
}

/// The jobs, each wrapped as a message, in the same order.
pub open spec fn as_messages<T>(jobs: Seq<T>) -> Seq<Message<T>> {
    Seq::new(jobs.len(), |i: int| Message::NewJob(jobs[i]))
}

/// How many of `workers` are still running.
pub open spec fn count_running(workers: Seq<WorkerState>) -> nat
    decreases workers.len(),
{
    if workers.len() == 0 {
        0
    } else {
        count_running(workers.drop_last()) + if workers.last() is Running {
            1nat
        } else {
            0nat
        }
    }
}

/// How many stop markers `queue` holds.
pub open spec fn count_markers<T>(queue: Seq<Message<T>>) -> nat
    decreases queue.len(),
{
    if queue.len() == 0 {
        0
    } else {
        count_markers(queue.drop_last()) + if queue.last() is Terminate {
            1nat
        } else {
            0nat
        }
    }
}

/// The jobs that `queue` holds, in queue order.
pub open spec fn jobs_in<T>(queue: Seq<Message<T>>) -> Seq<T>
    decreases queue.len(),
{
    if queue.len() == 0 {
        Seq::empty()
    } else {
        match queue.last() {
            Message::NewJob(job) => jobs_in(queue.drop_last()).push(job),
            Message::Terminate => jobs_in(queue.drop_last()),
        }
    }
}

/// A pool at one instant.
pub struct PoolModel<T> {
    /// Where the pool is in its life cycle.
    pub state: PoolState,
    /// Each worker's state, by worker id. The length never changes.
    pub workers: Seq<WorkerState>,
    /// The messages in flight, oldest first.
    pub queue: Seq<Message<T>>,
    /// Every job ever submitted, in submission order.
    pub submitted: Seq<T>,
    /// How many jobs have been handed to workers so far.
    pub taken: nat,
}

impl<T> PoolModel<T> {
    /// The jobs handed to workers so far, in the order they were handed out.
    pub open spec fn dispatched(self) -> Seq<T> {
        self.submitted.take(self.taken as int)
    }

    /// The jobs submitted but not yet handed to a worker.
    pub open spec fn pending(self) -> Seq<T> {
        self.submitted.skip(self.taken as int)
    }

    /// The number of workers still running.
    pub open spec fn live(self) -> nat {
        count_running(self.workers)
    }

    /// The number of stop markers that must be in flight: none while the pool
    /// runs, and afterwards one for each worker that has not yet taken its own.
    pub open spec fn owed_markers(self) -> nat {
        if self.state is Running {
            0
        } else {
            self.live()
        }
    }

    /// The invariant of the pool.
    pub open spec fn wf(self) -> bool {
        &&& self.workers.len() >= 1
        &&& self.taken <= self.submitted.len()
        &&& self.queue == as_messages(self.pending()) + markers::<T>(self.owed_markers())
        &&& self.state is Running ==> forall|i: int|
            0 <= i < self.workers.len() ==> self.workers[i] is Running
        &&& self.state is Terminated ==> forall|i: int|
            0 <= i < self.workers.len() ==> self.workers[i] is Joined
        &&& (self.state !is Running && self.live() < self.workers.len()) ==> self.taken
            == self.submitted.len()
    }

    /// A fresh pool of `size` workers.
    pub open spec fn init(size: nat) -> Self {
        PoolModel {
            state: PoolState::Running,
            workers: Seq::new(size, |i: int| WorkerState::Running),
            queue: Seq::empty(),
            submitted: Seq::empty(),
            taken: 0,
        }
    }

    /// The pool after `job` was submitted.
    pub open spec fn submit(self, job: T) -> Self {
        PoolModel {
            queue: self.queue.push(Message::NewJob(job)),
            submitted: self.submitted.push(job),
            ..self
        }
    }

    /// What worker `id` gets from one receive step.
    pub open spec fn received(self, id: int) -> Result<T, Stop> {
        if self.workers[id] !is Running {
            Err(Stop::Exited)
        } else if self.queue.len() == 0 {
            Err(Stop::Idle)
        } else {
            match self.queue[0] {
                Message::NewJob(job) => Ok(job),
                Message::Terminate => Err(Stop::Terminated),
            }
        }
    }

    /// The pool after worker `id` made one receive step.
    pub open spec fn receive(self, id: int) -> Self {
        if self.workers[id] !is Running || self.queue.len() == 0 {
            self
        } else {
            match self.queue[0] {
                Message::NewJob(_) => PoolModel {
                    queue: self.queue.drop_first(),
                    taken: self.taken + 1,
                    ..self
                },
                Message::Terminate => PoolModel {
                    queue: self.queue.drop_first(),
                    workers: self.workers.update(id, WorkerState::Exited),
                    ..self
                },
            }
        }
    }

    /// The pool after worker `id` ran its loop for as long as it could: it took
    /// every pending job, and then, if teardown had begun, its stop marker.
    pub open spec fn drain(self, id: int) -> Self {
        if self.workers[id] !is Running {
            self
        } else if self.state is Running {
            PoolModel { queue: Seq::empty(), taken: self.submitted.len(), ..self }
        } else {
            PoolModel {
                queue: markers::<T>((self.live() - 1) as nat),
                taken: self.submitted.len(),
                workers: self.workers.update(id, WorkerState::Exited),
                ..self
            }
        }
    }

    /// What the loop of worker `id` reports when it stops.
    pub open spec fn drained(self, id: int) -> Stop {
        if self.workers[id] !is Running {
            Stop::Exited
        } else if self.state is Running {
            Stop::Idle
        } else {
            Stop::Terminated
        }
    }

    /// The pool after teardown began: one stop marker per worker is queued
    /// behind everything already in flight.
    pub open spec fn begin_shutdown(self) -> Self {
        PoolModel {
            state: PoolState::ShuttingDown,
            queue: self.queue + markers::<T>(self.workers.len()),
            ..self
        }
    }

    /// The pool after an attempt to join worker `id`: the join goes through only
    /// once the worker has exited, and only once.
    pub open spec fn join(self, id: int) -> Self {
        if self.workers[id] is Exited {
            PoolModel { workers: self.workers.update(id, WorkerState::Joined), ..self }
        } else {
            self
        }
    }

    /// Whether every worker has been joined.
    pub open spec fn all_joined(self) -> bool {
        forall|i: int| 0 <= i < self.workers.len() ==> self.workers[i] is Joined
    }

    /// The pool after teardown completed.
    pub open spec fn finish(self) -> Self {
        PoolModel { state: PoolState::Terminated, ..self }
    }
}


/// No more workers run than there are workers.
pub proof fn lemma_count_running_bound(workers: Seq<WorkerState>)
    ensures
        count_running(workers) <= workers.len(),
    decreases workers.len(),
{
    if workers.len() > 0 {
        lemma_count_running_bound(workers.drop_last());
    }
}

/// Every worker runs exactly when the count of running workers is the number
/// of workers; none runs exactly when the count is zero.
pub proof fn lemma_count_running_extremes(workers: Seq<WorkerState>)
    ensures
        count_running(workers) == workers.len() <==> forall|i: int|
            0 <= i < workers.len() ==> workers[i] is Running,
        count_running(workers) == 0 <==> forall|i: int|
            0 <= i < workers.len() ==> workers[i] !is Running,
    decreases workers.len(),
{
    if workers.len() > 0 {
        let front = workers.drop_last();
        lemma_count_running_extremes(front);
        lemma_count_running_bound(front);
        assert(forall|i: int| 0 <= i < front.len() ==> front[i] == workers[i]);
        if forall|i: int| 0 <= i < workers.len() ==> workers[i] is Running {
            assert(forall|i: int| 0 <= i < front.len() ==> front[i] is Running);
        }
        if forall|i: int| 0 <= i < workers.len() ==> workers[i] !is Running {
            assert(forall|i: int| 0 <= i < front.len() ==> front[i] !is Running);
        }
        if count_running(workers) == workers.len() {
            assert(workers.last() is Running);
            assert forall|i: int| 0 <= i < workers.len() implies workers[i] is Running by {
                if i < front.len() {
                    assert(front[i] is Running);
                }
            }
        }
        if count_running(workers) == 0 {
            assert(workers.last() !is Running);
            assert forall|i: int| 0 <= i < workers.len() implies workers[i] !is Running by {
                if i < front.len() {
                    assert(front[i] !is Running);
                }
            }
        }
    }
}

/// Changing one worker's state changes the count of running workers by that
/// worker alone.
pub proof fn lemma_count_running_update(workers: Seq<WorkerState>, id: int, state: WorkerState)
    requires
        0 <= id < workers.len(),
    ensures
        count_running(workers.update(id, state)) + (if workers[id] is Running {
            1nat
        } else {
            0nat
        }) == count_running(workers) + (if state is Running {
            1nat
        } else {
            0nat
        }),
    decreases workers.len(),
{
    let updated = workers.update(id, state);
    if id == workers.len() - 1 {
        assert(updated.drop_last() =~= workers.drop_last());
    } else {
        lemma_count_running_update(workers.drop_last(), id, state);
        assert(updated.drop_last() =~= workers.drop_last().update(id, state));
    }
}

/// A queue's markers and jobs, counted over a concatenation.
pub proof fn lemma_queue_parts<T>(jobs: Seq<T>, n: nat)
    ensures
        count_markers(as_messages(jobs) + markers::<T>(n)) == n,
        jobs_in(as_messages(jobs) + markers::<T>(n)) == jobs,
    decreases n, jobs.len(),
{
    let queue = as_messages(jobs) + markers::<T>(n);
    if n > 0 {
        lemma_queue_parts(jobs, (n - 1) as nat);
        assert(queue.drop_last() =~= as_messages(jobs) + markers::<T>((n - 1) as nat));
    } else if jobs.len() > 0 {
        lemma_queue_parts(jobs.drop_last(), 0);
        assert(queue.drop_last() =~= as_messages(jobs.drop_last()) + markers::<T>(0));
        assert(queue.last() == Message::NewJob(jobs.last()));
        assert(jobs.drop_last().push(jobs.last()) =~= jobs);
    } else {
        assert(jobs_in(queue) =~= jobs);
    }
}

impl<T> PoolModel<T> {
    /// A fresh pool satisfies the invariant.
    pub proof fn lemma_init_wf(size: nat)
        requires
            size >= 1,
        ensures
            Self::init(size).wf(),
            Self::init(size).state is Running,
            Self::init(size).workers.len() == size,
    {
        let m = Self::init(size);
        assert(m.queue =~= as_messages(m.pending()) + markers::<T>(m.owed_markers()));
    }

    /// Submitting to a running pool preserves the invariant.
    pub proof fn lemma_submit_wf(self, job: T)
        requires
            self.wf(),
            self.state is Running,
        ensures
            self.submit(job).wf(),
    {
        let next = self.submit(job);
        assert(next.pending() =~= self.pending().push(job));
        assert(next.queue =~= as_messages(next.pending()) + markers::<T>(next.owed_markers()));
    }

    /// Under the invariant the head of the queue tells the whole situation: a
    /// job at the head is the oldest pending job, and a marker at the head means
    /// that nothing is pending and teardown is under way.
    pub proof fn lemma_head(self)
        requires
            self.wf(),
            self.queue.len() > 0,
        ensures
            self.queue[0] is NewJob ==> self.taken < self.submitted.len() && self.queue[0]
                == Message::NewJob(self.submitted[self.taken as int]),
            self.queue[0] is Terminate ==> self.taken == self.submitted.len()
                && self.owed_markers() >= 1 && self.state !is Running,
    {
        let jobs = as_messages(self.pending());
        let tail = markers::<T>(self.owed_markers());
        assert(self.queue == jobs + tail);
        if self.pending().len() > 0 {
            assert(self.queue[0] == jobs[0]);
        } else {
            assert(self.queue[0] == tail[0]);
        }
    }

    /// A receive step by an existing worker preserves the invariant and moves
    /// the life cycle nowhere.
    pub proof fn lemma_receive_wf(self, id: int)
        requires
            self.wf(),
            0 <= id < self.workers.len(),
        ensures
            self.receive(id).wf(),
            self.receive(id).state == self.state,
            self.receive(id).workers.len() == self.workers.len(),
            self.receive(id).submitted == self.submitted,
            self.received(id) !is Ok ==> self.receive(id).taken == self.taken,
            self.received(id) is Ok ==> self.receive(id).taken == self.taken + 1
                && self.received(id) == Ok::<T, Stop>(self.submitted[self.taken as int]),
    {
        let next = self.receive(id);
        if self.workers[id] is Running && self.queue.len() > 0 {
            self.lemma_head();
            lemma_count_running_bound(self.workers);
            match self.queue[0] {
                Message::NewJob(_) => {
                    assert(next.pending() =~= self.pending().drop_first());
                    assert(next.queue =~= as_messages(next.pending()) + markers::<T>(
                        next.owed_markers(),
                    ));
                },
                Message::Terminate => {
                    lemma_count_running_update(self.workers, id, WorkerState::Exited);
                    assert(next.queue =~= as_messages(next.pending()) + markers::<T>(
                        next.owed_markers(),
                    ));
                    assert(self.state is ShuttingDown);
                },
            }
        }
    }

    /// Draining is what repeated receive steps by one worker add up to, and it
    /// preserves the invariant.
    pub proof fn lemma_drain_wf(self, id: int)
        requires
            self.wf(),
            0 <= id < self.workers.len(),
        ensures
            self.drain(id).wf(),
            self.drain(id).state == self.state,
            self.drain(id).workers.len() == self.workers.len(),
            self.drain(id).submitted == self.submitted,
    {
        let next = self.drain(id);
        if self.workers[id] is Running {
            lemma_count_running_bound(self.workers);
            lemma_count_running_extremes(self.workers);
            assert(next.pending() =~= Seq::<T>::empty());
            if self.state is Running {
                assert(next.queue =~= as_messages(next.pending()) + markers::<T>(
                    next.owed_markers(),
                ));
            } else {
                lemma_count_running_update(self.workers, id, WorkerState::Exited);
                assert(next.queue =~= as_messages(next.pending()) + markers::<T>(
                    next.owed_markers(),
                ));
                assert(self.state is ShuttingDown);
            }
        }
    }

    /// Beginning teardown of a running pool preserves the invariant and queues
    /// exactly one marker per worker.
    pub proof fn lemma_begin_shutdown_wf(self)
        requires
            self.wf(),
            self.state is Running,
        ensures
            self.begin_shutdown().wf(),
            self.begin_shutdown().owed_markers() == self.workers.len(),
            count_markers(self.queue) == 0,
            count_markers(self.begin_shutdown().queue) == self.workers.len(),
    {
        let next = self.begin_shutdown();
        lemma_count_running_extremes(self.workers);
        assert(self.queue =~= as_messages(self.pending()) + markers::<T>(0));
        assert(next.queue =~= as_messages(next.pending()) + markers::<T>(next.owed_markers()));
        lemma_queue_parts(self.pending(), 0);
        lemma_queue_parts(next.pending(), next.owed_markers());
    }

    /// Joining a worker preserves the invariant.
    pub proof fn lemma_join_wf(self, id: int)
        requires
            self.wf(),
            0 <= id < self.workers.len(),
        ensures
            self.join(id).wf(),
            self.join(id).state == self.state,
            self.workers[id] is Exited ==> self.state is ShuttingDown,
    {
        if self.workers[id] is Exited {
            lemma_count_running_update(self.workers, id, WorkerState::Joined);
        }
    }

    /// Completing teardown once every worker is joined preserves the invariant.
    pub proof fn lemma_finish_wf(self)
        requires
            self.wf(),
            self.state is ShuttingDown,
            self.all_joined(),
        ensures
            self.finish().wf(),
    {
        lemma_count_running_extremes(self.workers);
    }
}


impl<F: FnOnce()> PoolModel<F> {
    /// Whether every pending job may be invoked.
    pub open spec fn runnable(self) -> bool {
        forall|i: int|
            self.taken <= i < self.submitted.len() ==> call_requires(
                #[trigger] self.submitted[i],
                (),
            )
    }

    /// Whether every job from position `from` of the submission history up to
    /// the last one handed out has been invoked and has met its postcondition.
    pub open spec fn invoked_since(self, from: nat) -> bool {
        forall|i: int| from <= i < self.taken ==> call_ensures(#[trigger] self.submitted[i], (), ())
    }
}

} // verus!
