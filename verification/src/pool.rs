//! The pool: a fixed set of workers, the channel that feeds them, and the
//! one-way life cycle from running to terminated.
//!
//! A `ThreadPool` is the whole shared state of a pool as one value. Each method
//! is one atomic move of the state machine in `model`: a submission, one
//! worker's receive step, the start of teardown, one join, the end of teardown.
//! A runtime with real threads keeps the pool behind a lock and lets each
//! thread make its worker's moves; `run_worker` and `shutdown` make the same
//! moves in a fixed order on the calling thread.

use crate::channel::Channel;
use crate::message::Message;
use crate::model::{
    as_messages,
    lemma_count_running_bound,
    lemma_count_running_extremes,
    markers,
    PoolModel,
    PoolState,
    Stop,
    WorkerState,
};
use crate::worker::{leading_jobs, Run, Worker};
use vstd::prelude::*;

verus! {

/// What a completed teardown did.
#[derive(Clone, Copy, Debug, PartialEq, Eq, Structural)]
pub struct Shutdown {
    /// How many stop markers were queued.
    pub markers_sent: usize,
    /// How many worker threads were joined.
    pub workers_joined: usize,
    /// How many jobs the workers invoked while the pool shut down.
    pub jobs_run: usize,
}

/// A pool of a fixed number of workers fed by one channel.
pub struct ThreadPool<F> {
    workers: Vec<Worker>,
    sender: Channel<Message<F>>,
    state: PoolState,
    submitted: Ghost<Seq<F>>,
    taken: Ghost<nat>,
}

/// The front of a well-formed queue is its pending jobs.
proof fn lemma_leading_jobs_of_queue<T>(jobs: Seq<T>, n: nat)
    ensures
        leading_jobs(as_messages(jobs) + markers::<T>(n)) == jobs.len(),
    decreases jobs.len(),
{
    let queue = as_messages(jobs) + markers::<T>(n);
    if jobs.len() > 0 {
        lemma_leading_jobs_of_queue(jobs.drop_first(), n);
        assert(queue.drop_first() =~= as_messages(jobs.drop_first()) + markers::<T>(n));
        assert(queue[0] is NewJob);
    } else if n > 0 {
        assert(queue[0] is Terminate);
    }
}

impl<F> View for ThreadPool<F> {
    type V = PoolModel<F>;

    /// The pool as a state of the state machine.
    closed spec fn view(&self) -> PoolModel<F> {
        PoolModel {
            state: self.state,
            workers: Seq::new(self.workers.len() as nat, |i: int| self.workers[i].state()),
            queue: self.sender@,
            submitted: self.submitted@,
            taken: self.taken@,
        }
    }
}

impl<F> ThreadPool<F> {
    /// What the representation keeps besides the invariant of the state
    /// machine: the sending side is alive, and worker `i` carries id `i`.
    pub closed spec fn inv(&self) -> bool {
        &&& self.sender.is_open()
        &&& forall|i: int| 0 <= i < self.workers.len() ==> (#[trigger] self.workers[i]).id() == i
    }

    /// The pool is well formed.
    pub open spec fn wf(&self) -> bool {
        self.inv() && self@.wf()
    }

    /// A running pool of `size` workers with nothing queued.
    pub fn new(size: usize) -> (pool: ThreadPool<F>)
        requires
            size > 0,
        ensures
            pool.wf(),
            pool@ == PoolModel::<F>::init(size as nat),
    {
        let sender = Channel::new();
        let mut workers: Vec<Worker> = Vec::with_capacity(size);
        let mut id: usize = 0;
        while id < size
            invariant
                id <= size,
                workers.len() == id,
                forall|i: int| 0 <= i < id ==> (#[trigger] workers[i]).id() == i,
                forall|i: int| 0 <= i < id ==> (#[trigger] workers[i]).state() is Running,
            decreases size - id,
        {
            workers.push(Worker::new(id));
            id = id + 1;
        }
        let pool = ThreadPool {
            workers,
            sender,
            state: PoolState::Running,
            submitted: Ghost(Seq::empty()),
            taken: Ghost(0),
        };
        proof {
            assert(pool@.workers =~= PoolModel::<F>::init(size as nat).workers);
            PoolModel::<F>::lemma_init_wf(size as nat);
        }
        pool
    }

    /// The number of workers, fixed at construction.
    pub fn size(&self) -> (size: usize)
        ensures
            size == self@.workers.len(),
    {
        self.workers.len()
    }

    /// Where the pool is in its life cycle.
    pub fn state(&self) -> (state: PoolState)
        ensures
            state == self@.state,
    {
        self.state
    }

    /// The number of messages in flight, jobs and stop markers alike.
    pub fn queued(&self) -> (queued: usize)
        ensures
            queued == self@.queue.len(),
    {
        self.sender.len()
    }

    /// Where worker `id` is in its life cycle.
    pub fn worker_state(&self, id: usize) -> (state: WorkerState)
        requires
            id < self@.workers.len(),
        ensures
            state == self@.workers[id as int],
    {
        self.workers[id].state()
    }

    /// Submits `f`: it is queued behind everything already in flight, and
    /// whichever worker dequeues it invokes it.
    pub fn execute(&mut self, f: F)
        requires
            old(self).wf(),
            old(self)@.state is Running,
        ensures
            final(self).wf(),
            final(self)@ == old(self)@.submit(f),
    {
        let ghost job = f;
        let sent = self.sender.send(Message::NewJob(f));
        assert(sent is Ok);
        self.submitted = Ghost(self.submitted@.push(job));
        proof {
            assert(self@.workers =~= old(self)@.workers);
            old(self)@.lemma_submit_wf(job);
        }
    }

    /// One receive step of worker `id`: see `PoolModel::receive`. A job that
    /// comes back is the oldest pending one, and it is the caller's to invoke.
    /// `Disconnected` never comes back: the pool keeps the sending side alive.
    pub fn worker_receive(&mut self, id: usize) -> (received: Result<F, Stop>)
        requires
            old(self).wf(),
            id < old(self)@.workers.len(),
        ensures
            final(self).wf(),
            final(self)@ == old(self)@.receive(id as int),
            received == old(self)@.received(id as int),
    {
        let received = self.workers[id].receive(&mut self.sender);
        self.taken = Ghost(
            if received is Ok {
                self.taken@ + 1
            } else {
                self.taken@
            },
        );
        proof {
            let before = old(self)@;
            if before.workers[id as int] is Running && before.queue.len() > 0 {
                assert(self@.workers =~= before.receive(id as int).workers);
            } else {
                assert(self@.workers =~= before.workers);
            }
            before.lemma_receive_wf(id as int);
        }
        received
    }

    /// Begins teardown: one stop marker per worker is queued behind everything
    /// already in flight, and the pool accepts no more jobs. Returns the number
    /// of markers queued, which is the number of workers.
    pub fn begin_shutdown(&mut self) -> (markers_sent: usize)
        requires
            old(self).wf(),
            old(self)@.state is Running,
        ensures
            final(self).wf(),
            final(self)@ == old(self)@.begin_shutdown(),
            markers_sent == old(self)@.workers.len(),
    {
        let size = self.workers.len();
        let mut sent: usize = 0;
        while sent < size
            invariant
                sent <= size,
                size == self.workers.len(),
                self.workers == old(self).workers,
                self.state == old(self).state,
                self.submitted == old(self).submitted,
                self.taken == old(self).taken,
                self.sender.is_open(),
                self.sender@ == old(self).sender@ + markers::<F>(sent as nat),
            decreases size - sent,
        {
            let queued = self.sender.send(Message::Terminate);
            assert(queued is Ok);
            sent = sent + 1;
            assert(self.sender@ =~= old(self).sender@ + markers::<F>(sent as nat));
        }
        self.state = PoolState::ShuttingDown;
        proof {
            assert(self@.workers =~= old(self)@.workers);
            old(self)@.lemma_begin_shutdown_wf();
        }
        sent
    }

    /// Joins worker `id` if its thread has run to its end and has not been
    /// joined before; says whether it did.
    pub fn join_worker(&mut self, id: usize) -> (joined: bool)
        requires
            old(self).wf(),
            id < old(self)@.workers.len(),
        ensures
            final(self).wf(),
            final(self)@ == old(self)@.join(id as int),
            joined == (old(self)@.workers[id as int] is Exited),
    {
        let joined = self.workers[id].join();
        proof {
            let before = old(self)@;
            assert(self@.workers =~= before.join(id as int).workers);
            before.lemma_join_wf(id as int);
        }
        joined
    }

    /// Completes teardown if teardown has begun and every worker is joined;
    /// says whether the pool is terminated afterwards.
    pub fn finish(&mut self) -> (terminated: bool)
        requires
            old(self).wf(),
        ensures
            final(self).wf(),
            final(self)@ == if old(self)@.state is ShuttingDown && old(self)@.all_joined() {
                old(self)@.finish()
            } else {
                old(self)@
            },
            terminated == (final(self)@.state is Terminated),
    {
        match self.state {
            PoolState::Running => false,
            PoolState::Terminated => true,
            PoolState::ShuttingDown => {
                let mut id: usize = 0;
                while id < self.workers.len()
                    invariant
                        *self == *old(self),
                        self.wf(),
                        self.state is ShuttingDown,
                        id <= self.workers.len(),
                        forall|i: int| 0 <= i < id ==> (#[trigger] self.workers[i]).state() is Joined,
                    decreases self.workers.len() - id,
                {
                    match self.workers[id].state() {
                        WorkerState::Joined => {},
                        _ => {
                            assert(!self@.all_joined()) by {
                                assert(self@.workers[id as int] !is Joined);
                            }
                            return false;
                        },
                    }
                    id = id + 1;
                }
                assert(self@.all_joined());
                self.state = PoolState::Terminated;
                proof {
                    assert(self@.workers =~= old(self)@.workers);
                    old(self)@.lemma_finish_wf();
                }
                true
            },
        }
    }
}


impl<F: FnOnce()> ThreadPool<F> {
    /// Runs the loop of worker `id` on the calling thread for as long as the
    /// worker finds a message: it invokes every pending job, oldest first, and
    /// then takes its stop marker if teardown has begun. See `PoolModel::drain`.
    pub fn run_worker(&mut self, id: usize) -> (run: Run)
        requires
            old(self).wf(),
            old(self)@.runnable(),
            id < old(self)@.workers.len(),
        ensures
            final(self).wf(),
            final(self)@ == old(self)@.drain(id as int),
            final(self)@.invoked_since(old(self)@.taken),
            run.stop == old(self)@.drained(id as int),
            run.jobs_run == final(self)@.taken - old(self)@.taken,
    {
        proof {
            let before = old(self)@;
            lemma_leading_jobs_of_queue(before.pending(), before.owed_markers());
            assert forall|i: int| 0 <= i < leading_jobs(before.queue) implies call_requires(
                #[trigger] before.queue[i]->NewJob_0,
                (),
            ) by {
                assert(before.queue[i] == Message::NewJob(before.submitted[before.taken + i]));
            }
        }
        let run = self.workers[id].run(&mut self.sender);
        proof {
            let before = old(self)@;
            if before.workers[id as int] is Running {
                lemma_count_running_bound(before.workers);
                lemma_count_running_extremes(before.workers);
                assert(before.live() >= 1);
            }
        }
        self.taken = Ghost(self.taken@ + run.jobs_run as nat);
        proof {
            let before = old(self)@;
            let after = before.drain(id as int);
            if before.workers[id as int] is Running {
                assert(self@.workers =~= after.workers);
                assert(self@.queue =~= after.queue);
                assert forall|i: int| before.taken <= i < self@.taken implies call_ensures(
                    #[trigger] self@.submitted[i],
                    (),
                    (),
                ) by {
                    assert(before.queue[i - before.taken] == Message::NewJob(before.submitted[i]));
                }
            } else {
                assert(self@.workers =~= before.workers);
            }
            before.lemma_drain_wf(id as int);
        }
        run
    }

    /// Tears the pool down on the calling thread, once and for all: the pool is
    /// used up. One stop marker per worker is queued; then, in id order, each
    /// worker's loop runs to its end and its thread is joined. Every job that
    /// was pending is invoked before the first worker exits.
    pub fn shutdown(self) -> (report: Shutdown)
        requires
            self.wf(),
            self@.state is Running,
            self@.runnable(),
        ensures
            report.markers_sent == self@.workers.len(),
            report.workers_joined == self@.workers.len(),
            report.jobs_run == self@.pending().len(),
            forall|i: int|
                self@.taken <= i < self@.submitted.len() ==> call_ensures(
                    #[trigger] self@.submitted[i],
                    (),
                    (),
                ),
    {
        let mut pool = self;
        let size = pool.size();
        let in_flight = pool.queued();
        assert(self@.pending().len() <= in_flight) by {
            assert(self@.queue.len() == as_messages(self@.pending()).len() + markers::<F>(
                self@.owed_markers(),
            ).len());
        }
        let markers_sent = pool.begin_shutdown();
        let mut jobs_run: usize = 0;
        let mut workers_joined: usize = 0;
        let mut id: usize = 0;
        while id < size
            invariant
                pool.wf(),
                pool@.runnable(),
                pool@.state is ShuttingDown,
                pool@.workers.len() == size,
                pool@.submitted == self@.submitted,
                self@.taken <= pool@.taken <= self@.submitted.len(),
                self@.pending().len() <= in_flight,
                pool@.invoked_since(self@.taken),
                jobs_run == pool@.taken - self@.taken,
                id <= size,
                workers_joined == id,
                forall|i: int| 0 <= i < id ==> pool@.workers[i] is Joined,
                forall|i: int| id <= i < size ==> pool@.workers[i] is Running,
            decreases size - id,
        {
            let run = pool.run_worker(id);
            let joined = pool.join_worker(id);
            jobs_run = jobs_run + run.jobs_run;
            if joined {
                workers_joined = workers_joined + 1;
            }
            id = id + 1;
        }
        pool.finish();
        proof {
            lemma_count_running_extremes(pool@.workers);
        }
        Shutdown { markers_sent, workers_joined, jobs_run }
    }
}

} // verus!
