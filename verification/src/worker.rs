//! A worker: an id, and the slot that holds its thread's handle until the
//! thread is joined.

use crate::channel::{Channel, TryRecvError};
use crate::message::Message;
use crate::model::{Stop, WorkerState};
use vstd::prelude::*;

verus! {

/// How many jobs stand at the front of `queue`, before its first stop marker.
pub open spec fn leading_jobs<T>(queue: Seq<Message<T>>) -> nat
    decreases queue.len(),
{
    if queue.len() == 0 || queue[0] is Terminate {
        0
    } else {
        1 + leading_jobs(queue.drop_first())
    }
}

/// The first `leading_jobs(queue)` messages of a queue are jobs, and they are
/// all of its messages unless a marker follows them.
pub proof fn lemma_leading_jobs<T>(queue: Seq<Message<T>>)
    ensures
        leading_jobs(queue) <= queue.len(),
        forall|i: int| 0 <= i < leading_jobs(queue) ==> queue[i] is NewJob,
        leading_jobs(queue) < queue.len() ==> queue[leading_jobs(queue) as int] is Terminate,
    decreases queue.len(),
{
    if queue.len() > 0 && queue[0] is NewJob {
        let rest = queue.drop_first();
        lemma_leading_jobs(rest);
        assert forall|i: int| 0 <= i < leading_jobs(queue) implies queue[i] is NewJob by {
            if i > 0 {
                assert(queue[i] == rest[i - 1]);
            }
        }
        if leading_jobs(queue) < queue.len() {
            assert(queue[leading_jobs(queue) as int] == rest[leading_jobs(rest) as int]);
        }
    }
}

/// The handle of a worker's thread. It is handed out by nothing and copied by
/// nothing, so a thread is joined at most once.
struct ThreadHandle {
    finished: bool,
}

impl ThreadHandle {
    /// Reaps a thread that has run to its end, using up the handle.
    fn join(self)
        requires
            self.finished,
    {
    }
}

/// What one run of a worker's loop did.
#[derive(Clone, Copy, Debug, PartialEq, Eq, Structural)]
pub struct Run {
    /// How many jobs the worker invoked.
    pub jobs_run: usize,
    /// Why the loop stopped.
    pub stop: Stop,
}

/// One worker of a pool.
pub struct Worker {
    id: usize,
    thread: Option<ThreadHandle>,
}

impl Worker {
    /// The worker's id.
    pub closed spec fn spec_id(&self) -> usize {
        self.id
    }

    /// Where the worker is in its life cycle.
    pub closed spec fn spec_state(&self) -> WorkerState {
        match self.thread {
            Some(handle) => if handle.finished {
                WorkerState::Exited
            } else {
                WorkerState::Running
            },
            None => WorkerState::Joined,
        }
    }

    /// A worker whose thread has just started: its loop is live and its handle
    /// is in the slot.
    pub fn new(id: usize) -> (worker: Worker)
        ensures
            worker.id() == id,
            worker.state() is Running,
    {
        Worker { id, thread: Some(ThreadHandle { finished: false }) }
    }

    /// The worker's id.
    #[verifier::when_used_as_spec(spec_id)]
    pub fn id(&self) -> (id: usize)
        ensures
            id == self.spec_id(),
    {
        self.id
    }

    /// Where the worker is in its life cycle.
    #[verifier::when_used_as_spec(spec_state)]
    pub fn state(&self) -> (state: WorkerState)
        ensures
            state == self.spec_state(),
    {
        match &self.thread {
            Some(handle) => {
                if handle.finished {
                    WorkerState::Exited
                } else {
                    WorkerState::Running
                }
            },
            None => WorkerState::Joined,
        }
    }

    /// One pass of the worker's loop up to the point where a job would be
    /// invoked: the worker takes the oldest message, if it is still running and
    /// there is one. A job is handed to the caller, who invokes it; a stop
    /// marker ends the worker's loop for good. A worker that is no longer
    /// running takes nothing.
    pub fn receive<T>(&mut self, channel: &mut Channel<Message<T>>) -> (received: Result<T, Stop>)
        ensures
            final(self).id() == old(self).id(),
            final(channel).is_open() == old(channel).is_open(),
            old(self).state() !is Running ==> {
                &&& received == Err::<T, Stop>(Stop::Exited)
                &&& final(self).state() == old(self).state()
                &&& final(channel)@ == old(channel)@
            },
            old(self).state() is Running && old(channel)@.len() == 0 ==> {
                &&& received == Err::<T, Stop>(
                    if old(channel).is_open() {
                        Stop::Idle
                    } else {
                        Stop::Disconnected
                    },
                )
                &&& final(self).state() is Running
                &&& final(channel)@ == old(channel)@
            },
            old(self).state() is Running && old(channel)@.len() > 0 ==> {
                &&& final(channel)@ == old(channel)@.drop_first()
                &&& match old(channel)@[0] {
                    Message::NewJob(job) => received == Ok::<T, Stop>(job) && final(self).state()
                        is Running,
                    Message::Terminate => received == Err::<T, Stop>(Stop::Terminated)
                        && final(self).state() is Exited,
                }
            },
    {
        let running = match &self.thread {
            Some(handle) => !handle.finished,
            None => false,
        };
        if !running {
            return Err(Stop::Exited);
        }
        match channel.try_recv() {
            Ok(Message::NewJob(job)) => Ok(job),
            Ok(Message::Terminate) => {
                self.thread = Some(ThreadHandle { finished: true });
                Err(Stop::Terminated)
            },
            Err(TryRecvError::Empty) => Err(Stop::Idle),
            Err(TryRecvError::Disconnected) => Err(Stop::Disconnected),
        }
    }

    /// The worker's loop: receive, invoke, and again, until a receive hands out
    /// no job. Every job that stood before the first stop marker is invoked, in
    /// queue order; then the worker either takes that marker and exits, or finds
    /// the queue empty and stays live.
    pub fn run<F: FnOnce()>(&mut self, channel: &mut Channel<Message<F>>) -> (run: Run)
        requires
            forall|i: int|
                0 <= i < leading_jobs(old(channel)@) ==> call_requires(
                    #[trigger] old(channel)@[i]->NewJob_0,
                    (),
                ),
        ensures
            final(self).id() == old(self).id(),
            final(channel).is_open() == old(channel).is_open(),
            old(self).state() !is Running ==> {
                &&& run == (Run { jobs_run: 0, stop: Stop::Exited })
                &&& final(self).state() == old(self).state()
                &&& final(channel)@ == old(channel)@
            },
            old(self).state() is Running ==> {
                let jobs = leading_jobs(old(channel)@);
                &&& run.jobs_run == jobs
                &&& forall|i: int|
                    0 <= i < jobs ==> call_ensures(#[trigger] old(channel)@[i]->NewJob_0, (), ())
                &&& jobs < old(channel)@.len() ==> {
                    &&& run.stop == Stop::Terminated
                    &&& final(self).state() is Exited
                    &&& final(channel)@ == old(channel)@.skip(jobs as int + 1)
                }
                &&& jobs == old(channel)@.len() ==> {
                    &&& run.stop == if old(channel).is_open() {
                        Stop::Idle
                    } else {
                        Stop::Disconnected
                    }
                    &&& final(self).state() is Running
                    &&& final(channel)@ == Seq::<Message<F>>::empty()
                }
            },
    {
        let ghost queue = channel@;
        let in_flight = channel.len();
        let mut jobs_run: usize = 0;
        proof {
            lemma_leading_jobs(queue);
        }
        loop
            invariant
                self.id() == old(self).id(),
                self.state() == old(self).state(),
                channel.is_open() == old(channel).is_open(),
                queue == old(channel)@,
                in_flight == queue.len(),
                jobs_run <= leading_jobs(queue) <= queue.len(),
                old(self).state() !is Running ==> jobs_run == 0,
                channel@ == queue.skip(jobs_run as int),
                leading_jobs(queue) == jobs_run + leading_jobs(channel@),
                forall|i: int|
                    0 <= i < leading_jobs(queue) ==> call_requires(
                        #[trigger] queue[i]->NewJob_0,
                        (),
                    ),
                forall|i: int|
                    0 <= i < jobs_run ==> call_ensures(#[trigger] queue[i]->NewJob_0, (), ()),
            decreases channel@.len(),
        {
            let ghost before = channel@;
            match self.receive(channel) {
                Ok(job) => {
                    proof {
                        assert(before[0] == queue[jobs_run as int]);
                        assert(channel@ =~= queue.skip(jobs_run + 1));
                    }
                    job();
                    jobs_run = jobs_run + 1;
                },
                Err(stop) => {
                    proof {
                        if old(self).state() is Running && before.len() > 0 {
                            assert(before[0] == queue[jobs_run as int]);
                            assert(channel@ =~= queue.skip(jobs_run + 1));
                        } else {
                            assert(channel@ =~= queue.skip(jobs_run as int));
                        }
                    }
                    return Run { jobs_run, stop };
                },
            }
        }
    }

    /// Joins the worker's thread if the thread has run to its end: the handle
    /// leaves the slot and is used up. While the worker still runs, or once it
    /// has been joined, nothing happens.
    pub fn join(&mut self) -> (joined: bool)
        ensures
            final(self).id() == old(self).id(),
            joined == (old(self).state() is Exited),
            final(self).state() == if joined {
                WorkerState::Joined
            } else {
                old(self).state()
            },
    {
        let exited = match &self.thread {
            Some(handle) => handle.finished,
            None => false,
        };
        if exited {
            if let Some(thread) = self.thread.take() {
                thread.join();
            }
        }
        exited
    }
}

} // verus!
