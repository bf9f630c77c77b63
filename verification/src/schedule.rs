//! Schedules: what holds of a pool whatever order its moves come in.
//!
//! A schedule is any sequence of moves: submissions by any number of callers,
//! receive steps by any worker, the start of teardown, joins, the end of
//! teardown. A move that is not enabled in the state it meets changes nothing.
//! The lemmas here are stated for every schedule, so they hold of every
//! interleaving that threads can produce.

use crate::message::Message;
use crate::model::{
    count_markers,
    jobs_in,
    lemma_count_running_bound,
    lemma_count_running_extremes,
    lemma_queue_parts,
    PoolModel,
};
use vstd::prelude::*;

verus! {

/// One move of a pool.
pub enum Step<T> {
    /// A caller submits a job.
    Submit(T),
    /// The worker with this id makes one receive step.
    Receive(nat),
    /// The owner begins teardown.
    BeginShutdown,
    /// The owner tries to join the worker with this id.
    Join(nat),
    /// The owner completes teardown.
    Finish,
}

impl<T> PoolModel<T> {
    /// Whether `step` may be taken in this state.
    pub open spec fn enabled(self, step: Step<T>) -> bool {
        match step {
            Step::Submit(_) => self.state is Running,
            Step::Receive(id) => id < self.workers.len(),
            Step::BeginShutdown => self.state is Running,
            Step::Join(id) => id < self.workers.len(),
            Step::Finish => self.state is ShuttingDown && self.all_joined(),
        }
    }

    /// The state after `step`; a step that is not enabled changes nothing.
    pub open spec fn step(self, step: Step<T>) -> Self {
        if !self.enabled(step) {
            self
        } else {
            match step {
                Step::Submit(job) => self.submit(job),
                Step::Receive(id) => self.receive(id as int),
                Step::BeginShutdown => self.begin_shutdown(),
                Step::Join(id) => self.join(id as int),
                Step::Finish => self.finish(),
            }
        }
    }

    /// The state after every step of `schedule`, in order.
    pub open spec fn run(self, schedule: Seq<Step<T>>) -> Self
        decreases schedule.len(),
    {
        if schedule.len() == 0 {
            self
        } else {
            self.run(schedule.drop_last()).step(schedule.last())
        }
    }

    /// The jobs that the pool accepts along `schedule`: those of the
    /// submissions that meet a running pool, in order.
    pub open spec fn accepted(self, schedule: Seq<Step<T>>) -> Seq<T>
        decreases schedule.len(),
    {
        if schedule.len() == 0 {
            Seq::empty()
        } else {
            let before = self.accepted(schedule.drop_last());
            match schedule.last() {
                Step::Submit(job) => if self.run(schedule.drop_last()).state is Running {
                    before.push(job)
                } else {
                    before
                },
                _ => before,
            }
        }
    }

    /// Every step preserves the invariant, keeps the number of workers, and
    /// moves the life cycle forward by at most one state.
    pub proof fn lemma_step(self, step: Step<T>)
        requires
            self.wf(),
        ensures
            self.step(step).wf(),
            self.step(step).workers.len() == self.workers.len(),
            self.state.may_become(self.step(step).state),
            self.step(step).taken >= self.taken,
    {
        if self.enabled(step) {
            match step {
                Step::Submit(job) => {
                    self.lemma_submit_wf(job);
                },
                Step::Receive(id) => {
                    self.lemma_receive_wf(id as int);
                },
                Step::BeginShutdown => {
                    self.lemma_begin_shutdown_wf();
                },
                Step::Join(id) => {
                    self.lemma_join_wf(id as int);
                },
                Step::Finish => {
                    self.lemma_finish_wf();
                },
            }
        }
    }

    /// Along every schedule the invariant holds, the number of workers stays
    /// what it was, the life cycle never moves backwards, and the submission
    /// history grows by exactly the accepted jobs.
    pub proof fn lemma_run(self, schedule: Seq<Step<T>>)
        requires
            self.wf(),
        ensures
            self.run(schedule).wf(),
            self.run(schedule).workers.len() == self.workers.len(),
            self.state.rank() <= self.run(schedule).state.rank(),
            self.run(schedule).submitted == self.submitted + self.accepted(schedule),
            self.run(schedule).taken >= self.taken,
        decreases schedule.len(),
    {
        if schedule.len() == 0 {
            assert(self.submitted + Seq::<T>::empty() =~= self.submitted);
        } else {
            let before = self.run(schedule.drop_last());
            self.lemma_run(schedule.drop_last());
            before.lemma_step(schedule.last());
            assert(self.run(schedule).submitted =~= self.submitted + self.accepted(schedule));
        }
    }

    /// No job is lost and none is duplicated: the submission history splits
    /// into the jobs handed to workers, in submission order, and the jobs still
    /// queued, which are exactly the jobs in the queue.
    pub proof fn lemma_jobs_conserved(self)
        requires
            self.wf(),
        ensures
            self.submitted == self.dispatched() + self.pending(),
            jobs_in(self.queue) == self.pending(),
            self.dispatched().len() + self.pending().len() == self.submitted.len(),
    {
        assert(self.submitted =~= self.dispatched() + self.pending());
        lemma_queue_parts(self.pending(), self.owed_markers());
    }

    /// The stop markers add up: once teardown has begun, the markers in flight
    /// and the workers that have taken theirs are together as many as the
    /// workers. While the pool runs, no marker is in flight.
    pub proof fn lemma_markers_accounted(self)
        requires
            self.wf(),
        ensures
            self.live() <= self.workers.len(),
            self.state is Running ==> count_markers(self.queue) == 0,
            self.state !is Running ==> count_markers(self.queue) + (self.workers.len()
                - self.live()) == self.workers.len(),
    {
        lemma_count_running_bound(self.workers);
        lemma_queue_parts(self.pending(), self.owed_markers());
    }

    /// A terminated pool is drained: nothing is queued, every job ever
    /// submitted was handed to a worker, and every worker exited and was
    /// joined.
    pub proof fn lemma_terminated_is_drained(self)
        requires
            self.wf(),
            self.state is Terminated,
        ensures
            self.queue == Seq::<Message<T>>::empty(),
            self.dispatched() == self.submitted,
            self.all_joined(),
            self.live() == 0,
    {
        lemma_count_running_extremes(self.workers);
        assert(self.pending() =~= Seq::<T>::empty());
        assert(self.queue =~= Seq::<Message<T>>::empty());
        assert(self.dispatched() =~= self.submitted);
    }

    /// Teardown takes effect at most once: on a pool that has left `Running`,
    /// beginning teardown again changes nothing, and a submission is refused.
    pub proof fn lemma_teardown_is_one_shot(self, job: T)
        requires
            self.state !is Running,
        ensures
            self.step(Step::BeginShutdown) == self,
            self.step(Step::Submit(job)) == self,
    {
    }
}

/// Whatever the schedule, a pool of `size` workers that reaches `Terminated`
/// has handed out exactly the jobs it accepted, each once and in submission
/// order, has nothing left in its queue, and has joined all `size` workers.
pub proof fn lemma_every_schedule_runs_every_job<T>(size: nat, schedule: Seq<Step<T>>)
    requires
        size >= 1,
    ensures
        ({
            let end = PoolModel::<T>::init(size).run(schedule);
            let accepted = PoolModel::<T>::init(size).accepted(schedule);
            &&& end.wf()
            &&& end.workers.len() == size
            &&& end.submitted == accepted
            &&& end.dispatched() + end.pending() == accepted
            &&& end.state is Terminated ==> {
                &&& end.dispatched() == accepted
                &&& end.queue == Seq::<Message<T>>::empty()
                &&& forall|i: int| 0 <= i < size ==> end.workers[i] is Joined
            }
        }),
{
    let start = PoolModel::<T>::init(size);
    let end = start.run(schedule);
    PoolModel::<T>::lemma_init_wf(size);
    start.lemma_run(schedule);
    assert(start.submitted + start.accepted(schedule) =~= start.accepted(schedule));
    end.lemma_jobs_conserved();
    if end.state is Terminated {
        end.lemma_terminated_is_drained();
    }
}

/// Whatever the schedule, a pool that has left `Running` never runs again.
pub proof fn lemma_never_running_again<T>(pool: PoolModel<T>, schedule: Seq<Step<T>>)
    requires
        pool.wf(),
        pool.state !is Running,
    ensures
        pool.run(schedule).state !is Running,
{
    pool.lemma_run(schedule);
}

} // verus!
