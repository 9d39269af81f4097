//! The scheduling state of a fixed-size worker pool: a queue of messages, the
//! state of each worker, and the steps that move jobs from the queue to the
//! workers. The threads that run the jobs live outside; each of their steps
//! on the shared state is one call here.

use crate::worker::Action;
use crate::worker::JobOutcome;
use crate::worker::Message;
use crate::worker::Worker;
use crate::worker::WorkerState;
use std::collections::VecDeque;
use vstd::prelude::*;

verus! {

/// How many workers are in `state`.
pub open spec fn count(states: Seq<WorkerState>, state: WorkerState) -> nat
    decreases states.len(),
{
    if states.len() == 0 {
        0
    } else {
        count(states.drop_last(), state) + if states.last() == state {
            1nat
        } else {
            0nat
        }
    }
}

/// A queue that holds the given jobs, in order, and behind them the given
/// number of terminate notices.
pub open spec fn queue_of<J>(jobs: Seq<J>, notices: nat) -> Seq<Message<J>> {
    jobs.map_values(|job: J| Message::NewJob(job)) + Seq::new(
        notices,
        |i: int| Message::<J>::Terminate,
    )
}

/// The pool as its users and its workers see it, with the history of the
/// jobs that went through it.
pub struct PoolView<J> {
    /// The state of each worker, by identifier.
    pub states: Seq<WorkerState>,
    /// The messages that no worker has claimed yet, oldest first.
    pub queue: Seq<Message<J>>,
    /// Whether shutdown was requested.
    pub closing: bool,
    /// Every job accepted so far, in the order of submission.
    pub submitted: Seq<J>,
    /// Every job handed to a worker so far, in the order of the hand-over.
    pub started: Seq<J>,
    /// How many jobs have ended.
    pub finished: nat,
    /// How many of the ended jobs ended in a fault.
    pub faults: nat,
}

impl<J> PoolView<J> {
    /// The number of workers.
    pub open spec fn size(self) -> nat {
        self.states.len()
    }

    /// The number of workers that run a job.
    pub open spec fn running(self) -> nat {
        count(self.states, WorkerState::Running)
    }

    /// The number of workers that have stopped.
    pub open spec fn stopped(self) -> nat {
        count(self.states, WorkerState::Stopped)
    }

    /// Whether every worker has stopped.
    pub open spec fn all_stopped(self) -> bool {
        self.stopped() == self.size()
    }

    /// The accepted jobs that no worker has taken yet.
    pub open spec fn waiting(self) -> Seq<J> {
        self.submitted.skip(self.started.len() as int)
    }

    /// The terminate notices that no worker has taken yet: none before
    /// shutdown, then one for each worker that has not stopped.
    pub open spec fn notices(self) -> nat {
        if self.closing {
            (self.size() - self.stopped()) as nat
        } else {
            0
        }
    }

    /// An upper bound on the steps that the workers can still take on what
    /// the queue holds now: two for each queued message, one for each
    /// running job.
    pub open spec fn steps_left(self) -> nat {
        2 * self.queue.len() + self.running()
    }

    /// What holds of the pool in every state that it can reach.
    pub open spec fn inv(self) -> bool {
        &&& self.size() > 0
        &&& self.started.is_prefix_of(self.submitted)
        &&& self.queue == queue_of(self.waiting(), self.notices())
        &&& self.stopped() > 0 ==> self.closing && self.waiting().len() == 0
        &&& self.finished + self.running() == self.started.len()
        &&& self.faults <= self.finished
    }

    /// A pool of `size` idle workers, through which no job has gone yet.
    pub open spec fn fresh(size: nat) -> PoolView<J> {
        PoolView {
            states: Seq::new(size, |i: int| WorkerState::Idle),
            queue: Seq::empty(),
            closing: false,
            submitted: Seq::empty(),
            started: Seq::empty(),
            finished: 0,
            faults: 0,
        }
    }

    /// The pool after it has accepted `job`.
    pub open spec fn submit(self, job: J) -> PoolView<J> {
        PoolView {
            queue: self.queue.push(Message::NewJob(job)),
            submitted: self.submitted.push(job),
            ..self
        }
    }

    /// The pool after shutdown was requested: one terminate notice for each
    /// worker goes to the back of the queue. A second request changes
    /// nothing.
    pub open spec fn close(self) -> PoolView<J> {
        if self.closing {
            self
        } else {
            PoolView {
                queue: self.queue + Seq::new(self.size(), |i: int| Message::<J>::Terminate),
                closing: true,
                ..self
            }
        }
    }

    /// The pool after worker `id` has taken the oldest message.
    pub open spec fn claim(self, id: int) -> PoolView<J>
        recommends
            0 <= id < self.size(),
            self.queue.len() > 0,
    {
        PoolView {
            states: self.states.update(id, self.queue[0].next_state()),
            queue: self.queue.drop_first(),
            started: match self.queue[0] {
                Message::NewJob(job) => self.started.push(job),
                Message::Terminate => self.started,
            },
            ..self
        }
    }

    /// The pool after the job of worker `id` has ended.
    pub open spec fn complete(self, id: int, outcome: JobOutcome) -> PoolView<J>
        recommends
            0 <= id < self.size(),
    {
        PoolView {
            states: self.states.update(id, WorkerState::Idle),
            finished: self.finished + 1,
            faults: if outcome == JobOutcome::Faulted {
                self.faults + 1
            } else {
                self.faults
            },
            ..self
        }
    }
}

/// No more workers are in a state than there are workers.
pub proof fn lemma_count_bounded(states: Seq<WorkerState>, state: WorkerState)
    ensures
        count(states, state) <= states.len(),
    decreases states.len(),
{
    if states.len() > 0 {
        lemma_count_bounded(states.drop_last(), state);
    }
}

/// Every worker is in a state exactly when the count of that state is the
/// number of workers, and none is exactly when the count is zero.
pub proof fn lemma_count_extremes(states: Seq<WorkerState>, state: WorkerState)
    ensures
        count(states, state) == states.len() <==> forall|i: int|
            0 <= i < states.len() ==> #[trigger] states[i] == state,
        count(states, state) == 0 <==> forall|i: int|
            0 <= i < states.len() ==> #[trigger] states[i] != state,
    decreases states.len(),
{
    if states.len() > 0 {
        let front = states.drop_last();
        lemma_count_extremes(front, state);
        lemma_count_bounded(front, state);
        if count(states, state) == states.len() {
            assert forall|i: int| 0 <= i < states.len() implies #[trigger] states[i] == state by {
                if i < front.len() {
                    assert(front[i] == states[i]);
                }
            }
        }
        if forall|i: int| 0 <= i < states.len() ==> #[trigger] states[i] == state {
            assert forall|i: int| 0 <= i < front.len() implies #[trigger] front[i] == state by {
                assert(front[i] == states[i]);
            }
        }
        if count(states, state) == 0 {
            assert forall|i: int| 0 <= i < states.len() implies #[trigger] states[i] != state by {
                if i < front.len() {
                    assert(front[i] == states[i]);
                }
            }
        }
        if forall|i: int| 0 <= i < states.len() ==> #[trigger] states[i] != state {
            assert forall|i: int| 0 <= i < front.len() implies #[trigger] front[i] != state by {
                assert(front[i] == states[i]);
            }
        }
    }
}

/// Moving one worker to another state takes one from the count of the state
/// it leaves and adds one to the count of the state it enters.
pub proof fn lemma_count_update(
    states: Seq<WorkerState>,
    i: int,
    next: WorkerState,
    state: WorkerState,
)
    requires
        0 <= i < states.len(),
    ensures
        count(states.update(i, next), state) + (if states[i] == state {
            1nat
        } else {
            0nat
        }) == count(states, state) + (if next == state {
            1nat
        } else {
            0nat
        }),
    decreases states.len(),
{
    let after = states.update(i, next);
    if i == states.len() - 1 {
        assert(after.drop_last() =~= states.drop_last());
    } else {
        lemma_count_update(states.drop_last(), i, next, state);
        assert(after.drop_last() =~= states.drop_last().update(i, next));
    }
}

/// A new pool is in a state that it can reach.
pub proof fn lemma_fresh_pool<J>(size: nat)
    requires
        size > 0,
    ensures
        PoolView::<J>::fresh(size).inv(),
        PoolView::<J>::fresh(size).size() == size,
        PoolView::<J>::fresh(size).running() == 0,
        PoolView::<J>::fresh(size).stopped() == 0,
{
    let pool = PoolView::<J>::fresh(size);
    lemma_count_extremes(pool.states, WorkerState::Running);
    lemma_count_extremes(pool.states, WorkerState::Stopped);
    assert(pool.queue =~= queue_of(pool.waiting(), pool.notices()));
}

/// Accepting a job keeps the pool in a state that it can reach, and changes
/// neither the workers nor the jobs that went before.
pub proof fn lemma_submit<J>(pool: PoolView<J>, job: J)
    requires
        pool.inv(),
        !pool.closing,
    ensures
        pool.submit(job).inv(),
        pool.submit(job).size() == pool.size(),
        pool.submit(job).waiting() == pool.waiting().push(job),
{
    let after = pool.submit(job);
    assert(after.waiting() =~= pool.waiting().push(job));
    assert(after.queue =~= queue_of(after.waiting(), after.notices()));
}

/// A request for shutdown keeps the pool in a state that it can reach: the
/// workers stay as they are and every job accepted before stays ahead of the
/// terminate notices.
pub proof fn lemma_close<J>(pool: PoolView<J>)
    requires
        pool.inv(),
    ensures
        pool.close().inv(),
        pool.close().closing,
        pool.close().size() == pool.size(),
        pool.close().waiting() == pool.waiting(),
{
    let after = pool.close();
    if !pool.closing {
        assert(after.queue =~= queue_of(after.waiting(), after.notices()));
    }
}

/// An idle worker that takes the oldest message keeps the pool in a state
/// that it can reach. While jobs wait, the message is the job that has
/// waited longest; the worker stops only when no job waits any more.
pub proof fn lemma_claim<J>(pool: PoolView<J>, id: int)
    requires
        pool.inv(),
        0 <= id < pool.size(),
        pool.states[id] == WorkerState::Idle,
        pool.queue.len() > 0,
    ensures
        pool.claim(id).inv(),
        pool.claim(id).size() == pool.size(),
        pool.claim(id).steps_left() < pool.steps_left(),
        pool.waiting().len() > 0 ==> pool.queue[0] == Message::NewJob(pool.waiting()[0]),
        pool.waiting().len() == 0 ==> pool.queue[0] == Message::<J>::Terminate,
{
    let after = pool.claim(id);
    let head = pool.queue[0];
    lemma_count_update(pool.states, id, head.next_state(), WorkerState::Running);
    lemma_count_update(pool.states, id, head.next_state(), WorkerState::Stopped);
    lemma_count_bounded(pool.states, WorkerState::Stopped);
    if pool.waiting().len() > 0 {
        let job = pool.waiting()[0];
        assert(head == Message::NewJob(job));
        assert(after.started =~= pool.submitted.take(after.started.len() as int));
        assert(after.waiting() =~= pool.waiting().drop_first());
        assert(after.queue =~= queue_of(after.waiting(), after.notices()));
    } else {
        assert(head == Message::<J>::Terminate);
        assert(pool.closing);
        assert(after.waiting() =~= pool.waiting());
        assert(after.queue =~= queue_of(after.waiting(), after.notices()));
    }
}

/// The end of a job keeps the pool in a state that it can reach and makes
/// its worker idle again, whether or not the job ended in a fault.
pub proof fn lemma_complete<J>(pool: PoolView<J>, id: int, outcome: JobOutcome)
    requires
        pool.inv(),
        0 <= id < pool.size(),
        pool.states[id] == WorkerState::Running,
    ensures
        pool.complete(id, outcome).inv(),
        pool.complete(id, outcome).size() == pool.size(),
        pool.complete(id, outcome).states[id] == WorkerState::Idle,
        pool.complete(id, outcome).steps_left() < pool.steps_left(),
{
    lemma_count_update(pool.states, id, WorkerState::Idle, WorkerState::Running);
    lemma_count_update(pool.states, id, WorkerState::Idle, WorkerState::Stopped);
}

/// The scheduling state of a pool of a fixed number of workers. Users hand
/// jobs in, workers take messages out, one at a time and oldest first, and a
/// request for shutdown sends every worker one terminate notice.
pub struct ThreadPool<J> {
    workers: Vec<Worker>,
    queue: VecDeque<Message<J>>,
    closing: bool,
    faults: usize,
    submitted: Ghost<Seq<J>>,
    started: Ghost<Seq<J>>,
    finished: Ghost<nat>,
    faulted: Ghost<nat>,
}

impl<J> View for ThreadPool<J> {
    type V = PoolView<J>;

    closed spec fn view(&self) -> PoolView<J> {
        PoolView {
            states: self.workers@.map_values(|worker: Worker| worker.state()),
            queue: self.queue@,
            closing: self.closing,
            submitted: self.submitted@,
            started: self.started@,
            finished: self.finished@,
            faults: self.faulted@,
        }
    }
}

impl<J> ThreadPool<J> {
    /// Whether the stored workers and counters agree with what the view
    /// shows: each worker carries its index as identifier, and the fault
    /// counter holds the number of faults as far as it can count.
    pub closed spec fn consistent(&self) -> bool {
        &&& forall|i: int| 0 <= i < self.workers@.len() ==> (#[trigger] self.workers@[i]).id() == i
        &&& self.faults == if self.faulted@ <= usize::MAX {
            self.faulted@
        } else {
            usize::MAX as nat
        }
    }

    /// Whether the pool is in a state that it can reach.
    pub open spec fn wf(&self) -> bool {
        self.consistent() && self@.inv()
    }

    /// Create a new ThreadPool.
    ///
    /// The size is the number of workers of the pool; it must not be zero.
    pub fn new(size: usize) -> (pool: ThreadPool<J>)
        requires
            size > 0,
        ensures
            pool.wf(),
            pool@ == PoolView::<J>::fresh(size as nat),
    {
        let mut workers: Vec<Worker> = Vec::with_capacity(size);
        let mut id: usize = 0;
        while id < size
            invariant
                id <= size,
                workers@.len() == id,
                forall|i: int|
                    0 <= i < id ==> (#[trigger] workers@[i]).id() == i && workers@[i].state()
                        == WorkerState::Idle,
            decreases size - id,
        {
            workers.push(Worker::new(id));
            id += 1;
        }
        let pool = ThreadPool {
            workers,
            queue: VecDeque::new(),
            closing: false,
            faults: 0,
            submitted: Ghost(Seq::empty()),
            started: Ghost(Seq::empty()),
            finished: Ghost(0),
            faulted: Ghost(0),
        };
        proof {
            lemma_fresh_pool::<J>(size as nat);
            assert(pool@.states =~= PoolView::<J>::fresh(size as nat).states);
        }
        pool
    }

    /// The number of workers, which never changes.
    pub fn size(&self) -> (size: usize)
        ensures
            size == self@.size(),
    {
        self.workers.len()
    }

    /// Whether shutdown was requested.
    pub fn is_closing(&self) -> (closing: bool)
        ensures
            closing == self@.closing,
    {
        self.closing
    }

    /// The number of messages that no worker has claimed yet.
    pub fn pending(&self) -> (pending: usize)
        ensures
            pending == self@.queue.len(),
    {
        self.queue.len()
    }

    /// The state of worker `id`, or `None` where the pool has no such
    /// worker.
    pub fn state_of(&self, id: usize) -> (state: Option<WorkerState>)
        ensures
            state == if id < self@.size() {
                Some(self@.states[id as int])
            } else {
                None
            },
    {
        if id < self.workers.len() {
            Some(self.workers[id].state())
        } else {
            None
        }
    }

    /// The number of faults recorded, up to the largest number that the
    /// counter holds.
    pub fn fault_count(&self) -> (faults: usize)
        requires
            self.wf(),
        ensures
            faults == if self@.faults <= usize::MAX {
                self@.faults
            } else {
                usize::MAX as nat
            },
    {
        self.faults
    }

    /// The number of workers in `state`.
    pub fn count_in(&self, state: WorkerState) -> (found: usize)
        ensures
            found == count(self@.states, state),
    {
        let mut found: usize = 0;
        let mut i: usize = 0;
        while i < self.workers.len()
            invariant
                i <= self.workers@.len(),
                found == count(self@.states.take(i as int), state),
                found <= i,
            decreases self.workers.len() - i,
        {
            proof {
                let upto = self@.states.take(i + 1);
                assert(upto.drop_last() =~= self@.states.take(i as int));
                assert(upto.last() == self.workers@[i as int].state());
            }
            if self.workers[i].state() == state {
                found += 1;
            }
            i += 1;
        }
        assert(self@.states.take(i as int) =~= self@.states);
        found
    }

    /// The number of jobs in execution: one for each running worker, so
    /// never more than the pool has workers.
    pub fn running(&self) -> (running: usize)
        requires
            self.wf(),
        ensures
            running == self@.running(),
            running == self@.started.len() - self@.finished,
            running <= self@.size(),
    {
        proof {
            lemma_count_bounded(self@.states, WorkerState::Running);
        }
        self.count_in(WorkerState::Running)
    }

    /// Whether every worker has stopped: the condition on which teardown may
    /// return.
    pub fn all_stopped(&self) -> (stopped: bool)
        ensures
            stopped == self@.all_stopped(),
    {
        self.count_in(WorkerState::Stopped) == self.workers.len()
    }

    /// Hands a job in for whichever worker is free first. The queue has no
    /// bound, so a submission never waits. A pool that is shutting down
    /// accepts no more work and hands the job back.
    pub fn execute(&mut self, job: J) -> (accepted: Result<(), J>)
        requires
            old(self).wf(),
        ensures
            final(self).wf(),
            old(self)@.closing ==> accepted == Err::<(), J>(job) && final(self)@ == old(self)@,
            !old(self)@.closing ==> accepted is Ok && final(self)@ == old(self)@.submit(job),
    {
        if self.closing {
            return Err(job);
        }
        proof {
            lemma_submit(self@, job);
            self.submitted@ = self.submitted@.push(job);
        }
        self.queue.push_back(Message::NewJob(job));
        Ok(())
    }

    /// Requests shutdown: one terminate notice for each worker goes to the
    /// back of the queue, behind every job accepted so far. A second request
    /// changes nothing.
    pub fn shutdown(&mut self)
        requires
            old(self).wf(),
        ensures
            final(self).wf(),
            final(self)@ == old(self)@.close(),
    {
        if self.closing {
            return ;
        }
        proof {
            lemma_close(self@);
        }
        let size = self.workers.len();
        let mut sent: usize = 0;
        while sent < size
            invariant
                sent <= size,
                size == self.workers@.len(),
                self.workers == old(self).workers,
                self.closing == old(self).closing,
                self.faults == old(self).faults,
                self.submitted == old(self).submitted,
                self.started == old(self).started,
                self.finished == old(self).finished,
                self.faulted == old(self).faulted,
                self.queue@ == old(self).queue@ + Seq::new(
                    sent as nat,
                    |i: int| Message::<J>::Terminate,
                ),
            decreases size - sent,
        {
            self.queue.push_back(Message::Terminate);
            sent += 1;
            assert(self.queue@ =~= old(self).queue@ + Seq::new(
                sent as nat,
                |i: int| Message::<J>::Terminate,
            ));
        }
        self.closing = true;
        assert(self@.queue =~= old(self)@.close().queue);
    }

    /// Worker `id`, which is idle, asks for work. Where the queue is empty
    /// it gets none and goes on waiting. Otherwise it takes the oldest
    /// message: a job, which it now runs, or a terminate notice, on which it
    /// stops for good.
    pub fn claim(&mut self, id: usize) -> (action: Option<Action<J>>)
        requires
            old(self).wf(),
            id < old(self)@.size(),
            old(self)@.states[id as int] == WorkerState::Idle,
        ensures
            final(self).wf(),
            old(self)@.queue.len() == 0 ==> action is None && final(self)@ == old(self)@,
            old(self)@.queue.len() > 0 ==> action == Some(old(self)@.queue[0].action())
                && final(self)@ == old(self)@.claim(id as int),
    {
        match self.queue.pop_front() {
            None => None,
            Some(message) => {
                proof {
                    lemma_claim(old(self)@, id as int);
                    self.started@ = old(self)@.claim(id as int).started;
                }
                let action = self.workers[id].receive(message);
                proof {
                    assert(self@.states =~= old(self)@.claim(id as int).states);
                    assert(self@.queue =~= old(self)@.claim(id as int).queue);
                }
                Some(action)
            },
        }
    }

    /// Worker `id`, which runs a job, reports that the job has ended. The
    /// worker is idle again whether the job completed or faulted; a fault
    /// is counted.
    pub fn complete(&mut self, id: usize, outcome: JobOutcome)
        requires
            old(self).wf(),
            id < old(self)@.size(),
            old(self)@.states[id as int] == WorkerState::Running,
        ensures
            final(self).wf(),
            final(self)@ == old(self)@.complete(id as int, outcome),
    {
        proof {
            lemma_complete(old(self)@, id as int, outcome);
            self.finished@ = self.finished@ + 1;
        }
        match outcome {
            JobOutcome::Faulted => {
                proof {
                    self.faulted@ = self.faulted@ + 1;
                }
                if self.faults < usize::MAX {
                    self.faults += 1;
                }
            },
            JobOutcome::Completed => {},
        }
        self.workers[id].finish();
        proof {
            assert(self@.states =~= old(self)@.complete(id as int, outcome).states);
        }
    }
}

/// A pool never has more jobs in execution than it has workers: the jobs
/// handed out and not yet ended are as many as the running workers.
pub proof fn lemma_jobs_in_execution_bounded<J>(pool: PoolView<J>)
    requires
        pool.inv(),
    ensures
        pool.started.len() - pool.finished == pool.running(),
        pool.running() <= pool.size(),
{
    lemma_count_bounded(pool.states, WorkerState::Running);
}

/// Every accepted job is either handed out or still waiting in the queue,
/// once and in the order of submission: nothing is delivered twice and
/// nothing is lost.
pub proof fn lemma_jobs_are_conserved<J>(pool: PoolView<J>)
    requires
        pool.inv(),
    ensures
        pool.submitted == pool.started + pool.waiting(),
        pool.queue == queue_of(pool.waiting(), pool.notices()),
{
    assert(pool.submitted =~= pool.started + pool.waiting());
}

/// Once every worker has stopped, each job that the pool accepted has been
/// handed to a worker exactly once and has ended, and nothing is left in the
/// queue.
pub proof fn lemma_every_job_ran_once<J>(pool: PoolView<J>)
    requires
        pool.inv(),
        pool.all_stopped(),
    ensures
        pool.closing,
        pool.started == pool.submitted,
        pool.finished == pool.submitted.len(),
        pool.running() == 0,
        pool.queue.len() == 0,
{
    lemma_count_extremes(pool.states, WorkerState::Stopped);
    lemma_count_extremes(pool.states, WorkerState::Running);
    assert(pool.started =~= pool.submitted);
}

/// A pool that is shutting down never leaves a worker waiting for nothing:
/// while a worker is idle the queue holds a message for it, and when no step
/// is left every worker has stopped.
pub proof fn lemma_shutdown_reaches_every_worker<J>(pool: PoolView<J>)
    requires
        pool.inv(),
        pool.closing,
    ensures
        forall|id: int|
            0 <= id < pool.size() && #[trigger] pool.states[id] == WorkerState::Idle
                ==> pool.queue.len() > 0,
        pool.steps_left() == 0 ==> pool.all_stopped(),
        pool.queue.len() == pool.waiting().len() + pool.size() - pool.stopped(),
{
    lemma_count_bounded(pool.states, WorkerState::Stopped);
    lemma_count_extremes(pool.states, WorkerState::Stopped);
}

} // verus!
