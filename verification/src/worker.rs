//! A worker of the pool: the messages it receives and the states it moves
//! through.

use vstd::prelude::*;

verus! {

/// What travels through the job channel. Each message is delivered to one
/// worker.
#[derive(Debug, PartialEq, Eq)]
pub enum Message<J> {
    /// A job to run.
    NewJob(J),
    /// The notice that makes the worker that receives it stop.
    Terminate,
}

/// Where a worker stands. A worker waits while idle, runs one job at a time,
/// and never leaves the stopped state.
#[derive(Debug, Copy, Clone, PartialEq, Eq, Structural)]
pub enum WorkerState {
    Idle,
    Running,
    Stopped,
}

/// What a worker does with the message it received.
#[derive(Debug, PartialEq, Eq)]
pub enum Action<J> {
    /// Run the job, then report how it ended.
    Run(J),
    /// Leave the service loop.
    Exit,
}

/// How a job ended. A fault ends the job, not the worker that ran it.
#[derive(Debug, Copy, Clone, PartialEq, Eq, Structural)]
pub enum JobOutcome {
    Completed,
    Faulted,
}

impl<J> Message<J> {
    /// The state that an idle worker enters when it receives the message.
    pub open spec fn next_state(self) -> WorkerState {
        match self {
            Message::NewJob(_) => WorkerState::Running,
            Message::Terminate => WorkerState::Stopped,
        }
    }

    /// What the worker that receives the message does.
    pub open spec fn action(self) -> Action<J> {
        match self {
            Message::NewJob(job) => Action::Run(job),
            Message::Terminate => Action::Exit,
        }
    }
}

/// One slot of the pool: an identifier and the state of the thread that
/// serves the slot.
#[derive(Debug, Copy, Clone)]
pub struct Worker {
    id: usize,
    state: WorkerState,
}

impl Worker {
    pub closed spec fn spec_id(&self) -> usize {
        self.id
    }

    pub closed spec fn spec_state(&self) -> WorkerState {
        self.state
    }

    /// A worker that waits for its first message.
    pub fn new(id: usize) -> (worker: Worker)
        ensures
            worker.id() == id,
            worker.state() == WorkerState::Idle,
    {
        Worker { id, state: WorkerState::Idle }
    }

    #[verifier::when_used_as_spec(spec_id)]
    pub fn id(&self) -> (id: usize)
        ensures
            id == self.spec_id(),
    {
        self.id
    }

    #[verifier::when_used_as_spec(spec_state)]
    pub fn state(&self) -> (state: WorkerState)
        ensures
            state == self.spec_state(),
    {
        self.state
    }

    /// Takes a message off the channel: a job sets the worker running, a
    /// terminate notice stops it for good. Only an idle worker receives.
    pub fn receive<J>(&mut self, message: Message<J>) -> (action: Action<J>)
        requires
            old(self).state() == WorkerState::Idle,
        ensures
            final(self).id() == old(self).id(),
            final(self).state() == message.next_state(),
            action == message.action(),
    {
        match message {
            Message::NewJob(job) => {
                self.state = WorkerState::Running;
                Action::Run(job)
            },
            Message::Terminate => {
                self.state = WorkerState::Stopped;
                Action::Exit
            },
        }
    }

    /// Ends the job that the worker runs and makes the worker idle again.
    pub fn finish(&mut self)
        requires
            old(self).state() == WorkerState::Running,
        ensures
            final(self).id() == old(self).id(),
            final(self).state() == WorkerState::Idle,
    {
        self.state = WorkerState::Idle;
    }
}

} // verus!
