//! What a worker does with one message.
//!
//! A worker is a long-lived thread that takes messages from the shared
//! dispatch channel until it is told to stop. Starting the thread and waiting
//! on the channel is the caller's part; what to do with a message, and with
//! a channel that has failed, is decided here.

use crate::orchestrator::ToOrchestratorMessage;
use crate::task::Task;
use vstd::prelude::*;

verus! {

/// A message from the orchestrator to whichever worker picks it up.
#[derive(Debug, PartialEq, Eq)]
pub enum ToWorkerMessage<P> {
    /// A task to compute.
    Task(Task<P>),
    /// The batch is over: the worker that receives this stops.
    Terminate,
}

/// What a worker found when it went to the dispatch channel for its next
/// message.
#[derive(Debug, PartialEq, Eq)]
pub enum Inbound<P> {
    /// A message.
    Message(ToWorkerMessage<P>),
    /// The channel is closed: the orchestrator is gone.
    Disconnected,
    /// The lock that guards the channel is poisoned: another worker failed
    /// while it held the lock.
    Poisoned,
}

/// Why a worker cannot go on. Each of these means that the pool is broken
/// beyond repair: the worker's thread must end loudly, never silently, or
/// the orchestrator would wait for a worker that is not there.
#[derive(Debug, Clone, Copy, PartialEq, Eq, Structural)]
pub enum WorkerError {
    /// The lock that guards the dispatch channel is poisoned.
    DispatchLockPoisoned,
    /// The dispatch channel was closed before the termination signal came.
    DispatchChannelClosed,
    /// The result channel is closed: a result could not be sent.
    ResultChannelClosed,
}

impl WorkerError {
    /// What went wrong, in words.
    pub open spec fn spec_message(self) -> Seq<char> {
        match self {
            WorkerError::DispatchLockPoisoned => "Worker: mutex to receive message to worker in a poisoned state."@,
            WorkerError::DispatchChannelClosed => "Worker: sending side of channel to worker is down."@,
            WorkerError::ResultChannelClosed => "Worker: receiving side of channel to orchestrator down."@,
        }
    }

    /// What went wrong, in words, for the diagnostic with which the worker's
    /// thread ends.
    pub fn message(&self) -> (text: &'static str)
        ensures
            text@ == self.spec_message(),
    {
        match self {
            WorkerError::DispatchLockPoisoned => "Worker: mutex to receive message to worker in a poisoned state.",
            WorkerError::DispatchChannelClosed => "Worker: sending side of channel to worker is down.",
            WorkerError::ResultChannelClosed => "Worker: receiving side of channel to orchestrator down.",
        }
    }
}

/// One worker of the pool. Its id tells it apart in diagnostics and plays no
/// part in which tasks it gets. It keeps nothing from one task to the next.
pub struct Worker {
    id: usize,
    stopped: bool,
}

impl Worker {
    /// The worker's id, fixed when it was created.
    pub closed spec fn spec_id(&self) -> usize {
        self.id
    }

    /// Whether the worker has stopped: it has received the termination
    /// signal, or a channel has failed.
    pub closed spec fn spec_is_stopped(&self) -> bool {
        self.stopped
    }

    /// A worker with the given id, ready for its first message.
    pub fn new(id: usize) -> (worker: Worker)
        ensures
            worker.spec_id() == id,
            !worker.spec_is_stopped(),
    {
        Worker { id, stopped: false }
    }

    /// The worker's id.
    #[verifier::when_used_as_spec(spec_id)]
    pub fn id(&self) -> (id: usize)
        ensures
            id == self.spec_id(),
    {
        self.id
    }

    /// Whether the worker has stopped. A stopped worker reads no further
    /// message.
    #[verifier::when_used_as_spec(spec_is_stopped)]
    pub fn is_stopped(&self) -> (stopped: bool)
        ensures
            stopped == self.spec_is_stopped(),
    {
        self.stopped
    }

    /// Carries out one message. For a task, `compute` is run on its
    /// parameters, to the end, and the reply to send back holds what it
    /// returned under the task's id. For the termination signal there is no
    /// reply, and the worker is stopped from then on.
    pub fn handle<P, R, F: Fn(P) -> R>(
        &mut self,
        message: ToWorkerMessage<P>,
        compute: &F,
    ) -> (reply: Option<ToOrchestratorMessage<R>>)
        requires
            !old(self).is_stopped(),
            message matches ToWorkerMessage::Task(task) ==> compute.requires((task.params,)),
        ensures
            final(self).id() == old(self).id(),
            final(self).is_stopped() == (message is Terminate),
            match message {
                ToWorkerMessage::Task(task) => {
                    &&& reply matches Some(ToOrchestratorMessage::TaskResult(result))
                    &&& result.id == task.id
                    &&& compute.ensures((task.params,), result.output)
                },
                ToWorkerMessage::Terminate => reply is None,
            },
    {
        match message {
            ToWorkerMessage::Task(task) => Some(
                ToOrchestratorMessage::TaskResult(task.run(compute)),
            ),
            ToWorkerMessage::Terminate => {
                self.stopped = true;
                None
            },
        }
    }

    /// Takes in what the worker found at the dispatch channel. A message is
    /// carried out as `handle` says. A closed channel or a poisoned lock
    /// stops the worker with an error.
    pub fn take_inbound<P, R, F: Fn(P) -> R>(
        &mut self,
        inbound: Inbound<P>,
        compute: &F,
    ) -> (outcome: Result<Option<ToOrchestratorMessage<R>>, WorkerError>)
        requires
            !old(self).is_stopped(),
            inbound matches Inbound::Message(ToWorkerMessage::Task(task)) ==> compute.requires(
                (task.params,),
            ),
        ensures
            final(self).id() == old(self).id(),
            match inbound {
                Inbound::Message(ToWorkerMessage::Task(task)) => {
                    &&& outcome matches Ok(Some(ToOrchestratorMessage::TaskResult(result)))
                    &&& result.id == task.id
                    &&& compute.ensures((task.params,), result.output)
                    &&& !final(self).is_stopped()
                },
                Inbound::Message(ToWorkerMessage::Terminate) => {
                    &&& outcome matches Ok(None)
                    &&& final(self).is_stopped()
                },
                Inbound::Disconnected => {
                    &&& outcome matches Err(WorkerError::DispatchChannelClosed)
                    &&& final(self).is_stopped()
                },
                Inbound::Poisoned => {
                    &&& outcome matches Err(WorkerError::DispatchLockPoisoned)
                    &&& final(self).is_stopped()
                },
            },
    {
        match inbound {
            Inbound::Message(message) => Ok(self.handle(message, compute)),
            Inbound::Disconnected => {
                self.stopped = true;
                Err(WorkerError::DispatchChannelClosed)
            },
            Inbound::Poisoned => {
                self.stopped = true;
                Err(WorkerError::DispatchLockPoisoned)
            },
        }
    }

    /// Takes in whether a reply could be sent to the orchestrator. If it
    /// could not, the orchestrator is gone, and the worker stops with an
    /// error.
    pub fn reply_sent(&mut self, sent: bool) -> (outcome: Result<(), WorkerError>)
        requires
            !old(self).is_stopped(),
        ensures
            final(self).id() == old(self).id(),
            final(self).is_stopped() == !sent,
            sent ==> outcome is Ok,
            !sent ==> outcome == Err::<(), WorkerError>(WorkerError::ResultChannelClosed),
    {
        if sent {
            Ok(())
        } else {
            self.stopped = true;
            Err(WorkerError::ResultChannelClosed)
        }
    }
}

} // verus!
