//! The orchestrator: the one coordinator that owns the backlog, hands tasks
//! to idle workers, collects their results and shuts the pool down in order.

use crate::channel::{
    logical_cpus, open_channel, recv_message, send_message, try_recv_message, Polled,
};
use crate::model::{lemma_initial_wf, Phase, PoolView};
use crate::sorting::{is_sort_of, sort_by_id, sorted_by_id};
use crate::task::{counts_up, result_ids, task_ids, Task, TaskResult};
use crate::worker::{ToWorkerMessage, Worker};
use std::collections::VecDeque;
use std::sync::mpsc::{Receiver, Sender};
use vstd::multiset::Multiset;
use vstd::prelude::*;

verus! {

/// A message from a worker to the orchestrator.
#[derive(Debug, PartialEq, Eq)]
pub enum ToOrchestratorMessage<R> {
    /// A finished task's result. The worker that sent it is idle again.
    TaskResult(TaskResult<R>),
}

impl<R> ToOrchestratorMessage<R> {
    /// The result that the message carries.
    pub open spec fn result(self) -> TaskResult<R> {
        self->0
    }
}

/// Why a batch was given up, by the part of the pool that failed.
#[derive(Debug, Clone, Copy, PartialEq, Eq, Structural)]
pub enum PoolError {
    /// A task could not be handed out: no worker listens on the dispatch
    /// channel any more.
    Dispatch,
    /// Collecting results failed: the result channel closed while tasks were
    /// still out, or a result arrived for a task that was not out.
    ResultCollection,
    /// Stopping the pool failed: a termination signal could not be sent, or a
    /// worker did not exit cleanly.
    Shutdown,
}

impl PoolError {
    /// The name of the part of the pool that failed.
    pub open spec fn spec_subsystem(self) -> Seq<char> {
        match self {
            PoolError::Dispatch => "dispatch"@,
            PoolError::ResultCollection => "result collection"@,
            PoolError::Shutdown => "shutdown join"@,
        }
    }

    /// The name of the part of the pool that failed, for diagnostics.
    pub fn subsystem(&self) -> (name: &'static str)
        ensures
            name@ == self.spec_subsystem(),
    {
        match self {
            PoolError::Dispatch => "dispatch",
            PoolError::ResultCollection => "result collection",
            PoolError::Shutdown => "shutdown join",
        }
    }
}

/// The two channel ends that the workers of a pool share: each worker takes
/// its messages from the one and sends its results into the other.
#[verifier::reject_recursive_types(P)]
#[verifier::reject_recursive_types(R)]
pub struct WorkerEnds<P, R> {
    /// The receiving end of the dispatch channel. One worker at a time may
    /// wait on it, so that each message goes to exactly one worker.
    pub to_worker_receiver: Receiver<ToWorkerMessage<P>>,
    /// The sending end of the result channel. Each worker needs a clone of
    /// its own.
    pub to_orchestrator_sender: Sender<ToOrchestratorMessage<R>>,
}

/// What the control thread has to do next.
#[derive(Debug, PartialEq, Eq)]
pub enum Step<P> {
    /// Send the task to the workers.
    Dispatch(Task<P>),
    /// Wait for a result: nothing can be handed out right now.
    Await,
    /// Everything is done: stop the workers.
    Shutdown,
}

/// Runs one batch of tasks on a fixed pool of workers. It lives for exactly
/// one batch: made with the whole backlog, run once, then consumed for the
/// results.
#[verifier::reject_recursive_types(P)]
#[verifier::reject_recursive_types(R)]
pub struct Orchestrator<P, R> {
    tasks: VecDeque<Task<P>>,
    task_results: Vec<TaskResult<R>>,
    outstanding: Vec<usize>,
    nr_of_workers: usize,
    nr_of_available_workers: usize,
    nr_of_signals_sent: usize,
    awaiting_result: bool,
    phase: Phase,
    submitted: Ghost<Seq<usize>>,
    to_worker_sender: Sender<ToWorkerMessage<P>>,
    to_orchestrator_receiver: Receiver<ToOrchestratorMessage<R>>,
}

impl<P, R> View for Orchestrator<P, R> {
    type V = PoolView<P, R>;

    closed spec fn view(&self) -> PoolView<P, R> {
        PoolView {
            backlog: self.tasks@,
            outstanding: self.outstanding@.to_multiset(),
            results: self.task_results@,
            submitted: self.submitted@,
            nr_of_workers: self.nr_of_workers as nat,
            available: self.nr_of_available_workers as nat,
            signals: self.nr_of_signals_sent as nat,
            waiting: self.awaiting_result,
            phase: self.phase,
        }
    }
}

impl<P, R> Orchestrator<P, R> {
    /// The invariant that every orchestrator satisfies.
    pub open spec fn wf(&self) -> bool {
        self@.wf()
    }

    /// An orchestrator for `tasks` with `nr_of_workers` workers, all idle,
    /// together with the two channel ends that the workers share. The
    /// workers themselves are for the caller to start. A pool needs at least
    /// one worker: with none, nothing is made.
    pub fn with_workers(tasks: VecDeque<Task<P>>, nr_of_workers: usize) -> (made: Option<
        (Self, WorkerEnds<P, R>),
    >)
        ensures
            nr_of_workers == 0 <==> made is None,
            made matches Some(parts) ==> {
                &&& parts.0.wf()
                &&& parts.0@ == PoolView::<P, R>::initial(tasks@, nr_of_workers as nat)
            },
    {
        if nr_of_workers == 0 {
            None
        } else {
            Some(Self::fresh(tasks, nr_of_workers))
        }
    }

    /// An orchestrator for `tasks` with one worker for each logical processor
    /// of the host, all idle, together with the two channel ends that the
    /// workers share. The workers themselves are for the caller to start.
    pub fn new(tasks: VecDeque<Task<P>>) -> (made: (Self, WorkerEnds<P, R>))
        ensures
            made.0.wf(),
            made.0@.nr_of_workers >= 1,
            made.0@ == PoolView::<P, R>::initial(tasks@, made.0@.nr_of_workers),
    {
        let nr_of_cpus = logical_cpus();
        Self::fresh(tasks, nr_of_cpus)
    }

    /// Opens the two channels and sets up the accounts of a pool of
    /// `nr_of_workers` workers.
    fn fresh(tasks: VecDeque<Task<P>>, nr_of_workers: usize) -> (made: (Self, WorkerEnds<P, R>))
        requires
            nr_of_workers >= 1,
        ensures
            made.0.wf(),
            made.0@ == PoolView::<P, R>::initial(tasks@, nr_of_workers as nat),
    {
        let (to_worker_sender, to_worker_receiver) = open_channel::<ToWorkerMessage<P>>();
        let (to_orchestrator_sender, to_orchestrator_receiver) = open_channel::<
            ToOrchestratorMessage<R>,
        >();
        let ghost submitted = task_ids(tasks@);
        let orchestrator = Orchestrator {
            tasks,
            task_results: Vec::new(),
            outstanding: Vec::new(),
            nr_of_workers,
            nr_of_available_workers: nr_of_workers,
            nr_of_signals_sent: 0,
            awaiting_result: false,
            phase: Phase::Dispatching,
            submitted: Ghost(submitted),
            to_worker_sender,
            to_orchestrator_receiver,
        };
        proof {
            lemma_initial_wf::<P, R>(tasks@, nr_of_workers as nat);
            vstd::seq_lib::to_multiset_len(orchestrator.outstanding@);
            assert(orchestrator@.outstanding =~= Multiset::<usize>::empty());
            assert(orchestrator@ =~= PoolView::<P, R>::initial(tasks@, nr_of_workers as nat));
        }
        (orchestrator, WorkerEnds { to_worker_receiver, to_orchestrator_sender })
    }

    /// The workers of the pool, for the caller to start: one for each place
    /// in the pool, with the ids 0, 1, 2, ... and none of them stopped.
    pub fn workers(&self) -> (workers: Vec<Worker>)
        ensures
            workers@.len() == self@.nr_of_workers,
            forall|i: int|
                0 <= i < workers@.len() ==> (#[trigger] workers@[i]).id() == i
                    && !workers@[i].is_stopped(),
    {
        let mut workers: Vec<Worker> = Vec::new();
        let mut id: usize = 0;
        while id < self.nr_of_workers
            invariant
                id <= self.nr_of_workers,
                workers@.len() == id,
                forall|i: int|
                    0 <= i < workers@.len() ==> (#[trigger] workers@[i]).id() == i
                        && !workers@[i].is_stopped(),
            decreases self.nr_of_workers - id,
        {
            workers.push(Worker::new(id));
            id += 1;
        }
        workers
    }

    /// The size of the pool.
    pub fn nr_of_workers(&self) -> (count: usize)
        ensures
            count == self@.nr_of_workers,
    {
        self.nr_of_workers
    }

    /// How many tasks have not been handed out yet.
    pub fn nr_of_pending_tasks(&self) -> (count: usize)
        ensures
            count == self@.backlog.len(),
    {
        self.tasks.len()
    }

    /// How many tasks are out: handed to a worker, with no result back yet.
    pub fn nr_of_tasks_out(&self) -> (count: usize)
        ensures
            count == self@.outstanding.len(),
    {
        proof {
            vstd::seq_lib::to_multiset_len(self.outstanding@);
        }
        self.outstanding.len()
    }

    /// Whether the control thread has decided to wait for a result and has
    /// not got one since.
    pub fn is_waiting(&self) -> (waiting: bool)
        ensures
            waiting == self@.waiting,
    {
        self.awaiting_result
    }

    /// The phase of the batch.
    pub fn phase(&self) -> (phase: Phase)
        ensures
            phase == self@.phase,
    {
        self.phase
    }

    /// Whether every worker is idle.
    pub fn all_available(&self) -> (all: bool)
        ensures
            all == (self@.available == self@.nr_of_workers),
    {
        self.nr_of_workers == self.nr_of_available_workers
    }

    /// Whether no worker is idle.
    pub fn none_available(&self) -> (none: bool)
        ensures
            none == (self@.available == 0),
    {
        self.nr_of_available_workers == 0
    }

    /// Decides what the control thread does next, at the top of its loop and
    /// after each task it has sent: stop the workers, when the backlog is
    /// empty and every worker is idle; else send the next task of the
    /// backlog, when there is one and a worker is idle; else wait for a
    /// result. The decision to wait is only ever made while a task is out, so
    /// the wait can end.
    pub fn next_step(&mut self) -> (step: Step<P>)
        requires
            old(self).wf(),
            old(self)@.phase == Phase::Dispatching,
        ensures
            final(self).wf(),
            match step {
                Step::Shutdown => {
                    &&& old(self)@.idle_and_empty()
                    &&& final(self)@ == old(self)@.in_phase(Phase::AllIdleAndEmpty)
                },
                Step::Dispatch(task) => {
                    &&& old(self)@.can_dispatch()
                    &&& task == old(self)@.backlog[0]
                    &&& final(self)@ == old(self)@.dispatched()
                },
                Step::Await => {
                    &&& !old(self)@.idle_and_empty()
                    &&& !old(self)@.can_dispatch()
                    &&& final(self)@ == old(self)@.awaiting()
                    &&& final(self)@.outstanding.len() > 0
                },
            },
    {
        if self.tasks.len() == 0 && self.all_available() {
            self.phase = Phase::AllIdleAndEmpty;
            assert(self@ =~= old(self)@.in_phase(Phase::AllIdleAndEmpty));
            return Step::Shutdown;
        }
        if self.tasks.len() == 0 || self.none_available() {
            self.phase = Phase::Draining;
            self.awaiting_result = true;
            assert(self@ =~= old(self)@.awaiting());
            return Step::Await;
        }
        // Dequeue task from queue.
        let task = self.tasks.pop_front().unwrap();
        self.outstanding.push(task.id);
        self.nr_of_available_workers -= 1;
        proof {
            old(self)@.lemma_dispatched_wf();
            vstd::seq_lib::to_multiset_build(old(self).outstanding@, task.id);
            assert(self@ =~= old(self)@.dispatched());
        }
        Step::Dispatch(task)
    }

    /// Takes in a message that a worker sent. When the result in it belongs
    /// to a task that is out, the result is kept and the worker that held the
    /// task counts as idle again. Any other result means that the pool's
    /// accounts are broken: it is dropped and the batch is given up.
    pub fn accept(&mut self, message: ToOrchestratorMessage<R>) -> (outcome: Result<(), PoolError>)
        requires
            old(self).wf(),
            old(self)@.phase == Phase::Draining,
        ensures
            final(self).wf(),
            match outcome {
                Ok(()) => {
                    &&& old(self)@.outstanding.count(message.result().id) > 0
                    &&& final(self)@ == old(self)@.recorded(message.result())
                },
                Err(error) => {
                    &&& error == PoolError::ResultCollection
                    &&& old(self)@.outstanding.count(message.result().id) == 0
                    &&& final(self)@ == old(self)@.in_phase(Phase::Failed)
                },
            },
    {
        match message {
            ToOrchestratorMessage::TaskResult(result) => {
                let mut at: usize = 0;
                while at < self.outstanding.len() && self.outstanding[at] != result.id
                    invariant
                        *self == *old(self),
                        at <= self.outstanding@.len(),
                        forall|i: int| 0 <= i < at ==> self.outstanding@[i] != result.id,
                    decreases self.outstanding@.len() - at,
                {
                    at += 1;
                }
                proof {
                    vstd::seq_lib::to_multiset_contains(self.outstanding@, result.id);
                    vstd::seq_lib::to_multiset_len(self.outstanding@);
                }
                if at < self.outstanding.len() {
                    assert(self.outstanding@.contains(result.id));
                    self.outstanding.remove(at);
                    self.task_results.push(result);
                    self.nr_of_available_workers += 1;
                    self.awaiting_result = false;
                    proof {
                        old(self)@.lemma_recorded_wf(result);
                        vstd::seq_lib::to_multiset_remove(old(self).outstanding@, at as int);
                        assert(self@ =~= old(self)@.recorded(result));
                    }
                    Ok(())
                } else {
                    self.phase = Phase::Failed;
                    assert(self@ =~= old(self)@.in_phase(Phase::Failed));
                    Err(PoolError::ResultCollection)
                }
            },
        }
    }

    /// Ends a round of collecting, in which at least one result was taken
    /// in: the control thread goes back to handing out tasks.
    pub fn resume(&mut self)
        requires
            old(self).wf(),
            old(self)@.phase == Phase::Draining,
            !old(self)@.waiting,
        ensures
            final(self).wf(),
            final(self)@ == old(self)@.in_phase(Phase::Dispatching),
    {
        self.phase = Phase::Dispatching;
        assert(self@ =~= old(self)@.in_phase(Phase::Dispatching));
    }

    /// Starts the shutdown once the work is done, and says how many
    /// termination signals have to be sent: exactly one for each worker.
    pub fn start_termination(&mut self) -> (signals: usize)
        requires
            old(self).wf(),
            old(self)@.phase == Phase::AllIdleAndEmpty,
        ensures
            final(self).wf(),
            signals == old(self)@.nr_of_workers,
            final(self)@.signals == 0,
            final(self)@ == old(self)@.in_phase(Phase::Terminating),
    {
        self.phase = Phase::Terminating;
        assert(self@ =~= old(self)@.in_phase(Phase::Terminating));
        self.nr_of_workers
    }

    /// Takes in whether every worker has exited cleanly, once each of them
    /// has been sent its termination signal. If one has not exited cleanly,
    /// the batch is given up.
    pub fn workers_joined(&mut self, all_exited: bool) -> (outcome: Result<(), PoolError>)
        requires
            old(self).wf(),
            old(self)@.phase == Phase::Terminating,
            old(self)@.signals == old(self)@.nr_of_workers,
        ensures
            final(self).wf(),
            match outcome {
                Ok(()) => all_exited && final(self)@ == old(self)@.in_phase(Phase::Joined),
                Err(error) => {
                    &&& !all_exited
                    &&& error == PoolError::Shutdown
                    &&& final(self)@ == old(self)@.in_phase(Phase::Failed)
                },
            },
    {
        if all_exited {
            self.phase = Phase::Joined;
            assert(self@ =~= old(self)@.in_phase(Phase::Joined));
            Ok(())
        } else {
            self.abandon(PoolError::Shutdown)
        }
    }

    /// Puts the collected results in order of their ids, once, after every
    /// worker has exited. From then on they can be taken.
    pub fn sort_results(&mut self)
        requires
            old(self).wf(),
            old(self)@.phase == Phase::Joined,
        ensures
            final(self).wf(),
            final(self)@ == old(self)@.sorted(),
            is_sort_of(final(self)@.results, old(self)@.results),
    {
        sort_by_id(&mut self.task_results);
        self.phase = Phase::Sorted;
        proof {
            old(self)@.lemma_sorted_wf();
            assert(self@ =~= old(self)@.sorted());
        }
    }

    /// Hands over the results of the batch: one for each task that was
    /// submitted, in ascending order of their ids. For a batch that was
    /// numbered 0, 1, 2, ... the result at place `i` is the one with id `i`.
    /// The orchestrator is consumed.
    pub fn get_results(self) -> (results: Vec<TaskResult<R>>)
        requires
            self.wf(),
            self@.phase == Phase::Sorted,
        ensures
            results@ == self@.results,
            results@.len() == self@.submitted.len(),
            sorted_by_id(results@),
            result_ids(results@).to_multiset() == self@.submitted.to_multiset(),
            counts_up(self@.submitted) ==> result_ids(results@) == self@.submitted,
    {
        proof {
            self@.lemma_finished_batch_is_complete();
            if counts_up(self@.submitted) {
                crate::batch::lemma_sorted_ids_count_up(self@.submitted, self@.results);
            }
        }
        self.task_results
    }

    /// Takes in whether the task that `next_step` handed out could be sent to
    /// the workers. If it could not, no worker listens any more and the batch
    /// is given up.
    pub fn task_sent(&mut self, sent: bool) -> (outcome: Result<(), PoolError>)
        requires
            old(self).wf(),
            old(self)@.phase == Phase::Dispatching,
        ensures
            final(self).wf(),
            if sent {
                outcome is Ok && final(self)@ == old(self)@
            } else {
                &&& outcome == Err::<(), PoolError>(PoolError::Dispatch)
                &&& final(self)@ == old(self)@.in_phase(Phase::Failed)
            },
    {
        if sent {
            Ok(())
        } else {
            self.abandon(PoolError::Dispatch)
        }
    }

    /// Takes in whether one more termination signal could be sent to the
    /// workers, while some are still owed. If it could not, the pool cannot
    /// be stopped in order and the batch is given up.
    pub fn signal_sent(&mut self, sent: bool) -> (outcome: Result<(), PoolError>)
        requires
            old(self).wf(),
            old(self)@.phase == Phase::Terminating,
            old(self)@.signals < old(self)@.nr_of_workers,
        ensures
            final(self).wf(),
            if sent {
                outcome is Ok && final(self)@ == old(self)@.signalled()
            } else {
                &&& outcome == Err::<(), PoolError>(PoolError::Shutdown)
                &&& final(self)@ == old(self)@.in_phase(Phase::Failed)
            },
    {
        if sent {
            self.nr_of_signals_sent += 1;
            assert(self@ =~= old(self)@.signalled());
            Ok(())
        } else {
            self.abandon(PoolError::Shutdown)
        }
    }

    /// How many termination signals are still owed to the workers.
    pub fn nr_of_signals_owed(&self) -> (count: usize)
        requires
            self.wf(),
        ensures
            count == self@.nr_of_workers - self@.signals,
    {
        self.nr_of_workers - self.nr_of_signals_sent
    }

    /// The dispatch phase: hands tasks to the workers for as long as the
    /// backlog holds one and a worker is idle, so that every idle worker is
    /// busy before the control thread waits. The answer is `true` when there
    /// was nothing to do at all because the work is done, and `false` when
    /// the control thread has to wait for a result next. If a task cannot be
    /// sent, the batch is given up.
    pub fn dispatch_phase(&mut self) -> (outcome: Result<bool, PoolError>)
        requires
            old(self).wf(),
            old(self)@.phase == Phase::Dispatching,
        ensures
            final(self).wf(),
            old(self)@.reaches(final(self)@),
            final(self)@.submitted == old(self)@.submitted,
            final(self)@.nr_of_workers == old(self)@.nr_of_workers,
            final(self)@.results == old(self)@.results,
            final(self)@.backlog.len() <= old(self)@.backlog.len(),
            final(self)@.backlog == old(self)@.backlog.skip(
                old(self)@.backlog.len() - final(self)@.backlog.len(),
            ),
            final(self)@.backlog.len() + final(self)@.outstanding.len() == old(self)@.backlog.len()
                + old(self)@.outstanding.len(),
            !old(self)@.can_dispatch() ==> outcome is Ok,
            !old(self)@.can_dispatch() && !old(self)@.idle_and_empty() ==> final(self)@ == old(
                self,
            )@.awaiting(),
            match outcome {
                Ok(done) => {
                    &&& done == old(self)@.idle_and_empty()
                    &&& done ==> final(self)@ == old(self)@.in_phase(Phase::AllIdleAndEmpty)
                    &&& !done ==> {
                        &&& final(self)@.phase == Phase::Draining
                        &&& final(self)@.waiting
                        &&& !final(self)@.can_dispatch()
                        &&& final(self)@.outstanding.len() > 0
                    }
                },
                Err(error) => {
                    &&& error == PoolError::Dispatch
                    &&& final(self)@.phase == Phase::Failed
                },
            },
    {
        let ghost before = self@;
        let ghost mut sent = false;
        proof {
            before.lemma_reaches_itself();
        }
        loop
            invariant
                before == old(self)@,
                before.reaches(self@),
                self.wf(),
                self@.phase == Phase::Dispatching,
                self@.submitted == before.submitted,
                self@.nr_of_workers == before.nr_of_workers,
                self@.results == before.results,
                self@.backlog.len() <= before.backlog.len(),
                self@.backlog == before.backlog.skip(before.backlog.len() - self@.backlog.len()),
                self@.backlog.len() + self@.outstanding.len() == before.backlog.len()
                    + before.outstanding.len(),
                !sent ==> self@ == before,
                sent ==> before.can_dispatch() && self@.outstanding.len() > 0,
            decreases self@.backlog.len(),
        {
            let ghost at_top = self@;
            let step = self.next_step();
            proof {
                before.lemma_reaches_one_more(at_top, self@);
            }
            match step {
                Step::Shutdown => {
                    return Ok(true);
                },
                Step::Await => {
                    return Ok(false);
                },
                Step::Dispatch(task) => {
                    let ghost handed_out = self@;
                    let queued = send_message(&self.to_worker_sender, ToWorkerMessage::Task(task));
                    match self.task_sent(queued) {
                        Ok(()) => {},
                        Err(error) => {
                            proof {
                                before.lemma_reaches_one_more(handed_out, self@);
                            }
                            return Err(error);
                        },
                    }
                    proof {
                        sent = true;
                    }
                },
            }
        }
    }

    /// Takes in what the wait on the result channel gave, at the start of a
    /// round of collecting: a message, which is handled as `accept` says, or
    /// nothing because the channel is closed. The control thread waits only
    /// while tasks are out, so a closed channel means that their results can
    /// never come: the batch is given up.
    pub fn take_received(&mut self, received: Option<ToOrchestratorMessage<R>>) -> (outcome: Result<
        (),
        PoolError,
    >)
        requires
            old(self).wf(),
            old(self)@.phase == Phase::Draining,
            old(self)@.waiting,
        ensures
            final(self).wf(),
            match received {
                Some(message) if old(self)@.outstanding.count(message.result().id) > 0 => {
                    &&& outcome is Ok
                    &&& final(self)@ == old(self)@.recorded(message.result())
                },
                _ => {
                    &&& outcome == Err::<(), PoolError>(PoolError::ResultCollection)
                    &&& final(self)@ == old(self)@.in_phase(Phase::Failed)
                },
            },
    {
        match received {
            Some(message) => self.accept(message),
            None => self.abandon(PoolError::ResultCollection),
        }
    }

    /// Takes in what a look at the result channel, without waiting, gave,
    /// after the first result of the round. The answer says whether to look
    /// again. A message is handled as
    /// `accept` says, and there may be more. When nothing is there, the
    /// round of collecting ends and the control thread goes back to handing
    /// out tasks; so it does when the channel is closed and no task is out.
    /// A channel that is closed while tasks are out means that their results
    /// can never come: the batch is given up.
    pub fn take_polled(&mut self, polled: Polled<ToOrchestratorMessage<R>>) -> (outcome: Result<
        bool,
        PoolError,
    >)
        requires
            old(self).wf(),
            old(self)@.phase == Phase::Draining,
            !old(self)@.waiting,
        ensures
            final(self).wf(),
            match polled {
                Polled::Ready(message) => if old(self)@.outstanding.count(message.result().id)
                    > 0 {
                    &&& outcome == Ok::<bool, PoolError>(true)
                    &&& final(self)@ == old(self)@.recorded(message.result())
                } else {
                    &&& outcome == Err::<bool, PoolError>(PoolError::ResultCollection)
                    &&& final(self)@ == old(self)@.in_phase(Phase::Failed)
                },
                Polled::Empty => {
                    &&& outcome == Ok::<bool, PoolError>(false)
                    &&& final(self)@ == old(self)@.in_phase(Phase::Dispatching)
                },
                Polled::Disconnected => if old(self)@.outstanding.len() == 0 {
                    &&& outcome == Ok::<bool, PoolError>(false)
                    &&& final(self)@ == old(self)@.in_phase(Phase::Dispatching)
                } else {
                    &&& outcome == Err::<bool, PoolError>(PoolError::ResultCollection)
                    &&& final(self)@ == old(self)@.in_phase(Phase::Failed)
                },
            },
    {
        match polled {
            Polled::Ready(message) => match self.accept(message) {
                Ok(()) => Ok(true),
                Err(error) => Err(error),
            },
            Polled::Empty => {
                self.resume();
                Ok(false)
            },
            Polled::Disconnected => {
                proof {
                    vstd::seq_lib::to_multiset_len(self.outstanding@);
                }
                if self.outstanding.len() == 0 {
                    self.resume();
                    Ok(false)
                } else {
                    self.phase = Phase::Failed;
                    assert(self@ =~= old(self)@.in_phase(Phase::Failed));
                    Err(PoolError::ResultCollection)
                }
            },
        }
    }

    /// The collecting phase: waits for one result, then takes in every
    /// further result that is already there, without waiting again. Each
    /// result frees a worker. If the result channel is closed while tasks
    /// are out, or a result arrives for a task that is not out, the batch is
    /// given up.
    pub fn collect_results(&mut self) -> (outcome: Result<(), PoolError>)
        requires
            old(self).wf(),
            old(self)@.phase == Phase::Draining,
            old(self)@.waiting,
        ensures
            final(self).wf(),
            old(self)@.reaches(final(self)@),
            final(self)@.submitted == old(self)@.submitted,
            final(self)@.nr_of_workers == old(self)@.nr_of_workers,
            final(self)@.backlog == old(self)@.backlog,
            final(self)@.results.len() >= old(self)@.results.len(),
            final(self)@.results.take(old(self)@.results.len() as int) == old(self)@.results,
            match outcome {
                Ok(()) => {
                    &&& final(self)@.phase == Phase::Dispatching
                    &&& final(self)@.outstanding.len() < old(self)@.outstanding.len()
                    &&& final(self)@.available > old(self)@.available
                    &&& final(self)@.results.len() - old(self)@.results.len() == old(
                        self,
                    )@.outstanding.len() - final(self)@.outstanding.len()
                },
                Err(error) => {
                    &&& error == PoolError::ResultCollection
                    &&& final(self)@.phase == Phase::Failed
                },
            },
    {
        let received = recv_message(&self.to_orchestrator_receiver);
        let first = self.take_received(received);
        proof {
            old(self)@.lemma_reaches_itself();
            old(self)@.lemma_reaches_one_more(old(self)@, self@);
        }
        if first.is_err() {
            return first;
        }
        loop
            invariant
                self.wf(),
                old(self)@.reaches(self@),
                self@.phase == Phase::Draining,
                !self@.waiting,
                self@.submitted == old(self)@.submitted,
                self@.nr_of_workers == old(self)@.nr_of_workers,
                self@.backlog == old(self)@.backlog,
                self@.outstanding.len() < old(self)@.outstanding.len(),
                self@.available > old(self)@.available,
                self@.results.len() >= old(self)@.results.len(),
                self@.results.take(old(self)@.results.len() as int) == old(self)@.results,
                self@.results.len() - old(self)@.results.len() == old(self)@.outstanding.len()
                    - self@.outstanding.len(),
            decreases self@.outstanding.len(),
        {
            let ghost collecting = self@;
            let polled = try_recv_message(&self.to_orchestrator_receiver);
            let taken = self.take_polled(polled);
            proof {
                old(self)@.lemma_reaches_one_more(collecting, self@);
            }
            match taken {
                Ok(again) => {
                    if !again {
                        return Ok(());
                    }
                },
                Err(error) => {
                    return Err(error);
                },
            }
        }
    }

    /// The shutdown: sends one termination signal for each worker, then has
    /// `join_workers` wait until every worker has exited, and only then puts
    /// the results in order. `join_workers` answers whether every worker
    /// exited cleanly. If a signal cannot be sent or a worker did not exit
    /// cleanly, the batch is given up.
    pub fn shut_down<J: FnOnce() -> bool>(&mut self, join_workers: J) -> (outcome: Result<
        (),
        PoolError,
    >)
        requires
            old(self).wf(),
            old(self)@.phase == Phase::AllIdleAndEmpty,
            join_workers.requires(()),
        ensures
            final(self).wf(),
            old(self)@.reaches(final(self)@),
            final(self)@.submitted == old(self)@.submitted,
            final(self)@.nr_of_workers == old(self)@.nr_of_workers,
            match outcome {
                Ok(()) => {
                    &&& join_workers.ensures((), true)
                    &&& final(self)@.phase == Phase::Sorted
                    &&& final(self)@.signals == final(self)@.nr_of_workers
                    &&& is_sort_of(final(self)@.results, old(self)@.results)
                },
                Err(error) => {
                    &&& error == PoolError::Shutdown
                    &&& final(self)@.phase == Phase::Failed
                    &&& final(self)@.results == old(self)@.results
                },
            },
    {
        let signals = self.start_termination();
        proof {
            old(self)@.lemma_reaches_itself();
            old(self)@.lemma_reaches_one_more(old(self)@, self@);
        }
        let mut sent: usize = 0;
        while sent < signals
            invariant
                self.wf(),
                old(self)@.reaches(self@),
                self@.phase == Phase::Terminating,
                self@.signals == sent,
                self@.results == old(self)@.results,
                self@.submitted == old(self)@.submitted,
                self@.nr_of_workers == old(self)@.nr_of_workers,
                signals == self@.nr_of_workers,
                sent <= signals,
            decreases signals - sent,
        {
            let ghost signalling = self@;
            let queued = send_message(&self.to_worker_sender, ToWorkerMessage::Terminate);
            let signalled = self.signal_sent(queued);
            proof {
                old(self)@.lemma_reaches_one_more(signalling, self@);
            }
            if signalled.is_err() {
                return signalled;
            }
            sent += 1;
        }
        let ghost signalled_all = self@;
        let all_exited = join_workers();
        let joined = self.workers_joined(all_exited);
        proof {
            old(self)@.lemma_reaches_one_more(signalled_all, self@);
        }
        if joined.is_err() {
            return joined;
        }
        let ghost joined_all = self@;
        self.sort_results();
        proof {
            old(self)@.lemma_reaches_one_more(joined_all, self@);
        }
        Ok(())
    }

    /// Runs the batch to its end on the calling thread: hands out tasks and
    /// collects results in turn until the backlog is empty and every worker
    /// is idle, then stops the workers, waits for them through
    /// `join_workers`, and sorts the results. To be called once, on a fresh
    /// orchestrator whose workers are running; afterwards the results can be
    /// taken with `get_results`.
    ///
    /// Either the whole batch succeeds or it is given up: there are no
    /// partial results. When it succeeds there is exactly one result for
    /// each task that was submitted, the results ascend by id, and
    /// `join_workers` has answered that every worker exited. Whether it
    /// succeeds is up to the workers and the channels; an empty batch can
    /// only fail in the shutdown.
    pub fn run<J: FnOnce() -> bool>(&mut self, join_workers: J) -> (outcome: Result<(), PoolError>)
        requires
            old(self).wf(),
            old(self)@.phase == Phase::Dispatching,
            join_workers.requires(()),
        ensures
            final(self).wf(),
            old(self)@.reaches(final(self)@),
            final(self)@.submitted == old(self)@.submitted,
            final(self)@.nr_of_workers == old(self)@.nr_of_workers,
            match outcome {
                Ok(()) => {
                    &&& final(self)@.phase == Phase::Sorted
                    &&& join_workers.ensures((), true)
                    &&& sorted_by_id(final(self)@.results)
                    &&& final(self)@.results.len() == old(self)@.submitted.len()
                    &&& result_ids(final(self)@.results).to_multiset() == old(
                        self,
                    )@.submitted.to_multiset()
                    &&& counts_up(old(self)@.submitted) ==> result_ids(final(self)@.results)
                        == old(self)@.submitted
                },
                Err(error) => {
                    &&& final(self)@.phase == Phase::Failed
                    &&& old(self)@.idle_and_empty() ==> error == PoolError::Shutdown
                },
            },
    {
        proof {
            old(self)@.lemma_reaches_itself();
        }
        loop
            invariant_except_break
                self@.phase == Phase::Dispatching,
                old(self)@.idle_and_empty() ==> self@ == old(self)@,
            invariant
                self.wf(),
                old(self)@.reaches(self@),
                self@.submitted == old(self)@.submitted,
                self@.nr_of_workers == old(self)@.nr_of_workers,
            ensures
                self@.phase == Phase::AllIdleAndEmpty,
            decreases self@.backlog.len() + self@.outstanding.len(),
        {
            let ghost at_top = self@;
            let dispatched = self.dispatch_phase();
            proof {
                old(self)@.lemma_reaches_further(at_top, self@);
            }
            match dispatched {
                Ok(done) => {
                    if done {
                        break ;
                    }
                },
                Err(error) => {
                    return Err(error);
                },
            }
            let ghost waiting = self@;
            let collected = self.collect_results();
            proof {
                old(self)@.lemma_reaches_further(waiting, self@);
            }
            if collected.is_err() {
                return collected;
            }
        }
        let ghost idle = self@;
        let stopped = self.shut_down(join_workers);
        proof {
            old(self)@.lemma_reaches_further(idle, self@);
            if stopped.is_ok() {
                self@.lemma_finished_batch_is_complete();
                if counts_up(self@.submitted) {
                    crate::batch::lemma_sorted_ids_count_up(self@.submitted, self@.results);
                }
            }
        }
        stopped
    }

    /// Gives the batch up for the given reason.
    fn abandon(&mut self, error: PoolError) -> (outcome: Result<(), PoolError>)
        requires
            old(self).wf(),
        ensures
            final(self).wf(),
            outcome == Err::<(), PoolError>(error),
            final(self)@ == old(self)@.in_phase(Phase::Failed),
    {
        self.phase = Phase::Failed;
        assert(self@ =~= old(self)@.in_phase(Phase::Failed));
        Err(error)
    }
}

} // verus!
