//! The pool as a state machine: what the orchestrator keeps account of, the
//! steps it can take, and what holds of every state it can reach.

use crate::batch::{answers, comes_from, deterministic, distinct_ids, numbered_in_order};
use crate::sorting::{is_sort_of, put_in_order, sorted_by_id};
use crate::task::{result_ids, task_ids, Task, TaskResult};
use vstd::multiset::Multiset;
use vstd::prelude::*;

verus! {

/// Where the orchestrator stands in the life of its batch.
#[derive(Debug, Clone, Copy, PartialEq, Eq, Structural)]
pub enum Phase {
    /// Handing tasks to idle workers. A batch starts here.
    Dispatching,
    /// Collecting results; nothing is handed out meanwhile.
    Draining,
    /// The backlog is empty and every worker is idle: the work is done.
    AllIdleAndEmpty,
    /// The workers are being told to stop and waited for.
    Terminating,
    /// Every worker has exited.
    Joined,
    /// The results are in order and can be taken. A batch ends here.
    Sorted,
    /// The batch was given up. No result can be taken.
    Failed,
}

/// The orchestrator as contracts see it.
pub struct PoolView<P, R> {
    /// The tasks not handed out yet, next one first.
    pub backlog: Seq<Task<P>>,
    /// The ids of the tasks handed out whose result has not come back.
    pub outstanding: Multiset<usize>,
    /// The results collected so far: in order of arrival, until they are
    /// sorted.
    pub results: Seq<TaskResult<R>>,
    /// The ids of the whole batch, as it was submitted.
    pub submitted: Seq<usize>,
    /// The size of the pool.
    pub nr_of_workers: nat,
    /// How many workers hold no task.
    pub available: nat,
    /// How many termination signals have been sent.
    pub signals: nat,
    /// Whether the control thread has decided to wait for a result and has
    /// not got one since.
    pub waiting: bool,
    /// The phase of the batch.
    pub phase: Phase,
}

impl<P, R> PoolView<P, R> {
    /// A fresh orchestrator: the whole batch in the backlog, every worker
    /// idle.
    pub open spec fn initial(tasks: Seq<Task<P>>, nr_of_workers: nat) -> Self {
        PoolView {
            backlog: tasks,
            outstanding: Multiset::empty(),
            results: Seq::empty(),
            submitted: task_ids(tasks),
            nr_of_workers,
            available: nr_of_workers,
            signals: 0,
            waiting: false,
            phase: Phase::Dispatching,
        }
    }

    /// Nothing is left to hand out and no worker holds a task.
    pub open spec fn idle_and_empty(self) -> bool {
        self.backlog.len() == 0 && self.available == self.nr_of_workers
    }

    /// A task is waiting and a worker is free to take it.
    pub open spec fn can_dispatch(self) -> bool {
        self.backlog.len() > 0 && self.available > 0
    }

    /// Every task of the batch is in exactly one place: still in the backlog,
    /// out with a worker, or back as a result.
    pub open spec fn conserved(self) -> bool {
        task_ids(self.backlog).to_multiset().add(self.outstanding).add(
            result_ids(self.results).to_multiset(),
        ) =~= self.submitted.to_multiset()
    }

    /// The invariant of the orchestrator.
    ///
    /// The pool has a worker. A worker is idle or holds one of the tasks that
    /// are out. No task is lost or doubled. The control thread waits only
    /// while a task is out. The workers are told to stop only when the work
    /// is done, each of them once, before they are taken to have exited.
    /// The results that can be taken are in order.
    pub open spec fn wf(self) -> bool {
        &&& self.nr_of_workers >= 1
        &&& self.available + self.outstanding.len() == self.nr_of_workers
        &&& self.conserved()
        &&& self.waiting ==> self.phase == Phase::Draining || self.phase == Phase::Failed
        &&& self.waiting ==> self.outstanding.len() > 0
        &&& (self.phase == Phase::AllIdleAndEmpty || self.phase == Phase::Terminating
            || self.phase == Phase::Joined || self.phase == Phase::Sorted)
            ==> self.idle_and_empty()
        &&& self.signals <= self.nr_of_workers
        &&& (self.phase == Phase::Dispatching || self.phase == Phase::Draining || self.phase
            == Phase::AllIdleAndEmpty) ==> self.signals == 0
        &&& (self.phase == Phase::Joined || self.phase == Phase::Sorted) ==> self.signals
            == self.nr_of_workers
        &&& self.phase == Phase::Sorted ==> sorted_by_id(self.results)
    }

    /// The same state in another phase.
    pub open spec fn in_phase(self, phase: Phase) -> Self {
        PoolView { phase, ..self }
    }

    /// The state after the first task of the backlog went out to a worker.
    pub open spec fn dispatched(self) -> Self {
        PoolView {
            backlog: self.backlog.drop_first(),
            outstanding: self.outstanding.insert(self.backlog[0].id),
            available: (self.available - 1) as nat,
            ..self
        }
    }

    /// The state after the control thread has decided to wait for a result.
    pub open spec fn awaiting(self) -> Self {
        PoolView { phase: Phase::Draining, waiting: true, ..self }
    }

    /// The state after `result` came back from a worker.
    pub open spec fn recorded(self, result: TaskResult<R>) -> Self {
        PoolView {
            outstanding: self.outstanding.remove(result.id),
            results: self.results.push(result),
            available: self.available + 1,
            waiting: false,
            ..self
        }
    }

    /// The state after one more termination signal went out to the workers.
    pub open spec fn signalled(self) -> Self {
        PoolView { signals: self.signals + 1, ..self }
    }

    /// The state after the results were put in order.
    pub open spec fn sorted(self) -> Self {
        PoolView { results: put_in_order(self.results), phase: Phase::Sorted, ..self }
    }

    /// One step of the orchestrator leads from `self` to `after`.
    ///
    /// While dispatching, the control thread stops when the work is done,
    /// else hands out the next task when a worker is idle, else turns to
    /// collecting, where it waits. While collecting, it takes in the result
    /// of a task that is out, or, once it has taken in at least one, goes
    /// back to dispatching. Once the work is done it moves on to stopping
    /// the workers, where it sends one termination signal after the other
    /// until there is one for each worker, then to having seen them all
    /// exit, and to the sorted results. Where the channels or the workers
    /// can let it down, it may give the batch up instead. From the sorted
    /// results, and from a batch given up, there is no further step.
    pub open spec fn next(self, after: Self) -> bool {
        match self.phase {
            Phase::Dispatching => {
                ||| self.idle_and_empty() && after == self.in_phase(Phase::AllIdleAndEmpty)
                ||| self.can_dispatch() && after == self.dispatched()
                ||| !self.idle_and_empty() && !self.can_dispatch() && after == self.awaiting()
                ||| after == self.in_phase(Phase::Failed)
            },
            Phase::Draining => {
                ||| after.results.len() > 0 && self.outstanding.count(after.results.last().id) > 0
                    && after == self.recorded(after.results.last())
                ||| !self.waiting && after == self.in_phase(Phase::Dispatching)
                ||| after == self.in_phase(Phase::Failed)
            },
            Phase::AllIdleAndEmpty => after == self.in_phase(Phase::Terminating),
            Phase::Terminating => {
                ||| self.signals < self.nr_of_workers && after == self.signalled()
                ||| self.signals == self.nr_of_workers && after == self.in_phase(Phase::Joined)
                ||| after == self.in_phase(Phase::Failed)
            },
            Phase::Joined => after == self.sorted(),
            Phase::Sorted => false,
            Phase::Failed => false,
        }
    }

    /// Some number of steps, possibly none, lead from `self` to `after`.
    pub open spec fn reaches(self, after: Self) -> bool {
        exists|states: Seq<Self>|
            #[trigger] is_run(states) && states.first() == self && states.last() == after
    }

    /// A bound on the number of steps that can still be taken: each task
    /// still in the backlog costs its dispatch and its result, each task
    /// that is out its result, with at most two changes of phase for each of
    /// these; the shutdown costs one step for each termination signal still
    /// owed and one for each phase on the way to the sorted results.
    pub open spec fn steps_left(self) -> nat {
        let work = 3 * (2 * self.backlog.len() + self.outstanding.len());
        let shutdown = self.nr_of_workers + 4;
        match self.phase {
            Phase::Dispatching => work + 1 + shutdown,
            Phase::Draining => if self.waiting {
                work + shutdown
            } else {
                work + 2 + shutdown
            },
            Phase::AllIdleAndEmpty => self.nr_of_workers + 3,
            Phase::Terminating => (self.nr_of_workers - self.signals + 2) as nat,
            Phase::Joined => 1,
            Phase::Sorted => 0,
            Phase::Failed => 0,
        }
    }

    /// Handing out a task keeps the invariant.
    pub proof fn lemma_dispatched_wf(self)
        requires
            self.wf(),
            self.can_dispatch(),
            self.phase == Phase::Dispatching,
        ensures
            self.dispatched().wf(),
    {
        broadcast use vstd::multiset::group_multiset_axioms;

        let ids = task_ids(self.backlog);
        let id = self.backlog[0].id;
        assert(task_ids(self.backlog.drop_first()) =~= ids.remove(0));
        vstd::seq_lib::to_multiset_remove(ids, 0);
        vstd::seq_lib::to_multiset_contains(ids, id);
        assert(ids.contains(id)) by {
            assert(ids[0] == id);
        }
        assert(ids.remove(0).to_multiset().insert(id) =~= ids.to_multiset());
        assert(self.dispatched().conserved());
    }

    /// Taking in the result of a task that was out keeps the invariant.
    pub proof fn lemma_recorded_wf(self, result: TaskResult<R>)
        requires
            self.wf(),
            self.outstanding.count(result.id) > 0,
            self.phase == Phase::Draining,
        ensures
            self.recorded(result).wf(),
    {
        broadcast use vstd::multiset::group_multiset_axioms;

        let ids = result_ids(self.results);
        assert(result_ids(self.results.push(result)) =~= ids.push(result.id));
        vstd::seq_lib::to_multiset_build(ids, result.id);
        assert(self.recorded(result).conserved());
    }

    /// The sorted results are the collected results put in order.
    pub proof fn lemma_sorted_results(self)
        ensures
            is_sort_of(self.sorted().results, self.results),
    {
        crate::sorting::lemma_put_in_order_sorts(self.results);
    }

    /// Putting the results in order keeps the invariant.
    pub proof fn lemma_sorted_wf(self)
        requires
            self.wf(),
            self.phase == Phase::Joined,
        ensures
            self.sorted().wf(),
    {
        self.lemma_sorted_results();
        crate::sorting::lemma_same_results_same_ids(self.sorted().results, self.results);
    }

    /// Every step keeps the invariant.
    pub proof fn lemma_next_wf(self, after: Self)
        requires
            self.wf(),
            self.next(after),
        ensures
            after.wf(),
    {
        if self.phase == Phase::Dispatching && self.can_dispatch() && after == self.dispatched() {
            self.lemma_dispatched_wf();
        } else if self.phase == Phase::Draining && after.results.len() > 0
            && self.outstanding.count(after.results.last().id) > 0 && after == self.recorded(
            after.results.last(),
        ) {
            self.lemma_recorded_wf(after.results.last());
        } else if self.phase == Phase::Joined {
            self.lemma_sorted_wf();
        }
    }

    /// No step changes the batch or the size of the pool, and none lets the
    /// backlog grow: a step leaves the backlog as it is or takes its first
    /// task away.
    pub proof fn lemma_next_keeps_batch(self, after: Self)
        requires
            self.next(after),
        ensures
            after.submitted == self.submitted,
            after.nr_of_workers == self.nr_of_workers,
            after.backlog == self.backlog || (self.backlog.len() > 0 && after.backlog
                == self.backlog.drop_first()),
    {
    }

    /// Every step uses up at least one of the steps that were left.
    pub proof fn lemma_next_uses_a_step(self, after: Self)
        requires
            self.wf(),
            self.next(after),
        ensures
            after.steps_left() < self.steps_left(),
    {
        self.lemma_next_wf(after);
        if self.phase == Phase::Draining && after.results.len() > 0 && self.outstanding.count(
            after.results.last().id,
        ) > 0 && after == self.recorded(after.results.last()) {
            assert(after.outstanding.len() == self.outstanding.len() - 1);
        } else if self.phase == Phase::Dispatching && self.can_dispatch() && after
            == self.dispatched() {
            assert(after.backlog.len() == self.backlog.len() - 1);
            assert(after.outstanding.len() == self.outstanding.len() + 1);
        }
    }

    /// Unless the batch has come to its end or was given up, the
    /// orchestrator is never stuck: there is a step that does not give the
    /// batch up. Where it waits for a result, that step is to take in the
    /// result of a task that is out, with whatever `output` its worker
    /// computed.
    pub proof fn lemma_never_stuck(self, output: R) -> (after: Self)
        requires
            self.wf(),
            self.phase != Phase::Sorted,
            self.phase != Phase::Failed,
        ensures
            self.next(after),
            after.phase != Phase::Failed,
    {
        broadcast use vstd::multiset::group_multiset_axioms;

        match self.phase {
            Phase::Dispatching => {
                if self.idle_and_empty() {
                    self.in_phase(Phase::AllIdleAndEmpty)
                } else if self.can_dispatch() {
                    self.dispatched()
                } else {
                    self.awaiting()
                }
            },
            Phase::Draining => {
                if self.waiting {
                    let result = TaskResult { id: self.outstanding.choose(), output };
                    let after = self.recorded(result);
                    assert(after.results.last() == result);
                    after
                } else {
                    self.in_phase(Phase::Dispatching)
                }
            },
            Phase::AllIdleAndEmpty => self.in_phase(Phase::Terminating),
            Phase::Terminating => {
                if self.signals < self.nr_of_workers {
                    self.signalled()
                } else {
                    self.in_phase(Phase::Joined)
                }
            },
            _ => self.sorted(),
        }
    }

    /// The availability counter stays between 0 and the size of the pool,
    /// and it equals the size of the pool exactly when no task is out.
    pub proof fn lemma_available_counts_idle_workers(self)
        requires
            self.wf(),
        ensures
            self.available <= self.nr_of_workers,
            self.available == self.nr_of_workers <==> self.outstanding.len() == 0,
            self.available == 0 <==> self.outstanding.len() == self.nr_of_workers,
    {
    }

    /// Once the work is done there is exactly one result for each task that
    /// was submitted, and from the sorted phase on the results ascend by id.
    pub proof fn lemma_finished_batch_is_complete(self)
        requires
            self.wf(),
            self.idle_and_empty(),
        ensures
            result_ids(self.results).to_multiset() == self.submitted.to_multiset(),
            self.results.len() == self.submitted.len(),
            self.phase == Phase::Sorted ==> sorted_by_id(self.results),
    {
        broadcast use vstd::multiset::group_multiset_axioms;

        vstd::seq_lib::to_multiset_len(task_ids(self.backlog));
        assert(task_ids(self.backlog).to_multiset() =~= Multiset::<usize>::empty());
        assert(self.outstanding =~= Multiset::<usize>::empty());
        assert(result_ids(self.results).to_multiset() =~= self.submitted.to_multiset());
        vstd::seq_lib::to_multiset_len(result_ids(self.results));
        vstd::seq_lib::to_multiset_len(self.submitted);
    }

    /// Nothing is a step too.
    pub proof fn lemma_reaches_itself(self)
        ensures
            self.reaches(self),
    {
        let states = seq![self];
        assert(is_run(states) && states.first() == self && states.last() == self);
    }

    /// What is reached in some steps and one more is reached.
    pub proof fn lemma_reaches_one_more(self, before: Self, after: Self)
        requires
            self.reaches(before),
            before.next(after),
        ensures
            self.reaches(after),
    {
        let states = choose|states: Seq<Self>|
            #[trigger] is_run(states) && states.first() == self && states.last() == before;
        let longer = states.push(after);
        assert forall|i: int| 0 <= i < longer.len() - 1 implies (#[trigger] longer[i]).next(
            longer[i + 1],
        ) by {
            if i < states.len() - 1 {
                assert(states[i].next(states[i + 1]));
            }
        }
        assert(is_run(longer) && longer.first() == self && longer.last() == after);
    }

    /// What is reached from something reached is reached.
    pub proof fn lemma_reaches_further(self, between: Self, after: Self)
        requires
            self.reaches(between),
            between.reaches(after),
        ensures
            self.reaches(after),
    {
        let head = choose|states: Seq<Self>|
            #[trigger] is_run(states) && states.first() == self && states.last() == between;
        let tail = choose|states: Seq<Self>|
            #[trigger] is_run(states) && states.first() == between && states.last() == after;
        let whole = head + tail.drop_first();
        assert forall|i: int| 0 <= i < whole.len() - 1 implies (#[trigger] whole[i]).next(
            whole[i + 1],
        ) by {
            if i < head.len() - 1 {
                assert(head[i].next(head[i + 1]));
            } else {
                let k = i - (head.len() - 1);
                assert(tail[k].next(tail[k + 1]));
                assert(whole[i] == tail[k]);
                assert(whole[i + 1] == tail[k + 1]);
            }
        }
        assert(is_run(whole) && whole.first() == self && whole.last() == after);
    }
}

/// Unless it was given up, a batch can always be brought to its end: from
/// any state that satisfies the invariant there is a way to the sorted
/// results, whatever `output` the workers compute. The orchestrator never
/// gets into a state from which only giving up is left.
pub proof fn lemma_batch_can_end<P, R>(start: PoolView<P, R>, output: R) -> (end: PoolView<P, R>)
    requires
        start.wf(),
        start.phase != Phase::Failed,
    ensures
        start.reaches(end),
        end.phase == Phase::Sorted,
    decreases start.steps_left(),
{
    start.lemma_reaches_itself();
    if start.phase == Phase::Sorted {
        start
    } else {
        let after = start.lemma_never_stuck(output);
        start.lemma_next_wf(after);
        start.lemma_next_uses_a_step(after);
        let end = lemma_batch_can_end(after, output);
        start.lemma_reaches_one_more(start, after);
        start.lemma_reaches_further(after, end);
        end
    }
}

/// A fresh orchestrator satisfies the invariant.
pub proof fn lemma_initial_wf<P, R>(tasks: Seq<Task<P>>, nr_of_workers: nat)
    requires
        nr_of_workers >= 1,
    ensures
        PoolView::<P, R>::initial(tasks, nr_of_workers).wf(),
{
    let view = PoolView::<P, R>::initial(tasks, nr_of_workers);
    assert(result_ids(view.results) =~= Seq::<usize>::empty());
    assert(result_ids(view.results).to_multiset() =~= Multiset::<usize>::empty()) by {
        vstd::seq_lib::to_multiset_len(result_ids(view.results));
    }
    vstd::seq_lib::to_multiset_len(task_ids(tasks));
}

/// A run of the orchestrator: a sequence of states, each one step after the
/// one before.
pub open spec fn is_run<P, R>(states: Seq<PoolView<P, R>>) -> bool {
    &&& states.len() > 0
    &&& forall|i: int| 0 <= i < states.len() - 1 ==> (#[trigger] states[i]).next(states[i + 1])
}

/// The workers are honest in a run: whenever a result is taken in, it
/// holds what the computation returned for a task of the batch with its id.
pub open spec fn workers_are_honest<P, R>(
    states: Seq<PoolView<P, R>>,
    tasks: Seq<Task<P>>,
    computes: spec_fn(P, R) -> bool,
) -> bool {
    forall|i: int|
        0 <= i < states.len() - 1 && (#[trigger] states[i]).phase == Phase::Draining && states[i
            + 1].results.len() == states[i].results.len() + 1 ==> comes_from(
            tasks,
            states[i + 1].results.last(),
            computes,
        )
}

/// The invariant holds in every state of a run that starts in a state where
/// it holds. No state of a run has another batch, another pool size or a
/// longer backlog than the states before it: the backlog only ever loses
/// tasks from its front.
pub proof fn lemma_run_keeps_invariant<P, R>(states: Seq<PoolView<P, R>>, i: int)
    requires
        is_run(states),
        states.first().wf(),
        0 <= i < states.len(),
    ensures
        states[i].wf(),
        states[i].submitted == states.first().submitted,
        states[i].nr_of_workers == states.first().nr_of_workers,
        states[i].backlog.len() <= states.first().backlog.len(),
        states[i].backlog == states.first().backlog.skip(
            states.first().backlog.len() - states[i].backlog.len(),
        ),
    decreases i,
{
    if i > 0 {
        lemma_run_keeps_invariant(states, i - 1);
        assert(states[i - 1].next(states[i]));
        states[i - 1].lemma_next_wf(states[i]);
        states[i - 1].lemma_next_keeps_batch(states[i]);
    }
}

/// No run goes on for ever: from a state that satisfies the invariant, a
/// run has at most as many steps as were left in that state. So the control
/// thread cannot go round in circles: as long as every wait for a result
/// ends, the batch comes to its end.
pub proof fn lemma_runs_are_bounded<P, R>(states: Seq<PoolView<P, R>>)
    requires
        is_run(states),
        states.first().wf(),
    ensures
        states.len() + states.last().steps_left() <= states.first().steps_left() + 1,
    decreases states.len(),
{
    if states.len() > 1 {
        let shorter = states.drop_last();
        assert(is_run(shorter)) by {
            assert forall|i: int| 0 <= i < shorter.len() - 1 implies (#[trigger] shorter[i]).next(
                shorter[i + 1],
            ) by {
                assert(states[i].next(states[i + 1]));
            }
        }
        lemma_runs_are_bounded(shorter);
        lemma_run_keeps_invariant(shorter, shorter.len() - 1);
        assert(states[states.len() - 2].next(states[states.len() - 1]));
        shorter.last().lemma_next_uses_a_step(states.last());
    }
}

/// A pool of `nr_of_workers` workers comes to the end of a batch of `n`
/// tasks, or gives it up, within `6 * n + nr_of_workers + 5` steps.
pub proof fn lemma_batch_ends<P, R>(
    tasks: Seq<Task<P>>,
    nr_of_workers: nat,
    states: Seq<PoolView<P, R>>,
)
    requires
        nr_of_workers >= 1,
        is_run(states),
        states.first() == PoolView::<P, R>::initial(tasks, nr_of_workers),
    ensures
        states.len() <= 6 * tasks.len() + nr_of_workers + 6,
{
    lemma_initial_wf::<P, R>(tasks, nr_of_workers);
    lemma_runs_are_bounded(states);
}

/// A run that starts with dispatching comes to the sorted results only by
/// way of the whole shutdown: the results are put in order in the step
/// after all workers were seen to have exited, and that was seen in the
/// step after each of them had been sent its termination signal.
pub proof fn lemma_sorted_only_after_shutdown<P, R>(states: Seq<PoolView<P, R>>, i: int)
    requires
        is_run(states),
        states.first().phase == Phase::Dispatching,
        0 <= i < states.len(),
        states[i].phase == Phase::Sorted,
    ensures
        i >= 2,
        states[i - 1].phase == Phase::Joined,
        states[i - 2].phase == Phase::Terminating,
        states[i - 2].signals == states[i - 2].nr_of_workers,
{
    assert(i >= 1);
    assert(states[i - 1].next(states[i]));
    assert(states[i - 1].phase == Phase::Joined);
    assert(i >= 2);
    assert(states[i - 2].next(states[i - 1]));
}

/// In a run that starts with dispatching, the workers are told to stop only
/// after the work was done: before any state in which termination signals
/// go out, there is one in which the backlog was found empty and every
/// worker idle.
pub proof fn lemma_termination_only_after_the_work<P, R>(states: Seq<PoolView<P, R>>, i: int)
    requires
        is_run(states),
        states.first().phase == Phase::Dispatching,
        0 <= i < states.len(),
        states[i].phase == Phase::Terminating,
    ensures
        exists|j: int| 0 <= j < i && (#[trigger] states[j]).phase == Phase::AllIdleAndEmpty,
    decreases i,
{
    assert(i >= 1);
    assert(states[i - 1].next(states[i]));
    if states[i - 1].phase == Phase::Terminating {
        lemma_termination_only_after_the_work(states, i - 1);
    } else {
        assert(states[i - 1].phase == Phase::AllIdleAndEmpty);
    }
}

/// Where a run from a fresh orchestrator has come to the sorted results,
/// they ascend by id and there is exactly one for each task of the batch.
pub proof fn lemma_end_of_run<P, R>(tasks: Seq<Task<P>>, nr_of_workers: nat, end: PoolView<P, R>)
    requires
        nr_of_workers >= 1,
        PoolView::<P, R>::initial(tasks, nr_of_workers).reaches(end),
        end.phase == Phase::Sorted,
    ensures
        end.wf(),
        sorted_by_id(end.results),
        result_ids(end.results).to_multiset() == task_ids(tasks).to_multiset(),
        end.results.len() == tasks.len(),
{
    let start = PoolView::<P, R>::initial(tasks, nr_of_workers);
    let states = choose|states: Seq<PoolView<P, R>>|
        #[trigger] is_run(states) && states.first() == start && states.last() == end;
    lemma_initial_wf::<P, R>(tasks, nr_of_workers);
    lemma_run_keeps_invariant(states, states.len() - 1);
    end.lemma_finished_batch_is_complete();
}

/// A pool of any size, run in any way to the end on tasks numbered 0, 1,
/// 2, ..., ends with exactly one result for each task, the result at place
/// `i` carrying the id `i`.
pub proof fn lemma_numbered_batch_has_every_id_once<P, R>(
    tasks: Seq<Task<P>>,
    nr_of_workers: nat,
    end: PoolView<P, R>,
)
    requires
        numbered_in_order(tasks),
        nr_of_workers >= 1,
        PoolView::<P, R>::initial(tasks, nr_of_workers).reaches(end),
        end.phase == Phase::Sorted,
    ensures
        end.results.len() == tasks.len(),
        forall|i: int| 0 <= i < tasks.len() ==> end.results[i].id == i,
{
    lemma_end_of_run(tasks, nr_of_workers, end);
    crate::batch::lemma_numbered_batch_has_every_id_once(tasks, end.results);
}

/// With honest workers, every result that the orchestrator holds in a run
/// from a fresh start holds what the computation returned for a task of the
/// batch with its id.
pub proof fn lemma_honest_run_answers<P, R>(
    states: Seq<PoolView<P, R>>,
    tasks: Seq<Task<P>>,
    computes: spec_fn(P, R) -> bool,
    i: int,
)
    requires
        is_run(states),
        states.first().results.len() == 0,
        workers_are_honest(states, tasks, computes),
        0 <= i < states.len(),
    ensures
        answers(tasks, states[i].results, computes),
    decreases i,
{
    if i > 0 {
        lemma_honest_run_answers(states, tasks, computes, i - 1);
        let before = states[i - 1];
        let after = states[i];
        assert(before.next(after));
        if before.phase == Phase::Joined {
            before.lemma_sorted_results();
            assert forall|k: int| 0 <= k < after.results.len() implies comes_from(
                tasks,
                #[trigger] after.results[k],
                computes,
            ) by {
                vstd::seq_lib::to_multiset_contains(after.results, after.results[k]);
                vstd::seq_lib::to_multiset_contains(before.results, after.results[k]);
                assert(after.results.contains(after.results[k]));
                let j = choose|j: int|
                    0 <= j < before.results.len() && before.results[j] == after.results[k];
                assert(comes_from(tasks, before.results[j], computes));
            }
        } else if before.phase == Phase::Draining && after.results.len() == before.results.len()
            + 1 {
            assert forall|k: int| 0 <= k < after.results.len() implies comes_from(
                tasks,
                #[trigger] after.results[k],
                computes,
            ) by {
                if k < before.results.len() {
                    assert(after.results[k] == before.results[k]);
                }
            }
        } else {
            assert(after.results == before.results);
        }
    }
}

/// Two pools, of whatever sizes, that were run in whatever way to the end on
/// the same batch of tasks with distinct ids hold the same results,
/// provided that the workers were honest and the computation has one output
/// for each input. Neither the number of workers nor the order in which
/// they finished shows in the outcome.
pub proof fn lemma_outcome_does_not_depend_on_the_pool<P, R>(
    tasks: Seq<Task<P>>,
    computes: spec_fn(P, R) -> bool,
    states: Seq<PoolView<P, R>>,
    other_states: Seq<PoolView<P, R>>,
)
    requires
        distinct_ids(tasks),
        deterministic(computes),
        is_run(states),
        states.first().nr_of_workers >= 1,
        states.first() == PoolView::<P, R>::initial(tasks, states.first().nr_of_workers),
        states.last().phase == Phase::Sorted,
        workers_are_honest(states, tasks, computes),
        is_run(other_states),
        other_states.first().nr_of_workers >= 1,
        other_states.first() == PoolView::<P, R>::initial(
            tasks,
            other_states.first().nr_of_workers,
        ),
        other_states.last().phase == Phase::Sorted,
        workers_are_honest(other_states, tasks, computes),
    ensures
        states.last().results == other_states.last().results,
{
    let end = states.last();
    let other_end = other_states.last();
    assert(is_run(states) && states.first() == states.first() && states.last() == end);
    assert(is_run(other_states) && other_states.first() == other_states.first()
        && other_states.last() == other_end);
    lemma_end_of_run(tasks, states.first().nr_of_workers, end);
    lemma_end_of_run(tasks, other_states.first().nr_of_workers, other_end);
    lemma_honest_run_answers(states, tasks, computes, states.len() - 1);
    lemma_honest_run_answers(other_states, tasks, computes, other_states.len() - 1);
    crate::batch::lemma_answer_is_unique(tasks, computes, end.results, other_end.results);
}

} // verus!
