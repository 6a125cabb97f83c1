use std::collections::VecDeque;
use taskpool::channel::Polled;
use taskpool::model::Phase;
use taskpool::orchestrator::{Orchestrator, PoolError, Step, ToOrchestratorMessage, WorkerEnds};
use taskpool::task::{Task, TaskResult};
use taskpool::worker::{ToWorkerMessage, Worker};

fn batch(n: usize) -> VecDeque<Task<u64>> {
    (0..n).map(|id| Task { id, params: id as u64 }).collect()
}

fn times_ten(params: u64) -> u64 {
    params * 10
}

fn tenfold(n: usize) -> Vec<TaskResult<u64>> {
    (0..n).map(|id| TaskResult { id, output: id as u64 * 10 }).collect()
}

fn result(id: usize) -> ToOrchestratorMessage<u64> {
    ToOrchestratorMessage::TaskResult(TaskResult { id, output: id as u64 * 10 })
}

fn pool(n: usize, nr_of_workers: usize) -> (Orchestrator<u64, u64>, WorkerEnds<u64, u64>) {
    Orchestrator::with_workers(batch(n), nr_of_workers).expect("a pool needs a worker")
}

/// What was seen while a batch was played.
struct Played {
    results: Vec<TaskResult<u64>>,
    /// The ids of the tasks in the order in which they were handed out.
    handed_out: Vec<usize>,
    /// The ids of the results in the order in which they came back.
    came_back: Vec<usize>,
    /// The largest number of tasks that were out at the same time.
    most_out: usize,
    /// How many steps the orchestrator took, from the fresh state to the
    /// sorted results.
    steps: usize,
}

/// Plays a whole batch on one thread, with one worker standing in for all.
/// Each time the control thread waits, `finishes` is asked, given the number
/// of tasks that are out, which of them completes (by its place among
/// them) and whether another result is already there.
fn play<F>(made: (Orchestrator<u64, u64>, WorkerEnds<u64, u64>), mut finishes: F) -> Played
where
    F: FnMut(usize) -> (usize, bool),
{
    let (mut orchestrator, _ends) = made;
    let nr_of_workers = orchestrator.nr_of_workers();
    let mut worker = Worker::new(0);
    let mut out: Vec<Task<u64>> = Vec::new();
    let mut played = Played {
        results: Vec::new(),
        handed_out: Vec::new(),
        came_back: Vec::new(),
        most_out: 0,
        steps: 0,
    };
    loop {
        assert_eq!(orchestrator.phase(), Phase::Dispatching);
        played.steps += 1;
        match orchestrator.next_step() {
            Step::Dispatch(task) => {
                played.handed_out.push(task.id);
                out.push(task);
                assert!(out.len() <= nr_of_workers, "more tasks out than workers");
                played.most_out = played.most_out.max(out.len());
                assert_eq!(orchestrator.task_sent(true), Ok(()));
            }
            Step::Shutdown => break,
            Step::Await => {
                assert_eq!(orchestrator.phase(), Phase::Draining);
                assert!(orchestrator.is_waiting());
                assert_eq!(orchestrator.nr_of_tasks_out(), out.len());
                assert!(!out.is_empty(), "waiting although no task is out");
                assert!(
                    orchestrator.none_available() || orchestrator.nr_of_pending_tasks() == 0,
                    "waiting although a task could be handed out"
                );
                let mut first = true;
                loop {
                    let (place, more) = finishes(out.len());
                    let task = out.remove(place);
                    played.came_back.push(task.id);
                    let reply = worker.handle(ToWorkerMessage::Task(task), &times_ten);
                    let reply = reply.expect("a task has a reply");
                    played.steps += 1;
                    if first {
                        assert_eq!(orchestrator.take_received(Some(reply)), Ok(()));
                        assert!(!orchestrator.is_waiting());
                        first = false;
                    } else {
                        assert_eq!(orchestrator.take_polled(Polled::Ready(reply)), Ok(true));
                    }
                    if !more || out.is_empty() {
                        break;
                    }
                }
                played.steps += 1;
                assert_eq!(orchestrator.take_polled(Polled::Empty), Ok(false));
            }
        }
    }
    assert!(out.is_empty());
    assert!(orchestrator.all_available());
    assert_eq!(orchestrator.nr_of_pending_tasks(), 0);
    assert_eq!(orchestrator.phase(), Phase::AllIdleAndEmpty);
    assert_eq!(orchestrator.start_termination(), nr_of_workers);
    assert_eq!(orchestrator.phase(), Phase::Terminating);
    while orchestrator.nr_of_signals_owed() > 0 {
        assert_eq!(orchestrator.signal_sent(true), Ok(()));
        played.steps += 1;
    }
    // Starting the shutdown, seeing the workers exit, sorting.
    played.steps += 3;
    assert!(worker.handle::<u64, u64, _>(ToWorkerMessage::Terminate, &times_ten).is_none());
    assert!(worker.is_stopped());
    assert_eq!(orchestrator.workers_joined(true), Ok(()));
    assert_eq!(orchestrator.phase(), Phase::Joined);
    orchestrator.sort_results();
    assert_eq!(orchestrator.phase(), Phase::Sorted);
    played.results = orchestrator.get_results();
    played
}

/// The task that has been out longest completes, one result at a time.
fn oldest_first(_out: usize) -> (usize, bool) {
    (0, false)
}

/// The task that went out last completes, one result at a time.
fn newest_first(out: usize) -> (usize, bool) {
    (out - 1, false)
}

/// Every task that is out completes before the control thread looks again,
/// the newest first.
fn in_bursts(out: usize) -> (usize, bool) {
    (out - 1, true)
}

/// A fixed sequence of pseudo-random choices.
fn shuffled(seed: u64) -> impl FnMut(usize) -> (usize, bool) {
    let mut state = seed;
    move |out: usize| {
        state = state.wrapping_mul(6364136223846793005).wrapping_add(1442695040888963407);
        let place = ((state >> 33) as usize) % out;
        let more = (state >> 62) & 1 == 1;
        (place, more)
    }
}

fn ids(results: &[TaskResult<u64>]) -> Vec<usize> {
    results.iter().map(|result| result.id).collect()
}

#[test]
fn four_tasks_on_two_workers() {
    let played = play(pool(4, 2), oldest_first);
    assert_eq!(
        played.results,
        vec![
            TaskResult { id: 0, output: 0 },
            TaskResult { id: 1, output: 10 },
            TaskResult { id: 2, output: 20 },
            TaskResult { id: 3, output: 30 },
        ]
    );
    assert_eq!(played.most_out, 2);
}

#[test]
fn hundred_and_one_tasks_on_all_cores() {
    let made = Orchestrator::<u64, u64>::new(batch(101));
    assert_eq!(made.0.nr_of_workers(), num_cpus::get());
    let played = play(made, shuffled(7));
    assert_eq!(ids(&played.results), (0..=100).collect::<Vec<usize>>());
    assert_eq!(played.results, tenfold(101));
}

#[test]
fn new_has_a_worker_for_each_logical_core() {
    let (orchestrator, _ends) = Orchestrator::<u64, u64>::new(batch(3));
    assert!(orchestrator.nr_of_workers() >= 1);
    assert_eq!(orchestrator.nr_of_workers(), num_cpus::get());
    assert_eq!(orchestrator.nr_of_pending_tasks(), 3);
    assert_eq!(orchestrator.phase(), Phase::Dispatching);
    assert!(orchestrator.all_available());
}

#[test]
fn every_id_exactly_once_for_all_sizes() {
    for n in 0..=12 {
        for nr_of_workers in 1..=5 {
            let expected = tenfold(n);
            assert_eq!(play(pool(n, nr_of_workers), oldest_first).results, expected);
            assert_eq!(play(pool(n, nr_of_workers), newest_first).results, expected);
            assert_eq!(play(pool(n, nr_of_workers), in_bursts).results, expected);
            let seed = (n * 31 + nr_of_workers) as u64;
            assert_eq!(play(pool(n, nr_of_workers), shuffled(seed)).results, expected);
        }
    }
}

#[test]
fn every_batch_ends_within_its_bound_of_steps() {
    for n in 0..=10 {
        for nr_of_workers in 1..=4 {
            let bound = 6 * n + nr_of_workers + 5;
            assert!(play(pool(n, nr_of_workers), oldest_first).steps <= bound);
            assert!(play(pool(n, nr_of_workers), in_bursts).steps <= bound);
            assert!(play(pool(n, nr_of_workers), shuffled(n as u64)).steps <= bound);
        }
    }
    // An empty batch on one worker: done, stop, one signal, joined, sorted.
    assert_eq!(play(pool(0, 1), oldest_first).steps, 5);
    // One task on one worker: out, wait, result, nothing more there, and
    // then as above.
    assert_eq!(play(pool(1, 1), oldest_first).steps, 9);
}

#[test]
fn sorted_whatever_the_completion_order() {
    let played = play(pool(9, 4), in_bursts);
    assert_eq!(played.came_back, vec![3, 2, 1, 0, 7, 6, 5, 4, 8]);
    assert_eq!(ids(&played.results), vec![0, 1, 2, 3, 4, 5, 6, 7, 8]);

    let played = play(pool(30, 6), shuffled(2024));
    let mut in_order = played.came_back.clone();
    in_order.sort();
    assert_ne!(played.came_back, in_order);
    assert_eq!(ids(&played.results), in_order);
}

#[test]
fn outcome_does_not_depend_on_the_number_of_workers() {
    let alone = play(pool(20, 1), oldest_first).results;
    let pair = play(pool(20, 2), newest_first).results;
    let many = play(pool(20, 7), shuffled(99)).results;
    assert_eq!(alone, tenfold(20));
    assert_eq!(pair, alone);
    assert_eq!(many, alone);
}

#[test]
fn pool_and_calling_thread_agree() {
    let tasks: Vec<Task<u64>> = batch(15).into_iter().collect();
    let on_this_thread = taskpool::batch::run_multi_single(tasks, &times_ten);
    let on_the_pool = play(pool(15, 3), shuffled(5)).results;
    assert_eq!(on_the_pool, on_this_thread);
}

#[test]
fn empty_batch_needs_no_dispatch() {
    let (mut orchestrator, _ends) = pool(0, 3);
    assert!(matches!(orchestrator.next_step(), Step::Shutdown));
    assert_eq!(orchestrator.phase(), Phase::AllIdleAndEmpty);

    let played = play(pool(0, 3), oldest_first);
    assert!(played.results.is_empty());
    assert!(played.handed_out.is_empty());
    assert_eq!(played.most_out, 0);
}

#[test]
fn empty_batch_runs_to_the_end_without_waiting() {
    let (mut orchestrator, ends) = pool(0, 3);
    let inbox = ends.to_worker_receiver;
    assert_eq!(orchestrator.dispatch_phase(), Ok(true));
    assert!(matches!(inbox.try_recv(), Err(std::sync::mpsc::TryRecvError::Empty)));

    let (mut orchestrator, _ends) = pool(0, 3);
    assert_eq!(orchestrator.run(|| true), Ok(()));
    assert_eq!(orchestrator.phase(), Phase::Sorted);
    assert_eq!(orchestrator.get_results(), Vec::new());
}

#[test]
fn one_task_on_eight_workers() {
    let (mut orchestrator, _ends) = pool(1, 8);
    assert_eq!(orchestrator.next_step(), Step::Dispatch(Task { id: 0, params: 0 }));
    assert!(!orchestrator.all_available());
    assert!(!orchestrator.none_available());
    assert_eq!(orchestrator.next_step(), Step::Await);

    let played = play(pool(1, 8), oldest_first);
    assert_eq!(played.results, tenfold(1));
    assert_eq!(played.most_out, 1);
}

#[test]
fn one_worker_works_through_the_batch_in_order() {
    let played = play(pool(6, 1), in_bursts);
    assert_eq!(played.most_out, 1);
    assert_eq!(played.handed_out, vec![0, 1, 2, 3, 4, 5]);
    assert_eq!(played.came_back, vec![0, 1, 2, 3, 4, 5]);
    assert_eq!(played.results, tenfold(6));
}

#[test]
fn tasks_go_out_in_order_of_submission() {
    let tasks: VecDeque<Task<u64>> =
        [4usize, 2, 9, 0].iter().map(|&id| Task { id, params: id as u64 }).collect();
    let made = Orchestrator::<u64, u64>::with_workers(tasks, 2).expect("a pool needs a worker");
    let played = play(made, newest_first);
    assert_eq!(played.handed_out, vec![4, 2, 9, 0]);
    assert_eq!(ids(&played.results), vec![0, 2, 4, 9]);
}

#[test]
fn all_idle_workers_are_busy_before_the_wait() {
    let (mut orchestrator, _ends) = pool(5, 3);
    assert!(orchestrator.all_available());
    for id in 0..3 {
        assert!(!orchestrator.none_available());
        match orchestrator.next_step() {
            Step::Dispatch(task) => assert_eq!(task.id, id),
            _ => panic!("a task can be handed out"),
        }
        assert!(!orchestrator.all_available());
    }
    assert!(orchestrator.none_available());
    assert_eq!(orchestrator.nr_of_pending_tasks(), 2);
    assert!(matches!(orchestrator.next_step(), Step::Await));
    assert_eq!(orchestrator.phase(), Phase::Draining);

    assert_eq!(orchestrator.accept(result(1)), Ok(()));
    assert!(!orchestrator.none_available());
    assert!(!orchestrator.all_available());
    orchestrator.resume();
    assert_eq!(orchestrator.next_step(), Step::Dispatch(Task { id: 3, params: 3 }));
    assert!(orchestrator.none_available());
}

#[test]
fn no_pool_without_workers() {
    assert!(Orchestrator::<u64, u64>::with_workers(batch(3), 0).is_none());
    assert!(Orchestrator::<u64, u64>::with_workers(batch(0), 0).is_none());
    assert!(Orchestrator::<u64, u64>::with_workers(batch(3), 1).is_some());
}

#[test]
fn a_result_nobody_asked_for_ends_the_batch() {
    let (mut orchestrator, _ends) = pool(3, 2);
    assert!(matches!(orchestrator.next_step(), Step::Dispatch(_)));
    assert!(matches!(orchestrator.next_step(), Step::Dispatch(_)));
    assert!(matches!(orchestrator.next_step(), Step::Await));
    // Task 2 has not been handed out yet.
    assert_eq!(orchestrator.accept(result(2)), Err(PoolError::ResultCollection));
    assert_eq!(orchestrator.phase(), Phase::Failed);
}

#[test]
fn a_result_that_comes_twice_ends_the_batch() {
    let (mut orchestrator, _ends) = pool(3, 2);
    assert!(matches!(orchestrator.next_step(), Step::Dispatch(_)));
    assert!(matches!(orchestrator.next_step(), Step::Dispatch(_)));
    assert!(matches!(orchestrator.next_step(), Step::Await));
    assert_eq!(orchestrator.take_received(Some(result(0))), Ok(()));
    assert_eq!(
        orchestrator.take_polled(Polled::Ready(result(0))),
        Err(PoolError::ResultCollection)
    );
    assert_eq!(orchestrator.phase(), Phase::Failed);
}

#[test]
fn a_closed_result_channel_ends_the_batch_while_tasks_are_out() {
    let (mut orchestrator, _ends) = pool(2, 2);
    assert!(matches!(orchestrator.next_step(), Step::Dispatch(_)));
    assert!(matches!(orchestrator.next_step(), Step::Dispatch(_)));
    assert!(matches!(orchestrator.next_step(), Step::Await));
    assert_eq!(orchestrator.take_received(None), Err(PoolError::ResultCollection));
    assert_eq!(orchestrator.phase(), Phase::Failed);

    let (mut orchestrator, _ends) = pool(2, 2);
    assert!(matches!(orchestrator.next_step(), Step::Dispatch(_)));
    assert!(matches!(orchestrator.next_step(), Step::Dispatch(_)));
    assert!(matches!(orchestrator.next_step(), Step::Await));
    assert_eq!(orchestrator.take_received(Some(result(1))), Ok(()));
    assert_eq!(
        orchestrator.take_polled(Polled::Disconnected),
        Err(PoolError::ResultCollection)
    );
    assert_eq!(orchestrator.phase(), Phase::Failed);
}

#[test]
fn a_closed_result_channel_does_no_harm_once_nothing_is_out() {
    let (mut orchestrator, _ends) = pool(1, 2);
    assert!(matches!(orchestrator.next_step(), Step::Dispatch(_)));
    assert!(matches!(orchestrator.next_step(), Step::Await));
    assert_eq!(orchestrator.take_received(Some(result(0))), Ok(()));
    assert_eq!(orchestrator.take_polled(Polled::Disconnected), Ok(false));
    assert_eq!(orchestrator.phase(), Phase::Dispatching);
    assert!(matches!(orchestrator.next_step(), Step::Shutdown));
}

#[test]
fn a_task_that_cannot_be_sent_ends_the_batch() {
    let (mut orchestrator, _ends) = pool(2, 2);
    assert!(matches!(orchestrator.next_step(), Step::Dispatch(_)));
    assert_eq!(orchestrator.task_sent(true), Ok(()));
    assert_eq!(orchestrator.phase(), Phase::Dispatching);
    assert!(matches!(orchestrator.next_step(), Step::Dispatch(_)));
    assert_eq!(orchestrator.task_sent(false), Err(PoolError::Dispatch));
    assert_eq!(orchestrator.phase(), Phase::Failed);
}

#[test]
fn a_failed_shutdown_ends_the_batch() {
    let (mut orchestrator, _ends) = pool(0, 2);
    assert!(matches!(orchestrator.next_step(), Step::Shutdown));
    assert_eq!(orchestrator.start_termination(), 2);
    assert_eq!(orchestrator.signal_sent(true), Ok(()));
    assert_eq!(orchestrator.signal_sent(false), Err(PoolError::Shutdown));
    assert_eq!(orchestrator.phase(), Phase::Failed);

    let (mut orchestrator, _ends) = pool(0, 2);
    assert!(matches!(orchestrator.next_step(), Step::Shutdown));
    assert_eq!(orchestrator.start_termination(), 2);
    assert_eq!(orchestrator.nr_of_signals_owed(), 2);
    assert_eq!(orchestrator.signal_sent(true), Ok(()));
    assert_eq!(orchestrator.nr_of_signals_owed(), 1);
    assert_eq!(orchestrator.signal_sent(true), Ok(()));
    assert_eq!(orchestrator.nr_of_signals_owed(), 0);
    assert_eq!(orchestrator.workers_joined(false), Err(PoolError::Shutdown));
    assert_eq!(orchestrator.phase(), Phase::Failed);
}

#[test]
fn results_that_share_an_id_keep_the_order_of_arrival() {
    let tasks: VecDeque<Task<u64>> = vec![
        Task { id: 5, params: 1 },
        Task { id: 1, params: 2 },
        Task { id: 5, params: 3 },
        Task { id: 1, params: 4 },
    ]
    .into();
    let made = Orchestrator::<u64, u64>::with_workers(tasks, 4).expect("a pool needs a worker");
    let played = play(made, in_bursts);
    assert_eq!(played.came_back, vec![1, 5, 1, 5]);
    assert_eq!(
        played.results,
        vec![
            TaskResult { id: 1, output: 40 },
            TaskResult { id: 1, output: 20 },
            TaskResult { id: 5, output: 30 },
            TaskResult { id: 5, output: 10 },
        ]
    );
}

#[test]
fn run_with_results_already_there() {
    let (mut orchestrator, ends) = pool(3, 4);
    for id in [2usize, 0, 1] {
        ends.to_orchestrator_sender.send(result(id)).unwrap();
    }
    assert_eq!(orchestrator.run(|| true), Ok(()));
    assert_eq!(orchestrator.phase(), Phase::Sorted);
    assert_eq!(orchestrator.get_results(), tenfold(3));
}

#[test]
fn run_ends_well_when_the_workers_are_gone_after_the_last_result() {
    let (mut orchestrator, ends) = pool(3, 3);
    let WorkerEnds { to_worker_receiver: _inbox, to_orchestrator_sender: outbox } = ends;
    for id in [1usize, 2, 0] {
        outbox.send(result(id)).unwrap();
    }
    drop(outbox);
    assert_eq!(orchestrator.run(|| true), Ok(()));
    assert_eq!(orchestrator.get_results(), tenfold(3));
}

#[test]
fn run_sends_every_task_and_then_one_stop_signal_for_each_worker() {
    let nr_of_workers = 5;
    let (mut orchestrator, ends) = pool(3, nr_of_workers);
    let WorkerEnds { to_worker_receiver: inbox, to_orchestrator_sender: outbox } = ends;
    for id in 0..3 {
        outbox.send(result(id)).unwrap();
    }
    // Joining finds everything that was sent to the workers: the tasks in
    // the order of submission, and after them the stop signals.
    let join_workers = move || {
        for id in 0..3 {
            match inbox.try_recv() {
                Ok(ToWorkerMessage::Task(task)) => assert_eq!(task.id, id),
                _ => return false,
            }
        }
        for _ in 0..nr_of_workers {
            if !matches!(inbox.try_recv(), Ok(ToWorkerMessage::Terminate)) {
                return false;
            }
        }
        inbox.try_recv().is_err()
    };
    assert_eq!(orchestrator.run(join_workers), Ok(()));
    assert_eq!(orchestrator.phase(), Phase::Sorted);
}

#[test]
fn run_gives_up_when_no_worker_listens() {
    let (mut orchestrator, ends) = pool(3, 2);
    let WorkerEnds { to_worker_receiver: inbox, to_orchestrator_sender: _outbox } = ends;
    drop(inbox);
    assert_eq!(orchestrator.run(|| true), Err(PoolError::Dispatch));
    assert_eq!(orchestrator.phase(), Phase::Failed);
}

#[test]
fn run_gives_up_when_no_result_can_come() {
    let (mut orchestrator, ends) = pool(3, 2);
    let WorkerEnds { to_worker_receiver: _inbox, to_orchestrator_sender: outbox } = ends;
    drop(outbox);
    assert_eq!(orchestrator.run(|| true), Err(PoolError::ResultCollection));
    assert_eq!(orchestrator.phase(), Phase::Failed);
}

#[test]
fn run_gives_up_when_the_results_stop_short() {
    let (mut orchestrator, ends) = pool(3, 3);
    let WorkerEnds { to_worker_receiver: _inbox, to_orchestrator_sender: outbox } = ends;
    outbox.send(result(1)).unwrap();
    drop(outbox);
    assert_eq!(orchestrator.run(|| true), Err(PoolError::ResultCollection));
    assert_eq!(orchestrator.phase(), Phase::Failed);
}

#[test]
fn run_gives_up_on_a_result_nobody_asked_for() {
    let (mut orchestrator, ends) = pool(3, 3);
    ends.to_orchestrator_sender.send(result(0)).unwrap();
    ends.to_orchestrator_sender.send(result(17)).unwrap();
    assert_eq!(orchestrator.run(|| true), Err(PoolError::ResultCollection));
    assert_eq!(orchestrator.phase(), Phase::Failed);
}

#[test]
fn run_gives_up_when_a_worker_does_not_exit_cleanly() {
    let (mut orchestrator, ends) = pool(2, 2);
    ends.to_orchestrator_sender.send(result(0)).unwrap();
    ends.to_orchestrator_sender.send(result(1)).unwrap();
    assert_eq!(orchestrator.run(|| false), Err(PoolError::Shutdown));
    assert_eq!(orchestrator.phase(), Phase::Failed);
}

#[test]
fn run_gives_up_when_a_stop_signal_cannot_be_sent() {
    let (mut orchestrator, ends) = pool(0, 2);
    let WorkerEnds { to_worker_receiver: inbox, to_orchestrator_sender: _outbox } = ends;
    drop(inbox);
    assert_eq!(orchestrator.run(|| true), Err(PoolError::Shutdown));
    assert_eq!(orchestrator.phase(), Phase::Failed);
}

#[test]
fn collecting_takes_every_result_that_is_there() {
    let (mut orchestrator, ends) = pool(5, 3);
    assert_eq!(orchestrator.dispatch_phase(), Ok(false));
    assert!(orchestrator.none_available());
    assert_eq!(orchestrator.nr_of_pending_tasks(), 2);
    ends.to_orchestrator_sender.send(result(2)).unwrap();
    ends.to_orchestrator_sender.send(result(0)).unwrap();
    assert_eq!(orchestrator.collect_results(), Ok(()));
    assert_eq!(orchestrator.phase(), Phase::Dispatching);
    assert!(!orchestrator.none_available());
    assert!(!orchestrator.all_available());
    // Two workers are idle again: both tasks that are left go out.
    assert_eq!(orchestrator.dispatch_phase(), Ok(false));
    assert_eq!(orchestrator.nr_of_pending_tasks(), 0);
    assert!(orchestrator.none_available());
}

#[test]
fn an_error_names_the_part_of_the_pool_that_failed() {
    assert_eq!(PoolError::Dispatch.subsystem(), "dispatch");
    assert_eq!(PoolError::ResultCollection.subsystem(), "result collection");
    assert_eq!(PoolError::Shutdown.subsystem(), "shutdown join");
}

#[test]
fn the_pool_has_a_worker_for_each_place_numbered_from_zero() {
    let (orchestrator, _ends) = pool(4, 3);
    let workers = orchestrator.workers();
    assert_eq!(workers.len(), 3);
    for (place, worker) in workers.iter().enumerate() {
        assert_eq!(worker.id(), place);
        assert!(!worker.is_stopped());
    }
}

#[test]
fn parameters_in_and_outputs_out_in_the_same_order() {
    let tasks = taskpool::batch::make_tasks(vec![7u64, 3, 9, 1, 4]);
    let made = Orchestrator::<u64, u64>::with_workers(tasks, 2).expect("a pool needs a worker");
    let played = play(made, shuffled(11));
    assert_eq!(taskpool::batch::into_outputs(played.results), vec![70, 30, 90, 10, 40]);
}
