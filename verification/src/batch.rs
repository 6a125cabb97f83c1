//! Whole batches: numbering tasks, running a batch on the calling thread,
//! and what makes a sequence of results the answer to a batch.

use crate::sorting::{is_sort_of, sort_by_id, sorted_by_id};
use crate::task::{counts_up, result_ids, task_ids, Task, TaskResult};
use std::collections::VecDeque;
use vstd::prelude::*;

verus! {

/// The tasks carry the ids 0, 1, 2, ... in the order in which they stand.
pub open spec fn numbered_in_order<P>(tasks: Seq<Task<P>>) -> bool {
    counts_up(task_ids(tasks))
}

/// No two tasks share an id.
pub open spec fn distinct_ids<P>(tasks: Seq<Task<P>>) -> bool {
    forall|i: int, j: int| 0 <= i < j < tasks.len() ==> tasks[i].id != tasks[j].id
}

/// What a computation may return, as a relation between parameters and
/// outputs.
pub open spec fn computed_by<P, R, F: Fn(P) -> R>(compute: F) -> spec_fn(P, R) -> bool {
    |params: P, output: R| compute.ensures((params,), output)
}

/// The computation has one output for each input.
pub open spec fn deterministic<P, R>(computes: spec_fn(P, R) -> bool) -> bool {
    forall|params: P, one: R, other: R|
        #[trigger] computes(params, one) && #[trigger] computes(params, other) ==> one == other
}

/// `results` holds, in the same order, what the computation returned for
/// each of `tasks`.
pub open spec fn ran_in_order<P, R>(
    tasks: Seq<Task<P>>,
    results: Seq<TaskResult<R>>,
    computes: spec_fn(P, R) -> bool,
) -> bool {
    &&& results.len() == tasks.len()
    &&& forall|i: int|
        0 <= i < tasks.len() ==> (#[trigger] results[i]).id == tasks[i].id && computes(
            tasks[i].params,
            results[i].output,
        )
}

/// `result` holds what the computation returned for a task with its id.
pub open spec fn comes_from<P, R>(
    tasks: Seq<Task<P>>,
    result: TaskResult<R>,
    computes: spec_fn(P, R) -> bool,
) -> bool {
    exists|j: int|
        0 <= j < tasks.len() && (#[trigger] tasks[j]).id == result.id && computes(
            tasks[j].params,
            result.output,
        )
}

/// Every result holds what the computation returned for a task with its id.
pub open spec fn answers<P, R>(
    tasks: Seq<Task<P>>,
    results: Seq<TaskResult<R>>,
    computes: spec_fn(P, R) -> bool,
) -> bool {
    forall|i: int| 0 <= i < results.len() ==> comes_from(tasks, #[trigger] results[i], computes)
}

/// `results` is the answer to the batch `tasks`: one result for each task
/// and no other, ascending by id, each holding what the computation
/// returned for its task.
pub open spec fn is_answer_to<P, R>(
    tasks: Seq<Task<P>>,
    results: Seq<TaskResult<R>>,
    computes: spec_fn(P, R) -> bool,
) -> bool {
    &&& sorted_by_id(results)
    &&& result_ids(results).to_multiset() == task_ids(tasks).to_multiset()
    &&& answers(tasks, results, computes)
}

/// The order on ids.
spec fn id_leq() -> spec_fn(usize, usize) -> bool {
    |left: usize, right: usize| left <= right
}

/// Two ascending sequences of ids with the same members are equal.
pub proof fn lemma_ascending_ids_are_unique(left: Seq<usize>, right: Seq<usize>)
    requires
        forall|i: int, j: int| 0 <= i < j < left.len() ==> left[i] <= left[j],
        forall|i: int, j: int| 0 <= i < j < right.len() ==> right[i] <= right[j],
        left.to_multiset() == right.to_multiset(),
    ensures
        left == right,
{
    let leq = id_leq();
    assert(vstd::relations::sorted_by(left, leq));
    assert(vstd::relations::sorted_by(right, leq));
    assert(vstd::relations::total_ordering(leq));
    vstd::seq_lib::lemma_sorted_unique(left, right, leq);
}

/// Sorted results that carry the ids of a batch which was numbered 0, 1,
/// 2, ... carry these ids in this order: there is exactly one result for
/// each number.
pub proof fn lemma_sorted_ids_count_up<R>(submitted: Seq<usize>, results: Seq<TaskResult<R>>)
    requires
        counts_up(submitted),
        sorted_by_id(results),
        result_ids(results).to_multiset() == submitted.to_multiset(),
    ensures
        result_ids(results) == submitted,
        counts_up(result_ids(results)),
{
    lemma_ascending_ids_are_unique(result_ids(results), submitted);
}

/// In the answer to a batch whose tasks are numbered 0, 1, 2, ... there is
/// exactly one result for each task, and the result at place `i` carries
/// the id `i`.
pub proof fn lemma_numbered_batch_has_every_id_once<P, R>(
    tasks: Seq<Task<P>>,
    results: Seq<TaskResult<R>>,
)
    requires
        numbered_in_order(tasks),
        sorted_by_id(results),
        result_ids(results).to_multiset() == task_ids(tasks).to_multiset(),
    ensures
        results.len() == tasks.len(),
        forall|i: int| 0 <= i < results.len() ==> results[i].id == i,
{
    lemma_sorted_ids_count_up(task_ids(tasks), results);
    assert(results.len() == tasks.len()) by {
        assert(result_ids(results).len() == task_ids(tasks).len());
    }
    assert forall|i: int| 0 <= i < results.len() implies results[i].id == i by {
        assert(result_ids(results)[i] == task_ids(tasks)[i]);
    }
}

/// Tasks numbered in order have distinct ids.
pub proof fn lemma_numbered_ids_are_distinct<P>(tasks: Seq<Task<P>>)
    requires
        numbered_in_order(tasks),
    ensures
        distinct_ids(tasks),
{
    assert forall|i: int, j: int| 0 <= i < j < tasks.len() implies tasks[i].id != tasks[j].id by {
        assert(task_ids(tasks)[i] == i);
        assert(task_ids(tasks)[j] == j);
    }
}

/// A batch with distinct ids and a computation with one output for each
/// input has one answer only. So the answer depends neither on how many
/// workers computed it nor on the order in which they finished.
pub proof fn lemma_answer_is_unique<P, R>(
    tasks: Seq<Task<P>>,
    computes: spec_fn(P, R) -> bool,
    one: Seq<TaskResult<R>>,
    other: Seq<TaskResult<R>>,
)
    requires
        distinct_ids(tasks),
        deterministic(computes),
        is_answer_to(tasks, one, computes),
        is_answer_to(tasks, other, computes),
    ensures
        one == other,
{
    lemma_ascending_ids_are_unique(result_ids(one), result_ids(other));
    assert(one.len() == other.len()) by {
        assert(result_ids(one).len() == result_ids(other).len());
    }
    assert forall|i: int| 0 <= i < one.len() implies one[i] == other[i] by {
        assert(result_ids(one)[i] == result_ids(other)[i]);
        assert(comes_from(tasks, one[i], computes));
        assert(comes_from(tasks, other[i], computes));
        let j = choose|j: int|
            0 <= j < tasks.len() && (#[trigger] tasks[j]).id == one[i].id && computes(
                tasks[j].params,
                one[i].output,
            );
        let k = choose|k: int|
            0 <= k < tasks.len() && (#[trigger] tasks[k]).id == other[i].id && computes(
                tasks[k].params,
                other[i].output,
            );
        assert(j == k);
        assert(one[i].output == other[i].output);
    }
    assert(one =~= other);
}

/// Running the tasks one after the other and sorting what they returned
/// gives the answer to the batch.
pub proof fn lemma_sorted_run_is_answer<P, R>(
    tasks: Seq<Task<P>>,
    computes: spec_fn(P, R) -> bool,
    ran: Seq<TaskResult<R>>,
    sorted: Seq<TaskResult<R>>,
)
    requires
        ran_in_order(tasks, ran, computes),
        is_sort_of(sorted, ran),
    ensures
        is_answer_to(tasks, sorted, computes),
{
    crate::sorting::lemma_same_results_same_ids(sorted, ran);
    assert(result_ids(ran) =~= task_ids(tasks)) by {
        assert forall|i: int| 0 <= i < ran.len() implies result_ids(ran)[i] == task_ids(tasks)[i] by {
            assert(ran[i].id == tasks[i].id);
        }
    }
    assert(result_ids(sorted).to_multiset() == task_ids(tasks).to_multiset());
    assert forall|i: int| 0 <= i < sorted.len() implies comes_from(
        tasks,
        #[trigger] sorted[i],
        computes,
    ) by {
        vstd::seq_lib::to_multiset_contains(sorted, sorted[i]);
        vstd::seq_lib::to_multiset_contains(ran, sorted[i]);
        assert(sorted.contains(sorted[i]));
        let j = choose|j: int| 0 <= j < ran.len() && ran[j] == sorted[i];
        assert(ran[j].id == tasks[j].id && computes(tasks[j].params, ran[j].output));
        assert(tasks[j].id == sorted[i].id && computes(tasks[j].params, sorted[i].output));
    }
}

/// Numbers a batch: the parameters become tasks with the ids 0, 1, 2, ... in
/// the order in which they stand.
pub fn make_tasks<P>(params: Vec<P>) -> (tasks: VecDeque<Task<P>>)
    ensures
        tasks@.len() == params@.len(),
        forall|i: int|
            0 <= i < tasks@.len() ==> (#[trigger] tasks@[i]).id == i && tasks@[i].params
                == params@[i],
        numbered_in_order(tasks@),
{
    let ghost given = params@;
    let mut params = params;
    let mut tasks: VecDeque<Task<P>> = VecDeque::new();
    while params.len() > 0
        invariant
            params@ == given.take(params@.len() as int),
            params@.len() + tasks@.len() == given.len(),
            forall|i: int|
                0 <= i < tasks@.len() ==> tasks@[i].id == params@.len() + i && tasks@[i].params
                    == given[params@.len() + i],
        decreases params@.len(),
    {
        let id = params.len() - 1;
        let ghost before = tasks@;
        match params.pop() {
            Some(next) => {
                tasks.push_front(Task { id, params: next });
                assert forall|i: int| 0 <= i < tasks@.len() implies tasks@[i].id == params@.len()
                    + i && tasks@[i].params == given[params@.len() + i] by {
                    if i > 0 {
                        assert(tasks@[i] == before[i - 1]);
                    }
                }
            },
            None => {},
        }
    }
    tasks
}

/// Strips the ids: the outputs of the results, in the order in which the
/// results stand.
pub fn into_outputs<R>(results: Vec<TaskResult<R>>) -> (outputs: Vec<R>)
    ensures
        outputs@.len() == results@.len(),
        forall|i: int| 0 <= i < outputs@.len() ==> #[trigger] outputs@[i] == results@[i].output,
{
    let ghost given = results@;
    let mut results = results;
    let mut turned: Vec<R> = Vec::new();
    while results.len() > 0
        invariant
            results@ == given.take(results@.len() as int),
            results@.len() + turned@.len() == given.len(),
            forall|i: int|
                0 <= i < turned@.len() ==> turned@[i] == given[given.len() - 1 - i].output,
        decreases results@.len(),
    {
        match results.pop() {
            Some(result) => turned.push(result.output),
            None => {},
        }
    }
    let mut outputs: Vec<R> = Vec::new();
    while turned.len() > 0
        invariant
            turned@.len() + outputs@.len() == given.len(),
            forall|i: int|
                0 <= i < turned@.len() ==> turned@[i] == given[given.len() - 1 - i].output,
            forall|i: int| 0 <= i < outputs@.len() ==> outputs@[i] == given[i].output,
        decreases turned@.len(),
    {
        match turned.pop() {
            Some(output) => outputs.push(output),
            None => {},
        }
    }
    outputs
}

/// Runs a batch on the calling thread, one task after the other in the
/// order of submission, and hands back the results in ascending order of
/// their ids. Where several tasks share an id, their results stand in the
/// order of submission.
pub fn run_multi_single<P, R, F: Fn(P) -> R>(tasks: Vec<Task<P>>, compute: &F) -> (results: Vec<
    TaskResult<R>,
>)
    requires
        forall|i: int| 0 <= i < tasks@.len() ==> compute.requires((tasks@[i].params,)),
    ensures
        is_answer_to(tasks@, results@, computed_by(*compute)),
        exists|ran: Seq<TaskResult<R>>|
            ran_in_order(tasks@, ran, computed_by(*compute)) && #[trigger] is_sort_of(
                results@,
                ran,
            ),
{
    let ghost given = tasks@;
    let mut tasks = tasks;
    let mut waiting: Vec<Task<P>> = Vec::new();
    while tasks.len() > 0
        invariant
            tasks@ == given.take(tasks@.len() as int),
            tasks@.len() + waiting@.len() == given.len(),
            forall|i: int| 0 <= i < waiting@.len() ==> waiting@[i] == given[given.len() - 1 - i],
        decreases tasks@.len(),
    {
        match tasks.pop() {
            Some(task) => waiting.push(task),
            None => {},
        }
    }
    let mut results: Vec<TaskResult<R>> = Vec::new();
    while waiting.len() > 0
        invariant
            forall|i: int| 0 <= i < given.len() ==> compute.requires((given[i].params,)),
            waiting@.len() + results@.len() == given.len(),
            forall|i: int| 0 <= i < waiting@.len() ==> waiting@[i] == given[given.len() - 1 - i],
            ran_in_order(given.take(results@.len() as int), results@, computed_by(*compute)),
        decreases waiting@.len(),
    {
        let ghost done = results@.len() as int;
        match waiting.pop() {
            Some(task) => {
                assert(task == given[done]);
                let result = task.run(compute);
                results.push(result);
                assert forall|i: int| 0 <= i < done + 1 implies (#[trigger] results@[i]).id
                    == given.take(done + 1)[i].id && computed_by(*compute)(
                    given.take(done + 1)[i].params,
                    results@[i].output,
                ) by {
                    if i < done {
                        assert(given.take(done)[i] == given.take(done + 1)[i]);
                    }
                }
            },
            None => {},
        }
    }
    let ghost ran = results@;
    assert(given.take(ran.len() as int) =~= given);
    sort_by_id(&mut results);
    proof {
        lemma_sorted_run_is_answer(given, computed_by(*compute), ran, results@);
    }
    results
}

} // verus!
