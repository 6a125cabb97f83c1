//! Tasks and their results: an id, and a payload that the pool never looks at.

use vstd::prelude::*;

verus! {

/// One unit of work: the parameters of a computation, tagged with an id that
/// is used only to put the results back in order.
#[derive(Debug, PartialEq, Eq)]
pub struct Task<P> {
    /// Identifies the task within its batch.
    pub id: usize,
    /// What the computation is run on.
    pub params: P,
}

/// What a computation returned, tagged with the id of the task it came from.
#[derive(Debug, PartialEq, Eq)]
pub struct TaskResult<R> {
    /// The id of the task that produced this result.
    pub id: usize,
    /// What the computation returned.
    pub output: R,
}

/// The ids of a sequence of tasks, in the same order.
pub open spec fn task_ids<P>(tasks: Seq<Task<P>>) -> Seq<usize> {
    Seq::new(tasks.len(), |i: int| tasks[i].id)
}

/// The ids of a sequence of results, in the same order.
pub open spec fn result_ids<R>(results: Seq<TaskResult<R>>) -> Seq<usize> {
    Seq::new(results.len(), |i: int| results[i].id)
}

/// The ids are 0, 1, 2, ... in the order in which they stand.
pub open spec fn counts_up(ids: Seq<usize>) -> bool {
    forall|i: int| 0 <= i < ids.len() ==> ids[i] == i
}

impl<P> Task<P> {
    /// Runs `compute` on the task's parameters and tags what it returns with
    /// the task's id. The task is consumed.
    pub fn run<R, F: Fn(P) -> R>(self, compute: &F) -> (result: TaskResult<R>)
        requires
            compute.requires((self.params,)),
        ensures
            result.id == self.id,
            compute.ensures((self.params,), result.output),
    {
        let id = self.id;
        let output = compute(self.params);
        TaskResult { id, output }
    }
}

} // verus!
