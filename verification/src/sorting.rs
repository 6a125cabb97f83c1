//! Ordering collected results by task id.

use crate::task::{result_ids, TaskResult};
use vstd::prelude::*;

verus! {

/// Ids never decrease from one result to the next.
pub open spec fn sorted_by_id<R>(results: Seq<TaskResult<R>>) -> bool {
    forall|i: int, j: int| 0 <= i < j < results.len() ==> results[i].id <= results[j].id
}

/// Whether a result carries the given id.
pub open spec fn has_id<R>(id: usize) -> spec_fn(TaskResult<R>) -> bool {
    |result: TaskResult<R>| result.id == id
}

/// The results that carry the given id, in the order in which they stand.
pub open spec fn with_id<R>(results: Seq<TaskResult<R>>, id: usize) -> Seq<TaskResult<R>> {
    results.filter(has_id(id))
}

/// Results that share an id stand in `left` in the same order as in `right`.
pub open spec fn same_order_within_ids<R>(
    left: Seq<TaskResult<R>>,
    right: Seq<TaskResult<R>>,
) -> bool {
    forall|id: usize| #[trigger] with_id(left, id) == with_id(right, id)
}

/// `sorted` is `arrived` put in order: the same results, ascending by id,
/// and where several share an id, in the order in which they arrived.
pub open spec fn is_sort_of<R>(sorted: Seq<TaskResult<R>>, arrived: Seq<TaskResult<R>>) -> bool {
    &&& sorted_by_id(sorted)
    &&& sorted.to_multiset() == arrived.to_multiset()
    &&& same_order_within_ids(sorted, arrived)
}

/// Two sequences that hold the same results hold the same ids.
pub proof fn lemma_same_results_same_ids<R>(left: Seq<TaskResult<R>>, right: Seq<TaskResult<R>>)
    requires
        left.to_multiset() == right.to_multiset(),
    ensures
        result_ids(left).to_multiset() == result_ids(right).to_multiset(),
    decreases left.len(),
{
    broadcast use vstd::multiset::group_multiset_axioms;

    vstd::seq_lib::to_multiset_len(left);
    vstd::seq_lib::to_multiset_len(right);
    if left.len() == 0 {
        assert(result_ids(left) =~= result_ids(right));
    } else {
        let last = left.last();
        vstd::seq_lib::to_multiset_contains(left, last);
        vstd::seq_lib::to_multiset_contains(right, last);
        assert(left.contains(last)) by {
            assert(left[left.len() - 1] == last);
        }
        let at = choose|at: int| 0 <= at < right.len() && right[at] == last;
        let left_rest = left.drop_last();
        let right_rest = right.remove(at);
        assert(left_rest =~= left.remove(left.len() - 1));
        vstd::seq_lib::to_multiset_remove(left, left.len() - 1);
        vstd::seq_lib::to_multiset_remove(right, at);
        lemma_same_results_same_ids(left_rest, right_rest);
        assert(result_ids(left_rest) =~= result_ids(left).remove(left.len() - 1));
        assert(result_ids(right_rest) =~= result_ids(right).remove(at));
        vstd::seq_lib::to_multiset_remove(result_ids(left), left.len() - 1);
        vstd::seq_lib::to_multiset_remove(result_ids(right), at);
        vstd::seq_lib::to_multiset_contains(result_ids(left), last.id);
        vstd::seq_lib::to_multiset_contains(result_ids(right), last.id);
        assert(result_ids(left).contains(last.id)) by {
            assert(result_ids(left)[left.len() - 1] == last.id);
        }
        assert(result_ids(right).contains(last.id)) by {
            assert(result_ids(right)[at] == last.id);
        }
        assert(result_ids(left).to_multiset() =~= result_ids(left_rest).to_multiset().insert(
            last.id,
        ));
        assert(result_ids(right).to_multiset() =~= result_ids(right_rest).to_multiset().insert(
            last.id,
        ));
    }
}

/// What putting `result` at `pos` does to the results with a given id, when
/// no result from `pos` on carries the id of `result`: it comes last among
/// those with its own id, and the others are left as they were.
proof fn lemma_insert_within_ids<R>(
    placed: Seq<TaskResult<R>>,
    pos: int,
    result: TaskResult<R>,
    id: usize,
)
    requires
        0 <= pos <= placed.len(),
        forall|j: int| pos <= j < placed.len() ==> placed[j].id != result.id,
    ensures
        with_id(placed.insert(pos, result), id) == if id == result.id {
            with_id(placed, id).push(result)
        } else {
            with_id(placed, id)
        },
{
    let front = placed.take(pos);
    let back = placed.skip(pos);
    let wanted = has_id::<R>(id);
    assert(placed =~= front + back);
    assert(placed.insert(pos, result) =~= front.push(result) + back);
    Seq::filter_distributes_over_add(front, back, wanted);
    Seq::filter_distributes_over_add(front.push(result), back, wanted);
    front.lemma_filter_push(result, wanted);
    if id == result.id {
        assert(back.all(|other: TaskResult<R>| !wanted(other)));
        back.lemma_all_neg_filter_empty(wanted);
        assert(back.filter(wanted) =~= Seq::<TaskResult<R>>::empty());
        assert(front.filter(wanted).push(result) + back.filter(wanted) =~= (front.filter(wanted)
            + back.filter(wanted)).push(result));
    }
}

/// The place of a result with the given id among `placed`, which ascends by
/// id: behind every result whose id is not larger.
pub open spec fn place_of<R>(placed: Seq<TaskResult<R>>, id: usize) -> int
    decreases placed.len(),
{
    if placed.len() == 0 {
        0
    } else if placed.last().id <= id {
        placed.len() as int
    } else {
        place_of(placed.drop_last(), id)
    }
}

/// `arrived` put in order, one result after the other.
pub open spec fn put_in_order<R>(arrived: Seq<TaskResult<R>>) -> Seq<TaskResult<R>>
    decreases arrived.len(),
{
    if arrived.len() == 0 {
        arrived
    } else {
        let placed = put_in_order(arrived.drop_last());
        placed.insert(place_of(placed, arrived.last().id), arrived.last())
    }
}

/// The place of a result parts those with ids up to its own from those with
/// larger ids.
proof fn lemma_place_of_parts<R>(placed: Seq<TaskResult<R>>, id: usize)
    requires
        sorted_by_id(placed),
    ensures
        0 <= place_of(placed, id) <= placed.len(),
        forall|j: int| 0 <= j < place_of(placed, id) ==> placed[j].id <= id,
        forall|j: int| place_of(placed, id) <= j < placed.len() ==> placed[j].id > id,
    decreases placed.len(),
{
    if placed.len() > 0 && placed.last().id > id {
        let front = placed.drop_last();
        lemma_place_of_parts(front, id);
        assert forall|j: int| 0 <= j < place_of(placed, id) implies placed[j].id <= id by {
            assert(placed[j] == front[j]);
        }
        assert forall|j: int| place_of(placed, id) <= j < placed.len() implies placed[j].id
            > id by {
            if j < front.len() {
                assert(placed[j] == front[j]);
            }
        }
    }
}

/// Every sequence of results can be put in order.
pub proof fn lemma_put_in_order_sorts<R>(arrived: Seq<TaskResult<R>>)
    ensures
        is_sort_of(put_in_order(arrived), arrived),
    decreases arrived.len(),
{
    if arrived.len() > 0 {
        let earlier = arrived.drop_last();
        let result = arrived.last();
        let placed = put_in_order(earlier);
        let pos = place_of(placed, result.id);
        lemma_put_in_order_sorts(earlier);
        lemma_place_of_parts(placed, result.id);
        assert(arrived =~= earlier.push(result));
        vstd::seq_lib::to_multiset_build(earlier, result);
        vstd::seq_lib::to_multiset_insert(placed, pos, result);
        assert forall|id: usize| #[trigger]
            with_id(placed.insert(pos, result), id) == with_id(arrived, id) by {
            lemma_insert_within_ids(placed, pos, result, id);
            earlier.lemma_filter_push(result, has_id(id));
            assert(with_id(placed, id) == with_id(earlier, id));
        }
    }
}

/// There is only one way to put results in order: two sequences that are
/// both sorted, hold the same results, and agree on the order of results
/// that share an id, are equal.
pub proof fn lemma_sorted_order_is_unique<R>(left: Seq<TaskResult<R>>, right: Seq<TaskResult<R>>)
    requires
        sorted_by_id(left),
        sorted_by_id(right),
        left.to_multiset() == right.to_multiset(),
        same_order_within_ids(left, right),
    ensures
        left == right,
    decreases left.len(),
{
    broadcast use vstd::multiset::group_multiset_axioms;

    vstd::seq_lib::to_multiset_len(left);
    vstd::seq_lib::to_multiset_len(right);
    if left.len() == 0 {
        assert(left =~= right);
    } else {
        let first = left[0];
        let other = right[0];
        vstd::seq_lib::to_multiset_contains(left, first);
        vstd::seq_lib::to_multiset_contains(right, first);
        vstd::seq_lib::to_multiset_contains(left, other);
        vstd::seq_lib::to_multiset_contains(right, other);
        assert(left.contains(first));
        assert(right.contains(other));
        assert(first.id == other.id);
        let id = first.id;
        let left_rest = left.drop_first();
        let right_rest = right.drop_first();
        assert(left =~= seq![first] + left_rest);
        assert(right =~= seq![other] + right_rest);
        left_rest.lemma_filter_prepend(first, has_id(id));
        right_rest.lemma_filter_prepend(other, has_id(id));
        assert(with_id(left, id) == with_id(right, id));
        assert(with_id(left, id)[0] == first);
        assert(with_id(right, id)[0] == other);
        assert(first == other);
        assert(left_rest =~= left.remove(0));
        assert(right_rest =~= right.remove(0));
        vstd::seq_lib::to_multiset_remove(left, 0);
        vstd::seq_lib::to_multiset_remove(right, 0);
        assert forall|k: usize| #[trigger] with_id(left_rest, k) == with_id(right_rest, k) by {
            left_rest.lemma_filter_prepend(first, has_id(k));
            right_rest.lemma_filter_prepend(other, has_id(k));
            assert(with_id(left, k) == with_id(right, k));
            if k == id {
                assert(with_id(left_rest, k) =~= with_id(left, k).drop_first());
                assert(with_id(right_rest, k) =~= with_id(right, k).drop_first());
            } else {
                assert(with_id(left_rest, k) =~= with_id(left, k));
                assert(with_id(right_rest, k) =~= with_id(right, k));
            }
        }
        lemma_sorted_order_is_unique(left_rest, right_rest);
    }
}

/// Whatever is `arrived` put in order is what `put_in_order` makes of it.
pub proof fn lemma_sort_is_put_in_order<R>(
    sorted: Seq<TaskResult<R>>,
    arrived: Seq<TaskResult<R>>,
)
    requires
        is_sort_of(sorted, arrived),
    ensures
        sorted == put_in_order(arrived),
{
    lemma_put_in_order_sorts(arrived);
    lemma_sorted_order_is_unique(sorted, put_in_order(arrived));
}

/// Sorts `results` by id, ascending. The results themselves are moved, never
/// copied, and none is lost or invented; results that share an id keep the
/// order in which they stood.
///
/// This is an insertion sort that looks for each result's place from the
/// back: results tend to arrive close to the order in which their tasks were
/// handed out, and on such input the work is linear.
pub fn sort_by_id<R>(results: &mut Vec<TaskResult<R>>)
    ensures
        is_sort_of(final(results)@, old(results)@),
        final(results)@ == put_in_order(old(results)@),
{
    let ghost arrived = results@;
    // Turn the vector over, so that popping yields the results in the order
    // in which they arrived.
    let mut pending: Vec<TaskResult<R>> = Vec::new();
    while results.len() > 0
        invariant
            results@ == arrived.take(results@.len() as int),
            results@.len() + pending@.len() == arrived.len(),
            forall|i: int|
                0 <= i < pending@.len() ==> pending@[i] == arrived[arrived.len() - 1 - i],
        decreases results@.len(),
    {
        let result = results.pop().unwrap();
        pending.push(result);
    }
    while pending.len() > 0
        invariant
            results@.len() + pending@.len() == arrived.len(),
            forall|i: int|
                0 <= i < pending@.len() ==> pending@[i] == arrived[arrived.len() - 1 - i],
            results@ == put_in_order(arrived.take(results@.len() as int)),
        decreases pending@.len(),
    {
        let ghost placed = results@;
        let result = pending.pop().unwrap();
        let mut pos: usize = results.len();
        assert(placed.take(pos as int) =~= placed);
        while pos > 0 && results[pos - 1].id > result.id
            invariant
                results@ == placed,
                pos <= placed.len(),
                place_of(placed, result.id) == place_of(placed.take(pos as int), result.id),
            decreases pos,
        {
            assert(placed.take(pos as int).drop_last() =~= placed.take(pos - 1));
            pos -= 1;
        }
        results.insert(pos, result);
        proof {
            let done = placed.len() as int;
            assert(result == arrived[done]);
            assert(arrived.take(done + 1).drop_last() =~= arrived.take(done));
        }
    }
    proof {
        assert(arrived.take(arrived.len() as int) =~= arrived);
        lemma_put_in_order_sorts(arrived);
    }
}

} // verus!
