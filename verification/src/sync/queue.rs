//! Queues of thread identifiers, and the counting and searching that the
//! primitives and the deadlock detector do on them.

use std::collections::VecDeque;
use vstd::prelude::*;

verus! {

/// How many entries of `queue` equal `tid`.
pub open spec fn occurrences(queue: Seq<usize>, tid: usize) -> nat
    decreases queue.len(),
{
    if queue.len() == 0 {
        0
    } else {
        occurrences(queue.drop_last(), tid) + if queue.last() == tid {
            1nat
        } else {
            0nat
        }
    }
}

/// An identifier occurs no more often than the queue is long.
pub proof fn lemma_occurrences_bounded(queue: Seq<usize>, tid: usize)
    ensures
        occurrences(queue, tid) <= queue.len(),
    decreases queue.len(),
{
    if queue.len() > 0 {
        lemma_occurrences_bounded(queue.drop_last(), tid);
    }
}

/// A new entry at the back counts for the identifier it holds and for no
/// other.
pub proof fn lemma_occurrences_push(queue: Seq<usize>, entry: usize, tid: usize)
    ensures
        occurrences(queue.push(entry), tid) == occurrences(queue, tid) + if entry == tid {
            1nat
        } else {
            0nat
        },
{
    assert(queue.push(entry).drop_last() =~= queue);
}

/// Taking the entry at `position` out lowers the count of the identifier
/// it holds by one and leaves every other count.
pub proof fn lemma_occurrences_remove(queue: Seq<usize>, position: int, tid: usize)
    requires
        0 <= position < queue.len(),
    ensures
        occurrences(queue, tid) == occurrences(queue.remove(position), tid) + if queue[position]
            == tid {
            1nat
        } else {
            0nat
        },
    decreases queue.len(),
{
    if position == queue.len() - 1 {
        assert(queue.remove(position) =~= queue.drop_last());
    } else {
        lemma_occurrences_remove(queue.drop_last(), position, tid);
        assert(queue.remove(position).drop_last() =~= queue.drop_last().remove(position));
        assert(queue.remove(position).last() == queue.last());
    }
}

/// What `remove_value` does to a queue: nothing where the value does not
/// occur; else the queue is one entry shorter, the value occurs once less
/// and every other identifier as often as before.
pub proof fn lemma_remove_value(queue: Seq<usize>, value: usize, tid: usize)
    ensures
        !queue.contains(value) ==> queue.remove_value(value) == queue,
        queue.contains(value) ==> queue.remove_value(value).len() == queue.len() - 1,
        occurrences(queue, tid) == occurrences(queue.remove_value(value), tid) + if value == tid
            && queue.contains(value) {
            1nat
        } else {
            0nat
        },
{
    queue.index_of_first_ensures(value);
    match queue.index_of_first(value) {
        Some(position) => {
            lemma_occurrences_remove(queue, position, tid);
        },
        None => {},
    }
}

/// Counts the entries of `queue` that equal `tid`.
pub fn count_of(queue: &Vec<usize>, tid: usize) -> (count: usize)
    ensures
        count == occurrences(queue@, tid),
{
    let mut count: usize = 0;
    let mut i: usize = 0;
    while i < queue.len()
        invariant
            i <= queue.len(),
            count <= i,
            count == occurrences(queue@.take(i as int), tid),
        decreases queue.len() - i,
    {
        assert(queue@.take(i + 1).drop_last() =~= queue@.take(i as int));
        if queue[i] == tid {
            count += 1;
        }
        i += 1;
    }
    assert(queue@.take(i as int) =~= queue@);
    count
}

/// The position at which `tid` first occurs in `queue`.
pub fn position_of(queue: &Vec<usize>, tid: usize) -> (position: Option<usize>)
    ensures
        match position {
            Some(i) => {
                &&& i < queue.len()
                &&& queue[i as int] == tid
                &&& forall|k: int| 0 <= k < i ==> queue[k] != tid
            },
            None => !queue@.contains(tid),
        },
        position.is_some() == queue@.contains(tid),
        queue@.index_of_first(tid) == match position {
            Some(i) => Some(i as int),
            None => None,
        },
{
    let mut i: usize = 0;
    while i < queue.len()
        invariant
            i <= queue.len(),
            forall|k: int| 0 <= k < i ==> queue[k] != tid,
        decreases queue.len() - i,
    {
        if queue[i] == tid {
            proof {
                queue@.index_of_first_ensures(tid);
            }
            return Some(i);
        }
        i += 1;
    }
    proof {
        queue@.index_of_first_ensures(tid);
    }
    None
}

/// Takes the first entry that equals `tid` out of `queue`, if there is one,
/// and says whether there was.
pub fn remove_first(queue: &mut Vec<usize>, tid: usize) -> (removed: bool)
    ensures
        final(queue)@ == old(queue)@.remove_value(tid),
        removed == old(queue)@.contains(tid),
{
    match position_of(queue, tid) {
        Some(i) => {
            queue.remove(i);
            true
        },
        None => false,
    }
}

/// Copies a queue, front first.
pub fn to_vec(queue: &VecDeque<usize>) -> (copy: Vec<usize>)
    ensures
        copy@ == queue@,
{
    let mut copy: Vec<usize> = Vec::new();
    let mut i: usize = 0;
    while i < queue.len()
        invariant
            i <= queue.len(),
            copy@ == queue@.take(i as int),
        decreases queue.len() - i,
    {
        copy.push(queue[i]);
        assert(queue@.take(i + 1) =~= queue@.take(i as int).push(queue@[i as int]));
        i += 1;
    }
    assert(queue@.take(i as int) =~= queue@);
    copy
}

/// A value that a queue without repetitions does not hold can join it
/// without making a repetition.
pub proof fn lemma_push_distinct(queue: Seq<usize>, tid: usize)
    requires
        queue.no_duplicates(),
        !queue.contains(tid),
    ensures
        queue.push(tid).no_duplicates(),
{
    let longer = queue.push(tid);
    assert forall|i: int, j: int|
        0 <= i < longer.len() && 0 <= j < longer.len() && i != j implies longer[i]
        != longer[j] by {
        if i < queue.len() {
            assert(queue[i] == longer[i]);
        }
        if j < queue.len() {
            assert(queue[j] == longer[j]);
        }
    }
}

/// Taking a value out of a queue without repetitions leaves a queue
/// without repetitions that no longer contains the value.
pub proof fn lemma_remove_value_distinct(queue: Seq<usize>, tid: usize)
    requires
        queue.no_duplicates(),
    ensures
        queue.remove_value(tid).no_duplicates(),
        !queue.remove_value(tid).contains(tid),
{
    queue.index_of_first_ensures(tid);
    let rest = queue.remove_value(tid);
    match queue.index_of_first(tid) {
        Some(p) => {
            assert forall|i: int, j: int|
                0 <= i < rest.len() && 0 <= j < rest.len() && i != j implies rest[i] != rest[j] by {
                let a = if i < p { i } else { i + 1 };
                let b = if j < p { j } else { j + 1 };
                assert(rest[i] == queue[a]);
                assert(rest[j] == queue[b]);
            }
            if rest.contains(tid) {
                let i = choose|i: int| 0 <= i < rest.len() && rest[i] == tid;
                let a = if i < p { i } else { i + 1 };
                assert(rest[i] == queue[a]);
            }
        },
        None => {},
    }
}

} // verus!
