//! The state of a priority queue as plain values: one sequence of elements
//! for each feature, in the order of the features. The functions here say
//! which queue a removal takes from and what it leaves, and the lemmas say
//! what follows for a run of removals.
use vstd::prelude::*;

verus! {

/// The number of entries in all feature queues together.
pub open spec fn total<T>(state: Seq<Seq<T>>) -> nat
    decreases state.len(),
{
    if state.len() == 0 {
        0
    } else {
        total(state.drop_last()) + state.last().len()
    }
}

/// The queue at `j` is the longest, and the first one of that length.
pub open spec fn is_leader<T>(state: Seq<Seq<T>>, j: int) -> bool {
    &&& 0 <= j < state.len()
    &&& forall|i: int| 0 <= i < j ==> (#[trigger] state[i]).len() < state[j].len()
    &&& forall|i: int| j <= i < state.len() ==> (#[trigger] state[i]).len() <= state[j].len()
}

/// The place of the queue that the next removal takes from.
pub open spec fn leader<T>(state: Seq<Seq<T>>) -> int {
    choose|j: int| is_leader(state, j)
}

/// What a removal returns: the front of the leading queue, or nothing
/// where all queues are empty.
pub open spec fn popped<T>(state: Seq<Seq<T>>) -> Option<T> {
    if total(state) == 0 {
        None
    } else {
        Some(state[leader(state)][0])
    }
}

/// What a removal leaves: the leading queue has lost its front, the others
/// are untouched.
pub open spec fn after_pop<T>(state: Seq<Seq<T>>) -> Seq<Seq<T>> {
    if total(state) == 0 {
        state
    } else {
        state.update(leader(state), state[leader(state)].drop_first())
    }
}

/// Each queue of `into` followed by the queue of `from` at the same place.
pub open spec fn merged<T>(into: Seq<Seq<T>>, from: Seq<Seq<T>>) -> Seq<Seq<T>> {
    Seq::new(into.len(), |i: int| into[i] + from[i])
}

/// `count` queues, all of them empty.
pub open spec fn empty_queues<T>(count: nat) -> Seq<Seq<T>> {
    Seq::new(count, |i: int| Seq::<T>::empty())
}

/// The first `n` queues hold no more than all of them, and one queue more
/// adds its length.
pub proof fn lemma_total_of_prefix<T>(state: Seq<Seq<T>>, n: int)
    requires
        0 <= n <= state.len(),
    ensures
        total(state.take(n)) <= total(state),
        n < state.len() ==> total(state.take(n + 1)) == total(state.take(n)) + state[n].len(),
    decreases state.len() - n,
{
    if n < state.len() {
        assert(state.take(n + 1).drop_last() =~= state.take(n));
        lemma_total_of_prefix(state, n + 1);
    } else {
        assert(state.take(n) =~= state);
    }
}

/// The queues hold nothing together exactly when each of them is empty.
pub proof fn lemma_total_is_zero<T>(state: Seq<Seq<T>>)
    ensures
        total(state) == 0 <==> forall|i: int| 0 <= i < state.len() ==> (#[trigger] state[i]).len() == 0,
    decreases state.len(),
{
    if state.len() > 0 {
        let front = state.drop_last();
        lemma_total_is_zero(front);
        if total(state) == 0 {
            assert forall|i: int| 0 <= i < state.len() implies (#[trigger] state[i]).len() == 0 by {
                if i < front.len() {
                    assert(front[i] == state[i]);
                }
            }
        }
        if forall|i: int| 0 <= i < state.len() ==> (#[trigger] state[i]).len() == 0 {
            assert forall|i: int| 0 <= i < front.len() implies (#[trigger] front[i]).len() == 0 by {
                assert(front[i] == state[i]);
            }
        }
    }
}

/// Only one queue leads.
pub proof fn lemma_leader_is_unique<T>(state: Seq<Seq<T>>, j: int)
    requires
        is_leader(state, j),
    ensures
        leader(state) == j,
{
    let k = leader(state);
    assert(is_leader(state, k));
    if k < j {
        assert(state[k].len() < state[j].len());
    } else if j < k {
        assert(state[k].len() <= state[j].len());
    }
}

/// Where there is a queue at all, one of them leads.
pub proof fn lemma_leader_exists<T>(state: Seq<Seq<T>>)
    requires
        state.len() > 0,
    ensures
        is_leader(state, leader(state)),
    decreases state.len(),
{
    if state.len() == 1 {
        assert(is_leader(state, 0));
    } else {
        let front = state.drop_last();
        lemma_leader_exists(front);
        let j = leader(front);
        let last = state.len() - 1;
        assert forall|i: int| 0 <= i < front.len() implies #[trigger] state[i] == front[i] by {}
        if state[last].len() > state[j].len() {
            assert forall|i: int| 0 <= i < last implies (#[trigger] state[i]).len() < state[last].len() by {
                assert(front[i].len() <= front[j].len());
            }
            assert(is_leader(state, last));
        } else {
            assert forall|i: int| 0 <= i < j implies (#[trigger] state[i]).len() < state[j].len() by {
                assert(front[i].len() < front[j].len());
            }
            assert forall|i: int| j <= i < last implies (#[trigger] state[i]).len() <= state[j].len() by {
                assert(front[i].len() <= front[j].len());
            }
            assert(is_leader(state, j));
        }
    }
}

/// Putting `queue` in the place of the queue at `j` changes the number of
/// entries by the difference of their lengths.
pub proof fn lemma_total_of_update<T>(state: Seq<Seq<T>>, j: int, queue: Seq<T>)
    requires
        0 <= j < state.len(),
    ensures
        total(state.update(j, queue)) == total(state) - state[j].len() + queue.len(),
    decreases state.len(),
{
    let changed = state.update(j, queue);
    if j == state.len() - 1 {
        assert(changed.drop_last() =~= state.drop_last());
    } else {
        assert(changed.drop_last() =~= state.drop_last().update(j, queue));
        lemma_total_of_update(state.drop_last(), j, queue);
    }
}

/// While anything is stored, the leading queue is not empty, and a removal
/// takes exactly one entry away.
pub proof fn lemma_pop_takes_one<T>(state: Seq<Seq<T>>)
    requires
        total(state) > 0,
    ensures
        is_leader(state, leader(state)),
        state[leader(state)].len() > 0,
        total(after_pop(state)) == total(state) - 1,
{
    lemma_total_is_zero(state);
    lemma_leader_exists(state);
    let j = leader(state);
    let i = choose|i: int| 0 <= i < state.len() && (#[trigger] state[i]).len() != 0;
    assert(state[i].len() <= state[j].len());
    lemma_total_of_update(state, j, state[j].drop_first());
}

/// The removals that empty the queues, in order: each entry gives the
/// place of the queue that the removal takes from, and the element that it
/// returns.
pub open spec fn drained<T>(state: Seq<Seq<T>>) -> Seq<(int, T)>
    decreases total(state),
    via drained_decreases::<T>
{
    if total(state) == 0 {
        Seq::empty()
    } else {
        seq![(leader(state), state[leader(state)][0])] + drained(after_pop(state))
    }
}

#[via_fn]
proof fn drained_decreases<T>(state: Seq<Seq<T>>) {
    if total(state) != 0 {
        lemma_pop_takes_one(state);
    }
}

/// The queues after `n` removals.
pub open spec fn after_pops<T>(state: Seq<Seq<T>>, n: nat) -> Seq<Seq<T>>
    decreases n,
{
    if n == 0 {
        state
    } else {
        after_pops(after_pop(state), (n - 1) as nat)
    }
}

/// Each removal takes one entry until none is left: after as many removals
/// as there were entries, all queues are empty and the next removal
/// returns nothing.
pub proof fn lemma_pops_exhaust<T>(state: Seq<Seq<T>>, n: nat)
    ensures
        n <= total(state) ==> total(after_pops(state, n)) == total(state) - n,
        n >= total(state) ==> total(after_pops(state, n)) == 0 && popped(after_pops(state, n))
            is None,
    decreases n,
{
    if n > 0 {
        if total(state) > 0 {
            lemma_pop_takes_one(state);
        }
        lemma_pops_exhaust(after_pop(state), (n - 1) as nat);
    }
}

/// The log of emptying the queues is the run of removals: its entry at `n`
/// gives the queue that leads after `n` removals, and what the next
/// removal returns.
pub proof fn lemma_drained_is_pop_order<T>(state: Seq<Seq<T>>, n: nat)
    requires
        n < total(state),
    ensures
        n < drained(state).len(),
        drained(state)[n as int].0 == leader(after_pops(state, n)),
        popped(after_pops(state, n)) == Some(drained(state)[n as int].1),
    decreases n,
{
    lemma_drained_len(state);
    lemma_pop_takes_one(state);
    if n > 0 {
        lemma_drained_is_pop_order(after_pop(state), (n - 1) as nat);
    }
}

/// The elements that `log` records as taken from the queue at `place`, in
/// the order of the log.
pub open spec fn taken_from<T>(log: Seq<(int, T)>, place: int) -> Seq<T>
    decreases log.len(),
{
    if log.len() == 0 {
        Seq::empty()
    } else if log[0].0 == place {
        seq![log[0].1] + taken_from(log.drop_first(), place)
    } else {
        taken_from(log.drop_first(), place)
    }
}

/// Emptying the queues takes as many removals as there are entries.
pub proof fn lemma_drained_len<T>(state: Seq<Seq<T>>)
    ensures
        drained(state).len() == total(state),
    decreases total(state),
{
    if total(state) != 0 {
        lemma_pop_takes_one(state);
        lemma_drained_len(after_pop(state));
    }
}

/// Removals keep the order within each feature queue: the elements taken
/// from one queue while all are emptied are that queue's contents, front to
/// back. Only the way the queues take turns depends on how full they are.
pub proof fn lemma_drained_keeps_order<T>(state: Seq<Seq<T>>, place: int)
    requires
        0 <= place < state.len(),
    ensures
        taken_from(drained(state), place) == state[place],
    decreases total(state),
{
    if total(state) == 0 {
        lemma_total_is_zero(state);
        assert(state[place] =~= Seq::<T>::empty());
    } else {
        lemma_pop_takes_one(state);
        let j = leader(state);
        let rest = after_pop(state);
        lemma_drained_keeps_order(rest, place);
        assert(drained(state).drop_first() =~= drained(rest));
        if j == place {
            assert(seq![state[j][0]] + state[j].drop_first() =~= state[j]);
        }
    }
}

/// After one priority queue was dumped into another, emptying the other
/// gives, for each feature, what it held for the feature before, followed
/// by what the first held, both in their order.
pub proof fn lemma_drained_after_dump<T>(into: Seq<Seq<T>>, from: Seq<Seq<T>>, place: int)
    requires
        into.len() == from.len(),
        0 <= place < into.len(),
    ensures
        taken_from(drained(merged(into, from)), place) == into[place] + from[place],
{
    lemma_drained_keeps_order(merged(into, from), place);
}

} // verus!
