//! Generic queue interface.
//!
//! A queue is modelled by the sequence of its elements, front first. The
//! contracts of the interface say what each operation does to that
//! sequence; the lemmas at the end derive from them how a queue behaves
//! over a run of additions and removals.
use std::fmt::Debug;
use vstd::prelude::*;

verus! {

/// The element a removal hands out: the front of `items`, if there is one.
pub open spec fn front_of<T>(items: Seq<T>) -> Option<T> {
    if items.len() > 0 {
        Some(items[0])
    } else {
        None
    }
}

/// What a removal leaves behind: `items` without its front. An empty
/// sequence stays as it is.
pub open spec fn rest_of<T>(items: Seq<T>) -> Seq<T> {
    if items.len() > 0 {
        items.drop_first()
    } else {
        items
    }
}

/// The receiving side of a queue: elements can be appended at the back.
///
/// It stands apart from [`Queue`] so that [`Queue::dump`] can pour into any
/// implementation.
pub trait Enqueue<T: Debug>: View<V = Seq<T>> {
    /// The representation invariant of the implementation.
    spec fn wf(&self) -> bool;

    /// Add an element to the queue.
    fn add(&mut self, elem: T)
        requires
            old(self).wf(),
        ensures
            final(self).wf(),
            final(self)@ == old(self)@.push(elem),
    ;
}

/// A generic queue interface.
pub trait Queue<T: Debug>: Enqueue<T> {
    /// Get an element from the queue.
    fn get(&mut self) -> (front: Option<T>)
        requires
            old(self).wf(),
        ensures
            final(self).wf(),
            front == front_of(old(self)@),
            final(self)@ == rest_of(old(self)@),
    ;

    /// Get the length of the queue.
    fn len(&self) -> (n: usize)
        requires
            self.wf(),
        ensures
            n == self@.len(),
    ;

    /// Check if the queue is empty.
    fn is_empty(&self) -> (empty: bool)
        requires
            self.wf(),
        ensures
            empty == (self@.len() == 0),
    ;

    /// Dump the contents of the queue into another queue.
    fn dump<Q: Enqueue<T>>(&mut self, other: &mut Q)
        requires
            old(self).wf(),
            old(other).wf(),
        ensures
            final(self).wf(),
            final(other).wf(),
            final(self)@ == Seq::<T>::empty(),
            final(other)@ == old(other)@ + old(self)@,
    ;

    /// Get the next element in the queue without removing it.
    fn peek(&self) -> (front: Option<&T>)
        requires
            self.wf(),
        ensures
            match front {
                Some(elem) => front_of(self@) == Some(*elem),
                None => front_of(self@) is None,
            },
    ;
}

/// The contents after adding each of `elems`, in order, to a queue holding `items`.
pub open spec fn after_adds<T>(items: Seq<T>, elems: Seq<T>) -> Seq<T>
    decreases elems.len(),
{
    if elems.len() == 0 {
        items
    } else {
        after_adds(items.push(elems[0]), elems.drop_first())
    }
}

/// The contents after `n` removals from a queue holding `items`.
pub open spec fn after_gets<T>(items: Seq<T>, n: nat) -> Seq<T>
    decreases n,
{
    if n == 0 {
        items
    } else {
        after_gets(rest_of(items), (n - 1) as nat)
    }
}

/// What the removal following `n` earlier ones returns.
pub open spec fn nth_got<T>(items: Seq<T>, n: nat) -> Option<T> {
    front_of(after_gets(items, n))
}

/// Adding elements one after another puts them behind what the queue held,
/// in the order in which they were added.
pub proof fn lemma_adds_append<T>(items: Seq<T>, elems: Seq<T>)
    ensures
        after_adds(items, elems) == items + elems,
    decreases elems.len(),
{
    if elems.len() == 0 {
        assert(items + elems =~= items);
    } else {
        lemma_adds_append(items.push(elems[0]), elems.drop_first());
        assert(items.push(elems[0]) + elems.drop_first() =~= items + elems);
    }
}

/// `n` removals take the first `n` elements away, or all of them where
/// the queue holds fewer.
pub proof fn lemma_gets_skip<T>(items: Seq<T>, n: nat)
    ensures
        after_gets(items, n) == if n <= items.len() {
            items.skip(n as int)
        } else {
            Seq::empty()
        },
    decreases n,
{
    if n == 0 {
        assert(items.skip(0) =~= items);
    } else {
        lemma_gets_skip(rest_of(items), (n - 1) as nat);
        if 0 < n <= items.len() {
            assert(items.drop_first().skip(n - 1) =~= items.skip(n as int));
        }
    }
}

/// First in, first out: after `elems` were added to an empty queue, its
/// length is the number of additions, and the removals return the elements
/// in the order in which they were added.
pub proof fn lemma_first_in_first_out<T>(elems: Seq<T>)
    ensures
        after_adds(Seq::empty(), elems).len() == elems.len(),
        forall|n: nat|
            n < elems.len() ==> #[trigger] nth_got(after_adds(Seq::empty(), elems), n) == Some(
                elems[n as int],
            ),
{
    lemma_adds_append(Seq::empty(), elems);
    assert(Seq::empty() + elems =~= elems);
    assert forall|n: nat| n < elems.len() implies #[trigger] nth_got(
        after_adds(Seq::empty(), elems),
        n,
    ) == Some(elems[n as int]) by {
        lemma_gets_skip(elems, n);
    }
}

/// Round trip: whatever a queue holds, the elements added to it come out
/// after those it held, in the order of their addition; once as many
/// elements were removed as the queue held and received, it is empty and
/// a further removal returns nothing.
pub proof fn lemma_round_trip<T>(items: Seq<T>, elems: Seq<T>)
    ensures
        forall|n: nat|
            n < elems.len() ==> #[trigger] nth_got(after_adds(items, elems), items.len() + n)
                == Some(elems[n as int]),
        after_gets(after_adds(items, elems), items.len() + elems.len()) == Seq::<T>::empty(),
        nth_got(after_adds(items, elems), items.len() + elems.len()) is None,
{
    lemma_adds_append(items, elems);
    let all = items + elems;
    assert forall|n: nat| n < elems.len() implies #[trigger] nth_got(all, items.len() + n) == Some(
        elems[n as int],
    ) by {
        lemma_gets_skip(all, items.len() + n);
    }
    lemma_gets_skip(all, all.len());
    assert(all.skip(all.len() as int) =~= Seq::empty());
}

} // verus!
