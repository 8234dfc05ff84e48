//! Queue implementation using a linked list.
use super::queue::{Enqueue, Queue};
use std::fmt::Debug;
use std::fmt::Display;
use vstd::prelude::*;
use vstd::string::to_string_from_display_ensures;
use vstd::string::StringExecFns;

verus! {

/// One slot of a queue's node store: an element and the link to the slot
/// that follows it.
pub struct Node<T> {
    /// The element, absent while the slot is vacant.
    elem: Option<T>,
    /// The slot after this one on the same list.
    next: Option<usize>,
}

/// A queue implemented using a linked list.
/// The queue is FIFO (first in, first out).
///
/// The nodes live in one store and link to each other by position. `head`
/// and `tail` mark the two ends of the list of elements, so both adding and
/// removing take constant time. Slots that a removal has freed are kept on a
/// second list and handed out again by later additions. Dropping the queue
/// drops the store slot by slot, however long the list is.
pub struct FIFOQueue<T: Debug> {
    nodes: Vec<Node<T>>,
    head: Option<usize>,
    tail: Option<usize>,
    vacant: Option<usize>,
    /// The occupied slots, front to back.
    chain: Ghost<Seq<usize>>,
    /// The vacant slots, in the order in which they will be reused.
    spare: Ghost<Seq<usize>>,
}

/// `path` is the list that starts at `first`: the slots are distinct, each
/// links to the one after it, and the last links nowhere.
spec fn threads<T>(nodes: Seq<Node<T>>, first: Option<usize>, path: Seq<usize>) -> bool {
    &&& first == if path.len() == 0 {
        None
    } else {
        Some(path[0])
    }
    &&& path.no_duplicates()
    &&& forall|i: int| 0 <= i < path.len() ==> (#[trigger] path[i]) < nodes.len()
    &&& forall|i: int, j: int|
        0 <= i && j == i + 1 && j < path.len() ==> nodes[(#[trigger] path[i]) as int].next == Some(
            #[trigger] path[j],
        )
    &&& path.len() > 0 ==> nodes[path.last() as int].next is None
}

impl<T: Debug> View for FIFOQueue<T> {
    type V = Seq<T>;

    /// The elements, front first.
    closed spec fn view(&self) -> Seq<T> {
        Seq::new(self.chain@.len(), |i: int| self.nodes@[self.chain@[i] as int].elem->0)
    }
}

impl<T: Debug> FIFOQueue<T> {
    /// An empty queue.
    pub fn new() -> (queue: Self)
        ensures
            queue.wf(),
            queue@ == Seq::<T>::empty(),
    {
        FIFOQueue {
            nodes: Vec::new(),
            head: None,
            tail: None,
            vacant: None,
            chain: Ghost(Seq::empty()),
            spare: Ghost(Seq::empty()),
        }
    }
}

impl<T: Debug> Enqueue<T> for FIFOQueue<T> {
    /// The occupied slots form the list from `head` to `tail`, the vacant
    /// slots the list from `vacant`, and every slot is on one of the two.
    closed spec fn wf(&self) -> bool {
        &&& threads(self.nodes@, self.head, self.chain@)
        &&& threads(self.nodes@, self.vacant, self.spare@)
        &&& self.tail == if self.chain@.len() == 0 {
            None
        } else {
            Some(self.chain@.last())
        }
        &&& forall|i: int|
            0 <= i < self.chain@.len() ==> self.nodes@[(#[trigger] self.chain@[i]) as int].elem is Some
        &&& forall|i: int|
            0 <= i < self.spare@.len() ==> self.nodes@[(#[trigger] self.spare@[i]) as int].elem is None
        &&& self.chain@.len() + self.spare@.len() == self.nodes@.len()
    }

    /// Add an element to the back of the queue.
    /// This operation should compute in O(1) time.
    fn add(&mut self, elem: T) {
        let slot: usize = match self.vacant {
            Some(slot) => {
                self.vacant = self.nodes[slot].next;
                self.nodes[slot].elem = Some(elem);
                self.nodes[slot].next = None;
                self.spare = Ghost(self.spare@.drop_first());
                slot
            },
            None => {
                self.nodes.push(Node { elem: Some(elem), next: None });
                self.nodes.len() - 1
            },
        };
        match self.tail {
            // Not empty, update the existing tail node.
            Some(last) => {
                self.nodes[last].next = Some(slot);
            },
            // Empty queue, update the head.
            None => {
                self.head = Some(slot);
            },
        }
        self.tail = Some(slot);
        self.chain = Ghost(self.chain@.push(slot));
        assert(self@ =~= old(self)@.push(elem));
    }
}

impl<T: Debug> Queue<T> for FIFOQueue<T> {
    /// Remove an element from the front of the queue.
    /// This operation should compute in O(1) time.
    fn get(&mut self) -> (front: Option<T>) {
        match self.head {
            None => None,
            Some(first) => {
                let next = self.nodes[first].next;
                let elem = self.nodes[first].elem.take();
                // The freed slot goes to the front of the vacant list.
                self.nodes[first].next = self.vacant;
                self.vacant = Some(first);
                self.head = next;
                if next.is_none() {
                    // Empty queue, update the tail.
                    self.tail = None;
                }
                self.chain = Ghost(self.chain@.drop_first());
                self.spare = Ghost(seq![first] + self.spare@);
                assert(self@ =~= old(self)@.drop_first());
                elem
            },
        }
    }

    /// Returns the number of elements in the queue.
    fn len(&self) -> (n: usize) {
        let mut len: usize = 0;
        let mut cur_link = self.head;
        while cur_link.is_some()
            invariant
                self.wf(),
                len <= self.chain@.len(),
                cur_link == if len < self.chain@.len() {
                    Some(self.chain@[len as int])
                } else {
                    None
                },
            decreases self.chain@.len() - len,
        {
            let slot = cur_link.unwrap();
            assert(len < self.nodes.len());
            len += 1;
            cur_link = self.nodes[slot].next;
        }
        len
    }

    /// Return true if the queue contains no elements.
    fn is_empty(&self) -> (empty: bool) {
        self.head.is_none()
    }

    /// Dumps the contents of the queue to another queue.
    /// The elements are in the same order as they would be removed from the queue.
    fn dump<Q: Enqueue<T>>(&mut self, other: &mut Q) {
        loop
            invariant
                self.wf(),
                other.wf(),
                other@ + self@ == old(other)@ + old(self)@,
            ensures
                self.wf(),
                other.wf(),
                self@.len() == 0,
                other@ + self@ == old(other)@ + old(self)@,
            decreases self@.len(),
        {
            match self.get() {
                Some(elem) => {
                    assert(other@.push(elem) + self@ =~= other@ + seq![elem] + self@);
                    other.add(elem);
                },
                None => {
                    break ;
                },
            }
        }
        assert(self@ =~= Seq::<T>::empty());
        assert(other@ + self@ =~= other@);
    }

    /// Return a reference to the next element in the queue without removing it.
    fn peek(&self) -> (front: Option<&T>) {
        match self.head {
            Some(first) => self.nodes[first].elem.as_ref(),
            None => None,
        }
    }
}

/// The texts joined by a comma and a space.
pub open spec fn joined(parts: Seq<Seq<char>>) -> Seq<char>
    decreases parts.len(),
{
    if parts.len() == 0 {
        Seq::empty()
    } else if parts.len() == 1 {
        parts[0]
    } else {
        joined(parts.drop_last()) + ", "@ + parts.last()
    }
}

/// The readable form of a queue whose element type is called `label` and
/// whose elements read `parts`, front first.
pub open spec fn rendering(label: Seq<char>, parts: Seq<Seq<char>>) -> Seq<char> {
    "FIFOQueue<"@ + label + "> ["@ + joined(parts) + "]"@
}

/// What each of the strings holds.
pub open spec fn texts(parts: Seq<String>) -> Seq<Seq<char>> {
    parts.map_values(|part: String| part@)
}

/// `parts` holds, for each of `items` in order, a text that displaying it gave.
pub open spec fn shows<T: Display>(items: Seq<T>, parts: Seq<String>) -> bool {
    &&& parts.len() == items.len()
    &&& forall|i: int|
        0 <= i < items.len() ==> to_string_from_display_ensures::<T>(&items[i], #[trigger] parts[i])
}

/// Writes out a queue from the name of its element type and the texts of
/// its elements: the elements in square brackets, separated by commas.
pub fn render(label: &str, parts: &Vec<String>) -> (text: String)
    ensures
        text@ == rendering(label@, texts(parts@)),
{
    let mut text = String::from_str("FIFOQueue<");
    text.append(label);
    text.append("> [");
    let ghost opening = text@;
    let mut i: usize = 0;
    while i < parts.len()
        invariant
            i <= parts@.len(),
            opening == "FIFOQueue<"@ + label@ + "> ["@,
            text@ == opening + joined(texts(parts@).take(i as int)),
        decreases parts@.len() - i,
    {
        assert(texts(parts@).take(i + 1).drop_last() =~= texts(parts@).take(i as int));
        // Write w/ a delimiter if there are elements before this one.
        if i > 0 {
            text.append(", ");
        }
        text.append(parts[i].as_str());
        assert(text@ =~= opening + joined(texts(parts@).take(i + 1)));
        i += 1;
    }
    text.append("]");
    assert(texts(parts@).take(i as int) =~= texts(parts@));
    text
}

impl<T: Debug> FIFOQueue<T> {
    /// The text of each element, front first.
    pub fn elem_texts(&self) -> (parts: Vec<String>) where T: Display
        requires
            self.wf(),
        ensures
            shows(self@, parts@),
    {
        let mut parts: Vec<String> = Vec::new();
        let mut cur_link = self.head;
        while cur_link.is_some()
            invariant
                self.wf(),
                parts@.len() <= self.chain@.len(),
                cur_link == if parts@.len() < self.chain@.len() {
                    Some(self.chain@[parts@.len() as int])
                } else {
                    None
                },
                forall|i: int|
                    0 <= i < parts@.len() ==> to_string_from_display_ensures::<T>(
                        &self@[i],
                        #[trigger] parts@[i],
                    ),
            decreases self.chain@.len() - parts@.len(),
        {
            let slot = cur_link.unwrap();
            assert(self@[parts@.len() as int] == self.nodes@[slot as int].elem->0);
            let elem = self.nodes[slot].elem.as_ref().unwrap();
            parts.push(elem.to_string());
            cur_link = self.nodes[slot].next;
        }
        parts
    }

    /// Renders the queue as the name of its element type, which the caller
    /// supplies as `label`, and its elements from front to back, in
    /// brackets and separated by commas.
    pub fn to_string(&self, label: &str) -> (text: String) where T: Display
        requires
            self.wf(),
        ensures
            exists|parts: Seq<String>|
                shows(self@, parts) && text@ == rendering(label@, texts(parts)),
    {
        let parts = self.elem_texts();
        let text = render(label, &parts);
        assert(shows(self@, parts@) && text@ == rendering(label@, texts(parts@)));
        text
    }
}

} // verus!
