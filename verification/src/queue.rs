//! A FIFO with fixed capacity, used for the memory unit's address-evaluation
//! queue and the processor's outgoing bus-access queue.

use vstd::prelude::*;

verus! {

/// A first-in-first-out buffer that refuses insertions beyond its capacity.
#[derive(Debug)]
pub struct Queue<T> {
    buffer: Vec<T>,
    capacity: usize,
}

impl<T> View for Queue<T> {
    type V = Seq<T>;

    closed spec fn view(&self) -> Seq<T> {
        self.buffer@
    }
}

impl<T> Queue<T> {
    /// The fixed capacity the queue was built with.
    pub closed spec fn spec_capacity(&self) -> nat {
        self.capacity as nat
    }

    /// The maintained bound: the queue never holds more than its capacity,
    /// so a refused insertion means the queue is exactly full.
    pub open spec fn wf(&self) -> bool {
        self@.len() <= self.spec_capacity()
    }

    /// Initialize a queue with the given capacity.
    pub fn new(capacity: usize) -> (r: Self)
        ensures
            r@ == Seq::<T>::empty(),
            r.spec_capacity() == capacity as nat,
            r.wf(),
    {
        Self { buffer: Vec::new(), capacity }
    }

    /// Append an element at the back; fails when the queue is full.
    pub fn insert(&mut self, elt: T) -> (r: Result<(), String>)
        ensures
            final(self).spec_capacity() == old(self).spec_capacity(),
            old(self).wf() ==> final(self).wf(),
            old(self)@.len() < old(self).spec_capacity() ==> r is Ok && final(self)@ == old(
                self,
            )@.push(elt),
            old(self)@.len() >= old(self).spec_capacity() ==> r is Err && final(self)@ == old(
                self,
            )@,
    {
        if self.len() >= self.capacity() {
            let msg = String::from_str("Queue is full");
            return Err(msg);
        }
        self.buffer.push(elt);
        Ok(())
    }

    /// Remove and return the front element; `None` when the queue is empty.
    pub fn pop(&mut self) -> (r: Option<T>)
        ensures
            final(self).spec_capacity() == old(self).spec_capacity(),
            old(self).wf() ==> final(self).wf(),
            old(self)@.len() == 0 ==> r is None && final(self)@ == old(self)@,
            old(self)@.len() > 0 ==> r == Some(old(self)@[0]) && final(self)@ == old(
                self,
            )@.drop_first(),
    {
        if self.buffer.len() == 0 {
            None
        } else {
            let elt = self.buffer.remove(0);
            proof {
                assert(final(self).buffer@ =~= old(self).buffer@.drop_first());
            }
            Some(elt)
        }
    }

    /// The number of elements currently held.
    pub fn len(&self) -> (r: usize)
        ensures
            r as nat == self@.len(),
    {
        self.buffer.len()
    }

    /// The fixed capacity.
    pub fn capacity(&self) -> (r: usize)
        ensures
            r as nat == self.spec_capacity(),
    {
        self.capacity
    }

    /// Whether no further element can be inserted.
    pub fn is_full(&self) -> (r: bool)
        ensures
            r == (self@.len() >= self.spec_capacity()),
    {
        self.buffer.len() >= self.capacity
    }

    /// Whether the queue holds no element.
    pub fn is_empty(&self) -> (r: bool)
        ensures
            r == (self@.len() == 0),
    {
        self.buffer.len() == 0
    }

    /// The element at position `idx` from the front, if any.
    pub fn get(&self, idx: usize) -> (r: Option<&T>)
        ensures
            idx < self@.len() ==> (r matches Some(e) && *e == self@[idx as int]),
            idx >= self@.len() ==> r is None,
    {
        if idx < self.buffer.len() {
            Some(&self.buffer[idx])
        } else {
            None
        }
    }

    /// A mutable reference to the element at position `idx`, if any.
    pub fn get_mut(&mut self, idx: usize) -> (r: Option<&mut T>)
        ensures
            final(self).spec_capacity() == old(self).spec_capacity(),
            old(self).wf() ==> final(self).wf(),
            idx < old(self)@.len() ==> (r matches Some(e) && *e == old(self)@[idx as int]
                && final(self)@ == old(self)@.update(idx as int, *final(e))),
            idx >= old(self)@.len() ==> r is None && final(self)@ == old(self)@,
    {
        if idx < self.buffer.len() {
            Some(&mut self.buffer[idx])
        } else {
            None
        }
    }

    /// The front element, if any.
    pub fn head(&self) -> (r: Option<&T>)
        ensures
            self@.len() > 0 ==> (r matches Some(e) && *e == self@[0]),
            self@.len() == 0 ==> r is None,
    {
        self.get(0)
    }
}

} // verus!
