//! A buffer of fixed capacity.

use vstd::pervasive::runtime_assert;
use vstd::prelude::*;

verus! {

/// A vector that is given its capacity once and never grows beyond it, so
/// that it never reallocates and its elements stay where they are.
pub struct PinBuffer<T> {
    vec: Vec<T>,
    cap: usize,
}

impl<T> View for PinBuffer<T> {
    type V = Seq<T>;

    /// The elements, the first pushed first.
    closed spec fn view(&self) -> Seq<T> {
        self.vec@
    }
}

impl<T> PinBuffer<T> {
    /// The buffer holds no more than its capacity.
    pub closed spec fn wf(&self) -> bool {
        self.vec@.len() <= self.cap
    }

    /// The capacity the buffer was made with.
    pub closed spec fn spec_capacity(&self) -> nat {
        self.cap as nat
    }

    /// An empty buffer with room for `capacity` elements.
    pub fn new(capacity: usize) -> (buf: Self)
        ensures
            buf.wf(),
            buf@ == Seq::<T>::empty(),
            buf.spec_capacity() == capacity,
    {
        PinBuffer { vec: Vec::with_capacity(capacity), cap: capacity }
    }

    /// Current element length.
    pub fn len(&self) -> (n: usize)
        requires
            self.wf(),
        ensures
            n == self@.len(),
            n <= self.spec_capacity(),
    {
        self.vec.len()
    }

    /// Current element capacity.
    pub fn capacity(&self) -> (n: usize)
        requires
            self.wf(),
        ensures
            n == self.spec_capacity(),
            self@.len() <= n,
    {
        self.cap
    }

    /// Whether capacity allows to push another element.
    pub fn can_push(&self) -> (b: bool)
        requires
            self.wf(),
        ensures
            b == (self@.len() < self.spec_capacity()),
    {
        self.len() < self.capacity()
    }

    /// Pushes an element onto a buffer that is not full.
    pub fn push(&mut self, elem: T)
        requires
            old(self).wf(),
            old(self)@.len() < old(self).spec_capacity(),
        ensures
            final(self).wf(),
            final(self)@ == old(self)@.push(elem),
            final(self).spec_capacity() == old(self).spec_capacity(),
    {
        runtime_assert(self.can_push());
        self.vec.push(elem);
    }

    /// Drops the top element where it lies, without moving it.
    ///
    /// Returns `false` if the buffer was empty.
    pub fn remove_top(&mut self) -> (removed: bool)
        requires
            old(self).wf(),
        ensures
            final(self).wf(),
            removed == (old(self)@.len() > 0),
            final(self)@ == if removed {
                old(self)@.drop_last()
            } else {
                old(self)@
            },
            final(self).spec_capacity() == old(self).spec_capacity(),
    {
        let len = self.vec.len();
        if len == 0 {
            return false;
        }
        self.vec.truncate(len - 1);
        assert(self.vec@ == old(self).vec@.drop_last());
        true
    }

    /// Pops and returns the top element.
    pub fn pop(&mut self) -> (top: Option<T>)
        requires
            old(self).wf(),
        ensures
            final(self).wf(),
            top == if old(self)@.len() > 0 {
                Some(old(self)@.last())
            } else {
                None
            },
            final(self)@ == if old(self)@.len() > 0 {
                old(self)@.drop_last()
            } else {
                old(self)@
            },
            final(self).spec_capacity() == old(self).spec_capacity(),
    {
        self.pop_unchecked()
    }

    /// Pops and returns the top element, whether or not its type may be
    /// moved once it has been handed out by reference.
    pub fn pop_unchecked(&mut self) -> (top: Option<T>)
        requires
            old(self).wf(),
        ensures
            final(self).wf(),
            top == if old(self)@.len() > 0 {
                Some(old(self)@.last())
            } else {
                None
            },
            final(self)@ == if old(self)@.len() > 0 {
                old(self)@.drop_last()
            } else {
                old(self)@
            },
            final(self).spec_capacity() == old(self).spec_capacity(),
    {
        let top = self.vec.pop();
        assert(old(self).vec@.len() > 0 ==> self.vec@ == old(self).vec@.drop_last());
        top
    }

    /// Overrides an existing element; the old one is dropped where it lies.
    pub fn set(&mut self, index: usize, elem: T)
        requires
            old(self).wf(),
            index < old(self)@.len(),
        ensures
            final(self).wf(),
            final(self)@ == old(self)@.update(index as int, elem),
            final(self).spec_capacity() == old(self).spec_capacity(),
    {
        self.vec[index] = elem;
    }

    /// Takes an existing element out and puts `repl` in its place.
    pub fn replace(&mut self, index: usize, repl: T) -> (prev: T)
        requires
            old(self).wf(),
            index < old(self)@.len(),
        ensures
            final(self).wf(),
            prev == old(self)@[index as int],
            final(self)@ == old(self)@.update(index as int, repl),
            final(self).spec_capacity() == old(self).spec_capacity(),
    {
        let mut held = repl;
        std::mem::swap(&mut self.vec[index], &mut held);
        held
    }

    /// The element at `index`, by shared reference.
    pub fn idx_ref(&self, index: usize) -> (elem: &T)
        requires
            self.wf(),
            index < self@.len(),
        ensures
            *elem == self@[index as int],
    {
        &self.vec[index]
    }

    /// The element at `index`, by mutable reference.
    pub fn idx_mut(&mut self, index: usize) -> (elem: &mut T)
        requires
            old(self).wf(),
            index < old(self)@.len(),
        ensures
            *elem == old(self)@[index as int],
            final(self).wf(),
            final(self)@ == old(self)@.update(index as int, *final(elem)),
            final(self).spec_capacity() == old(self).spec_capacity(),
    {
        &mut self.vec[index]
    }

    /// The element at `index` by shared reference, or `None` if there is
    /// no such element.
    pub fn get_ref(&self, index: usize) -> (elem: Option<&T>)
        requires
            self.wf(),
        ensures
            index < self@.len() <==> elem is Some,
            elem matches Some(e) ==> *e == self@[index as int],
    {
        if index < self.vec.len() {
            Some(&self.vec[index])
        } else {
            None
        }
    }

    /// The element at `index` by mutable reference, or `None` if there is
    /// no such element.
    pub fn get_mut(&mut self, index: usize) -> (elem: Option<&mut T>)
        requires
            old(self).wf(),
        ensures
            index < old(self)@.len() <==> elem is Some,
            final(self).wf(),
            final(self).spec_capacity() == old(self).spec_capacity(),
            match elem {
                Some(e) => *e == old(self)@[index as int] && final(self)@ == old(self)@.update(
                    index as int,
                    *final(e),
                ),
                None => final(self)@ == old(self)@,
            },
    {
        if index < self.vec.len() {
            Some(&mut self.vec[index])
        } else {
            None
        }
    }
}

} // verus!
