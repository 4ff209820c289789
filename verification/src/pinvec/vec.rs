//! A vector in segments: it grows by whole segments and never moves what
//! it holds.

use crate::pinvec::buf::PinBuffer;
use crate::pinvec::slots::{
    lemma_seg_start_step, lemma_shape, lemma_shape_step, lemma_slot_in_shape,
    lemma_slot_of_bounds, resolve, seg_capacity, seg_count, seg_len, seg_start, slot_of,
};
use crate::pow_of_2::PowOf2;
use vstd::arithmetic::power2::{
    lemma2_to64, lemma2_to64_rest, lemma_pow2_pos, lemma_pow2_strictly_increases, pow2,
};
use vstd::layout::layout_of_primitives;
use vstd::prelude::*;

verus! {

/// A growable sequence kept in segments of doubling capacity.
///
/// Pushing never moves an element that is already held: an element stays
/// in the segment and at the offset it was first put, until it is removed,
/// and elements are removed from the tail only.
pub struct PinVec<T> {
    bufs: Vec<PinBuffer<T>>,
    buf_zero_len: PowOf2<usize>,
    len: usize,
}

/// Every element of `before` is in `after`, in the same segment and at the
/// same offset.
pub open spec fn places_kept<T>(before: Seq<Seq<T>>, after: Seq<Seq<T>>) -> bool {
    &&& before.len() <= after.len()
    &&& forall|k: int, o: int|
        0 <= k < before.len() && 0 <= o < before[k].len() ==> o < after[k].len()
            && #[trigger] after[k][o] == before[k][o]
}

impl<T> View for PinVec<T> {
    type V = Seq<T>;

    /// The elements in index order: element `i` is the one at the segment
    /// and offset that `slot_of` gives for `i`.
    open spec fn view(&self) -> Seq<T> {
        Seq::new(
            self.spec_len(),
            |i: int|
                self.segments()[slot_of(self.spec_base_exp(), i as nat).0 as int][slot_of(
                    self.spec_base_exp(),
                    i as nat,
                ).1 as int],
        )
    }
}

impl<T> PinVec<T> {
    /// Exponent `b` of the capacity `2^b` of segment 0.
    pub closed spec fn spec_base_exp(&self) -> nat {
        self.buf_zero_len.spec_exp()
    }

    /// Number of elements held.
    pub closed spec fn spec_len(&self) -> nat {
        self.len as nat
    }

    /// What each segment holds, segment 0 first.
    pub closed spec fn segments(&self) -> Seq<Seq<T>> {
        Seq::new(self.bufs@.len(), |k: int| self.bufs@[k]@)
    }

    /// The capacity that each segment was made with, segment 0 first.
    pub closed spec fn segment_capacities(&self) -> Seq<nat> {
        Seq::new(self.bufs@.len(), |k: int| self.bufs@[k].spec_capacity())
    }

    /// The segments in use are those that the length asks for, each has its
    /// capacity `2^(b + k)` and holds its share of the elements.
    pub closed spec fn wf(&self) -> bool {
        &&& self.buf_zero_len.wf()
        &&& self.spec_base_exp() + self.bufs@.len() <= usize::BITS
        &&& self.bufs@.len() == seg_count(self.spec_base_exp(), self.spec_len())
        &&& forall|k: int|
            0 <= k < self.bufs@.len() ==> {
                &&& (#[trigger] self.bufs@[k]).wf()
                &&& self.bufs@[k].spec_capacity() == seg_capacity(self.spec_base_exp(), k as nat)
                &&& self.bufs@[k]@.len() == seg_len(
                    self.spec_base_exp(),
                    self.spec_len(),
                    k as nat,
                )
            }
    }

    /// How a well-formed vector is laid out: segment `k` was made with
    /// room for `2^(b + k)` elements, every segment but the last is full,
    /// the last holds at least one element, and the segments hold all the
    /// elements between them; for each segment, `seg_len` gives its
    /// length.
    pub proof fn lemma_layout(&self)
        requires
            self.wf(),
        ensures
            self@.len() == self.spec_len(),
            self.spec_base_exp() < usize::BITS,
            self.segments().len() == seg_count(self.spec_base_exp(), self.spec_len()),
            self.segments().len() == 0 <==> self@.len() == 0,
            self.segment_capacities().len() == self.segments().len(),
            forall|k: int|
                0 <= k < self.segments().len() ==> (#[trigger] self.segment_capacities()[k])
                    == seg_capacity(self.spec_base_exp(), k as nat),
            forall|k: int|
                0 <= k < self.segments().len() ==> (#[trigger] self.segments()[k]).len()
                    == seg_len(self.spec_base_exp(), self.spec_len(), k as nat),
            forall|k: int|
                0 <= k < self.segments().len() - 1 ==> (#[trigger] self.segments()[k]).len()
                    == seg_capacity(self.spec_base_exp(), k as nat),
            self.segments().len() > 0 ==> {
                &&& 0 < self.segments().last().len() <= seg_capacity(
                    self.spec_base_exp(),
                    (self.segments().len() - 1) as nat,
                )
                &&& seg_start(self.spec_base_exp(), (self.segments().len() - 1) as nat)
                    + self.segments().last().len() == self@.len()
            },
    {
        broadcast use layout_of_primitives;

        let b = self.spec_base_exp();
        let n = self.spec_len();
        assert forall|k: int| 0 <= k < self.segments().len() - 1 implies (
        #[trigger] self.segments()[k]).len() == seg_capacity(b, k as nat) by {
            lemma_shape(b, n, k as nat);
        }
        if self.segments().len() > 0 {
            lemma_shape(b, n, (self.segments().len() - 1) as nat);
        }
    }

    /// An empty vector whose segment 0 will hold `buf_zero_len` elements.
    pub fn new(buf_zero_len: PowOf2<usize>) -> (v: Self)
        ensures
            v.wf(),
            v@ == Seq::<T>::empty(),
            v.spec_base_exp() == buf_zero_len.spec_exp(),
    {
        proof {
            use_type_invariant(buf_zero_len);
            broadcast use layout_of_primitives;

        }
        PinVec { bufs: Vec::new(), buf_zero_len, len: 0 }
    }

    /// Number of elements held.
    pub fn len(&self) -> (n: usize)
        ensures
            n == self@.len(),
    {
        self.len
    }

    /// Segment and offset of the element with index `elem_i`, whether or
    /// not the vector holds that many elements.
    pub fn calc_index(&self, elem_i: usize) -> (slot: (usize, usize))
        ensures
            (slot.0 as nat, slot.1 as nat) == slot_of(self.spec_base_exp(), elem_i as nat),
            seg_start(self.spec_base_exp(), slot.0 as nat) + slot.1 == elem_i,
            slot.1 < seg_capacity(self.spec_base_exp(), slot.0 as nat),
    {
        proof {
            broadcast use layout_of_primitives;

        }
        resolve(self.buf_zero_len.exp(), elem_i)
    }

    /// Appends an element. No element held before is moved.
    pub fn push(&mut self, elem: T)
        requires
            old(self).wf(),
            old(self)@.len() + pow2(old(self).spec_base_exp()) <= usize::MAX,
        ensures
            final(self).wf(),
            final(self).spec_base_exp() == old(self).spec_base_exp(),
            final(self)@ == old(self)@.push(elem),
            places_kept(old(self).segments(), final(self).segments()),
    {
        let ghost b = self.spec_base_exp();
        let ghost n = self.spec_len();
        let (seg, off) = self.calc_index(self.len);
        proof {
            broadcast use layout_of_primitives;

            lemma_pow2_pos(b);
            lemma_shape_step(b, n);
            lemma_slot_of_bounds(b, n);
            lemma_seg_start_step(b, seg as nat);
            assert(b + seg < usize::BITS) by {
                lemma2_to64();
                lemma2_to64_rest();
                if b + seg > usize::BITS {
                    lemma_pow2_strictly_increases(usize::BITS as nat, b + seg as nat);
                }
            }
        }
        if seg == self.bufs.len() {
            let capacity = self.buf_zero_len.pow(seg as u8).to_uint();
            self.bufs.push(PinBuffer::new(capacity));
        }
        let ghost mid = self.bufs@;
        self.bufs[seg].push(elem);
        self.len = self.len + 1;
        proof {
            assert forall|k: int| 0 <= k < self.bufs@.len() implies {
                &&& (#[trigger] self.bufs@[k]).wf()
                &&& self.bufs@[k].spec_capacity() == seg_capacity(b, k as nat)
                &&& self.bufs@[k]@.len() == seg_len(b, n + 1, k as nat)
            } by {
                if k != seg {
                    assert(mid[k] == old(self).bufs@[k]);
                    assert(seg_len(b, n + 1, k as nat) == seg_len(b, n, k as nat));
                }
            }
            assert(places_kept(old(self).segments(), self.segments())) by {
                assert forall|k: int, o: int|
                    0 <= k < old(self).segments().len() && 0 <= o < old(
                        self,
                    ).segments()[k].len() implies o < self.segments()[k].len()
                    && #[trigger] self.segments()[k][o] == old(self).segments()[k][o] by {
                    assert(mid[k] == old(self).bufs@[k]);
                }
            }
            assert(self@ =~= old(self)@.push(elem)) by {
                assert forall|i: int| 0 <= i < n implies self@[i] == old(self)@[i] by {
                    lemma_slot_in_shape(b, n, i as nat);
                    let (k, o) = slot_of(b, i as nat);
                    assert(self.segments()[k as int][o as int] == old(
                        self,
                    ).segments()[k as int][o as int]);
                }
            }
        }
    }

    /// Removes the last element and drops it where it lies.
    ///
    /// Returns `false` if the vector was empty. A segment that this empties
    /// is given up.
    pub fn remove_top(&mut self) -> (removed: bool)
        requires
            old(self).wf(),
        ensures
            final(self).wf(),
            final(self).spec_base_exp() == old(self).spec_base_exp(),
            removed == (old(self)@.len() > 0),
            final(self)@ == if removed {
                old(self)@.drop_last()
            } else {
                old(self)@
            },
            places_kept(final(self).segments(), old(self).segments()),
    {
        if self.len == 0 {
            return false;
        }
        let ghost b = self.spec_base_exp();
        let ghost n = self.spec_len();
        proof {
            lemma_shape_step(b, (n - 1) as nat);
        }
        let last = self.bufs.len() - 1;
        let removed = self.bufs[last].remove_top();
        let ghost mid = self.bufs@;
        if self.bufs[last].len() == 0 {
            self.bufs.pop();
        }
        self.len = self.len - 1;
        proof {
            self.lemma_tail_removed(*old(self), mid);
        }
        removed
    }

    /// Removes and returns the last element.
    pub fn pop(&mut self) -> (top: Option<T>)
        requires
            old(self).wf(),
        ensures
            final(self).wf(),
            final(self).spec_base_exp() == old(self).spec_base_exp(),
            top == if old(self)@.len() > 0 {
                Some(old(self)@.last())
            } else {
                None
            },
            final(self)@ == if old(self)@.len() > 0 {
                old(self)@.drop_last()
            } else {
                old(self)@
            },
            places_kept(final(self).segments(), old(self).segments()),
    {
        self.pop_unchecked()
    }

    /// Removes and returns the last element, whether or not its type may
    /// be moved once it has been handed out by reference.
    pub fn pop_unchecked(&mut self) -> (top: Option<T>)
        requires
            old(self).wf(),
        ensures
            final(self).wf(),
            final(self).spec_base_exp() == old(self).spec_base_exp(),
            top == if old(self)@.len() > 0 {
                Some(old(self)@.last())
            } else {
                None
            },
            final(self)@ == if old(self)@.len() > 0 {
                old(self)@.drop_last()
            } else {
                old(self)@
            },
            places_kept(final(self).segments(), old(self).segments()),
    {
        if self.len == 0 {
            return None;
        }
        let ghost b = self.spec_base_exp();
        let ghost n = self.spec_len();
        proof {
            lemma_shape_step(b, (n - 1) as nat);
        }
        let last = self.bufs.len() - 1;
        let top = self.bufs[last].pop_unchecked();
        let ghost mid = self.bufs@;
        if self.bufs[last].len() == 0 {
            self.bufs.pop();
        }
        self.len = self.len - 1;
        proof {
            self.lemma_tail_removed(*old(self), mid);
        }
        top
    }

    /// What holds once the last element of `before` has been taken from
    /// its segment, and the segment given up if that emptied it.
    proof fn lemma_tail_removed(&self, before: Self, mid: Seq<PinBuffer<T>>)
        requires
            before.wf(),
            before.spec_len() > 0,
            self.buf_zero_len == before.buf_zero_len,
            self.len + 1 == before.len,
            mid.len() == before.bufs@.len(),
            forall|k: int| 0 <= k < mid.len() - 1 ==> mid[k] == before.bufs@[k],
            mid.last().wf(),
            mid.last().spec_capacity() == before.bufs@.last().spec_capacity(),
            mid.last()@ == before.bufs@.last()@.drop_last(),
            self.bufs@ == if mid.last()@.len() == 0 {
                mid.drop_last()
            } else {
                mid
            },
        ensures
            self.wf(),
            self@ == before@.drop_last(),
            places_kept(self.segments(), before.segments()),
            before@.last() == before.bufs@.last()@.last(),
    {
        let b = before.spec_base_exp();
        let n = before.spec_len();
        let m = (n - 1) as nat;
        lemma_shape_step(b, m);
        let (s, o) = slot_of(b, m);
        assert forall|k: int| 0 <= k < self.bufs@.len() implies {
            &&& (#[trigger] self.bufs@[k]).wf()
            &&& self.bufs@[k].spec_capacity() == seg_capacity(b, k as nat)
            &&& self.bufs@[k]@.len() == seg_len(b, m, k as nat)
        } by {
            if k != s {
                assert(self.bufs@[k] == before.bufs@[k]);
                assert(seg_len(b, m + 1, k as nat) == seg_len(b, m, k as nat));
            }
        }
        assert(self@ =~= before@.drop_last()) by {
            assert forall|i: int| 0 <= i < m implies self@[i] == before@[i] by {
                lemma_slot_in_shape(b, m, i as nat);
                let (k, oo) = slot_of(b, i as nat);
                if k != s {
                    assert(self.bufs@[k as int] == before.bufs@[k as int]);
                }
            }
        }
    }

    /// The element at `index`, by shared reference.
    pub fn idx_ref(&self, index: usize) -> (elem: &T)
        requires
            self.wf(),
            index < self@.len(),
        ensures
            *elem == self@[index as int],
    {
        let (seg, off) = self.calc_index(index);
        proof {
            lemma_slot_in_shape(self.spec_base_exp(), self.spec_len(), index as nat);
        }
        self.bufs[seg].idx_ref(off)
    }

    /// The element at `index`, by mutable reference. What is written
    /// through the reference changes that element, where it lies, and
    /// nothing else.
    pub fn idx_mut(&mut self, index: usize) -> (elem: &mut T)
        requires
            old(self).wf(),
            index < old(self)@.len(),
        ensures
            *elem == old(self)@[index as int],
            final(self).wf(),
            final(self).spec_base_exp() == old(self).spec_base_exp(),
            final(self).segments() == Self::spec_written(
                old(self).segments(),
                slot_of(old(self).spec_base_exp(), index as nat),
                *final(elem),
            ),
            final(self)@ == old(self)@.update(index as int, *final(elem)),
    {
        let (seg, off) = self.calc_index(index);
        proof {
            let before = *self;
            let slot = slot_of(self.spec_base_exp(), index as nat);
            lemma_slot_in_shape(self.spec_base_exp(), self.spec_len(), index as nat);
            assert forall|after: Self, value: T|
                after.wf() && after.spec_base_exp() == before.spec_base_exp() && after.spec_len()
                    == before.spec_len() && #[trigger] after.segments() == #[trigger] Self::spec_written(
                    before.segments(),
                    slot,
                    value,
                ) implies after@ == before@.update(index as int, value) by {
                before.lemma_written(after, index as nat, value);
            }
        }
        self.bufs[seg].idx_mut(off)
    }

    /// The element at `index` by shared reference, or `None` if there is
    /// no such element.
    pub fn get_ref(&self, index: usize) -> (elem: Option<&T>)
        requires
            self.wf(),
        ensures
            index < self@.len() <==> elem is Some,
            elem matches Some(e) ==> *e == self@[index as int],
    {
        if index < self.len {
            Some(self.idx_ref(index))
        } else {
            None
        }
    }

    /// The element at `index` by mutable reference, or `None` if there is
    /// no such element.
    pub fn get_mut(&mut self, index: usize) -> (elem: Option<&mut T>)
        requires
            old(self).wf(),
        ensures
            index < old(self)@.len() <==> elem is Some,
            final(self).wf(),
            final(self).spec_base_exp() == old(self).spec_base_exp(),
            match elem {
                Some(e) => {
                    &&& *e == old(self)@[index as int]
                    &&& final(self).segments() == Self::spec_written(
                        old(self).segments(),
                        slot_of(old(self).spec_base_exp(), index as nat),
                        *final(e),
                    )
                    &&& final(self)@ == old(self)@.update(index as int, *final(e))
                },
                None => *final(self) == *old(self),
            },
    {
        if index < self.len {
            Some(self.idx_mut(index))
        } else {
            None
        }
    }

    /// `after` is what a push, or the removal of the last element, makes
    /// of `before`.
    pub open spec fn spec_step(before: Self, after: Self) -> bool {
        &&& after.wf()
        &&& after.spec_base_exp() == before.spec_base_exp()
        &&& {
            ||| {
                &&& exists|elem: T| after@ == before@.push(elem)
                &&& places_kept(before.segments(), after.segments())
            }
            ||| {
                &&& before@.len() > 0
                &&& after@ == before@.drop_last()
                &&& places_kept(after.segments(), before.segments())
            }
        }
    }

    /// An element stays where it is: through any run of pushes and
    /// removals that never removes element `i`, the segment and offset at
    /// which element `i` lies are the same, and hold the same value, in
    /// every state of the vector.
    pub proof fn lemma_place_stable(states: Seq<Self>, i: nat, at: int)
        requires
            0 <= at < states.len(),
            states[0].wf(),
            forall|j: int|
                0 <= j < states.len() - 1 ==> Self::spec_step(#[trigger] states[j], states[j + 1]),
            forall|j: int| 0 <= j < states.len() ==> i < (#[trigger] states[j])@.len(),
        ensures
            states[at].spec_base_exp() == states[0].spec_base_exp(),
            slot_of(states[0].spec_base_exp(), i).0 < states[at].segments().len(),
            slot_of(states[0].spec_base_exp(), i).1 < states[at].segments()[slot_of(
                states[0].spec_base_exp(),
                i,
            ).0 as int].len(),
            states[at].segments()[slot_of(states[0].spec_base_exp(), i).0 as int][slot_of(
                states[0].spec_base_exp(),
                i,
            ).1 as int] == states[0]@[i as int],
            states[at]@[i as int] == states[0]@[i as int],
        decreases at,
    {
        let b = states[0].spec_base_exp();
        assert(i < states[at]@.len());
        if at == 0 {
            states[0].lemma_layout();
            lemma_slot_in_shape(b, states[0].spec_len(), i);
        } else {
            Self::lemma_place_stable(states, i, at - 1);
            let before = states[at - 1];
            let after = states[at];
            assert(Self::spec_step(before, after));
            assert(i < before@.len());
            after.lemma_layout();
            lemma_slot_in_shape(b, after.spec_len(), i);
        }
    }

    /// The segments `segments` with the element at `slot` overwritten with
    /// `value`.
    pub open spec fn spec_written(segments: Seq<Seq<T>>, slot: (nat, nat), value: T) -> Seq<
        Seq<T>,
    > {
        segments.update(slot.0 as int, segments[slot.0 as int].update(slot.1 as int, value))
    }

    /// Overwriting the element at `index` where it lies changes that
    /// element of the vector and no other.
    pub proof fn lemma_written(&self, after: Self, index: nat, value: T)
        requires
            self.wf(),
            index < self.spec_len(),
            after.spec_base_exp() == self.spec_base_exp(),
            after.spec_len() == self.spec_len(),
            after.segments() == Self::spec_written(
                self.segments(),
                slot_of(self.spec_base_exp(), index),
                value,
            ),
        ensures
            after@ == self@.update(index as int, value),
    {
        let b = self.spec_base_exp();
        let n = self.spec_len();
        let (s, o) = slot_of(b, index);
        lemma_slot_in_shape(b, n, index);
        lemma_slot_of_bounds(b, index);
        assert(after@ =~= self@.update(index as int, value)) by {
            assert forall|i: int| 0 <= i < n && i != index implies after@[i] == self@[i] by {
                lemma_slot_in_shape(b, n, i as nat);
                lemma_slot_of_bounds(b, i as nat);
            }
        }
    }
}

impl<T> Default for PinVec<T> {
    /// An empty vector whose segment 0 will hold 64 elements.
    fn default() -> (v: Self)
        ensures
            v.wf(),
            v@ == Seq::<T>::empty(),
            v.spec_base_exp() == 6,
    {
        proof {
            broadcast use layout_of_primitives;

        }
        PinVec::new(PowOf2::from_exp(6))
    }
}

} // verus!
