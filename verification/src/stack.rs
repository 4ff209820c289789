//! A stack of frames, each of which may hold what was derived from the
//! frame below it.
//!
//! A frame is kept in its storage form. Only the top frame is ever handed
//! out in its live form, and frames leave the stack from the top only.

use crate::pinvec::vec::PinVec;
use vstd::arithmetic::power2::lemma2_to64;
use vstd::prelude::*;

verus! {

/// The storage form of a frame, which can be brought back to life.
pub trait LtEnable: Sized {
    /// The live form.
    type Output;

    /// The live form of this stored frame. Nothing is known of it but
    /// what an impl says.
    open spec fn live(self) -> Self::Output {
        arbitrary()
    }

    /// Gives the live frame.
    fn give_lifetime(self) -> (out: Self::Output)
        ensures
            out == self.live(),
    ;

    /// Gives a view of the live frame.
    fn give_lifetime_ref(&self) -> (out: &Self::Output)
        ensures
            *out == self.live(),
    ;

    /// Gives a view of the live frame through which it can be changed.
    fn give_lifetime_mut(&mut self) -> (out: &mut Self::Output)
        ensures
            *out == old(self).live(),
            final(self).live() == *final(out),
    ;
}

/// A live frame that can be put into the storage form `S`.
pub trait LtDisable<S: LtEnable>: Sized {
    /// The storage form of this frame. Nothing is known of it but what
    /// an impl says.
    open spec fn stored(self) -> S {
        arbitrary()
    }

    /// Gives the frame in its storage form.
    fn into_static(self) -> (s: S)
        ensures
            s == self.stored(),
    ;
}

/// A derivation: what `LtStack::grow` applies to the live top frame to get
/// the frames that it pushes.
pub trait Borrower<S: LtEnable>: Sized {
    /// The frames produced.
    type Borrowed: LtDisable<S>;

    /// Whether the derivation may be applied to this top frame: to any,
    /// unless an impl says otherwise.
    open spec fn accepts(self, top: S::Output) -> bool {
        true
    }

    /// Whether the derivation, applied to the top frame `before`, may leave
    /// it as `after` and produce `frames`: it may do anything, unless an
    /// impl says otherwise.
    open spec fn derives(
        self,
        before: S::Output,
        after: S::Output,
        frames: Seq<Self::Borrowed>,
    ) -> bool {
        true
    }

    /// Applies the derivation to the top frame.
    fn apply(self, top: &mut S::Output) -> (frames: Vec<Self::Borrowed>)
        requires
            self.accepts(*old(top)),
        ensures
            self.derives(*old(top), *final(top), frames@),
    ;
}

/// A frame that is the index of a slot in an arena of the caller's. It
/// holds no reference, so it is the same at rest and live; whoever holds
/// the arena reads or writes the slot that a live frame names.
#[derive(Debug)]
pub struct Foo(pub usize);

impl LtEnable for Foo {
    type Output = Foo;

    open spec fn live(self) -> Foo {
        self
    }

    fn give_lifetime(self) -> Foo {
        self
    }

    fn give_lifetime_ref(&self) -> &Foo {
        self
    }

    fn give_lifetime_mut(&mut self) -> &mut Foo {
        self
    }
}

impl LtDisable<Foo> for Foo {
    open spec fn stored(self) -> Foo {
        self
    }

    fn into_static(self) -> Foo {
        self
    }
}

/// The live forms of frames that are about to be stored.
pub open spec fn live_frames<S: LtEnable, E: LtDisable<S>>(frames: Seq<E>) -> Seq<S::Output> {
    frames.map_values(|e: E| e.stored().live())
}

/// A stack of frames kept in storage that never moves them.
pub struct LtStack<S: LtEnable> {
    vec: PinVec<S>,
}

impl<S: LtEnable> View for LtStack<S> {
    type V = Seq<S::Output>;

    /// The live forms of the frames, bottom first.
    closed spec fn view(&self) -> Seq<S::Output> {
        self.vec@.map_values(|s: S| s.live())
    }
}

impl<S: LtEnable> LtStack<S> {
    /// The storage is well formed, and its first segment holds 64 frames.
    pub closed spec fn wf(&self) -> bool {
        &&& self.vec.wf()
        &&& self.vec.spec_base_exp() == 6
    }

    /// The depth that pushing must stay below: `usize::MAX - 63`.
    pub open spec fn spec_max_len() -> nat {
        (usize::MAX - 63) as nat
    }

    /// A stack without frames.
    pub fn empty() -> (stack: Self)
        ensures
            stack.wf(),
            stack@ == Seq::<S::Output>::empty(),
    {
        LtStack { vec: PinVec::default() }
    }

    /// Puts a frame on top.
    pub fn push<E: LtDisable<S>>(&mut self, elem: E)
        requires
            old(self).wf(),
            old(self)@.len() < Self::spec_max_len(),
        ensures
            final(self).wf(),
            final(self)@ == old(self)@.push(elem.stored().live()),
    {
        proof {
            lemma2_to64();
        }
        self.vec.push(elem.into_static());
    }

    /// Takes the top frame off and gives it, live, to the caller; `None`
    /// if there is no frame.
    pub fn pop(&mut self) -> (top: Option<S::Output>)
        requires
            old(self).wf(),
        ensures
            final(self).wf(),
            top == if old(self)@.len() > 0 {
                Some(old(self)@.last())
            } else {
                None
            },
            final(self)@ == if old(self)@.len() > 0 {
                old(self)@.drop_last()
            } else {
                old(self)@
            },
    {
        match self.vec.pop_unchecked() {
            Some(frame) => Some(frame.give_lifetime()),
            None => None,
        }
    }

    /// Number of frames.
    pub fn len(&self) -> (n: usize)
        ensures
            n == self@.len(),
    {
        self.vec.len()
    }

    /// The top frame, live, without taking it off; `None` if there is no
    /// frame. What is written through the reference changes the top frame
    /// and nothing else.
    pub fn top(&mut self) -> (top: Option<&mut S::Output>)
        requires
            old(self).wf(),
        ensures
            final(self).wf(),
            old(self)@.len() > 0 <==> top is Some,
            match top {
                Some(t) => *t == old(self)@.last() && final(self)@ == old(self)@.update(
                    old(self)@.len() - 1,
                    *final(t),
                ),
                None => final(self)@ == old(self)@,
            },
    {
        let len = self.vec.len();
        if len == 0 {
            None
        } else {
            Some(self.vec.idx_mut(len - 1).give_lifetime_mut())
        }
    }

    /// Lets `f` derive new frames from the live top frame and pushes them,
    /// in the order in which `f` gave them, above the top frame.
    ///
    /// Returns `false`, without applying `f`, if there is no frame. The
    /// frames below the top are left as they are.
    pub fn grow<F: Borrower<S>>(&mut self, f: F) -> (grown: bool)
        requires
            old(self).wf(),
            old(self)@.len() > 0 ==> f.accepts(old(self)@.last()),
            forall|after: S::Output, frames: Seq<F::Borrowed>|
                old(self)@.len() > 0 && #[trigger] f.derives(old(self)@.last(), after, frames)
                    ==> old(self)@.len() + frames.len() <= Self::spec_max_len(),
        ensures
            final(self).wf(),
            grown == (old(self)@.len() > 0),
            !grown ==> final(self)@ == old(self)@,
            grown ==> exists|after: S::Output, frames: Seq<F::Borrowed>|
                {
                    &&& #[trigger] f.derives(old(self)@.last(), after, frames)
                    &&& final(self)@ == old(self)@.drop_last().push(after) + live_frames::<
                        S,
                        F::Borrowed,
                    >(frames)
                    &&& final(self)@.len() == old(self)@.len() + frames.len()
                },
            forall|i: int| 0 <= i < old(self)@.len() - 1 ==> final(self)@[i] == old(self)@[i],
    {
        let len = self.vec.len();
        if len == 0 {
            return false;
        }
        let top = self.vec.idx_mut(len - 1).give_lifetime_mut();
        let frames = f.apply(top);
        let ghost after = self@.last();
        let ghost given = frames@;
        let ghost base = self@;
        assert(f.derives(old(self)@.last(), after, given));
        assert(base == old(self)@.drop_last().push(after));
        proof {
            lemma2_to64();
        }
        for elem in it: frames
            invariant
                self.wf(),
                it.seq() == given,
                base.len() + given.len() <= Self::spec_max_len(),
                self@ == base + live_frames::<S, F::Borrowed>(given.take(it.index() as int)),
        {
            let ghost before = self@;
            proof {
                lemma2_to64();
                assert(before.len() == base.len() + it.index());
            }
            self.vec.push(elem.into_static());
            assert(given.take(it.index() + 1) == given.take(it.index() as int).push(elem));
            assert(self@ == before.push(elem.stored().live()));
        }
        assert(given.take(given.len() as int) == given);
        true
    }
}

/// The frames after each of `values` has been pushed onto `frames`, the
/// first of them first.
pub open spec fn pushed_all<A>(frames: Seq<A>, values: Seq<A>) -> Seq<A>
    decreases values.len(),
{
    if values.len() == 0 {
        frames
    } else {
        pushed_all(frames.push(values.first()), values.drop_first())
    }
}

/// What `count` pops leave of `frames`, and the frames that they give, the
/// first pop's first. A pop of no frames gives nothing.
pub open spec fn popped<A>(frames: Seq<A>, count: nat) -> (Seq<A>, Seq<A>)
    decreases count,
{
    if count == 0 || frames.len() == 0 {
        (frames, Seq::empty())
    } else {
        let (rest, given) = popped(frames.drop_last(), (count - 1) as nat);
        (rest, seq![frames.last()] + given)
    }
}

/// Pushing one value after the other appends them in that order.
pub proof fn lemma_pushed_all<A>(frames: Seq<A>, values: Seq<A>)
    ensures
        pushed_all(frames, values) == frames + values,
    decreases values.len(),
{
    if values.len() > 0 {
        lemma_pushed_all(frames.push(values.first()), values.drop_first());
        assert(frames.push(values.first()) + values.drop_first() =~= frames + values);
    } else {
        assert(frames + values =~= frames);
    }
}

/// Last in, first out: after pushing `values`, as many pops give them
/// back in reverse order and leave the frames that were there before. On a
/// stack that was empty, that leaves no frame.
pub proof fn lemma_push_pop_lifo<A>(frames: Seq<A>, values: Seq<A>)
    ensures
        popped(pushed_all(frames, values), values.len()) == (frames, values.reverse()),
        frames.len() == 0 ==> popped(pushed_all(frames, values), values.len()).0.len() == 0,
    decreases values.len(),
{
    lemma_pushed_all(frames, values);
    if values.len() > 0 {
        let shorter = values.drop_last();
        lemma_push_pop_lifo(frames, shorter);
        lemma_pushed_all(frames, shorter);
        assert((frames + values).drop_last() =~= frames + shorter);
        assert(seq![values.last()] + shorter.reverse() =~= values.reverse());
    } else {
        assert(values.reverse() =~= Seq::<A>::empty());
    }
}

} // verus!
