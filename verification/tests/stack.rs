use ltstack::stack::Foo as Slot;
use ltstack::stack::{Borrower, LtDisable, LtEnable, LtStack};
use std::cell::Cell;

#[derive(Debug)]
struct Foo<'a>(&'a Cell<u32>);

impl<'a> LtDisable<Foo<'a>> for Foo<'a> {
    fn into_static(self) -> Foo<'a> {
        self
    }
}

impl<'a> LtEnable for Foo<'a> {
    type Output = Foo<'a>;

    fn give_lifetime(self) -> Foo<'a> {
        self
    }

    fn give_lifetime_ref(&self) -> &Foo<'a> {
        self
    }

    fn give_lifetime_mut(&mut self) -> &mut Foo<'a> {
        self
    }
}

struct B;

impl<'a> Borrower<Foo<'a>> for B {
    type Borrowed = Foo<'a>;

    fn apply(self, top: &mut Foo<'a>) -> Vec<Foo<'a>> {
        vec![Foo(top.0)]
    }
}

#[test]
fn lib_basic() {
    let n: Cell<u32> = Cell::new(0);
    let mut stack = LtStack::empty();

    stack.push(Foo(&n));

    for _ in 0..99 {
        stack.grow(B);
    }
    while let Some(Foo(r)) = stack.pop() {
        r.set(r.get() + 1);
    }
    assert_eq!(n.get(), 100)
}

#[test]
fn tests_basic() {
    let n: Cell<u32> = Cell::new(0);
    let mut stack = LtStack::empty();

    stack.push(Foo(&n));

    for _ in 0..99 {
        stack.grow(B);
    }
    while let Some(Foo(r)) = stack.pop() {
        r.set(r.get() + 1);
    }
    assert_eq!(n.get(), 100)
}

/// A derivation that must not be applied.
struct Never;

impl<'a> Borrower<Foo<'a>> for Never {
    type Borrowed = Foo<'a>;

    fn apply(self, _top: &mut Foo<'a>) -> Vec<Foo<'a>> {
        panic!("applied to an empty stack")
    }
}

#[test]
fn empty_stack_does_nothing() {
    let mut stack: LtStack<Foo> = LtStack::empty();
    assert_eq!(stack.len(), 0);
    assert!(stack.pop().is_none());
    assert!(stack.top().is_none());
    assert!(!stack.grow(Never));
    assert_eq!(stack.len(), 0);
}

/// Frames that are plain numbers.
#[derive(Debug, PartialEq)]
struct Num(u32);

impl LtDisable<Num> for Num {
    fn into_static(self) -> Num {
        self
    }
}

impl LtEnable for Num {
    type Output = Num;

    fn give_lifetime(self) -> Num {
        self
    }

    fn give_lifetime_ref(&self) -> &Num {
        self
    }

    fn give_lifetime_mut(&mut self) -> &mut Num {
        self
    }
}

/// Derives `count` frames that count up from the top frame, and adds a
/// thousand to the top frame.
struct CountUp {
    count: u32,
}

impl Borrower<Num> for CountUp {
    type Borrowed = Num;

    fn apply(self, top: &mut Num) -> Vec<Num> {
        let frames = (1..=self.count).map(|i| Num(top.0 + i)).collect();
        top.0 += 1000;
        frames
    }
}

#[test]
fn push_then_pop_is_last_in_first_out() {
    let mut stack: LtStack<Num> = LtStack::empty();
    for v in 0..500 {
        stack.push(Num(v));
        assert_eq!(stack.len(), v as usize + 1);
    }
    for v in (0..500).rev() {
        assert_eq!(stack.pop(), Some(Num(v)));
    }
    assert_eq!(stack.len(), 0);
    assert_eq!(stack.pop(), None);
}

#[test]
fn grow_pushes_in_order_and_keeps_lower_frames() {
    let mut stack: LtStack<Num> = LtStack::empty();
    stack.push(Num(1));
    stack.push(Num(2));
    stack.push(Num(3));
    assert!(stack.grow(CountUp { count: 4 }));
    assert_eq!(stack.len(), 7);
    assert_eq!(stack.pop(), Some(Num(7)));
    assert_eq!(stack.pop(), Some(Num(6)));
    assert_eq!(stack.pop(), Some(Num(5)));
    assert_eq!(stack.pop(), Some(Num(4)));
    // The frame that was on top stayed in place, as the derivation left it.
    assert_eq!(stack.pop(), Some(Num(1003)));
    assert_eq!(stack.pop(), Some(Num(2)));
    assert_eq!(stack.pop(), Some(Num(1)));
    assert_eq!(stack.pop(), None);
}

#[test]
fn grow_by_no_frames_succeeds() {
    let mut stack: LtStack<Num> = LtStack::empty();
    stack.push(Num(5));
    assert!(stack.grow(CountUp { count: 0 }));
    assert_eq!(stack.len(), 1);
    assert_eq!(stack.pop(), Some(Num(1005)));
}

#[test]
fn top_gives_the_top_frame_to_change() {
    let mut stack: LtStack<Num> = LtStack::empty();
    stack.push(Num(1));
    stack.push(Num(2));
    assert_eq!(stack.top(), Some(&mut Num(2)));
    stack.top().unwrap().0 = 20;
    assert_eq!(stack.len(), 2);
    assert_eq!(stack.pop(), Some(Num(20)));
    assert_eq!(stack.top(), Some(&mut Num(1)));
    assert_eq!(stack.pop(), Some(Num(1)));
    assert_eq!(stack.top(), None);
}

#[test]
fn library_frame_is_the_same_at_rest_and_live() {
    let mut arena: Vec<u32> = vec![0, 0];
    let mut stack: LtStack<Slot> = LtStack::empty();
    stack.push(Slot(1));
    stack.push(Slot(0));
    stack.push(Slot(1));
    while let Some(Slot(i)) = stack.pop() {
        arena[i] += 1;
    }
    assert_eq!(arena, vec![1, 2]);
    assert_eq!(Slot(3).into_static().give_lifetime().0, 3);
    assert_eq!(Slot(4).give_lifetime_ref().0, 4);
    let mut slot = Slot(5);
    slot.give_lifetime_mut().0 = 6;
    assert_eq!(slot.0, 6);
}
