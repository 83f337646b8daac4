//! The stack of open loops that the interpreter keeps while it runs.
use vstd::prelude::*;

verus! {

/// A last-in-first-out store of program positions.
///
/// Its model is the sequence of the items it holds, oldest first.
pub struct LoopStack<T> {
    stack: Vec<T>,
}

impl<T> View for LoopStack<T> {
    type V = Seq<T>;

    closed spec fn view(&self) -> Seq<T> {
        self.stack@
    }
}

impl<T> LoopStack<T> {
    /// An empty stack.
    pub fn new() -> (s: Self)
        ensures
            s@ == Seq::<T>::empty(),
    {
        LoopStack { stack: Vec::new() }
    }

    /// Puts `item` on top of the stack.
    pub fn push(&mut self, item: T)
        ensures
            final(self)@ == old(self)@.push(item),
    {
        self.stack.push(item);
    }

    /// Takes the most recent item off the stack, or reports that there is none.
    pub fn pop(&mut self) -> (top: Option<T>)
        ensures
            old(self)@.len() == 0 ==> top is None && final(self)@ == old(self)@,
            old(self)@.len() > 0 ==> top == Some(old(self)@.last()) && final(self)@ == old(self)@.drop_last(),
    {
        self.stack.pop()
    }

    /// Looks at the most recent item without removing it.
    pub fn peek(&self) -> (top: Option<&T>)
        ensures
            self@.len() == 0 ==> top is None,
            self@.len() > 0 ==> top == Some(&self@.last()),
    {
        self.stack.last()
    }
}

} // verus!
