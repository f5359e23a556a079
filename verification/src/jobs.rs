//! A first-in, first-out queue of jobs.
use vstd::prelude::*;

use std::collections::VecDeque;

verus! {

/// Jobs waiting their turn: taken in the order they were put in.
pub struct JobQueue<T> {
    inner: VecDeque<T>,
}

impl<T> View for JobQueue<T> {
    type V = Seq<T>;

    closed spec fn view(&self) -> Seq<T> {
        self.inner@
    }
}

impl<T> JobQueue<T> {
    /// An empty queue.
    pub fn new() -> (r: JobQueue<T>)
        ensures
            r@ == Seq::<T>::empty(),
    {
        JobQueue { inner: VecDeque::new() }
    }

    /// Puts `item` at the back.
    pub fn push(&mut self, item: T)
        ensures
            final(self)@ == old(self)@.push(item),
    {
        self.inner.push_back(item);
    }

    /// Takes the item at the front, if any.
    pub fn pop(&mut self) -> (r: Option<T>)
        ensures
            old(self)@.len() == 0 ==> r is None && final(self)@ == old(self)@,
            old(self)@.len() > 0 ==> r == Some(old(self)@[0]) && final(self)@ == old(self)@.drop_first(),
    {
        self.inner.pop_front()
    }
}

/// First in, first out: pushing onto a queue changes its front only when it was empty, and
/// taking the front after a push is the same as taking it before and pushing after, so items
/// come out in the order they went in.
pub proof fn lemma_fifo<T>(q: Seq<T>, item: T)
    ensures
        q.len() == 0 ==> q.push(item)[0] == item && q.push(item).drop_first() =~= Seq::<T>::empty(),
        q.len() > 0 ==> q.push(item)[0] == q[0] && q.push(item).drop_first() =~= q.drop_first().push(
            item,
        ),
{
}

} // verus!
