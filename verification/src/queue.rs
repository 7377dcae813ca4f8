//! The priority queue interface and the mathematical model behind it.
//!
//! A queue is modelled as a multiset of elements. The element that `pop`
//! and `peek` expose is the minimum of that multiset under the elements'
//! total order.

use crate::order::TotalOrder;
use vstd::multiset::Multiset;
use vstd::prelude::*;

verus! {

/// `m` is a member of `s` that comes no later than any member of `s`.
pub open spec fn is_minimum<T: TotalOrder>(m: T, s: Multiset<T>) -> bool {
    &&& s.contains(m)
    &&& forall|x: T| #[trigger] s.contains(x) ==> m.le(x)
}

/// The minimum of a non-empty multiset.
pub open spec fn minimum<T: TotalOrder>(s: Multiset<T>) -> T {
    choose|m: T| is_minimum(m, s)
}

/// A container that hands its elements back smallest first.
pub trait PriorityQueue<T: TotalOrder>: Sized {
    /// The elements that the queue holds, with their multiplicities.
    spec fn contents(&self) -> Multiset<T>;

    /// The representation invariant of the implementing type.
    spec fn wf(&self) -> bool;

    /// Creates an empty queue.
    fn new() -> (queue: Self)
        ensures
            queue.wf(),
            queue.contents() == Multiset::<T>::empty(),
    ;

    /// Inserts `val`.
    fn push(&mut self, val: T)
        requires
            old(self).wf(),
        ensures
            final(self).wf(),
            final(self).contents() == old(self).contents().insert(val),
            final(self).contents().len() == old(self).contents().len() + 1,
    ;

    /// Removes one occurrence of the minimum and returns it; on an empty
    /// queue returns `None` and changes nothing.
    fn pop(&mut self) -> (popped: Option<T>)
        requires
            old(self).wf(),
        ensures
            final(self).wf(),
            popped.is_some() <==> old(self).contents().len() > 0,
            match popped {
                Some(m) => {
                    &&& is_minimum(m, old(self).contents())
                    &&& final(self).contents() == old(self).contents().remove(m)
                    &&& final(self).contents().len() == old(self).contents().len() - 1
                },
                None => final(self).contents() == old(self).contents(),
            },
    ;

    /// Borrows the minimum without removing it; `None` on an empty queue.
    fn peek(&self) -> (top: Option<&T>)
        requires
            self.wf(),
        ensures
            top.is_some() <==> self.contents().len() > 0,
            match top {
                Some(m) => is_minimum(*m, self.contents()),
                None => true,
            },
    ;

    /// The number of elements held.
    fn size(&self) -> (n: usize)
        requires
            self.wf(),
        ensures
            n == self.contents().len(),
    ;

    /// Whether the queue holds no element.
    fn is_empty(&self) -> (b: bool)
        requires
            self.wf(),
        ensures
            b <==> self.contents().len() == 0,
    ;
}

} // verus!
