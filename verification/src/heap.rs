//! A binary min-heap over a growable array.
//!
//! The element at index `i > 0` has its parent at index `(i - 1) / 2`, and
//! no element comes before its parent in the order. The smallest element
//! therefore sits at index 0.

use crate::order::TotalOrder;
use crate::queue::{is_minimum, PriorityQueue};
use vstd::multiset::{lemma_multiset_empty_len, Multiset};
use vstd::prelude::*;
use vstd::seq_lib::{to_multiset_build, to_multiset_contains, to_multiset_len, to_multiset_remove, to_multiset_update};

verus! {

/// The index of the parent of the element at index `i`.
pub open spec fn parent(i: int) -> int {
    (i - 1) / 2
}

/// The element at `i` comes no earlier than its parent.
pub open spec fn above_parent<T: TotalOrder>(s: Seq<T>, i: int) -> bool {
    s[parent(i)].le(s[i])
}

/// The element at `i` comes no earlier than its parent's parent.
spec fn above_grandparent<T: TotalOrder>(s: Seq<T>, i: int) -> bool {
    s[parent(parent(i))].le(s[i])
}

/// Every element but the first comes no earlier than its parent.
pub open spec fn heap_ordered<T: TotalOrder>(s: Seq<T>) -> bool {
    forall|i: int| 1 <= i < s.len() ==> #[trigger] above_parent(s, i)
}

/// The children of `pos`, if it has a parent, come no earlier than that parent.
spec fn bridged<T: TotalOrder>(s: Seq<T>, pos: int) -> bool {
    forall|i: int|
        1 <= i < s.len() && parent(i) == pos && pos > 0 ==> #[trigger] above_grandparent(s, i)
}

/// The heap order holds everywhere except between `pos` and its parent.
spec fn ordered_but_above<T: TotalOrder>(s: Seq<T>, pos: int) -> bool {
    &&& forall|i: int| 1 <= i < s.len() && i != pos ==> #[trigger] above_parent(s, i)
    &&& bridged(s, pos)
}

/// The heap order holds everywhere except between `pos` and its children.
spec fn ordered_but_below<T: TotalOrder>(s: Seq<T>, pos: int) -> bool {
    &&& forall|i: int| 1 <= i < s.len() && parent(i) != pos ==> #[trigger] above_parent(s, i)
    &&& bridged(s, pos)
}

/// In a heap-ordered sequence the first element comes no later than any other.
pub proof fn lemma_root_is_least<T: TotalOrder>(s: Seq<T>, i: int)
    requires
        heap_ordered(s),
        0 <= i < s.len(),
    ensures
        s[0].le(s[i]),
    decreases i,
{
    if i == 0 {
        T::le_total(s[0], s[0]);
    } else {
        lemma_root_is_least(s, parent(i));
        assert(above_parent(s, i));
        T::le_transitive(s[0], s[parent(i)], s[i]);
    }
}

/// The first element of a non-empty heap-ordered sequence is the minimum
/// of the sequence's elements.
pub proof fn lemma_root_is_minimum<T: TotalOrder>(s: Seq<T>)
    requires
        heap_ordered(s),
        s.len() > 0,
    ensures
        is_minimum(s[0], s.to_multiset()),
{
    let ms = s.to_multiset();
    assert(s.contains(s[0]));
    to_multiset_contains(s, s[0]);
    assert forall|x: T| #[trigger] ms.contains(x) implies s[0].le(x) by {
        to_multiset_contains(s, x);
        let i = choose|i: int| 0 <= i < s.len() && s[i] == x;
        lemma_root_is_least(s, i);
    }
}

/// Exchanging two elements of a sequence keeps its multiset of elements.
proof fn lemma_exchange_keeps_elements<T>(s: Seq<T>, i: int, j: int)
    requires
        0 <= i < j < s.len(),
    ensures
        s.update(i, s[j]).update(j, s[i]).to_multiset() == s.to_multiset(),
{
    let mid = s.update(i, s[j]);
    to_multiset_update(s, i, s[j]);
    to_multiset_update(mid, j, s[i]);
    to_multiset_contains(s, s[i]);
    to_multiset_contains(s, s[j]);
    assert(s.contains(s[i]));
    assert(s.contains(s[j]));
    assert(mid.update(j, s[i]).to_multiset() =~= s.to_multiset());
}

/// Exchanges the elements at `i` and `j`.
fn swap_slots<T>(v: &mut Vec<T>, i: usize, j: usize)
    requires
        i < j < old(v)@.len(),
    ensures
        final(v)@ == old(v)@.update(i as int, old(v)@[j as int]).update(j as int, old(v)@[i as int]),
        final(v)@.to_multiset() == old(v)@.to_multiset(),
{
    let ghost before = v@;
    let slice = v.as_mut_slice();
    let (low, high) = slice.split_at_mut(j);
    core::mem::swap(&mut low[i], &mut high[0]);
    proof {
        lemma_exchange_keeps_elements(before, i as int, j as int);
        assert(v@ =~= before.update(i as int, before[j as int]).update(j as int, before[i as int]));
    }
}

/// Moves the element at `start` towards the front until its parent comes
/// no later than it.
fn sift_up<T: TotalOrder>(v: &mut Vec<T>, start: usize)
    requires
        start < old(v)@.len(),
        ordered_but_above(old(v)@, start as int),
    ensures
        heap_ordered(final(v)@),
        final(v)@.to_multiset() == old(v)@.to_multiset(),
        final(v)@.len() == old(v)@.len(),
{
    let mut pos: usize = start;
    while pos > 0 && !v[(pos - 1) / 2].is_le(&v[pos])
        invariant
            pos < v@.len(),
            ordered_but_above(v@, pos as int),
            v@.to_multiset() == old(v)@.to_multiset(),
            v@.len() == old(v)@.len(),
        decreases pos,
    {
        let up: usize = (pos - 1) / 2;
        let ghost before = v@;
        swap_slots(v, up, pos);
        proof {
            let after = v@;
            let p = pos as int;
            let u = up as int;
            T::le_total(before[u], before[p]);
            assert forall|i: int| 1 <= i < after.len() && i != u implies #[trigger] above_parent(
                after,
                i,
            ) by {
                if i == p {
                } else if parent(i) == p {
                    assert(above_grandparent(before, i));
                } else if parent(i) == u {
                    assert(above_parent(before, i));
                    T::le_transitive(before[p], before[u], before[i]);
                } else {
                    assert(above_parent(before, i));
                }
            }
            assert forall|i: int|
                1 <= i < after.len() && parent(i) == u && u > 0 implies #[trigger] above_grandparent(
                after,
                i,
            ) by {
                assert(above_parent(before, u));
                if i != p {
                    assert(above_parent(before, i));
                    T::le_transitive(before[parent(u)], before[u], before[i]);
                }
            }
        }
        pos = up;
    }
    proof {
        assert forall|i: int| 1 <= i < v@.len() implies #[trigger] above_parent(v@, i) by {
        }
    }
}

/// Moves the element at `start` towards the back until neither of its
/// children comes before it.
fn sift_down<T: TotalOrder>(v: &mut Vec<T>, start: usize)
    requires
        start < old(v)@.len(),
        ordered_but_below(old(v)@, start as int),
    ensures
        heap_ordered(final(v)@),
        final(v)@.to_multiset() == old(v)@.to_multiset(),
        final(v)@.len() == old(v)@.len(),
{
    let len: usize = v.len();
    let mut pos: usize = start;
    while len >= 2 && pos <= (len - 2) / 2
        invariant
            len == v@.len(),
            pos < len,
            ordered_but_below(v@, pos as int),
            v@.to_multiset() == old(v)@.to_multiset(),
            v@.len() == old(v)@.len(),
        ensures
            heap_ordered(v@),
            v@.to_multiset() == old(v)@.to_multiset(),
            v@.len() == old(v)@.len(),
        decreases len - pos,
    {
        let left: usize = 2 * pos + 1;
        let right: usize = left + 1;
        let child: usize = if right < len && !v[left].is_le(&v[right]) {
            right
        } else {
            left
        };
        let ghost before = v@;
        let ghost p = pos as int;
        let ghost c = child as int;
        proof {
            T::le_total(before[left as int], before[left as int]);
            if right < len {
                T::le_total(before[left as int], before[right as int]);
                T::le_total(before[right as int], before[right as int]);
            }
            assert forall|i: int| 1 <= i < before.len() && parent(i) == p implies before[c].le(
                before[i],
            ) by {
                assert(i == left || i == right);
            }
        }
        if v[pos].is_le(&v[child]) {
            proof {
                assert forall|i: int| 1 <= i < before.len() implies #[trigger] above_parent(
                    before,
                    i,
                ) by {
                    if parent(i) == p {
                        T::le_transitive(before[p], before[c], before[i]);
                    }
                }
            }
            break ;
        }
        swap_slots(v, pos, child);
        proof {
            let after = v@;
            T::le_total(before[p], before[c]);
            assert forall|i: int|
                1 <= i < after.len() && parent(i) != c implies #[trigger] above_parent(after, i) by {
                if i == c {
                } else if parent(i) == p {
                } else if i == p {
                    assert(above_grandparent(before, c));
                } else {
                    assert(above_parent(before, i));
                }
            }
            assert forall|i: int|
                1 <= i < after.len() && parent(i) == c && c > 0 implies #[trigger] above_grandparent(
                after,
                i,
            ) by {
                assert(above_parent(before, i));
            }
        }
        pos = child;
    }
}

/// A binary min-heap.
pub struct MinHeap<T> {
    data: Vec<T>,
}

impl<T: TotalOrder> View for MinHeap<T> {
    type V = Multiset<T>;

    closed spec fn view(&self) -> Multiset<T> {
        self.data@.to_multiset()
    }
}

/// Inserts `val` into `queue`.
pub fn push<T: TotalOrder>(queue: &mut MinHeap<T>, val: T)
    requires
        old(queue).wf(),
    ensures
        final(queue).wf(),
        final(queue)@ == old(queue)@.insert(val),
{
    let ghost before = queue.data@;
    queue.data.push(val);
    let last: usize = queue.data.len() - 1;
    proof {
        to_multiset_build(before, val);
        let s = queue.data@;
        assert forall|i: int| 1 <= i < s.len() && i != last implies #[trigger] above_parent(s, i) by {
            assert(above_parent(before, i));
        }
    }
    sift_up(&mut queue.data, last);
}

/// Removes the minimum of `queue` and returns it, or returns `None` where
/// `queue` is empty.
pub fn pop<T: TotalOrder>(queue: &mut MinHeap<T>) -> (popped: Option<T>)
    requires
        old(queue).wf(),
    ensures
        final(queue).wf(),
        popped.is_some() <==> old(queue)@.len() > 0,
        match popped {
            Some(m) => is_minimum(m, old(queue)@) && final(queue)@ == old(queue)@.remove(m),
            None => final(queue)@ == old(queue)@,
        },
{
    let ghost before = queue.data@;
    proof {
        to_multiset_len(before);
    }
    if queue.data.len() == 0 {
        return None;
    }
    let least = queue.data.swap_remove(0);
    proof {
        let moved = before.update(0, before.last());
        let rest = queue.data@;
        lemma_root_is_minimum(before);
        to_multiset_update(before, 0, before.last());
        to_multiset_remove(moved, moved.len() - 1);
        to_multiset_contains(before, before.last());
        assert(before.contains(before.last()));
        assert(rest =~= moved.remove(moved.len() - 1));
        assert(rest.to_multiset() =~= before.to_multiset().remove(least));
        assert forall|i: int| 1 <= i < rest.len() && parent(i) != 0 implies #[trigger] above_parent(
            rest,
            i,
        ) by {
            assert(above_parent(before, i));
        }
    }
    if queue.data.len() > 0 {
        sift_down(&mut queue.data, 0);
    }
    Some(least)
}

impl<T: TotalOrder> Default for MinHeap<T> {
    /// The empty heap.
    fn default() -> (queue: Self)
        ensures
            queue.wf(),
            queue@ == Multiset::<T>::empty(),
    {
        <MinHeap<T> as PriorityQueue<T>>::new()
    }
}

impl<T: TotalOrder> PriorityQueue<T> for MinHeap<T> {
    open spec fn contents(&self) -> Multiset<T> {
        self@
    }

    /// The array is heap-ordered.
    closed spec fn wf(&self) -> bool {
        heap_ordered(self.data@)
    }

    fn new() -> (queue: Self) {
        let queue = MinHeap { data: Vec::new() };
        proof {
            to_multiset_len(queue.data@);
            lemma_multiset_empty_len(queue.data@.to_multiset());
            assert(queue.data@.to_multiset() =~= Multiset::<T>::empty());
        }
        queue
    }

    fn push(&mut self, val: T) {
        push(self, val);
    }

    fn pop(&mut self) -> (popped: Option<T>) {
        pop(self)
    }

    fn peek(&self) -> (top: Option<&T>) {
        proof {
            to_multiset_len(self.data@);
        }
        if self.data.len() == 0 {
            None
        } else {
            proof {
                lemma_root_is_minimum(self.data@);
            }
            Some(&self.data[0])
        }
    }

    fn size(&self) -> (n: usize) {
        proof {
            to_multiset_len(self.data@);
        }
        self.data.len()
    }

    fn is_empty(&self) -> (b: bool) {
        proof {
            to_multiset_len(self.data@);
        }
        self.data.len() == 0
    }
}

} // verus!
