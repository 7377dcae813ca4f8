//! Scenarios that every implementation of the queue interface passes.
//!
//! Each function runs a fixed scenario against a queue type and reports
//! whether every observation matched. For an implementation that meets the
//! interface's contract the report is always `true`.

use crate::laws::lemma_minimum_unique;
use crate::queue::{is_minimum, PriorityQueue};
use vstd::multiset::*;
use vstd::prelude::*;

verus! {

/// Pushes 1 and 2 and observes the size after each.
pub fn test_push<Q: PriorityQueue<usize>>() -> (ok: bool)
    ensures
        ok,
{
    broadcast use group_multiset_axioms;

    let mut queue = Q::new();
    queue.push(1);
    let one = queue.size() == 1;
    queue.push(2);
    let two = queue.size() == 2;
    one && two
}

/// Pushes 3, 2 and 4, pops them back as 2, 3 and 4 with the size falling
/// by one each time, and then pops the empty queue.
pub fn test_pop<Q: PriorityQueue<usize>>() -> (ok: bool)
    ensures
        ok,
{
    broadcast use group_multiset_axioms;

    let mut queue = Q::new();
    queue.push(3);
    queue.push(2);
    queue.push(4);
    let first = pops::<Q>(&mut queue, 2) && queue.size() == 2;
    let second = pops::<Q>(&mut queue, 3) && queue.size() == 1;
    let third = pops::<Q>(&mut queue, 4) && queue.size() == 0;
    let fourth = queue.pop().is_none() && queue.size() == 0;
    first && second && third && fourth
}

/// Peeks at an empty queue, then at one that holds 3, 2 and 4.
pub fn test_peek<Q: PriorityQueue<usize>>() -> (ok: bool)
    ensures
        ok,
{
    broadcast use group_multiset_axioms;

    let mut queue = Q::new();
    let absent = queue.peek().is_none();
    queue.push(3);
    queue.push(2);
    queue.push(4);
    let present = match queue.peek() {
        Some(top) => {
            assert(queue.contents().contains(2));
            *top == 2
        },
        None => false,
    };
    absent && present
}

/// Pops `queue` and reports whether `expected` came out.
fn pops<Q: PriorityQueue<usize>>(queue: &mut Q, expected: usize) -> (ok: bool)
    requires
        old(queue).wf(),
    ensures
        final(queue).wf(),
        ok <==> old(queue).contents().len() > 0 && is_minimum(
            expected,
            old(queue).contents(),
        ),
        ok ==> final(queue).contents() == old(queue).contents().remove(expected),
{
    match queue.pop() {
        Some(value) => {
            proof {
                if is_minimum(expected, old(queue).contents()) {
                    lemma_minimum_unique(value, expected, old(queue).contents());
                }
            }
            value == expected
        },
        None => false,
    }
}

} // verus!
