//! Workloads that drive a queue with a sequence of values and hand back
//! what the queue returned.

use crate::laws::{after_pushes, lemma_minimum_is_chosen, lemma_mixed_access_sizes, lemma_pushes_add_up};
use crate::order::{sorted, TotalOrder};
use crate::queue::{is_minimum, minimum, PriorityQueue};
use vstd::multiset::*;
use vstd::prelude::*;
use vstd::seq_lib::{to_multiset_build, to_multiset_len};

verus! {

/// What a queue holds, and what it has returned so far, after the mixed
/// workload has gone through `seq`: every third value is not inserted;
/// the minimum is removed in its place.
pub open spec fn mixed_access<T: TotalOrder>(seq: Seq<T>) -> (Multiset<T>, Seq<T>)
    decreases seq.len(),
{
    if seq.len() == 0 {
        (Multiset::empty(), Seq::empty())
    } else {
        let (held, popped) = mixed_access(seq.drop_last());
        if seq.len() % 3 == 0 {
            (held.remove(minimum(held)), popped.push(minimum(held)))
        } else {
            (held.insert(seq.last()), popped)
        }
    }
}

/// Builds a queue by pushing the values of `seq` in order.
pub fn fill<Q: PriorityQueue<T>, T: TotalOrder + Copy>(seq: &[T]) -> (queue: Q)
    ensures
        queue.wf(),
        queue.contents() == seq@.to_multiset(),
        queue.contents() == after_pushes(Multiset::empty(), seq@),
        queue.contents().len() == seq@.len(),
{
    let mut queue = Q::new();
    let mut i: usize = 0;
    proof {
        to_multiset_len(seq@.take(0));
        lemma_multiset_empty_len(seq@.take(0).to_multiset());
    }
    while i < seq.len()
        invariant
            i <= seq@.len(),
            queue.wf(),
            queue.contents() == seq@.take(i as int).to_multiset(),
        decreases seq@.len() - i,
    {
        proof {
            to_multiset_build(seq@.take(i as int), seq@[i as int]);
            assert(seq@.take(i + 1) =~= seq@.take(i as int).push(seq@[i as int]));
        }
        queue.push(seq[i]);
        i += 1;
    }
    proof {
        assert(seq@.take(i as int) =~= seq@);
        to_multiset_len(seq@);
        lemma_pushes_add_up(Multiset::<T>::empty(), seq@);
        assert(Multiset::<T>::empty().add(seq@.to_multiset()) =~= seq@.to_multiset());
    }
    queue
}

/// Pops `queue` until it is empty and returns the values in the order
/// in which they came out.
pub fn drain<Q: PriorityQueue<T>, T: TotalOrder>(queue: &mut Q) -> (out: Vec<T>)
    requires
        old(queue).wf(),
    ensures
        final(queue).wf(),
        final(queue).contents() == Multiset::<T>::empty(),
        out@.to_multiset() == old(queue).contents(),
        sorted(out@),
{
    broadcast use group_multiset_axioms;

    let mut out: Vec<T> = Vec::new();
    proof {
        to_multiset_len(out@);
        lemma_multiset_empty_len(out@.to_multiset());
        assert(out@.to_multiset().add(queue.contents()) =~= old(queue).contents());
    }
    while !queue.is_empty()
        invariant
            queue.wf(),
            out@.to_multiset().add(queue.contents()) == old(queue).contents(),
            sorted(out@),
            forall|i: int, x: T|
                #![trigger out@[i], queue.contents().contains(x)]
                0 <= i < out@.len() && queue.contents().contains(x) ==> out@[i].le(x),
        decreases queue.contents().len(),
    {
        let ghost held = queue.contents();
        let ghost done = out@;
        match queue.pop() {
            Some(least) => {
                out.push(least);
                proof {
                    to_multiset_build(done, least);
                    T::le_total(least, least);
                    assert(out@.to_multiset().add(queue.contents()) =~= done.to_multiset().add(
                        held,
                    ));
                    assert forall|i: int, x: T|
                        #![trigger out@[i], queue.contents().contains(x)]
                        0 <= i < out@.len() && queue.contents().contains(x) implies out@[i].le(
                        x,
                    ) by {
                        assert(held.contains(x));
                        if i < done.len() {
                            assert(out@[i] == done[i]);
                        }
                    }
                    assert forall|i: int, j: int| 0 <= i <= j < out@.len() implies (
                    #[trigger] out@[i]).le(#[trigger] out@[j]) by {
                        if j < done.len() {
                            assert(out@[i] == done[i] && out@[j] == done[j]);
                        } else if i < done.len() {
                            assert(out@[i] == done[i]);
                            assert(held.contains(least));
                        }
                    }
                }
            },
            None => {},
        }
    }
    proof {
        lemma_multiset_empty_len(queue.contents());
        assert(out@.to_multiset() =~= out@.to_multiset().add(queue.contents()));
    }
    out
}

/// Pushes every value of `seq`, then pops until the queue is empty.
/// Returns the values in the order in which they came out: those of `seq`,
/// smallest first.
pub fn bench_fill_and_drain<Q: PriorityQueue<T>, T: TotalOrder + Copy>(seq: &[T]) -> (out: Vec<T>)
    ensures
        out@.to_multiset() == seq@.to_multiset(),
        out@.len() == seq@.len(),
        sorted(out@),
{
    let mut queue: Q = fill::<Q, T>(seq);
    let out = drain::<Q, T>(&mut queue);
    proof {
        to_multiset_len(out@);
        to_multiset_len(seq@);
    }
    out
}

/// Pushes every value of `seq`, then pops once. Returns what came out:
/// the minimum of `seq`, or `None` where `seq` is empty.
pub fn bench_fill_and_pop<Q: PriorityQueue<T>, T: TotalOrder + Copy>(seq: &[T]) -> (popped: Option<
    T,
>)
    ensures
        popped.is_some() <==> seq@.len() > 0,
        match popped {
            Some(m) => is_minimum(m, seq@.to_multiset()),
            None => true,
        },
{
    let mut queue: Q = fill::<Q, T>(seq);
    queue.pop()
}

/// Goes through `seq` in threes: pushes the first and the second value of
/// each three, and at the third pops instead of pushing it. Returns the
/// popped values in the order in which they came out.
pub fn bench_mixed_access<Q: PriorityQueue<T>, T: TotalOrder + Copy>(seq: &[T]) -> (out: Vec<T>)
    ensures
        out@ == mixed_access(seq@).1,
        out@.len() == seq@.len() / 3,
{
    let mut queue = Q::new();
    let mut out: Vec<T> = Vec::new();
    let mut count: usize = 0;
    let mut i: usize = 0;
    proof {
        assert(seq@.take(0) =~= Seq::<T>::empty());
        assert(out@ =~= Seq::<T>::empty());
    }
    while i < seq.len()
        invariant
            i <= seq@.len(),
            count == i % 3,
            queue.wf(),
            queue.contents() == mixed_access(seq@.take(i as int)).0,
            out@ == mixed_access(seq@.take(i as int)).1,
        decreases seq@.len() - i,
    {
        let ghost prefix = seq@.take(i as int);
        let ghost next = seq@.take(i + 1);
        proof {
            assert(next.drop_last() =~= prefix);
            assert(next.last() == seq@[i as int]);
            lemma_mixed_access_sizes(prefix);
        }
        count += 1;
        if count > 2 {
            count = 0;
            match queue.pop() {
                Some(least) => {
                    proof {
                        lemma_minimum_is_chosen(least, mixed_access(prefix).0);
                    }
                    out.push(least);
                },
                None => {},
            }
        } else {
            queue.push(seq[i]);
        }
        i += 1;
    }
    proof {
        assert(seq@.take(i as int) =~= seq@);
        lemma_mixed_access_sizes(seq@);
    }
    out
}

} // verus!
