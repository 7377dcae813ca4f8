//! Laws that hold of every implementation of the queue interface.

use crate::order::{sorted, TotalOrder};
use crate::queue::{is_minimum, minimum};
use crate::workload::mixed_access;
use vstd::multiset::*;
use vstd::prelude::*;
use vstd::seq_lib::{to_multiset_build, to_multiset_contains, to_multiset_len, to_multiset_remove};

verus! {

/// A multiset has at most one minimum: what `peek` shows is what the next
/// `pop` returns.
pub proof fn lemma_minimum_unique<T: TotalOrder>(a: T, b: T, s: Multiset<T>)
    requires
        is_minimum(a, s),
        is_minimum(b, s),
    ensures
        a == b,
{
    T::le_antisymmetric(a, b);
}

/// A minimum of a multiset is the multiset's `minimum`.
pub proof fn lemma_minimum_is_chosen<T: TotalOrder>(m: T, s: Multiset<T>)
    requires
        is_minimum(m, s),
    ensures
        m == minimum(s),
{
    lemma_minimum_unique(m, minimum(s), s);
}

/// What a queue that held `start` holds after the values of `vals` were
/// pushed in order.
pub open spec fn after_pushes<T>(start: Multiset<T>, vals: Seq<T>) -> Multiset<T>
    decreases vals.len(),
{
    if vals.len() == 0 {
        start
    } else {
        after_pushes(start, vals.drop_last()).insert(vals.last())
    }
}

/// Pushes add up: after `vals` were pushed the queue holds what it held
/// before together with the values of `vals`, and its size has grown by
/// their number.
pub proof fn lemma_pushes_add_up<T>(start: Multiset<T>, vals: Seq<T>)
    ensures
        after_pushes(start, vals) == start.add(vals.to_multiset()),
        after_pushes(start, vals).len() == start.len() + vals.len(),
    decreases vals.len(),
{
    broadcast use group_multiset_axioms;

    to_multiset_len(vals);
    if vals.len() == 0 {
        lemma_multiset_empty_len(vals.to_multiset());
        assert(after_pushes(start, vals) =~= start.add(vals.to_multiset()));
    } else {
        let front = vals.drop_last();
        lemma_pushes_add_up(start, front);
        to_multiset_build(front, vals.last());
        assert(vals =~= front.push(vals.last()));
        assert(after_pushes(start, vals) =~= start.add(vals.to_multiset()));
    }
}

/// A queue that started empty and was only pushed to has as many elements
/// as there were pushes.
pub proof fn lemma_size_after_pushes<T>(vals: Seq<T>)
    ensures
        after_pushes(Multiset::empty(), vals).len() == vals.len(),
{
    broadcast use group_multiset_axioms;

    lemma_pushes_add_up(Multiset::<T>::empty(), vals);
}

/// Two sorted sequences with the same elements are the same sequence: the
/// order in which a queue hands back what was pushed is determined by the
/// values alone.
pub proof fn lemma_sorted_unique<T: TotalOrder>(a: Seq<T>, b: Seq<T>)
    requires
        sorted(a),
        sorted(b),
        a.to_multiset() == b.to_multiset(),
    ensures
        a == b,
    decreases a.len(),
{
    to_multiset_len(a);
    to_multiset_len(b);
    if a.len() == 0 {
        assert(a =~= b);
    } else {
        to_multiset_contains(a, a[0]);
        to_multiset_contains(b, a[0]);
        to_multiset_contains(a, b[0]);
        to_multiset_contains(b, b[0]);
        assert(a.contains(a[0]));
        assert(b.contains(b[0]));
        let j = choose|j: int| 0 <= j < b.len() && b[j] == a[0];
        let k = choose|k: int| 0 <= k < a.len() && a[k] == b[0];
        assert(b[0].le(b[j]));
        assert(a[0].le(a[k]));
        T::le_antisymmetric(a[0], b[0]);
        let a_rest = a.drop_first();
        let b_rest = b.drop_first();
        to_multiset_remove(a, 0);
        to_multiset_remove(b, 0);
        assert(a_rest =~= a.remove(0));
        assert(b_rest =~= b.remove(0));
        assert forall|i: int, j: int| 0 <= i <= j < a_rest.len() implies (#[trigger] a_rest[i]).le(
            #[trigger] a_rest[j],
        ) by {
            assert(a[i + 1].le(a[j + 1]));
        }
        assert forall|i: int, j: int| 0 <= i <= j < b_rest.len() implies (#[trigger] b_rest[i]).le(
            #[trigger] b_rest[j],
        ) by {
            assert(b[i + 1].le(b[j + 1]));
        }
        lemma_sorted_unique(a_rest, b_rest);
        assert(a =~= seq![a[0]] + a_rest);
        assert(b =~= seq![b[0]] + b_rest);
    }
}

/// After the mixed workload has gone through `n` values it has popped
/// `n / 3` of them and holds `n - 2 * (n / 3)`.
pub proof fn lemma_mixed_access_sizes<T: TotalOrder>(seq: Seq<T>)
    ensures
        mixed_access(seq).0.len() == seq.len() - 2 * (seq.len() / 3),
        mixed_access(seq).1.len() == seq.len() / 3,
    decreases seq.len(),
{
    broadcast use group_multiset_axioms;

    if seq.len() > 0 {
        let before = seq.drop_last();
        lemma_mixed_access_sizes(before);
        let held = mixed_access(before).0;
        if seq.len() % 3 == 0 {
            lemma_minimum_exists(held);
        }
    }
}

/// A non-empty multiset has a minimum.
pub proof fn lemma_minimum_exists<T: TotalOrder>(s: Multiset<T>)
    requires
        s.len() > 0,
    ensures
        is_minimum(minimum(s), s),
    decreases s.len(),
{
    broadcast use group_multiset_axioms;

    lemma_multiset_empty_len(s);
    let x = choose|x: T| 0 < s.count(x);
    let rest = s.remove(x);
    if rest.len() == 0 {
        lemma_multiset_empty_len(rest);
        T::le_total(x, x);
        assert forall|y: T| #[trigger] s.contains(y) implies x.le(y) by {
            if y != x {
                assert(rest.count(y) == s.count(y));
            }
        }
        assert(is_minimum(x, s));
    } else {
        lemma_minimum_exists(rest);
        let m = minimum(rest);
        T::le_total(x, m);
        if x.le(m) {
            T::le_total(x, x);
            assert forall|y: T| #[trigger] s.contains(y) implies x.le(y) by {
                if y != x {
                    assert(rest.contains(y));
                    T::le_transitive(x, m, y);
                }
            }
            assert(is_minimum(x, s));
        } else {
            assert forall|y: T| #[trigger] s.contains(y) implies m.le(y) by {
                if y != x {
                    assert(rest.contains(y));
                }
            }
            assert(is_minimum(m, s));
        }
    }
}

} // verus!
