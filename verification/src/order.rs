//! Total orders on element types.

use vstd::prelude::*;

verus! {

/// A type whose values are totally ordered by `le`.
///
/// Two values that are each `le` the other are the same value, so an
/// element has no identity beyond its place in the order.
pub trait TotalOrder: Sized {
    /// The order itself: `self` comes no later than `other`.
    spec fn le(self, other: Self) -> bool;

    /// Any two values are comparable.
    proof fn le_total(x: Self, y: Self)
        ensures
            x.le(y) || y.le(x),
    ;

    /// The order is transitive.
    proof fn le_transitive(x: Self, y: Self, z: Self)
        requires
            x.le(y),
            y.le(z),
        ensures
            x.le(z),
    ;

    /// Values that are ordered both ways are equal.
    proof fn le_antisymmetric(x: Self, y: Self)
        requires
            x.le(y),
            y.le(x),
        ensures
            x == y,
    ;

    /// Decides the order on two values.
    fn is_le(&self, other: &Self) -> (b: bool)
        ensures
            b == self.le(*other),
    ;
}

/// Each element of `s` comes no later than those after it.
pub open spec fn sorted<T: TotalOrder>(s: Seq<T>) -> bool {
    forall|i: int, j: int| 0 <= i <= j < s.len() ==> (#[trigger] s[i]).le(#[trigger] s[j])
}

impl TotalOrder for usize {
    open spec fn le(self, other: Self) -> bool {
        self <= other
    }

    proof fn le_total(x: Self, y: Self) {
    }

    proof fn le_transitive(x: Self, y: Self, z: Self) {
    }

    proof fn le_antisymmetric(x: Self, y: Self) {
    }

    fn is_le(&self, other: &Self) -> (b: bool) {
        *self <= *other
    }
}

impl TotalOrder for u32 {
    open spec fn le(self, other: Self) -> bool {
        self <= other
    }

    proof fn le_total(x: Self, y: Self) {
    }

    proof fn le_transitive(x: Self, y: Self, z: Self) {
    }

    proof fn le_antisymmetric(x: Self, y: Self) {
    }

    fn is_le(&self, other: &Self) -> (b: bool) {
        *self <= *other
    }
}

impl TotalOrder for u64 {
    open spec fn le(self, other: Self) -> bool {
        self <= other
    }

    proof fn le_total(x: Self, y: Self) {
    }

    proof fn le_transitive(x: Self, y: Self, z: Self) {
    }

    proof fn le_antisymmetric(x: Self, y: Self) {
    }

    fn is_le(&self, other: &Self) -> (b: bool) {
        *self <= *other
    }
}

impl TotalOrder for i32 {
    open spec fn le(self, other: Self) -> bool {
        self <= other
    }

    proof fn le_total(x: Self, y: Self) {
    }

    proof fn le_transitive(x: Self, y: Self, z: Self) {
    }

    proof fn le_antisymmetric(x: Self, y: Self) {
    }

    fn is_le(&self, other: &Self) -> (b: bool) {
        *self <= *other
    }
}

impl TotalOrder for i64 {
    open spec fn le(self, other: Self) -> bool {
        self <= other
    }

    proof fn le_total(x: Self, y: Self) {
    }

    proof fn le_transitive(x: Self, y: Self, z: Self) {
    }

    proof fn le_antisymmetric(x: Self, y: Self) {
    }

    fn is_le(&self, other: &Self) -> (b: bool) {
        *self <= *other
    }
}

} // verus!
