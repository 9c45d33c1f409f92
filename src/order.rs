//! Partially ordered timestamps.

use vstd::prelude::*;

verus! {

/// A timestamp: a partially ordered value with a least element.
///
/// Each implementation proves that its order is reflexive, antisymmetric and
/// transitive, and that `minimum` lies below every value.
pub trait Timestamp: Sized + Copy {
    /// The partial order on timestamps.
    spec fn leq(&self, other: &Self) -> bool;

    /// Decides `self.leq(other)`.
    fn less_equal(&self, other: &Self) -> (r: bool)
        ensures
            r == self.leq(other),
    ;

    /// The least timestamp.
    spec fn minimum_spec() -> Self;

    /// The least timestamp.
    fn minimum() -> (r: Self)
        ensures
            r == Self::minimum_spec(),
            forall|t: Self| #[trigger] r.leq(&t),
    ;

    /// The order laws.
    proof fn lemma_order(a: Self, b: Self, c: Self)
        ensures
            a.leq(&a),
            a.leq(&b) && b.leq(&a) ==> a == b,
            a.leq(&b) && b.leq(&c) ==> a.leq(&c),
    ;
}

/// Strictly below: `a` is less than or equal to `b` and differs from it.
pub open spec fn lt<T: Timestamp>(a: T, b: T) -> bool {
    a.leq(&b) && a != b
}

/// Decides whether two timestamps are equal, through the order.
pub fn same<T: Timestamp>(a: &T, b: &T) -> (r: bool)
    ensures
        r == (*a == *b),
{
    proof {
        T::lemma_order(*a, *b, *a);
    }
    a.less_equal(b) && b.less_equal(a)
}

/// Decides `lt(*a, *b)`.
pub fn less_than<T: Timestamp>(a: &T, b: &T) -> (r: bool)
    ensures
        r == lt(*a, *b),
{
    a.less_equal(b) && !same(a, b)
}

impl Timestamp for u64 {
    open spec fn leq(&self, other: &Self) -> bool {
        *self <= *other
    }

    fn less_equal(&self, other: &Self) -> (r: bool) {
        *self <= *other
    }

    open spec fn minimum_spec() -> Self {
        0
    }

    fn minimum() -> (r: Self) {
        0
    }

    proof fn lemma_order(a: Self, b: Self, c: Self) {
    }
}

/// A pair of timestamps ordered coordinatewise: the product order.
#[derive(Clone, Copy, Debug, PartialEq, Eq, Structural)]
pub struct Product {
    pub outer: u64,
    pub inner: u64,
}

impl Product {
    pub fn new(outer: u64, inner: u64) -> (r: Product)
        ensures
            r.outer == outer,
            r.inner == inner,
    {
        Product { outer, inner }
    }
}

impl Timestamp for Product {
    open spec fn leq(&self, other: &Self) -> bool {
        self.outer <= other.outer && self.inner <= other.inner
    }

    fn less_equal(&self, other: &Self) -> (r: bool) {
        self.outer <= other.outer && self.inner <= other.inner
    }

    open spec fn minimum_spec() -> Self {
        Product { outer: 0, inner: 0 }
    }

    fn minimum() -> (r: Self) {
        Product { outer: 0, inner: 0 }
    }

    proof fn lemma_order(a: Self, b: Self, c: Self) {
    }
}

} // verus!
