//! Scalars that are ordered as numbers are.
//!
//! Not every scalar need be: of floating-point numbers, those that are no number are not.
//! So an order is one of the scalars that are `ordinary`.
use vstd::prelude::*;

use crate::scalar::Real;

verus! {

use crate::scalar::{is_below, is_finite, is_one, is_product, is_zero};

/// An order of scalars.
#[verifier::reject_recursive_types(R)]
pub struct Order<R> {
    /// The scalars that take part: the numbers, and the infinite ones.
    pub ordinary: spec_fn(R) -> bool,
    /// Which of them are finite.
    pub finite: spec_fn(R) -> bool,
    /// Whether the first is below the second.
    pub below: spec_fn(R, R) -> bool,
    /// Zero.
    pub zero: R,
    /// One.
    pub one: R,
}

impl<R: Real> Order<R> {
    /// The scalar takes part in the order.
    pub open spec fn has(self, a: R) -> bool {
        (self.ordinary)(a)
    }

    /// The scalar is finite.
    pub open spec fn bounds(self, a: R) -> bool {
        (self.finite)(a)
    }

    /// `a` is below `b`.
    pub open spec fn less(self, a: R, b: R) -> bool {
        (self.below)(a, b)
    }

    /// The order is one: nothing is below itself, and both `less` and its opposite carry over
    /// from one pair to the next.
    pub open spec fn is_linear(self) -> bool {
        &&& forall|a: R| #[trigger] self.has(a) ==> !self.less(a, a)
        &&& forall|a: R, b: R, c: R|
            self.has(a) && self.has(b) && self.has(c) && #[trigger] self.less(a, b)
                && #[trigger] self.less(b, c) ==> self.less(a, c)
        &&& forall|a: R, b: R, c: R|
            self.has(a) && self.has(b) && self.has(c) && !#[trigger] self.less(b, a)
                && !#[trigger] self.less(c, b) ==> !self.less(c, a)
    }

    /// What is finite takes part, and so does what lies between two finite scalars, which is
    /// finite again. Zero and one are finite.
    pub open spec fn is_convex(self) -> bool {
        &&& self.bounds(self.zero) && self.bounds(self.one)
        &&& forall|a: R| #[trigger] self.bounds(a) ==> self.has(a)
        &&& forall|a: R, low: R, high: R|
            self.has(a) && self.bounds(low) && self.bounds(high) && !#[trigger] self.less(a, low)
                && !#[trigger] self.less(high, a) ==> self.bounds(a)
    }

    /// The scalar is above zero and not above one.
    pub open spec fn is_fraction(self, a: R) -> bool {
        self.has(a) && self.less(self.zero, a) && !self.less(self.one, a)
    }

    /// The scalar is not below one.
    pub open spec fn is_growth(self, a: R) -> bool {
        self.has(a) && !self.less(a, self.one)
    }

    /// What the operations on scalars find agrees with the order. A factor that is not below
    /// one does not make a positive scalar smaller, and a fraction does not make it larger.
    pub open spec fn is_kept_by_operations(self) -> bool {
        &&& forall|z: R| #[trigger] is_zero(z) ==> z == self.zero
        &&& forall|u: R| #[trigger] is_one(u) ==> u == self.one
        &&& forall|a: R, answer: bool| #[trigger]
            is_finite(a, answer) ==> answer == self.bounds(a)
        &&& forall|a: R, b: R, answer: bool| #[trigger]
            is_below(a, b, answer) && self.has(a) && self.has(b) ==> answer == self.less(a, b)
        &&& forall|a: R, factor: R, p: R| #[trigger]
            is_product(a, factor, p) && self.has(a) && self.less(self.zero, a) ==> {
                &&& self.is_growth(factor) ==> self.has(p) && !self.less(p, a)
                &&& self.is_fraction(factor) ==> self.has(p) && !self.less(a, p)
            }
    }

    /// The scalars are ordered as numbers are.
    pub open spec fn holds(self) -> bool {
        self.is_linear() && self.is_convex() && self.is_kept_by_operations()
    }
}

} // verus!
