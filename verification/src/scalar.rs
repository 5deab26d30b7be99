//! The scalars that the engine computes with.
//!
//! The engine never looks inside a scalar: it adds, multiplies and compares
//! through [`Real`], and every contract speaks of what those operations gave.
use vstd::prelude::*;

verus! {

/// The arithmetic that a Newton iteration needs of its scalar type.
///
/// No operation promises anything, so nothing about a scalar is taken on trust:
/// rounding, infinities and not-a-number values are all allowed. A contract that
/// needs the outcome of an operation names it through one of the relations below.
pub trait Real: Copy {
    /// The additive unit.
    fn zero() -> Self;

    /// The multiplicative unit.
    fn one() -> Self;

    /// Positive infinity.
    fn infinity() -> Self;

    /// The scalar nearest to `num / den`.
    fn quotient(num: u32, den: u32) -> Self;

    /// `self + other`.
    fn plus(self, other: Self) -> Self;

    /// `self * other`.
    fn times(self, other: Self) -> Self;

    /// `-self`.
    fn negated(self) -> Self;

    /// The absolute value of `self`.
    fn magnitude(self) -> Self;

    /// `self < other`.
    fn below(self, other: Self) -> bool;

    /// Whether `self` is neither infinite nor not-a-number.
    fn finite(self) -> bool;
}

/// `z` is a value that [`Real::zero`] returns.
pub open spec fn is_zero<R: Real>(z: R) -> bool {
    call_ensures(R::zero, (), z)
}

/// `u` is a value that [`Real::one`] returns.
pub open spec fn is_one<R: Real>(u: R) -> bool {
    call_ensures(R::one, (), u)
}

/// `v` is a value that [`Real::infinity`] returns.
pub open spec fn is_infinity<R: Real>(v: R) -> bool {
    call_ensures(R::infinity, (), v)
}

/// `q` is a value that [`Real::quotient`] returns for `num / den`.
pub open spec fn is_quotient<R: Real>(num: u32, den: u32, q: R) -> bool {
    call_ensures(R::quotient, (num, den), q)
}

/// `s` is a value that [`Real::plus`] returns for `a + b`.
pub open spec fn is_sum<R: Real>(a: R, b: R, s: R) -> bool {
    call_ensures(R::plus, (a, b), s)
}

/// `p` is a value that [`Real::times`] returns for `a * b`.
pub open spec fn is_product<R: Real>(a: R, b: R, p: R) -> bool {
    call_ensures(R::times, (a, b), p)
}

/// `n` is a value that [`Real::negated`] returns for `-a`.
pub open spec fn is_negation<R: Real>(a: R, n: R) -> bool {
    call_ensures(R::negated, (a,), n)
}

/// `m` is a value that [`Real::magnitude`] returns for `|a|`.
pub open spec fn is_magnitude<R: Real>(a: R, m: R) -> bool {
    call_ensures(R::magnitude, (a,), m)
}

/// `answer` is what [`Real::below`] returns for `a < b`.
pub open spec fn is_below<R: Real>(a: R, b: R, answer: bool) -> bool {
    call_ensures(R::below, (a, b), answer)
}

/// `answer` is what [`Real::finite`] returns for `a`.
pub open spec fn is_finite<R: Real>(a: R, answer: bool) -> bool {
    call_ensures(R::finite, (a,), answer)
}

} // verus!
