//! The numeric half of a factorization, which a numerical library supplies.
//!
//! As with [`crate::scalar::Real`], no operation promises anything: contracts speak of
//! what an operation gave.
use vstd::prelude::*;

use faer::sparse::linalg::lu::SymbolicLu;
use faer::sparse::linalg::solvers::SymbolicQr;

use crate::dense::Mat;
use crate::pattern::SparseView;

verus! {

/// The numeric half of a sparse LU factorization.
pub trait LuNumeric<T>: Default {
    /// Makes a workspace for factorizations and solves with `sym`.
    fn with_scratch(self, sym: &SymbolicLu<usize>) -> Self;

    /// Factorizes `a`, whose symbolic factorization is `sym`, in the workspace for it.
    /// Says whether it succeeded.
    fn factorize(self, sym: &SymbolicLu<usize>, a: &SparseView<'_, T>) -> (Self, bool)
        requires
            a.wf(),
    ;

    /// Turns the right-hand sides in the columns of `m` into solutions.
    fn solve_in_place(self, sym: &SymbolicLu<usize>, m: Mat<T>) -> (Self, Mat<T>);
}

/// The numeric half of a sparse QR factorization.
pub trait QrNumeric<T>: Sized {
    /// Factorizes `a`, whose symbolic factorization is `sym`, unless that fails.
    fn try_new(sym: &SymbolicQr<usize>, a: &SparseView<'_, T>) -> Option<Self>
        requires
            a.wf(),
    ;

    /// Turns the right-hand sides in the columns of `m` into columns whose leading rows
    /// are least-squares solutions.
    fn solve_lstsq_in_place(&self, m: Mat<T>) -> Mat<T>;
}

/// A dense LU factorization.
pub trait DenseNumeric<T>: Sized {
    /// Factorizes `a`.
    fn new(a: &Mat<T>) -> Self;

    /// The solutions for the right-hand sides in the columns of `rhs`.
    fn solve(&self, rhs: &Mat<T>) -> Mat<T>;
}

/// A numerical library: one factorization of each kind.
pub trait Numerics<T> {
    /// Its sparse LU.
    type Lu: LuNumeric<T>;

    /// Its sparse QR.
    type Qr: QrNumeric<T>;

    /// Its dense LU.
    type Dense: DenseNumeric<T>;
}

/// Solving with a sparse LU keeps the shape of what it is given.
pub open spec fn lu_keeps_shape<T, N: LuNumeric<T>>() -> bool {
    forall|n: N, sym: SymbolicLu<usize>, m: Mat<T>, n1: N, solution: Mat<T>| #[trigger]
        call_ensures(N::solve_in_place, (n, &sym, m), (n1, solution)) ==> solution.same_shape(m)
}

/// Solving with a sparse QR keeps the shape of what it is given.
pub open spec fn qr_keeps_shape<T, N: QrNumeric<T>>() -> bool {
    forall|n: N, m: Mat<T>, solution: Mat<T>| #[trigger]
        call_ensures(N::solve_lstsq_in_place, (&n, m), solution) ==> solution.same_shape(m)
}

/// Solving with a dense LU keeps the shape of what it is given.
pub open spec fn dense_keeps_shape<T, N: DenseNumeric<T>>() -> bool {
    forall|n: N, rhs: Mat<T>, solution: Mat<T>| #[trigger]
        call_ensures(N::solve, (&n, &rhs), solution) ==> solution.same_shape(rhs)
}

} // verus!
