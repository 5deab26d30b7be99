//! What the linear solvers hand over is what the numerical library found.
use vstd::prelude::*;

use crate::dense::Mat;
use crate::error::{Failure, SolverError, SolverResult};
use crate::linalg::{DenseLu, FaerLu, SparseQr};
use crate::numeric::{DenseNumeric, LuNumeric, QrNumeric};
use crate::pattern::SparseView;
use crate::system::LinearSolver;

verus! {

use crate::linalg::{is_kept_for, lu_of, qr_of};
use crate::pattern::pattern_ncols;
use crate::solver::fails;

/// The numerical library is right about the matrix `a`: a factorization that succeeds
/// leaves a numeric half that `holds` it; solving with one that holds it leaves one that
/// does, and gives a solution that is `right` for the right-hand sides.
pub open spec fn lu_is_right<T, N: LuNumeric<T>>(
    a: SparseView<'_, T>,
    holds: spec_fn(N) -> bool,
    right: spec_fn(Mat<T>, Mat<T>) -> bool,
) -> bool {
    let sym = lu_of(*a.symbolic);
    &&& forall|num: N, done: N| #[trigger]
        call_ensures(N::factorize, (num, &sym, &a), (done, true)) ==> holds(done)
    &&& forall|num: N, m: Mat<T>, done: N, solution: Mat<T>| #[trigger]
        call_ensures(N::solve_in_place, (num, &sym, m), (done, solution)) && holds(num) ==> holds(
            done,
        ) && right(m, solution)
}

/// The solver is factorized for `a`.
pub open spec fn is_factorized_for<T, N>(
    lu: FaerLu<N>,
    a: SparseView<'_, T>,
    holds: spec_fn(N) -> bool,
) -> bool {
    lu.ready() && is_kept_for(lu.seen(), lu_of(*a.symbolic), *a.symbolic) && holds(lu.numeric())
}

/// A sparse LU solver is factorized for the matrix that it factorized last with success.
pub proof fn law_lu_is_factorized<T: Copy, N: LuNumeric<T>>(
    pre: FaerLu<N>,
    a: SparseView<'_, T>,
    post: FaerLu<N>,
    holds: spec_fn(N) -> bool,
    right: spec_fn(Mat<T>, Mat<T>) -> bool,
)
    requires
        FaerLu::<N>::factored(pre, a, post, Ok::<(), SolverError>(())),
        lu_is_right(a, holds, right),
    ensures
        is_factorized_for(post, a, holds),
{
}

/// A sparse LU solver that is factorized for a matrix succeeds, and stays factorized for it.
/// The output is right for the right-hand sides, if the numerical library is. What the
/// output held before does not matter.
pub proof fn law_lu_solution_is_right<T: Copy, N: LuNumeric<T>>(
    pre: FaerLu<N>,
    a: SparseView<'_, T>,
    rhs: Mat<T>,
    before: Mat<T>,
    post: FaerLu<N>,
    after: Mat<T>,
    outcome: SolverResult<()>,
    holds: spec_fn(N) -> bool,
    right: spec_fn(Mat<T>, Mat<T>) -> bool,
)
    requires
        is_factorized_for(pre, a, holds),
        FaerLu::<N>::solved(pre, rhs, before, post, after, outcome),
        lu_is_right(a, holds, right),
    ensures
        outcome == Ok::<(), SolverError>(()),
        is_factorized_for(post, a, holds),
        exists|m: Mat<T>| m.same_entries(rhs) && #[trigger] right(m, after),
        forall|other: Mat<T>| #[trigger]
            FaerLu::<N>::solved(pre, rhs, other, post, after, outcome),
{
    let sym = lu_of(*a.symbolic);
    let m = choose|m: Mat<T>|
        m.same_entries(rhs) && #[trigger] call_ensures(
            N::solve_in_place,
            (pre.numeric(), &sym, m),
            (post.numeric(), after),
        );
    assert(right(m, after));
}

/// After a successful factorization of `a`, a sparse QR solver succeeds with an output that
/// has a row for each unknown and a column for each right-hand side. Whatever is `right` of
/// every solution that the numerical library finds for `a` and `rhs`, is right of one whose
/// rows are the leading rows of the output.
pub proof fn law_qr_solution_is_right<T: Copy, N: QrNumeric<T>>(
    pre: SparseQr<N>,
    a: SparseView<'_, T>,
    mid: SparseQr<N>,
    rhs: Mat<T>,
    before: Mat<T>,
    post: SparseQr<N>,
    after: Mat<T>,
    outcome: SolverResult<()>,
    right: spec_fn(Mat<T>) -> bool,
)
    requires
        SparseQr::<N>::factored(pre, a, mid, Ok::<(), SolverError>(())),
        SparseQr::<N>::solved(mid, rhs, before, post, after, outcome),
        before.rows() >= pattern_ncols(*a.symbolic),
        before.cols() == rhs.cols(),
        forall|num: N, m: Mat<T>, solution: Mat<T>|
            #![trigger
                call_ensures(N::try_new, (&qr_of(*a.symbolic), &a), Some(num)),
                call_ensures(N::solve_lstsq_in_place, (&num, m), solution)
            ]
            call_ensures(N::try_new, (&qr_of(*a.symbolic), &a), Some(num)) && call_ensures(
                N::solve_lstsq_in_place,
                (&num, m),
                solution,
            ) && m.same_entries(rhs) ==> right(solution),
    ensures
        outcome == Ok::<(), SolverError>(()),
        post == mid,
        exists|solution: Mat<T>| #[trigger]
            right(solution) && forall|i: int, j: int|
                after.covers(i, j) && i < rhs.rows() ==> #[trigger] after.at(i, j) == solution.at(
                    i,
                    j,
                ),
{
    let qr = mid.factorized()->0;
    let (m, solution) = choose|m: Mat<T>, solution: Mat<T>|
        {
            &&& m.same_entries(rhs)
            &&& #[trigger] call_ensures(N::solve_lstsq_in_place, (&qr.num, m), solution)
            &&& forall|i: int, j: int|
                after.covers(i, j) ==> #[trigger] after.at(i, j) == (if i < rhs.rows() {
                    solution.at(i, j)
                } else {
                    before.at(i, j)
                })
        };
    assert(call_ensures(N::try_new, (&qr_of(*a.symbolic), &a), Some(qr.num)));
    assert(right(solution));
}

/// A dense LU solver fails exactly before its first factorization, and then leaves the
/// output as it was. After a factorization of `a` it succeeds, and whatever is `right` of
/// every solution that the numerical library finds for `a` and `rhs`, is right of what the
/// output holds.
pub proof fn law_dense_solution_is_right<T: Copy, N: DenseNumeric<T>>(
    a: Mat<T>,
    mid: DenseLu<N>,
    rhs: Mat<T>,
    before: Mat<T>,
    post: DenseLu<N>,
    after: Mat<T>,
    outcome: SolverResult<()>,
    right: spec_fn(Mat<T>) -> bool,
)
    requires
        DenseLu::<N>::solved(mid, rhs, before, post, after, outcome),
        forall|num: N, solution: Mat<T>|
            #![trigger call_ensures(N::new, (&a,), num), call_ensures(N::solve, (&num, &rhs), solution)]
            call_ensures(N::new, (&a,), num) && call_ensures(N::solve, (&num, &rhs), solution)
                ==> right(solution),
    ensures
        outcome is Err <==> mid.factorized() is None,
        outcome is Err ==> outcome == fails::<()>(Failure::DenseNotFactorized) && after == before,
        forall|pre: DenseLu<N>| #[trigger]
            DenseLu::<N>::factored(pre, a, mid, Ok::<(), SolverError>(())) ==> exists|
                solution: Mat<T>,
            | #[trigger]
                right(solution) && after.same_entries(solution),
{
    assert forall|pre: DenseLu<N>| #[trigger]
        DenseLu::<N>::factored(pre, a, mid, Ok::<(), SolverError>(())) implies exists|
        solution: Mat<T>,
    | #[trigger]
        right(solution) && after.same_entries(solution) by {
        let lu = mid.factorized()->0;
        let solution = choose|solution: Mat<T>| #[trigger]
            call_ensures(N::solve, (&lu.num, &rhs), solution) && after.same_entries(solution);
        assert(right(solution));
    }
}

} // verus!
