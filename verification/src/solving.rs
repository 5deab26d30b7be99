//! What the linear solvers do with what they are handed.
use vstd::prelude::*;

use faer::sparse::SymbolicSparseColMat;

use crate::dense::Mat;
use crate::error::{Failure, SolverError, SolverResult};
use crate::linalg::{DenseLu, FaerLu, SparseQr};
use crate::numeric::{DenseNumeric, LuNumeric, QrNumeric};
use crate::pattern::SparseView;
use crate::system::LinearSolver;

verus! {

use crate::linalg::{
    faer_simplicial_lu,
    faer_symbolic_lu,
    faer_symbolic_qr,
    is_kept_for,
    lu_analysis_can_fail,
    lu_completed,
    lu_of,
    qr_analysis_can_fail,
    qr_completed,
    qr_of,
};
use crate::matching::has_transversal;
use crate::numeric::{lu_keeps_shape, qr_keeps_shape};
use crate::pattern::{
    col_start,
    pattern_col_nnz,
    pattern_col_ptr,
    pattern_ncols,
    pattern_nrows,
    pattern_row_idx,
    same_pattern,
    sorted_column,
};
use crate::solver::fails;

/// The symbolic factorizations are those that faer computes for the parts of the pattern: for
/// LU in the form that it picks, if the pattern has a transversal, and else in the simplicial
/// form.
pub proof fn law_symbolic_factorizations_are_those_of_faer(s: SymbolicSparseColMat<usize>)
    ensures
        has_transversal(s) ==> lu_of(s) == faer_symbolic_lu(
            pattern_nrows(s),
            pattern_ncols(s),
            pattern_col_ptr(s),
            pattern_col_nnz(s),
            pattern_row_idx(s),
        ),
        !has_transversal(s) ==> lu_of(s) == faer_simplicial_lu(
            pattern_nrows(s),
            pattern_ncols(s),
            pattern_col_ptr(s),
            pattern_col_nnz(s),
            pattern_row_idx(s),
        ),
        qr_of(s) == faer_symbolic_qr(
            pattern_nrows(s),
            pattern_ncols(s),
            pattern_col_ptr(s),
            pattern_col_nnz(s),
            pattern_row_idx(s),
        ),
{
}

/// A sparse solver analyses a pattern again exactly if it holds something else than the one
/// seen last.
pub proof fn law_patterns_are_analysed_once<N, Q>(
    lu: FaerLu<N>,
    qr: SparseQr<Q>,
    s: SymbolicSparseColMat<usize>,
    lu_needs: bool,
    qr_needs: bool,
)
    requires
        call_ensures(FaerLu::<N>::needs_analysis, (&lu, &s), lu_needs),
        call_ensures(SparseQr::<Q>::needs_analysis, (&qr, &s), qr_needs),
    ensures
        lu_needs <==> !(lu.seen() matches Some((_, pattern)) && same_pattern(pattern, s)),
        qr_needs <==> !(qr.seen() matches Some((_, pattern)) && same_pattern(pattern, s)),
{
}

/// A sparse LU solver that is handed a matrix runs the numeric half that it has on it, all of
/// it, with the symbolic factorization of its pattern. The numeric half gets a new workspace
/// first exactly if the pattern is not the one seen last. The outcome is what the numeric
/// half says, unless the analysis of a new pattern fails, and then nothing changes.
pub proof fn law_lu_runs_the_numeric_half<'a, T: Copy, N: LuNumeric<T>>(
    lu: &mut FaerLu<N>,
    a: SparseView<'a, T>,
    outcome: SolverResult<()>,
)
    requires
        call_ensures(
            <FaerLu<N> as LinearSolver<T, SparseView<'a, T>>>::factor,
            (lu, &a),
            outcome,
        ),
    ensures
        ({
            let sym = lu_of(*a.symbolic);
            let known = old(lu).seen() matches Some((_, pattern)) && same_pattern(
                pattern,
                *a.symbolic,
            );
            ||| {
                &&& !known && lu_analysis_can_fail(*a.symbolic)
                &&& outcome == Err::<(), SolverError>(SolverError { reason: Failure::SymbolicLu })
                &&& *final(lu) == *old(lu)
            }
            ||| {
                &&& final(lu).seen() matches Some((_, pattern)) && same_pattern(
                    pattern,
                    *a.symbolic,
                )
                &&& known ==> final(lu).seen() == old(lu).seen()
                &&& final(lu).ready() == (outcome is Ok)
                &&& exists|num: N, ok: bool|
                    {
                        &&& known ==> num == old(lu).numeric()
                        &&& !known ==> call_ensures(
                            N::with_scratch,
                            (old(lu).numeric(), &sym),
                            num,
                        )
                        &&& #[trigger] call_ensures(
                            N::factorize,
                            (num, &sym, &a),
                            (final(lu).numeric(), ok),
                        )
                        &&& outcome == (if ok {
                            Ok::<(), SolverError>(())
                        } else {
                            Err::<(), SolverError>(SolverError { reason: Failure::NumericLu })
                        })
                    }
            }
        }),
{
    let sym = lu_of(*a.symbolic);
    assert(<FaerLu<N> as LinearSolver<T, SparseView<'a, T>>>::factored(
        *lu,
        a,
        *final(lu),
        outcome,
    ));
    if lu.knows(*a.symbolic) {
        let ok = choose|ok: bool| #[trigger]
            call_ensures(N::factorize, (lu.numeric(), &sym, &a), (final(lu).numeric(), ok))
                && outcome == (if ok {
                Ok::<(), SolverError>(())
            } else {
                fails::<()>(Failure::NumericLu)
            });
        assert(call_ensures(
            N::factorize,
            (lu.numeric(), &sym, &a),
            (final(lu).numeric(), ok),
        ));
    } else if is_kept_for(final(lu).seen(), sym, *a.symbolic) && exists|num: N|
        #[trigger] call_ensures(N::with_scratch, (lu.numeric(), &sym), num)
            && lu_completed(num, sym, a, final(lu).numeric(), outcome) {
        let num = choose|num: N| #[trigger]
            call_ensures(N::with_scratch, (lu.numeric(), &sym), num)
                && lu_completed(num, sym, a, final(lu).numeric(), outcome);
        let ok = choose|ok: bool| #[trigger]
            call_ensures(N::factorize, (num, &sym, &a), (final(lu).numeric(), ok)) && outcome == (
            if ok {
                Ok::<(), SolverError>(())
            } else {
                fails::<()>(Failure::NumericLu)
            });
        assert(call_ensures(N::factorize, (num, &sym, &a), (final(lu).numeric(), ok)));
    }
}

/// A sparse LU solver whose last factorization did not succeed refuses to solve, and leaves
/// the output. Otherwise it hands the right-hand sides, every entry of them, to the numeric
/// half, and the output is what comes back.
pub proof fn law_lu_solves_with_the_numeric_half<'a, T: Copy, N: LuNumeric<T>>(
    lu: &mut FaerLu<N>,
    rhs: Mat<T>,
    out: &mut Mat<T>,
    outcome: SolverResult<()>,
)
    requires
        call_ensures(
            <FaerLu<N> as LinearSolver<T, SparseView<'a, T>>>::solve_into,
            (lu, &rhs, out),
            outcome,
        ),
    ensures
        !old(lu).ready() ==> {
            &&& outcome == Err::<(), SolverError>(SolverError { reason: Failure::LuNotFactorized })
            &&& *final(lu) == *old(lu)
            &&& *final(out) == *old(out)
        },
        old(lu).ready() ==> {
            &&& outcome == Ok::<(), SolverError>(())
            &&& final(lu).ready() && final(lu).seen() == old(lu).seen()
            &&& old(lu).seen() matches Some((sym, _)) && exists|m: Mat<T>|
                {
                    &&& m.rows() == rhs.rows() && m.cols() == rhs.cols()
                    &&& forall|i: int, j: int|
                        0 <= i < rhs.rows() && 0 <= j < rhs.cols() ==> #[trigger] m.at(i, j)
                            == rhs.at(i, j)
                    &&& #[trigger] call_ensures(
                        N::solve_in_place,
                        (old(lu).numeric(), &sym, m),
                        (final(lu).numeric(), *final(out)),
                    )
                }
        },
{
    assert(<FaerLu<N> as LinearSolver<T, SparseView<'a, T>>>::solved(
        *lu,
        rhs,
        *out,
        *final(lu),
        *final(out),
        outcome,
    ));
    if lu.ready() {
        let sym = lu.seen()->Some_0.0;
        let m = choose|m: Mat<T>|
            m.same_entries(rhs) && #[trigger] call_ensures(
                N::solve_in_place,
                (lu.numeric(), &sym, m),
                (final(lu).numeric(), *final(out)),
            );
        assert forall|i: int, j: int|
            0 <= i < rhs.rows() && 0 <= j < rhs.cols() implies #[trigger] m.at(i, j) == rhs.at(
            i,
            j,
        ) by {
            assert(m.covers(i, j));
        }
    }
}

/// A sparse QR solver that is handed a matrix has the numeric half factorize it, all of it,
/// with the symbolic factorization of its pattern, which is analysed exactly if it is not the
/// one seen last. The outcome is what the numeric half says, unless the analysis of a new
/// pattern fails. Whatever fails, the factorization before it stays.
pub proof fn law_qr_runs_the_numeric_half<'a, T: Copy, N: QrNumeric<T>>(
    qr: &mut SparseQr<N>,
    a: SparseView<'a, T>,
    outcome: SolverResult<()>,
)
    requires
        call_ensures(
            <SparseQr<N> as LinearSolver<T, SparseView<'a, T>>>::factor,
            (qr, &a),
            outcome,
        ),
    ensures
        ({
            let sym = qr_of(*a.symbolic);
            let known = old(qr).seen() matches Some((_, pattern)) && same_pattern(
                pattern,
                *a.symbolic,
            );
            ||| {
                &&& !known && qr_analysis_can_fail(*a.symbolic)
                &&& outcome == Err::<(), SolverError>(SolverError { reason: Failure::SymbolicQr })
                &&& *final(qr) == *old(qr)
            }
            ||| {
                &&& final(qr).seen() matches Some((_, pattern)) && same_pattern(
                    pattern,
                    *a.symbolic,
                )
                &&& known ==> final(qr).seen() == old(qr).seen()
                &&& exists|made: Option<N>| #[trigger]
                    call_ensures(N::try_new, (&sym, &a), made) && match made {
                        Some(num) => {
                            &&& outcome == Ok::<(), SolverError>(())
                            &&& final(qr).factorized() matches Some(done) && done.num == num
                                && done.nrows == pattern_nrows(*a.symbolic) && done.ncols
                                == pattern_ncols(*a.symbolic)
                        },
                        None => {
                            &&& outcome == Err::<(), SolverError>(
                                SolverError { reason: Failure::NumericQr },
                            )
                            &&& final(qr).factorized() == old(qr).factorized()
                        },
                    }
            }
        }),
{
    let sym = qr_of(*a.symbolic);
    assert(<SparseQr<N> as LinearSolver<T, SparseView<'a, T>>>::factored(
        *qr,
        a,
        *final(qr),
        outcome,
    ));
    if qr_completed(qr.factorized(), sym, a, final(qr).factorized(), outcome) {
        let made = choose|made: Option<N>| #[trigger]
            call_ensures(N::try_new, (&sym, &a), made) && match made {
                Some(num) => {
                    &&& outcome == Ok::<(), SolverError>(())
                    &&& final(qr).factorized() matches Some(done) && done.num == num && done.nrows
                        == pattern_nrows(*a.symbolic) && done.ncols == pattern_ncols(*a.symbolic)
                },
                None => {
                    &&& outcome == fails::<()>(Failure::NumericQr)
                    &&& final(qr).factorized() == qr.factorized()
                },
            };
        assert(call_ensures(N::try_new, (&sym, &a), made));
    }
}

/// A sparse QR solver refuses to solve before it has factorized a matrix, and with an output
/// that has fewer rows than there are unknowns or another number of columns than the
/// right-hand sides; then it leaves the output. Otherwise it hands the right-hand sides, every
/// entry of them, to the numeric half. The output gets as many rows of what comes back as the
/// right-hand sides have, and keeps its other rows.
pub proof fn law_qr_solves_with_the_numeric_half<'a, T: Copy, N: QrNumeric<T>>(
    qr: &mut SparseQr<N>,
    rhs: Mat<T>,
    out: &mut Mat<T>,
    outcome: SolverResult<()>,
)
    requires
        call_ensures(
            <SparseQr<N> as LinearSolver<T, SparseView<'a, T>>>::solve_into,
            (qr, &rhs, out),
            outcome,
        ),
    ensures
        *final(qr) == *old(qr),
        final(out).rows() == old(out).rows() && final(out).cols() == old(out).cols(),
        match old(qr).factorized() {
            None => {
                &&& outcome == Err::<(), SolverError>(
                    SolverError { reason: Failure::QrNotFactorized },
                )
                &&& *final(out) == *old(out)
            },
            Some(done) => if old(out).rows() < done.ncols || old(out).cols() != rhs.cols() {
                &&& outcome == Err::<(), SolverError>(
                    SolverError { reason: Failure::QrOutputTooSmall },
                )
                &&& *final(out) == *old(out)
            } else {
                &&& outcome == Ok::<(), SolverError>(())
                &&& exists|m: Mat<T>, solution: Mat<T>|
                    {
                        &&& m.rows() == rhs.rows() && m.cols() == rhs.cols()
                        &&& forall|i: int, j: int|
                            0 <= i < rhs.rows() && 0 <= j < rhs.cols() ==> #[trigger] m.at(i, j)
                                == rhs.at(i, j)
                        &&& #[trigger] call_ensures(
                            N::solve_lstsq_in_place,
                            (&done.num, m),
                            solution,
                        )
                        &&& forall|i: int, j: int|
                            0 <= i < old(out).rows() && 0 <= j < old(out).cols()
                                ==> #[trigger] final(out).at(i, j) == (if i < rhs.rows() {
                                solution.at(i, j)
                            } else {
                                old(out).at(i, j)
                            })
                    }
            },
        },
{
    assert(<SparseQr<N> as LinearSolver<T, SparseView<'a, T>>>::solved(
        *qr,
        rhs,
        *out,
        *final(qr),
        *final(out),
        outcome,
    ));
    if let Some(done) = qr.factorized() {
        if !(out.rows() < done.ncols || out.cols() != rhs.cols()) {
            let after = *final(out);
            let (m, solution) = choose|m: Mat<T>, solution: Mat<T>|
                {
                    &&& m.same_entries(rhs)
                    &&& #[trigger] call_ensures(N::solve_lstsq_in_place, (&done.num, m), solution)
                    &&& forall|i: int, j: int|
                        after.covers(i, j) ==> #[trigger] after.at(i, j) == (if i < rhs.rows() {
                            solution.at(i, j)
                        } else {
                            out.at(i, j)
                        })
                };
            assert forall|i: int, j: int|
                0 <= i < rhs.rows() && 0 <= j < rhs.cols() implies #[trigger] m.at(i, j)
                == rhs.at(i, j) by {
                assert(m.covers(i, j));
            }
            assert forall|i: int, j: int|
                0 <= i < out.rows() && 0 <= j < out.cols() implies #[trigger] after.at(i, j) == (
            if i < rhs.rows() {
                solution.at(i, j)
            } else {
                out.at(i, j)
            }) by {
                assert(after.covers(i, j));
            }
            assert(call_ensures(N::solve_lstsq_in_place, (&done.num, m), solution));
        }
    }
}

/// A dense LU solver factorizes every matrix that it is handed. It refuses to solve before
/// that, and leaves the output; afterwards the output is what the numeric half finds for the
/// right-hand sides and the matrix that was factorized last.
pub proof fn law_dense_solves_with_the_numeric_half<T: Copy, N: DenseNumeric<T>>(
    lu: &mut DenseLu<N>,
    a: Mat<T>,
    factored: SolverResult<()>,
    solver: &mut DenseLu<N>,
    rhs: Mat<T>,
    out: &mut Mat<T>,
    outcome: SolverResult<()>,
)
    requires
        call_ensures(<DenseLu<N> as LinearSolver<T, Mat<T>>>::factor, (lu, &a), factored),
        call_ensures(
            <DenseLu<N> as LinearSolver<T, Mat<T>>>::solve_into,
            (solver, &rhs, out),
            outcome,
        ),
    ensures
        factored == Ok::<(), SolverError>(()),
        final(lu).factorized() matches Some(done) && call_ensures(N::new, (&a,), done.num),
        *final(solver) == *old(solver),
        match old(solver).factorized() {
            None => {
                &&& outcome == Err::<(), SolverError>(
                    SolverError { reason: Failure::DenseNotFactorized },
                )
                &&& *final(out) == *old(out)
            },
            Some(done) => {
                &&& outcome == Ok::<(), SolverError>(())
                &&& exists|solution: Mat<T>|
                    {
                        &&& #[trigger] call_ensures(N::solve, (&done.num, &rhs), solution)
                        &&& final(out).rows() == solution.rows()
                        &&& final(out).cols() == solution.cols()
                        &&& forall|i: int, j: int|
                            0 <= i < solution.rows() && 0 <= j < solution.cols()
                                ==> #[trigger] final(out).at(i, j) == solution.at(i, j)
                    }
            },
        },
{
    assert(<DenseLu<N> as LinearSolver<T, Mat<T>>>::factored(*lu, a, *final(lu), factored));
    assert(<DenseLu<N> as LinearSolver<T, Mat<T>>>::solved(
        *solver,
        rhs,
        *out,
        *final(solver),
        *final(out),
        outcome,
    ));
    if let Some(done) = solver.factorized() {
        let solution = choose|solution: Mat<T>| #[trigger]
            call_ensures(N::solve, (&done.num, &rhs), solution) && final(out).same_entries(
                solution,
            );
        assert forall|i: int, j: int|
            0 <= i < solution.rows() && 0 <= j < solution.cols() implies #[trigger] final(out).at(
            i,
            j,
        ) == solution.at(i, j) by {
            assert(final(out).covers(i, j));
        }
        assert(call_ensures(N::solve, (&done.num, &rhs), solution));
    }
}

/// A sparse LU solver takes every square matrix, and a sparse QR solver every one with no
/// fewer rows than columns, that has a value for each row index and row indices that increase
/// within each column. They can then solve for as many equations and unknowns as the matrix
/// has, through a numeric half that keeps the shape of what it is given.
pub proof fn law_sparse_solvers_take_every_fitting_matrix<'a, T: Copy, N, Q>(
    a: SparseView<'a, T>,
) where N: LuNumeric<T>, Q: QrNumeric<T>
    requires
        a.values@.len() == pattern_row_idx(*a.symbolic).len(),
        forall|j: int, k: int, l: int|
            #![trigger
                pattern_col_ptr(*a.symbolic)[j],
                pattern_row_idx(*a.symbolic)[k],
                pattern_row_idx(*a.symbolic)[l]
            ]
            0 <= j < pattern_ncols(*a.symbolic) && pattern_col_ptr(*a.symbolic)[j] <= k < l < (
            match pattern_col_nnz(*a.symbolic) {
                Some(counts) => pattern_col_ptr(*a.symbolic)[j] + counts[j],
                None => pattern_col_ptr(*a.symbolic)[j + 1] as int,
            }) ==> pattern_row_idx(*a.symbolic)[k] < pattern_row_idx(*a.symbolic)[l],
    ensures
        pattern_nrows(*a.symbolic) == pattern_ncols(*a.symbolic) ==> {
            &&& <FaerLu<N> as LinearSolver<T, SparseView<'a, T>>>::factorable(a)
            &&& lu_keeps_shape::<T, N>() ==> <FaerLu<N> as LinearSolver<
                T,
                SparseView<'a, T>,
            >>::accepts(a, pattern_nrows(*a.symbolic) as nat, pattern_ncols(*a.symbolic) as nat)
        },
        pattern_nrows(*a.symbolic) >= pattern_ncols(*a.symbolic) ==> {
            &&& <SparseQr<Q> as LinearSolver<T, SparseView<'a, T>>>::factorable(a)
            &&& qr_keeps_shape::<T, Q>() ==> <SparseQr<Q> as LinearSolver<
                T,
                SparseView<'a, T>,
            >>::accepts(a, pattern_nrows(*a.symbolic) as nat, pattern_ncols(*a.symbolic) as nat)
        },
{
    let s = *a.symbolic;
    assert forall|j: int| 0 <= j < pattern_ncols(s) implies #[trigger] sorted_column(
        s,
        j,
    ) by {
        assert(col_start(s, j) == pattern_col_ptr(s)[j] as int);
    }
}

} // verus!
