//! Which linear system the direction of an iteration solves.
use vstd::prelude::*;

use crate::dense::Mat;
use crate::direction::{DenseDirection, Direction, SparseDirection};
use crate::error::{SolverError, SolverResult};
use crate::pattern::{JacobianCache, SparseView};
use crate::scalar::Real;
use crate::system::{LinearSolver, NonlinearSystem};

verus! {

use crate::direction::{is_first_column, is_negated_column, linear_solve};
use crate::pattern::{
    col_end,
    col_start,
    last_written,
    matrix_entry,
    pattern_col_nnz,
    pattern_col_ptr,
    pattern_ncols,
    pattern_row_idx,
};
use crate::scalar::is_zero;
use crate::system::is_dense_form;

/// A linear solver is handed the matrix, and unless it fails there, every residual negated;
/// every entry of its solution is an entry of the direction. Its error is handed on.
pub proof fn law_linear_solve_negates_every_residual<R: Real, A, L: LinearSolver<R, A>>(
    l: L,
    a: A,
    f: Seq<R>,
    rhs: Mat<R>,
    before: Mat<R>,
    after: Mat<R>,
    l1: L,
    dir: Seq<R>,
    outcome: SolverResult<()>,
)
    requires
        linear_solve(l, a, f, rhs, before, after, l1, dir, outcome),
    ensures
        exists|mid: L, factored: SolverResult<()>| #[trigger]
            L::factored(l, a, mid, factored) && match factored {
                Err(e) => outcome == Err::<(), SolverError>(e) && l1 == mid,
                Ok(_) => {
                    &&& rhs.rows() == f.len() && rhs.cols() == 1
                    &&& forall|i: int|
                        0 <= i < f.len() ==> call_ensures(
                            R::negated,
                            (f[i],),
                            #[trigger] rhs.at(i, 0),
                        )
                    &&& L::solved(mid, rhs, before, l1, after, outcome)
                    &&& outcome is Ok ==> dir.len() == after.rows()
                    &&& outcome is Ok ==> forall|i: int|
                        0 <= i < dir.len() ==> #[trigger] dir[i] == after.at(i, 0)
                },
            },
{
    let (mid, factored) = choose|mid: L, factored: SolverResult<()>| #[trigger]
        L::factored(l, a, mid, factored) && match factored {
            Err(e) => outcome == factored && l1 == mid,
            Ok(_) => {
                &&& is_negated_column(f, rhs)
                &&& L::solved(mid, rhs, before, l1, after, outcome)
                &&& outcome is Ok ==> is_first_column(after, dir)
            },
        };
    assert(L::factored(l, a, mid, factored));
}

/// The direction of a sparse solve at `x` is the solution of the system with the Jacobian
/// refreshed at `x`, its pattern and all its values, and with every residual negated.
pub proof fn law_sparse_direction_solves_the_linearized_system<M, L>(
    pre: SparseDirection<M::Real>,
    m: M,
    l: L,
    x: Seq<M::Real>,
    f: Seq<M::Real>,
    post: SparseDirection<M::Real>,
    m1: M,
    l1: L,
    dir: Seq<M::Real>,
    outcome: SolverResult<()>,
) where M: NonlinearSystem, L: for<'a> LinearSolver<M::Real, SparseView<'a, M::Real>>
    requires
        <SparseDirection<M::Real> as Direction<M, L>>::computed(
            pre,
            m,
            l,
            x,
            f,
            post,
            m1,
            l1,
            dir,
            outcome,
        ),
    ensures
        m.refreshed(x, m1),
        m1.jacobian_of().pattern() == m.jacobian_of().pattern(),
        exists|a: SparseView<'_, M::Real>|
            {
                &&& *a.symbolic == m1.jacobian_of().pattern()
                &&& a.values@ == m1.jacobian_of().entries()
                &&& #[trigger] linear_solve(l, a, f, post.rhs, pre.out, post.out, l1, dir, outcome)
            },
{
}

/// The direction of a dense solve at `x` is the solution of the system with the Jacobian
/// refreshed at `x`, in full, and with every residual negated.
pub proof fn law_dense_direction_solves_the_linearized_system<M, L>(
    pre: DenseDirection<M::Real>,
    m: M,
    l: L,
    x: Seq<M::Real>,
    f: Seq<M::Real>,
    post: DenseDirection<M::Real>,
    m1: M,
    l1: L,
    dir: Seq<M::Real>,
    outcome: SolverResult<()>,
) where M: NonlinearSystem, L: LinearSolver<M::Real, Mat<M::Real>>
    requires
        <DenseDirection<M::Real> as Direction<M, L>>::computed(
            pre,
            m,
            l,
            x,
            f,
            post,
            m1,
            l1,
            dir,
            outcome,
        ),
    ensures
        m.refreshed(x, m1),
        m1.jacobian_of().pattern() == m.jacobian_of().pattern(),
        post.jac.rows() == pre.jac.rows() && post.jac.cols() == pre.jac.cols(),
        is_dense_form::<M::Real, M::Jacobian>(m1.jacobian_of(), post.jac),
        linear_solve(l, post.jac, f, post.rhs, pre.out, post.out, l1, dir, outcome),
{
}

/// What was written last for a row, or nothing.
proof fn lemma_last_written<T>(
    rows: Seq<usize>,
    values: Seq<T>,
    lo: int,
    hi: int,
    i: int,
    default: T,
)
    ensures
        forall|k: int|
            lo <= k < hi && #[trigger] rows[k] == i && (forall|l: int|
                k < l < hi ==> #[trigger] rows[l] != i) ==> last_written(
                rows,
                values,
                lo,
                hi,
                i,
                default,
            ) == values[k],
        (forall|k: int| lo <= k < hi ==> #[trigger] rows[k] != i) ==> last_written(
            rows,
            values,
            lo,
            hi,
            i,
            default,
        ) == default,
    decreases hi - lo,
{
    if lo < hi && rows[hi - 1] != i {
        lemma_last_written(rows, values, lo, hi - 1, i, default);
    }
}

/// The Jacobian in full holds every value that is stored, in the row of its index and in its
/// column, the last one where a column stores a row more than once; and a zero wherever
/// nothing is stored.
pub proof fn law_dense_form_places_every_value<T: Real, J: JacobianCache<T>>(jac: J, m: Mat<T>)
    requires
        is_dense_form::<T, J>(jac, m),
    ensures
        ({
            let s = jac.pattern();
            let rows = pattern_row_idx(s);
            let start = |j: int| pattern_col_ptr(s)[j] as int;
            let end = |j: int|
                match pattern_col_nnz(s) {
                    Some(counts) => pattern_col_ptr(s)[j] + counts[j],
                    None => pattern_col_ptr(s)[j + 1] as int,
                };
            &&& forall|j: int, k: int|
                0 <= j < m.cols() && j < pattern_ncols(s) && start(j) <= k < end(j) && rows[k]
                    < m.rows() && (forall|l: int| k < l < end(j) ==> #[trigger] rows[l] != rows[k])
                    ==> #[trigger] m.at(rows[k] as int, j) == jac.entries()[k]
            &&& forall|i: int, j: int|
                0 <= i < m.rows() && 0 <= j < m.cols() && (j >= pattern_ncols(s) || forall|k: int|
                    start(j) <= k < end(j) ==> #[trigger] rows[k] != i) ==> call_ensures(
                    T::zero,
                    (),
                    #[trigger] m.at(i, j),
                )
        }),
{
    let s = jac.pattern();
    let rows = pattern_row_idx(s);
    let zero = choose|zero: T| #[trigger]
        is_zero(zero) && forall|i: int, j: int|
            m.covers(i, j) ==> #[trigger] m.at(i, j) == (if j < pattern_ncols(s) {
                matrix_entry(s, jac.entries(), zero, i, j)
            } else {
                zero
            });
    assert forall|i: int, j: int| m.covers(i, j) && j < pattern_ncols(s) implies #[trigger] m.at(
        i,
        j,
    ) == last_written(rows, jac.entries(), col_start(s, j), col_end(s, j), i, zero) by {}
    let start = |j: int| pattern_col_ptr(s)[j] as int;
    let end = |j: int|
        match pattern_col_nnz(s) {
            Some(counts) => pattern_col_ptr(s)[j] + counts[j],
            None => pattern_col_ptr(s)[j + 1] as int,
        };
    assert forall|j: int, k: int|
        0 <= j < m.cols() && j < pattern_ncols(s) && start(j) <= k < end(j) && rows[k] < m.rows()
            && (forall|l: int| k < l < end(j) ==> #[trigger] rows[l] != rows[k]) implies #[trigger] m.at(
        rows[k] as int,
        j,
    ) == jac.entries()[k] by {
        lemma_last_written(
            rows,
            jac.entries(),
            col_start(s, j),
            col_end(s, j),
            rows[k] as int,
            zero,
        );
        assert(m.covers(rows[k] as int, j));
    }
    assert forall|i: int, j: int|
        0 <= i < m.rows() && 0 <= j < m.cols() && (j >= pattern_ncols(s) || forall|k: int|
            start(j) <= k < end(j) ==> #[trigger] rows[k] != i) implies call_ensures(
        T::zero,
        (),
        #[trigger] m.at(i, j),
    ) by {
        assert(m.covers(i, j));
        lemma_last_written(rows, jac.entries(), col_start(s, j), col_end(s, j), i, zero);
    }
}

} // verus!
