//! What the entry points run.
use vstd::prelude::*;

use crate::config::{Control, IterationStats, Iterations, MatrixFormat, NewtonCfg};
use crate::dense::Mat;
use crate::direction::{DenseDirection, SparseDirection};
use crate::drivers::{
    keep_going, select_backend, solve, solve_cb, solve_dense_cb, solve_sparse_cb, Backend,
};
use crate::error::SolverResult;
use crate::linalg::{DenseLu, FaerLu, SparseQr};
use crate::numeric::Numerics;
use crate::pattern::SparseView;
use crate::system::{LinearSolver, NonlinearSystem, RowMap};

verus! {

use crate::drivers::{backend_for, default_solve, dense_solve, sparse_solve};
use crate::solver::{solves_to, Progress};

/// [`solve_sparse_cb`] runs a solve with the model, the point and the linear solver that it
/// is handed, with buffers for as many equations and unknowns as the problem has, and leaves
/// of them what the solve does.
pub proof fn law_sparse_entry_runs_a_solve<M, L, Cb>(
    model: &mut M,
    x: &mut [M::Real],
    lin: &mut L,
    cfg: NewtonCfg<M::Real>,
    on_iter: Cb,
    result: SolverResult<Iterations>,
) where
    M: NonlinearSystem,
    L: for<'a> LinearSolver<M::Real, SparseView<'a, M::Real>>,
    Cb: FnMut(&IterationStats<M::Real>) -> Control,

    requires
        call_ensures(solve_sparse_cb::<M, L, Cb>, (model, x, lin, cfg, on_iter), result),
    ensures
        exists|d: SparseDirection<M::Real>, d1: SparseDirection<M::Real>|
            {
                &&& d.rhs.rows() == old(model).layout_of().residuals() && d.rhs.cols() == 1
                &&& d.out.rows() == old(model).layout_of().variables() && d.out.cols() == 1
                &&& #[trigger] solves_to(
                    cfg,
                    on_iter,
                    Progress { model: *old(model), lin: *old(lin), direction: d, x: old(x)@ },
                    result,
                    Progress { model: *final(model), lin: *final(lin), direction: d1, x: final(x)@ },
                )
            },
        final(x)@.len() == old(x)@.len(),
{
    assert(sparse_solve(
        cfg,
        on_iter,
        *model,
        x@,
        *lin,
        result,
        *final(model),
        final(x)@,
        *final(lin),
    ));
}

/// [`solve_dense_cb`] does the same with a full matrix, which has a row for each equation and
/// a column for each unknown.
pub proof fn law_dense_entry_runs_a_solve<M, L, Cb>(
    model: &mut M,
    x: &mut [M::Real],
    lu: &mut L,
    cfg: NewtonCfg<M::Real>,
    on_iter: Cb,
    result: SolverResult<Iterations>,
) where
    M: NonlinearSystem,
    L: LinearSolver<M::Real, Mat<M::Real>>,
    Cb: FnMut(&IterationStats<M::Real>) -> Control,

    requires
        call_ensures(solve_dense_cb::<M, L, Cb>, (model, x, lu, cfg, on_iter), result),
    ensures
        exists|d: DenseDirection<M::Real>, d1: DenseDirection<M::Real>|
            {
                &&& d.jac.rows() == old(model).layout_of().residuals()
                &&& d.jac.cols() == old(model).layout_of().variables()
                &&& d.rhs.rows() == old(model).layout_of().residuals() && d.rhs.cols() == 1
                &&& d.out.rows() == old(model).layout_of().variables() && d.out.cols() == 1
                &&& #[trigger] solves_to(
                    cfg,
                    on_iter,
                    Progress { model: *old(model), lin: *old(lu), direction: d, x: old(x)@ },
                    result,
                    Progress { model: *final(model), lin: *final(lu), direction: d1, x: final(x)@ },
                )
            },
        final(x)@.len() == old(x)@.len(),
{
    assert(dense_solve(
        cfg,
        on_iter,
        *model,
        x@,
        *lu,
        result,
        *final(model),
        final(x)@,
        *final(lu),
    ));
}

/// A problem with another number of equations than unknowns is solved by QR. A square one is
/// solved by LU: with a full matrix if that is asked for or there are fewer unknowns than the
/// threshold, and with a sparse one otherwise.
pub proof fn law_format_decides_for_square_problems(
    format: MatrixFormat,
    n_variables: usize,
    n_residuals: usize,
    backend: Backend,
)
    requires
        backend == backend_for(format, n_variables as nat, n_residuals as nat) || call_ensures(
            select_backend,
            (format, n_variables, n_residuals),
            backend,
        ),
    ensures
        backend == Backend::SparseQr <==> n_variables != n_residuals,
        n_variables == n_residuals ==> match format {
            MatrixFormat::Dense => backend == Backend::DenseLu,
            MatrixFormat::Sparse => backend == Backend::SparseLu,
            MatrixFormat::Auto(threshold) => backend == Backend::DenseLu <==> n_variables
                < threshold,
        },
{
}

/// [`solve_cb`] and [`solve`] run a solve with a new linear solver, the one that the format and
/// the shape of the problem call for: QR unless there are as many equations as unknowns, and
/// then LU with a full or with a sparse matrix.
pub proof fn law_default_entries_pick_a_new_solver<M, K, Cb>(
    model: &mut M,
    x: &mut [M::Real],
    cfg: NewtonCfg<M::Real>,
    on_iter: Cb,
    result: SolverResult<Iterations>,
) where
    M: NonlinearSystem,
    K: Numerics<M::Real>,
    Cb: FnMut(&IterationStats<M::Real>) -> Control,

    requires
        call_ensures(solve_cb::<M, K, Cb>, (model, x, cfg, on_iter), result),
    ensures
        ({
            let n = old(model).layout_of().variables();
            let full = match cfg.format {
                MatrixFormat::Dense => true,
                MatrixFormat::Sparse => false,
                MatrixFormat::Auto(threshold) => n < threshold,
            };
            if n != old(model).layout_of().residuals() {
                exists|l: SparseQr<K::Qr>, l1: SparseQr<K::Qr>|
                    l.seen() is None && l.factorized() is None && #[trigger] sparse_solve(
                        cfg,
                        on_iter,
                        *old(model),
                        old(x)@,
                        l,
                        result,
                        *final(model),
                        final(x)@,
                        l1,
                    )
            } else if full {
                exists|l: DenseLu<K::Dense>, l1: DenseLu<K::Dense>|
                    l.factorized() is None && #[trigger] dense_solve(
                        cfg,
                        on_iter,
                        *old(model),
                        old(x)@,
                        l,
                        result,
                        *final(model),
                        final(x)@,
                        l1,
                    )
            } else {
                exists|l: FaerLu<K::Lu>, l1: FaerLu<K::Lu>|
                    l.seen() is None && call_ensures(K::Lu::default, (), l.numeric())
                        && #[trigger] sparse_solve(
                        cfg,
                        on_iter,
                        *old(model),
                        old(x)@,
                        l,
                        result,
                        *final(model),
                        final(x)@,
                        l1,
                    )
            }
        }),
{
    assert(default_solve::<M, K, Cb>(
        cfg,
        on_iter,
        *model,
        x@,
        result,
        *final(model),
        final(x)@,
    ));
}

/// [`solve`] runs what [`solve_cb`] does, with a callback that never cancels.
pub proof fn law_plain_entry_never_cancels<M, K>(
    model: &mut M,
    x: &mut [M::Real],
    cfg: NewtonCfg<M::Real>,
    result: SolverResult<Iterations>,
) where M: NonlinearSystem, K: Numerics<M::Real>
    requires
        call_ensures(solve::<M, K>, (model, x, cfg), result),
    ensures
        default_solve::<M, K, _>(
            cfg,
            keep_going::<M::Real>,
            *old(model),
            old(x)@,
            result,
            *final(model),
            final(x)@,
        ),
        forall|stats: IterationStats<M::Real>, answer: Control| #[trigger]
            call_ensures(keep_going::<M::Real>, (&stats,), answer) ==> answer
                == Control::Continue,
{
}

/// The solves behind the entry points run with buffers of the size of the problem.
pub proof fn law_solves_behind_the_entries<M, L, K, Cb>(
    cfg: NewtonCfg<M::Real>,
    on_iter: Cb,
    m: M,
    x: Seq<M::Real>,
    l: L,
    k: K,
    result: SolverResult<Iterations>,
    m1: M,
    x1: Seq<M::Real>,
    l1: L,
    k1: K,
) where
    M: NonlinearSystem,
    L: for<'a> LinearSolver<M::Real, SparseView<'a, M::Real>>,
    K: LinearSolver<M::Real, Mat<M::Real>>,
    Cb: FnMut(&IterationStats<M::Real>) -> Control,

    ensures
        sparse_solve(cfg, on_iter, m, x, l, result, m1, x1, l1) ==> exists|
            d: SparseDirection<M::Real>,
            d1: SparseDirection<M::Real>,
        |
            {
                &&& d.rhs.rows() == m.layout_of().residuals() && d.rhs.cols() == 1
                &&& d.out.rows() == m.layout_of().variables() && d.out.cols() == 1
                &&& #[trigger] solves_to(
                    cfg,
                    on_iter,
                    Progress { model: m, lin: l, direction: d, x },
                    result,
                    Progress { model: m1, lin: l1, direction: d1, x: x1 },
                )
            },
        dense_solve(cfg, on_iter, m, x, k, result, m1, x1, k1) ==> exists|
            d: DenseDirection<M::Real>,
            d1: DenseDirection<M::Real>,
        |
            {
                &&& d.jac.rows() == m.layout_of().residuals()
                &&& d.jac.cols() == m.layout_of().variables()
                &&& d.rhs.rows() == m.layout_of().residuals() && d.rhs.cols() == 1
                &&& d.out.rows() == m.layout_of().variables() && d.out.cols() == 1
                &&& #[trigger] solves_to(
                    cfg,
                    on_iter,
                    Progress { model: m, lin: k, direction: d, x },
                    result,
                    Progress { model: m1, lin: k1, direction: d1, x: x1 },
                )
            },
{
}

} // verus!
