//! The entry points: a Newton solve with a linear solver of one's own, or with one that
//! suits the problem.
use vstd::prelude::*;

use crate::config::{Control, IterationStats, Iterations, MatrixFormat, NewtonCfg};
use crate::dense::Mat;
use crate::direction::{DenseDirection, SparseDirection};
use crate::error::SolverResult;
use crate::linalg::{DenseLu, FaerLu, SparseQr};
use crate::numeric::Numerics;
use crate::pattern::SparseView;
use crate::solver::newton_iterate;
use crate::system::{LinearSolver, NonlinearSystem, RowMap};

verus! {

use crate::direction::{dense_solvable, sparse_solvable};
use crate::laws::{residual_below, law_success_means_converged};
use crate::solver::{solves_to, Progress};
use crate::system::{fits_in, has_values, same_size, same_structure};

/// The kinds of linear solvers that a solve can be run with.
#[derive(Clone, Copy, Debug, PartialEq, Eq, Structural)]
pub enum Backend {
    /// LU with a full matrix.
    DenseLu,
    /// LU with a sparse matrix.
    SparseLu,
    /// Least squares through QR with a sparse matrix.
    SparseQr,
}

/// The linear solver for a problem: QR unless there are as many equations as unknowns,
/// and otherwise LU in the matrix format that is asked for.
pub open spec fn backend_for(
    format: MatrixFormat,
    n_variables: nat,
    n_residuals: nat,
) -> Backend {
    if n_variables != n_residuals {
        Backend::SparseQr
    } else {
        match format {
            MatrixFormat::Dense => Backend::DenseLu,
            MatrixFormat::Sparse => Backend::SparseLu,
            MatrixFormat::Auto(threshold) => if n_variables < threshold {
                Backend::DenseLu
            } else {
                Backend::SparseLu
            },
        }
    }
}

/// The linear solver for a problem with this many unknowns and equations.
pub fn select_backend(format: MatrixFormat, n_variables: usize, n_residuals: usize) -> (backend:
    Backend)
    ensures
        backend == backend_for(format, n_variables as nat, n_residuals as nat),
{
    if n_variables != n_residuals {
        return Backend::SparseQr;
    }
    let use_dense: bool = match format {
        MatrixFormat::Dense => true,
        MatrixFormat::Sparse => false,
        MatrixFormat::Auto(threshold) => n_variables < threshold,
    };
    if use_dense {
        Backend::DenseLu
    } else {
        Backend::SparseLu
    }
}

/// A solve with the sparse solver `l` that starts with the model `m` at `x` returns
/// `result` and ends with the model `m1` at `x1`, and with the solver `l1`.
pub open spec fn sparse_solve<M, L, Cb>(
    cfg: NewtonCfg<M::Real>,
    on_iter: Cb,
    m: M,
    x: Seq<M::Real>,
    l: L,
    result: SolverResult<Iterations>,
    m1: M,
    x1: Seq<M::Real>,
    l1: L,
) -> bool where
    M: NonlinearSystem,
    L: for<'a> LinearSolver<M::Real, SparseView<'a, M::Real>>,
    Cb: FnMut(&IterationStats<M::Real>) -> Control,
 {
    exists|d: SparseDirection<M::Real>, d1: SparseDirection<M::Real>|
        {
            &&& d.is_new(m.layout_of().residuals(), m.layout_of().variables())
            &&& #[trigger] solves_to(
                cfg,
                on_iter,
                Progress { model: m, lin: l, direction: d, x },
                result,
                Progress { model: m1, lin: l1, direction: d1, x: x1 },
            )
        }
}

/// The same with a dense solver.
pub open spec fn dense_solve<M, L, Cb>(
    cfg: NewtonCfg<M::Real>,
    on_iter: Cb,
    m: M,
    x: Seq<M::Real>,
    l: L,
    result: SolverResult<Iterations>,
    m1: M,
    x1: Seq<M::Real>,
    l1: L,
) -> bool where
    M: NonlinearSystem,
    L: LinearSolver<M::Real, Mat<M::Real>>,
    Cb: FnMut(&IterationStats<M::Real>) -> Control,
 {
    exists|d: DenseDirection<M::Real>, d1: DenseDirection<M::Real>|
        {
            &&& d.is_new(m.layout_of().residuals(), m.layout_of().variables())
            &&& #[trigger] solves_to(
                cfg,
                on_iter,
                Progress { model: m, lin: l, direction: d, x },
                result,
                Progress { model: m1, lin: l1, direction: d1, x: x1 },
            )
        }
}

/// Solves with a sparse linear solver. The solver can be kept for further solves.
pub fn solve_sparse_cb<M, L, Cb>(
    model: &mut M,
    x: &mut [M::Real],
    lin: &mut L,
    cfg: NewtonCfg<M::Real>,
    on_iter: Cb,
) -> (result: SolverResult<Iterations>) where
    M: NonlinearSystem,
    L: for<'a> LinearSolver<M::Real, SparseView<'a, M::Real>>,
    Cb: FnMut(&IterationStats<M::Real>) -> Control,

    requires
        old(x)@.len() == old(model).layout_of().variables(),
        has_values::<M::Real, M::Jacobian>(old(model).jacobian_of()),
        sparse_solvable::<M, L>(*old(model)),
        forall|stats: IterationStats<M::Real>| on_iter.requires((&stats,)),
    ensures
        sparse_solve(
            cfg,
            on_iter,
            *old(model),
            old(x)@,
            *old(lin),
            result,
            *final(model),
            final(x)@,
            *final(lin),
        ),
        result matches Ok(n) ==> 1 <= n <= cfg.max_iter && residual_below(
            *final(model),
            final(x)@,
            cfg.tol,
        ),
        final(x)@.len() == old(x)@.len(),
        same_size(final(model).layout_of(), old(model).layout_of()),
        same_structure::<M::Real, M::Jacobian>(
            final(model).jacobian_of(),
            old(model).jacobian_of(),
        ),
{
    let n_vars: usize = model.layout().n_variables();
    let n_res: usize = model.layout().n_residuals();
    let mut direction: SparseDirection<M::Real> = SparseDirection::new(n_res, n_vars);
    let ghost start = Progress { model: *model, lin: *lin, direction, x: x@ };
    let result = newton_iterate(model, x, lin, &mut direction, cfg, on_iter);
    let ghost end = Progress { model: *model, lin: *lin, direction, x: x@ };
    proof {
        if result is Ok {
            law_success_means_converged(cfg, on_iter, start, result, end);
        }
    }
    result
}

/// Solves with a dense linear solver. The solver can be kept for further solves.
pub fn solve_dense_cb<M, L, Cb>(
    model: &mut M,
    x: &mut [M::Real],
    lu: &mut L,
    cfg: NewtonCfg<M::Real>,
    on_iter: Cb,
) -> (result: SolverResult<Iterations>) where
    M: NonlinearSystem,
    L: LinearSolver<M::Real, Mat<M::Real>>,
    Cb: FnMut(&IterationStats<M::Real>) -> Control,

    requires
        old(x)@.len() == old(model).layout_of().variables(),
        has_values::<M::Real, M::Jacobian>(old(model).jacobian_of()),
        fits_in::<M::Real, M::Jacobian>(
            old(model).jacobian_of(),
            old(model).layout_of().residuals(),
            old(model).layout_of().variables(),
        ),
        dense_solvable::<M, L>(*old(model)),
        forall|stats: IterationStats<M::Real>| on_iter.requires((&stats,)),
    ensures
        dense_solve(
            cfg,
            on_iter,
            *old(model),
            old(x)@,
            *old(lu),
            result,
            *final(model),
            final(x)@,
            *final(lu),
        ),
        result matches Ok(n) ==> 1 <= n <= cfg.max_iter && residual_below(
            *final(model),
            final(x)@,
            cfg.tol,
        ),
        final(x)@.len() == old(x)@.len(),
        same_size(final(model).layout_of(), old(model).layout_of()),
        same_structure::<M::Real, M::Jacobian>(
            final(model).jacobian_of(),
            old(model).jacobian_of(),
        ),
{
    let n_vars: usize = model.layout().n_variables();
    let n_res: usize = model.layout().n_residuals();
    let mut direction: DenseDirection<M::Real> = DenseDirection::new(n_res, n_vars);
    let ghost start = Progress { model: *model, lin: *lu, direction, x: x@ };
    let result = newton_iterate(model, x, lu, &mut direction, cfg, on_iter);
    let ghost end = Progress { model: *model, lin: *lu, direction, x: x@ };
    proof {
        if result is Ok {
            law_success_means_converged(cfg, on_iter, start, result, end);
        }
    }
    result
}

/// A solve can be run with the linear solver for the problem, through the numerical
/// library `K`.
pub open spec fn solvable<M: NonlinearSystem, K: Numerics<M::Real>>(
    format: MatrixFormat,
    m: M,
) -> bool {
    match backend_for(format, m.layout_of().variables(), m.layout_of().residuals()) {
        Backend::DenseLu => {
            &&& fits_in::<M::Real, M::Jacobian>(
                m.jacobian_of(),
                m.layout_of().residuals(),
                m.layout_of().variables(),
            )
            &&& dense_solvable::<M, DenseLu<K::Dense>>(m)
        },
        Backend::SparseLu => sparse_solvable::<M, FaerLu<K::Lu>>(m),
        Backend::SparseQr => sparse_solvable::<M, SparseQr<K::Qr>>(m),
    }
}

/// A solve with a new linear solver, the one for the problem, through the numerical
/// library `K`.
pub open spec fn default_solve<M, K, Cb>(
    cfg: NewtonCfg<M::Real>,
    on_iter: Cb,
    m: M,
    x: Seq<M::Real>,
    result: SolverResult<Iterations>,
    m1: M,
    x1: Seq<M::Real>,
) -> bool where
    M: NonlinearSystem,
    K: Numerics<M::Real>,
    Cb: FnMut(&IterationStats<M::Real>) -> Control,
 {
    match backend_for(cfg.format, m.layout_of().variables(), m.layout_of().residuals()) {
        Backend::DenseLu => exists|l: DenseLu<K::Dense>, l1: DenseLu<K::Dense>|
            l.factorized() is None && #[trigger] dense_solve(
                cfg,
                on_iter,
                m,
                x,
                l,
                result,
                m1,
                x1,
                l1,
            ),
        Backend::SparseLu => exists|l: FaerLu<K::Lu>, l1: FaerLu<K::Lu>|
            {
                &&& l.seen() is None
                &&& call_ensures(K::Lu::default, (), l.numeric())
                &&& #[trigger] sparse_solve(cfg, on_iter, m, x, l, result, m1, x1, l1)
            },
        Backend::SparseQr => exists|l: SparseQr<K::Qr>, l1: SparseQr<K::Qr>|
            {
                &&& l.seen() is None
                &&& l.factorized() is None
                &&& #[trigger] sparse_solve(cfg, on_iter, m, x, l, result, m1, x1, l1)
            },
    }
}

/// Solves with a new linear solver, the one for the problem, and reports every iteration.
pub fn solve_cb<M, K, Cb>(
    model: &mut M,
    x: &mut [M::Real],
    cfg: NewtonCfg<M::Real>,
    on_iter: Cb,
) -> (result: SolverResult<Iterations>) where
    M: NonlinearSystem,
    K: Numerics<M::Real>,
    Cb: FnMut(&IterationStats<M::Real>) -> Control,

    requires
        old(x)@.len() == old(model).layout_of().variables(),
        has_values::<M::Real, M::Jacobian>(old(model).jacobian_of()),
        solvable::<M, K>(cfg.format, *old(model)),
        forall|stats: IterationStats<M::Real>| on_iter.requires((&stats,)),
    ensures
        default_solve::<M, K, Cb>(
            cfg,
            on_iter,
            *old(model),
            old(x)@,
            result,
            *final(model),
            final(x)@,
        ),
        result matches Ok(n) ==> 1 <= n <= cfg.max_iter && residual_below(
            *final(model),
            final(x)@,
            cfg.tol,
        ),
        final(x)@.len() == old(x)@.len(),
        same_size(final(model).layout_of(), old(model).layout_of()),
        same_structure::<M::Real, M::Jacobian>(
            final(model).jacobian_of(),
            old(model).jacobian_of(),
        ),
{
    let n_vars: usize = model.layout().n_variables();
    let n_res: usize = model.layout().n_residuals();
    match select_backend(cfg.format, n_vars, n_res) {
        Backend::DenseLu => {
            let mut lu: DenseLu<K::Dense> = DenseLu::default();
            solve_dense_cb(model, x, &mut lu, cfg, on_iter)
        },
        Backend::SparseLu => {
            let mut lu: FaerLu<K::Lu> = FaerLu::default();
            solve_sparse_cb(model, x, &mut lu, cfg, on_iter)
        },
        Backend::SparseQr => {
            let mut qr: SparseQr<K::Qr> = SparseQr::default();
            solve_sparse_cb(model, x, &mut qr, cfg, on_iter)
        },
    }
}

/// The callback that never cancels.
pub fn keep_going<T>(stats: &IterationStats<T>) -> (answer: Control)
    ensures
        answer == Control::Continue,
{
    Control::Continue
}

/// Solves with a new linear solver, the one for the problem.
pub fn solve<M, K>(model: &mut M, x: &mut [M::Real], cfg: NewtonCfg<M::Real>) -> (result:
    SolverResult<Iterations>) where M: NonlinearSystem, K: Numerics<M::Real>
    requires
        old(x)@.len() == old(model).layout_of().variables(),
        has_values::<M::Real, M::Jacobian>(old(model).jacobian_of()),
        solvable::<M, K>(cfg.format, *old(model)),
    ensures
        default_solve::<M, K, _>(
            cfg,
            keep_going::<M::Real>,
            *old(model),
            old(x)@,
            result,
            *final(model),
            final(x)@,
        ),
        result matches Ok(n) ==> 1 <= n <= cfg.max_iter && residual_below(
            *final(model),
            final(x)@,
            cfg.tol,
        ),
        final(x)@.len() == old(x)@.len(),
        same_size(final(model).layout_of(), old(model).layout_of()),
        same_structure::<M::Real, M::Jacobian>(
            final(model).jacobian_of(),
            old(model).jacobian_of(),
        ),
{
    solve_cb::<M, K, _>(model, x, cfg, keep_going::<M::Real>)
}

} // verus!
