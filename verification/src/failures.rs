//! Why solves fail.
use vstd::prelude::*;

use faer::sparse::SymbolicSparseColMat;

use crate::config::{Control, IterationStats, Iterations, NewtonCfg};
use crate::dense::Mat;
use crate::direction::{DenseDirection, Direction, SparseDirection};
use crate::drivers::Backend;
use crate::error::{Failure, SolverError, SolverResult};
use crate::linalg::{DenseLu, FaerLu, SparseQr};
use crate::numeric::{Numerics, QrNumeric};
use crate::pattern::{JacobianCache, SparseView};
use crate::scalar::Real;
use crate::system::{LinearSolver, NonlinearSystem, RowMap};

verus! {

use crate::direction::{linear_solve, sparse_solvable};
use crate::drivers::{backend_for, default_solve, dense_solve, solvable, sparse_solve};
use crate::scalar::is_infinity;
use crate::solver::{iterates_to, solves_to, takes_turn, turn_leads_to, Progress, Turn};
use crate::system::has_values;

/// A solve gave up with `e` on its own account: the iterations are used up, the callback
/// cancelled, or a line search of an adaptive solve found nothing.
pub open spec fn solve_failed<R: Real, Cb>(cfg: NewtonCfg<R>, on_iter: Cb, e: SolverError) -> bool where
    Cb: FnMut(&IterationStats<R>) -> Control,
 {
    ||| e.reason == Failure::NotConverged(cfg.max_iter)
    ||| e.reason == Failure::Cancelled && exists|stats: IterationStats<R>|
        stats.iter < cfg.max_iter && #[trigger] call_ensures(on_iter, (&stats,), Control::Cancel)
    ||| e.reason == Failure::LineSearchFailed && cfg.adaptive
}

/// The linear solver, or the computation of the direction with it, failed with `e`.
pub open spec fn direction_failed<M: NonlinearSystem, L, D: Direction<M, L>>(
    e: SolverError,
) -> bool {
    exists|
        pre: D,
        m: M,
        l: L,
        x: Seq<M::Real>,
        f: Seq<M::Real>,
        post: D,
        m1: M,
        l1: L,
        dir: Seq<M::Real>,
    | #[trigger]
        D::computed(pre, m, l, x, f, post, m1, l1, dir, Err::<(), SolverError>(e))
}

/// A solve fails for one of four reasons: the iterations are used up, the callback
/// cancelled, a line search of an adaptive solve found nothing, or the linear solver
/// failed, whose error is then passed on.
pub proof fn law_failures_have_a_cause<M, L, D, Cb>(
    cfg: NewtonCfg<M::Real>,
    on_iter: Cb,
    start: Progress<M, L, D>,
    result: SolverResult<Iterations>,
    end: Progress<M, L, D>,
) where
    M: NonlinearSystem,
    D: Direction<M, L>,
    Cb: FnMut(&IterationStats<M::Real>) -> Control,

    requires
        solves_to(cfg, on_iter, start, result, end),
        result is Err,
    ensures
        solve_failed(cfg, on_iter, result->Err_0) || direction_failed::<M, L, D>(result->Err_0),
{
    let unbounded = choose|unbounded: M::Real| #[trigger]
        is_infinity(unbounded) && iterates_to(
            cfg,
            on_iter,
            0,
            start,
            cfg.damping,
            unbounded,
            result,
            end,
        );
    lemma_failure_from(cfg, on_iter, 0, start, cfg.damping, unbounded, result, end);
}

/// The same of what is left of a solve before iteration `iter`.
proof fn lemma_failure_from<M, L, D, Cb>(
    cfg: NewtonCfg<M::Real>,
    on_iter: Cb,
    iter: nat,
    now: Progress<M, L, D>,
    damping: M::Real,
    last_res: M::Real,
    result: SolverResult<Iterations>,
    end: Progress<M, L, D>,
) where
    M: NonlinearSystem,
    D: Direction<M, L>,
    Cb: FnMut(&IterationStats<M::Real>) -> Control,

    requires
        iterates_to(cfg, on_iter, iter, now, damping, last_res, result, end),
        result is Err,
    ensures
        solve_failed(cfg, on_iter, result->Err_0) || direction_failed::<M, L, D>(result->Err_0),
    decreases cfg.max_iter - iter,
{
    if iter < cfg.max_iter {
        let turn = choose|turn: Turn<M, L, D>| #[trigger]
            takes_turn(cfg, on_iter, iter, now, damping, last_res, turn) && turn_leads_to(
                cfg,
                on_iter,
                iter,
                now,
                turn,
                result,
                end,
            );
        if turn.answer == Control::Continue && !turn.converged && turn.outcome is Ok {
            if let Some((x, d)) = turn.next {
                lemma_failure_from(
                    cfg,
                    on_iter,
                    iter + 1,
                    Progress { x, ..turn.after },
                    d,
                    turn.res,
                    result,
                    end,
                );
            }
        }
    }
}

/// A system with the pattern `p`, handed to a sparse linear solver with an output of
/// `n_out` rows, failed with `e`.
pub open spec fn system_failed<M, L>(
    p: SymbolicSparseColMat<usize>,
    n_out: nat,
    e: SolverError,
) -> bool where
    M: NonlinearSystem,
    L: for<'a> LinearSolver<M::Real, SparseView<'a, M::Real>>,
 {
    exists|
        l: L,
        a: SparseView<'_, M::Real>,
        f: Seq<M::Real>,
        rhs: Mat<M::Real>,
        before: Mat<M::Real>,
        after: Mat<M::Real>,
        l1: L,
        dir: Seq<M::Real>,
    |
        {
            &&& *a.symbolic == p
            &&& a.wf()
            &&& before.rows() == n_out
            &&& before.cols() == 1
            &&& #[trigger] linear_solve(
                l,
                a,
                f,
                rhs,
                before,
                after,
                l1,
                dir,
                Err::<(), SolverError>(e),
            )
        }
}

/// What is left of a sparse solve before iteration `iter` fails for one of four reasons;
/// a failure of the linear solver is one on a system with the pattern of the Jacobian.
proof fn lemma_sparse_failure_from<M, L, Cb>(
    cfg: NewtonCfg<M::Real>,
    on_iter: Cb,
    iter: nat,
    now: Progress<M, L, SparseDirection<M::Real>>,
    damping: M::Real,
    last_res: M::Real,
    result: SolverResult<Iterations>,
    end: Progress<M, L, SparseDirection<M::Real>>,
) where
    M: NonlinearSystem,
    L: for<'a> LinearSolver<M::Real, SparseView<'a, M::Real>>,
    Cb: FnMut(&IterationStats<M::Real>) -> Control,

    requires
        iterates_to(cfg, on_iter, iter, now, damping, last_res, result, end),
        has_values::<M::Real, M::Jacobian>(now.model.jacobian_of()),
        now.direction.out.cols() == 1,
        result is Err,
    ensures
        solve_failed(cfg, on_iter, result->Err_0) || system_failed::<M, L>(
            now.model.jacobian_of().pattern(),
            now.direction.out.rows(),
            result->Err_0,
        ),
    decreases cfg.max_iter - iter,
{
    if iter < cfg.max_iter {
        let turn = choose|turn: Turn<M, L, SparseDirection<M::Real>>| #[trigger]
            takes_turn(cfg, on_iter, iter, now, damping, last_res, turn) && turn_leads_to(
                cfg,
                on_iter,
                iter,
                now,
                turn,
                result,
                end,
            );
        if turn.answer == Control::Continue && !turn.converged {
            if let (Ok(_), Some((x, d))) = (turn.outcome, turn.next) {
                lemma_sparse_failure_from(
                    cfg,
                    on_iter,
                    iter + 1,
                    Progress { x, ..turn.after },
                    d,
                    turn.res,
                    result,
                    end,
                );
            }
        }
    }
}

/// A sparse solve fails for one of four reasons; a failure of the linear solver is one on
/// a system with the pattern of the Jacobian.
proof fn lemma_sparse_failure<M, L, Cb>(
    cfg: NewtonCfg<M::Real>,
    on_iter: Cb,
    m: M,
    x: Seq<M::Real>,
    l: L,
    result: SolverResult<Iterations>,
    m1: M,
    x1: Seq<M::Real>,
    l1: L,
) where
    M: NonlinearSystem,
    L: for<'a> LinearSolver<M::Real, SparseView<'a, M::Real>>,
    Cb: FnMut(&IterationStats<M::Real>) -> Control,

    requires
        sparse_solve(cfg, on_iter, m, x, l, result, m1, x1, l1),
        has_values::<M::Real, M::Jacobian>(m.jacobian_of()),
        result is Err,
    ensures
        solve_failed(cfg, on_iter, result->Err_0) || system_failed::<M, L>(
            m.jacobian_of().pattern(),
            m.layout_of().variables(),
            result->Err_0,
        ),
{
    let (d, d1) = choose|d: SparseDirection<M::Real>, d1: SparseDirection<M::Real>|
        {
            &&& d.is_new(m.layout_of().residuals(), m.layout_of().variables())
            &&& #[trigger] solves_to(
                cfg,
                on_iter,
                Progress { model: m, lin: l, direction: d, x },
                result,
                Progress { model: m1, lin: l1, direction: d1, x: x1 },
            )
        };
    let start = Progress { model: m, lin: l, direction: d, x };
    let end = Progress { model: m1, lin: l1, direction: d1, x: x1 };
    let unbounded = choose|unbounded: M::Real| #[trigger]
        is_infinity(unbounded) && iterates_to(
            cfg,
            on_iter,
            0,
            start,
            cfg.damping,
            unbounded,
            result,
            end,
        );
    lemma_sparse_failure_from(cfg, on_iter, 0, start, cfg.damping, unbounded, result, end);
}

/// A sparse QR solver fails on a system that it can solve with only where one of the two
/// halves of the factorization fails.
proof fn lemma_qr_system_failure<M: NonlinearSystem, N: QrNumeric<M::Real>>(m: M, e: SolverError)
    requires
        sparse_solvable::<M, SparseQr<N>>(m),
        system_failed::<M, SparseQr<N>>(m.jacobian_of().pattern(), m.layout_of().variables(), e),
    ensures
        e.reason == Failure::SymbolicQr || e.reason == Failure::NumericQr,
{
    let n_out = m.layout_of().variables();
    let (l, a, f, rhs, before, after, l1, dir) = choose|
        l: SparseQr<N>,
        a: SparseView<'_, M::Real>,
        f: Seq<M::Real>,
        rhs: Mat<M::Real>,
        before: Mat<M::Real>,
        after: Mat<M::Real>,
        l1: SparseQr<N>,
        dir: Seq<M::Real>,
    |
        {
            &&& *a.symbolic == m.jacobian_of().pattern()
            &&& a.wf()
            &&& before.rows() == n_out
            &&& before.cols() == 1
            &&& #[trigger] linear_solve(
                l,
                a,
                f,
                rhs,
                before,
                after,
                l1,
                dir,
                Err::<(), SolverError>(e),
            )
        };
    assert(SparseQr::<N>::factorable(a));
}

/// A linear solver of the kind that was chosen can fail with this.
pub open spec fn backend_fails_with(backend: Backend, reason: Failure) -> bool {
    match backend {
        Backend::DenseLu => false,
        Backend::SparseLu => reason == Failure::SymbolicLu || reason == Failure::NumericLu,
        Backend::SparseQr => reason == Failure::SymbolicQr || reason == Failure::NumericQr,
    }
}

/// A solve with the linear solver for the problem fails for one of four reasons: the
/// iterations are used up, the callback cancelled, a line search of an adaptive solve
/// found nothing, or a sparse factorization failed.
pub proof fn law_failures_of_a_solve<M, K, Cb>(
    cfg: NewtonCfg<M::Real>,
    on_iter: Cb,
    m: M,
    x: Seq<M::Real>,
    result: SolverResult<Iterations>,
    m1: M,
    x1: Seq<M::Real>,
) where
    M: NonlinearSystem,
    K: Numerics<M::Real>,
    Cb: FnMut(&IterationStats<M::Real>) -> Control,

    requires
        default_solve::<M, K, Cb>(cfg, on_iter, m, x, result, m1, x1),
        has_values::<M::Real, M::Jacobian>(m.jacobian_of()),
        solvable::<M, K>(cfg.format, m),
        result is Err,
    ensures
        solve_failed(cfg, on_iter, result->Err_0) || backend_fails_with(
            backend_for(cfg.format, m.layout_of().variables(), m.layout_of().residuals()),
            result->Err_0.reason,
        ),
{
    let e = result->Err_0;
    let p = m.jacobian_of().pattern();
    match backend_for(cfg.format, m.layout_of().variables(), m.layout_of().residuals()) {
        Backend::DenseLu => {
            let (l, l1) = choose|l: DenseLu<K::Dense>, l1: DenseLu<K::Dense>|
                l.factorized() is None && #[trigger] dense_solve(
                    cfg,
                    on_iter,
                    m,
                    x,
                    l,
                    result,
                    m1,
                    x1,
                    l1,
                );
            let (d, d1) = choose|d: DenseDirection<M::Real>, d1: DenseDirection<M::Real>|
                {
                    &&& d.is_new(m.layout_of().residuals(), m.layout_of().variables())
                    &&& #[trigger] solves_to(
                        cfg,
                        on_iter,
                        Progress { model: m, lin: l, direction: d, x },
                        result,
                        Progress { model: m1, lin: l1, direction: d1, x: x1 },
                    )
                };
            law_failures_have_a_cause(
                cfg,
                on_iter,
                Progress { model: m, lin: l, direction: d, x },
                result,
                Progress { model: m1, lin: l1, direction: d1, x: x1 },
            );
        },
        Backend::SparseLu => {
            let (l, l1) = choose|l: FaerLu<K::Lu>, l1: FaerLu<K::Lu>| #[trigger]
                sparse_solve(cfg, on_iter, m, x, l, result, m1, x1, l1);
            lemma_sparse_failure(cfg, on_iter, m, x, l, result, m1, x1, l1);
        },
        Backend::SparseQr => {
            let (l, l1) = choose|l: SparseQr<K::Qr>, l1: SparseQr<K::Qr>| #[trigger]
                sparse_solve(cfg, on_iter, m, x, l, result, m1, x1, l1);
            lemma_sparse_failure(cfg, on_iter, m, x, l, result, m1, x1, l1);
            if system_failed::<M, SparseQr<K::Qr>>(p, m.layout_of().variables(), e) {
                lemma_qr_system_failure::<M, K::Qr>(m, e);
            }
        },
    }
}

} // verus!
