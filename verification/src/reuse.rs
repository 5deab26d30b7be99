//! How linear solvers are used again: a symbolic factorization outlives a solve.
use vstd::prelude::*;

use faer::sparse::SymbolicSparseColMat;

use crate::config::{Control, IterationStats, Iterations, NewtonCfg};
use crate::dense::Mat;
use crate::direction::SparseDirection;
use crate::error::SolverResult;
use crate::linalg::{FaerLu, SparseQr};
use crate::numeric::{LuNumeric, QrNumeric};
use crate::pattern::{JacobianCache, SparseView};
use crate::system::{LinearSolver, NonlinearSystem, RowMap};

verus! {

use crate::drivers::sparse_solve;
use crate::linalg::{is_kept_for, lu_of, qr_of};
use crate::matching::lemma_transversal_of_copy;
use crate::scalar::is_infinity;
use crate::solver::{iterates_to, solves_to, takes_turn, turn_leads_to, Progress, Turn};

/// What every factorization of a matrix with the pattern `p`, and every solve after it,
/// keeps of a sparse linear solver.
pub open spec fn is_kept<M, L>(p: SymbolicSparseColMat<usize>, kept: spec_fn(L) -> bool) -> bool where
    M: NonlinearSystem,
    L: for<'a> LinearSolver<M::Real, SparseView<'a, M::Real>>,
 {
    &&& forall|l: L, a: SparseView<'_, M::Real>, l1: L, outcome: SolverResult<()>| #[trigger]
        L::factored(l, a, l1, outcome) && *a.symbolic == p && kept(l) ==> kept(l1)
    &&& forall|
        l: L,
        rhs: Mat<M::Real>,
        before: Mat<M::Real>,
        l1: L,
        after: Mat<M::Real>,
        outcome: SolverResult<()>,
    | #[trigger]
        <L as LinearSolver<M::Real, SparseView<'_, M::Real>>>::solved(
            l,
            rhs,
            before,
            l1,
            after,
            outcome,
        ) && kept(l) ==> kept(l1)
}

/// What every factorization and every solve of a linear system keep of a sparse linear
/// solver, a Newton solve keeps.
pub proof fn law_solver_invariants_are_kept<M, L, Cb>(
    cfg: NewtonCfg<M::Real>,
    on_iter: Cb,
    m: M,
    x: Seq<M::Real>,
    l: L,
    result: SolverResult<Iterations>,
    m1: M,
    x1: Seq<M::Real>,
    l1: L,
    kept: spec_fn(L) -> bool,
) where
    M: NonlinearSystem,
    L: for<'a> LinearSolver<M::Real, SparseView<'a, M::Real>>,
    Cb: FnMut(&IterationStats<M::Real>) -> Control,

    requires
        sparse_solve(cfg, on_iter, m, x, l, result, m1, x1, l1),
        is_kept::<M, L>(m.jacobian_of().pattern(), kept),
        kept(l),
    ensures
        kept(l1),
{
    let (d, d1) = choose|d: SparseDirection<M::Real>, d1: SparseDirection<M::Real>|
        {
            &&& d.is_new(m.layout_of().residuals(), m.layout_of().variables())
            &&& #[trigger] solves_to(
                cfg,
                on_iter,
                Progress { model: m, lin: l, direction: d, x },
                result,
                Progress { model: m1, lin: l1, direction: d1, x: x1 },
            )
        };
    let start = Progress { model: m, lin: l, direction: d, x };
    let end = Progress { model: m1, lin: l1, direction: d1, x: x1 };
    let unbounded = choose|unbounded: M::Real| #[trigger]
        is_infinity(unbounded) && iterates_to(
            cfg,
            on_iter,
            0,
            start,
            cfg.damping,
            unbounded,
            result,
            end,
        );
    lemma_kept_from(cfg, on_iter, 0, start, cfg.damping, unbounded, result, end, kept);
}

/// The same of what is left of a solve before iteration `iter`.
proof fn lemma_kept_from<M, L, Cb>(
    cfg: NewtonCfg<M::Real>,
    on_iter: Cb,
    iter: nat,
    now: Progress<M, L, SparseDirection<M::Real>>,
    damping: M::Real,
    last_res: M::Real,
    result: SolverResult<Iterations>,
    end: Progress<M, L, SparseDirection<M::Real>>,
    kept: spec_fn(L) -> bool,
) where
    M: NonlinearSystem,
    L: for<'a> LinearSolver<M::Real, SparseView<'a, M::Real>>,
    Cb: FnMut(&IterationStats<M::Real>) -> Control,

    requires
        iterates_to(cfg, on_iter, iter, now, damping, last_res, result, end),
        is_kept::<M, L>(now.model.jacobian_of().pattern(), kept),
        kept(now.lin),
    ensures
        kept(end.lin),
    decreases cfg.max_iter - iter,
{
    if iter < cfg.max_iter {
        let turn = choose|turn: Turn<M, L, SparseDirection<M::Real>>| #[trigger]
            takes_turn(cfg, on_iter, iter, now, damping, last_res, turn) && turn_leads_to(
                cfg,
                on_iter,
                iter,
                now,
                turn,
                result,
                end,
            );
        if turn.answer == Control::Continue && !turn.converged {
            assert(kept(turn.after.lin));
            if let (Ok(_), Some((x, d))) = (turn.outcome, turn.next) {
                lemma_kept_from(
                    cfg,
                    on_iter,
                    iter + 1,
                    Progress { x, ..turn.after },
                    d,
                    turn.res,
                    result,
                    end,
                    kept,
                );
            }
        }
    }
}

/// A Newton solve leaves a sparse LU solver with the symbolic factorization that it had,
/// or with the one of the pattern of the Jacobian. A pattern that the solver knows is not
/// analysed again.
pub proof fn law_lu_is_reused<M, N, Cb>(
    cfg: NewtonCfg<M::Real>,
    on_iter: Cb,
    m: M,
    x: Seq<M::Real>,
    lu: FaerLu<N>,
    result: SolverResult<Iterations>,
    m1: M,
    x1: Seq<M::Real>,
    lu1: FaerLu<N>,
) where
    M: NonlinearSystem,
    N: LuNumeric<M::Real>,
    Cb: FnMut(&IterationStats<M::Real>) -> Control,

    requires
        sparse_solve(cfg, on_iter, m, x, lu, result, m1, x1, lu1),
    ensures
        lu.knows(m.jacobian_of().pattern()) ==> lu1.seen() == lu.seen(),
        lu1.seen() == lu.seen() || is_kept_for(
            lu1.seen(),
            lu_of(m.jacobian_of().pattern()),
            m.jacobian_of().pattern(),
        ),
{
    let p = m.jacobian_of().pattern();
    law_solver_invariants_are_kept(
        cfg,
        on_iter,
        m,
        x,
        lu,
        result,
        m1,
        x1,
        lu1,
        |l: FaerLu<N>|
            l.seen() == lu.seen() || is_kept_for(l.seen(), lu_of(p), p),
    );
    if lu.knows(p) {
        law_solver_invariants_are_kept(
            cfg,
            on_iter,
            m,
            x,
            lu,
            result,
            m1,
            x1,
            lu1,
            |l: FaerLu<N>| l.seen() == lu.seen(),
        );
    }
}

/// The same of a sparse QR solver.
pub proof fn law_qr_is_reused<M, N, Cb>(
    cfg: NewtonCfg<M::Real>,
    on_iter: Cb,
    m: M,
    x: Seq<M::Real>,
    qr: SparseQr<N>,
    result: SolverResult<Iterations>,
    m1: M,
    x1: Seq<M::Real>,
    qr1: SparseQr<N>,
) where
    M: NonlinearSystem,
    N: QrNumeric<M::Real>,
    Cb: FnMut(&IterationStats<M::Real>) -> Control,

    requires
        sparse_solve(cfg, on_iter, m, x, qr, result, m1, x1, qr1),
    ensures
        qr.knows(m.jacobian_of().pattern()) ==> qr1.seen() == qr.seen(),
        qr1.seen() == qr.seen() || is_kept_for(
            qr1.seen(),
            qr_of(m.jacobian_of().pattern()),
            m.jacobian_of().pattern(),
        ),
{
    let p = m.jacobian_of().pattern();
    law_solver_invariants_are_kept(
        cfg,
        on_iter,
        m,
        x,
        qr,
        result,
        m1,
        x1,
        qr1,
        |l: SparseQr<N>| l.seen() == qr.seen() || is_kept_for(l.seen(), qr_of(p), p),
    );
    if qr.knows(p) {
        law_solver_invariants_are_kept(
            cfg,
            on_iter,
            m,
            x,
            qr,
            result,
            m1,
            x1,
            qr1,
            |l: SparseQr<N>| l.seen() == qr.seen(),
        );
    }
}

/// Whatever a sparse LU solver is used for, the symbolic factorization that it keeps is
/// the one of the pattern that it keeps it for.
pub proof fn law_lu_stays_consistent<M, N, Cb>(
    cfg: NewtonCfg<M::Real>,
    on_iter: Cb,
    m: M,
    x: Seq<M::Real>,
    lu: FaerLu<N>,
    result: SolverResult<Iterations>,
    m1: M,
    x1: Seq<M::Real>,
    lu1: FaerLu<N>,
) where
    M: NonlinearSystem,
    N: LuNumeric<M::Real>,
    Cb: FnMut(&IterationStats<M::Real>) -> Control,

    requires
        sparse_solve(cfg, on_iter, m, x, lu, result, m1, x1, lu1),
        lu.consistent(),
    ensures
        lu1.consistent(),
{
    law_lu_is_reused(cfg, on_iter, m, x, lu, result, m1, x1, lu1);
    if let Some((_, pattern)) = lu1.seen() {
        if lu1.seen() != lu.seen() {
            lemma_transversal_of_copy(pattern, m.jacobian_of().pattern());
        }
    }
}

/// The same of a sparse QR solver.
pub proof fn law_qr_stays_consistent<M, N, Cb>(
    cfg: NewtonCfg<M::Real>,
    on_iter: Cb,
    m: M,
    x: Seq<M::Real>,
    qr: SparseQr<N>,
    result: SolverResult<Iterations>,
    m1: M,
    x1: Seq<M::Real>,
    qr1: SparseQr<N>,
) where
    M: NonlinearSystem,
    N: QrNumeric<M::Real>,
    Cb: FnMut(&IterationStats<M::Real>) -> Control,

    requires
        sparse_solve(cfg, on_iter, m, x, qr, result, m1, x1, qr1),
        qr.consistent(),
    ensures
        qr1.consistent(),
{
    law_qr_is_reused(cfg, on_iter, m, x, qr, result, m1, x1, qr1);
}

/// What every successful factorization of a matrix with the pattern of the Jacobian brings
/// about, and what is kept from then on, holds after a solve that took more than one
/// iteration.
proof fn lemma_brought_about<M, L, Cb>(
    cfg: NewtonCfg<M::Real>,
    on_iter: Cb,
    m: M,
    x: Seq<M::Real>,
    l: L,
    result: SolverResult<Iterations>,
    m1: M,
    x1: Seq<M::Real>,
    l1: L,
    kept: spec_fn(L) -> bool,
) where
    M: NonlinearSystem,
    L: for<'a> LinearSolver<M::Real, SparseView<'a, M::Real>>,
    Cb: FnMut(&IterationStats<M::Real>) -> Control,

    requires
        sparse_solve(cfg, on_iter, m, x, l, result, m1, x1, l1),
        is_kept::<M, L>(m.jacobian_of().pattern(), kept),
        forall|l: L, a: SparseView<'_, M::Real>, l1: L, outcome: SolverResult<()>| #[trigger]
            L::factored(l, a, l1, outcome) && *a.symbolic == m.jacobian_of().pattern() && outcome
                is Ok ==> kept(l1),
        result matches Ok(n) && n > 1,
    ensures
        kept(l1),
{
    let (d, d1) = choose|d: SparseDirection<M::Real>, d1: SparseDirection<M::Real>|
        {
            &&& d.is_new(m.layout_of().residuals(), m.layout_of().variables())
            &&& #[trigger] solves_to(
                cfg,
                on_iter,
                Progress { model: m, lin: l, direction: d, x },
                result,
                Progress { model: m1, lin: l1, direction: d1, x: x1 },
            )
        };
    let start = Progress { model: m, lin: l, direction: d, x };
    let end = Progress { model: m1, lin: l1, direction: d1, x: x1 };
    let unbounded = choose|unbounded: M::Real| #[trigger]
        is_infinity(unbounded) && iterates_to(
            cfg,
            on_iter,
            0,
            start,
            cfg.damping,
            unbounded,
            result,
            end,
        );
    let turn = choose|turn: Turn<M, L, SparseDirection<M::Real>>| #[trigger]
        takes_turn(cfg, on_iter, 0, start, cfg.damping, unbounded, turn) && turn_leads_to(
            cfg,
            on_iter,
            0,
            start,
            turn,
            result,
            end,
        );
    assert(kept(turn.after.lin));
    if let Some((x, d)) = turn.next {
        lemma_kept_from(
            cfg,
            on_iter,
            1,
            Progress { x, ..turn.after },
            d,
            turn.res,
            result,
            end,
            kept,
        );
    }
}

/// After a solve that succeeded in more than one iteration, a sparse LU solver knows the
/// pattern of the Jacobian: the next solve with that pattern only runs the numeric half.
pub proof fn law_lu_knows_what_it_solved<M, N, Cb>(
    cfg: NewtonCfg<M::Real>,
    on_iter: Cb,
    m: M,
    x: Seq<M::Real>,
    lu: FaerLu<N>,
    result: SolverResult<Iterations>,
    m1: M,
    x1: Seq<M::Real>,
    lu1: FaerLu<N>,
) where
    M: NonlinearSystem,
    N: LuNumeric<M::Real>,
    Cb: FnMut(&IterationStats<M::Real>) -> Control,

    requires
        sparse_solve(cfg, on_iter, m, x, lu, result, m1, x1, lu1),
        result matches Ok(n) && n > 1,
    ensures
        lu1.knows(m.jacobian_of().pattern()),
{
    let p = m.jacobian_of().pattern();
    lemma_brought_about(
        cfg,
        on_iter,
        m,
        x,
        lu,
        result,
        m1,
        x1,
        lu1,
        |l: FaerLu<N>| l.knows(p),
    );
}

/// The same of a sparse QR solver.
pub proof fn law_qr_knows_what_it_solved<M, N, Cb>(
    cfg: NewtonCfg<M::Real>,
    on_iter: Cb,
    m: M,
    x: Seq<M::Real>,
    qr: SparseQr<N>,
    result: SolverResult<Iterations>,
    m1: M,
    x1: Seq<M::Real>,
    qr1: SparseQr<N>,
) where
    M: NonlinearSystem,
    N: QrNumeric<M::Real>,
    Cb: FnMut(&IterationStats<M::Real>) -> Control,

    requires
        sparse_solve(cfg, on_iter, m, x, qr, result, m1, x1, qr1),
        result matches Ok(n) && n > 1,
    ensures
        qr1.knows(m.jacobian_of().pattern()),
{
    let p = m.jacobian_of().pattern();
    lemma_brought_about(
        cfg,
        on_iter,
        m,
        x,
        qr,
        result,
        m1,
        x1,
        qr1,
        |l: SparseQr<N>| l.knows(p),
    );
}

} // verus!
