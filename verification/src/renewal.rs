//! Two solves of one problem come to the same; above all, a linear solver that was used
//! before answers as a new one.
use vstd::prelude::*;

use faer::sparse::linalg::lu::SymbolicLu;
use faer::sparse::linalg::solvers::SymbolicQr;
use faer::sparse::SymbolicSparseColMat;

use crate::config::{Control, IterationStats, Iterations, NewtonCfg};
use crate::dense::Mat;
use crate::direction::SparseDirection;
use crate::error::{Failure, SolverResult};
use crate::linalg::{FaerLu, SparseQr};
use crate::numeric::{LuNumeric, QrNumeric};
use crate::pattern::{JacobianCache, SparseView};
use crate::scalar::Real;
use crate::system::{LinearSolver, NonlinearSystem, RowMap};

verus! {

use crate::damping::{
    is_adapted,
    is_divergence,
    is_lowered,
    is_moved,
    is_peak,
    is_raised,
    is_step,
};
use crate::direction::{is_first_column, is_negated_column, linear_solve};
use crate::drivers::sparse_solve;
use crate::linalg::{is_kept_for, lu_completed, lu_of, qr_completed, qr_of};
use crate::numeric::qr_keeps_shape;
use crate::scalar::{
    is_below,
    is_finite,
    is_infinity,
    is_magnitude,
    is_negation,
    is_product,
    is_sum,
    is_zero,
};
use crate::search::{advances_to, line_search_finds};
use crate::solver::{fails, iterates_to, solves_to, takes_turn, turn_leads_to, Progress, Turn};

/// Every operation on scalars gives the same for the same, every time.
pub open spec fn computes_alike<R: Real>() -> bool {
    &&& forall|a: R, b: R| #[trigger] is_zero(a) && #[trigger] is_zero(b) ==> a == b
    &&& forall|a: R, b: R| #[trigger] is_infinity(a) && #[trigger] is_infinity(b) ==> a == b
    &&& forall|a: R, b: R, s: R, t: R| #[trigger]
        is_sum(a, b, s) && #[trigger] is_sum(a, b, t) ==> s == t
    &&& forall|a: R, b: R, s: R, t: R| #[trigger]
        is_product(a, b, s) && #[trigger] is_product(a, b, t) ==> s == t
    &&& forall|a: R, s: R, t: R| #[trigger]
        is_negation(a, s) && #[trigger] is_negation(a, t) ==> s == t
    &&& forall|a: R, s: R, t: R| #[trigger]
        is_magnitude(a, s) && #[trigger] is_magnitude(a, t) ==> s == t
    &&& forall|a: R, b: R, s: bool, t: bool| #[trigger]
        is_below(a, b, s) && #[trigger] is_below(a, b, t) ==> s == t
    &&& forall|a: R, s: bool, t: bool| #[trigger]
        is_finite(a, s) && #[trigger] is_finite(a, t) ==> s == t
}

/// The model refreshes its Jacobian the same way every time, and the callback answers the
/// same every time.
pub open spec fn behaves_alike<M, Cb>(on_iter: Cb) -> bool where
    M: NonlinearSystem,
    Cb: FnMut(&IterationStats<M::Real>) -> Control,
 {
    &&& forall|m: M, x: Seq<M::Real>, a: M, b: M| #[trigger]
        m.refreshed(x, a) && #[trigger] m.refreshed(x, b) ==> a == b
    &&& forall|stats: IterationStats<M::Real>, a: Control, b: Control| #[trigger]
        call_ensures(on_iter, (&stats,), a) && #[trigger] call_ensures(on_iter, (&stats,), b) ==> a
            == b
}

/// A vector has one largest magnitude.
proof fn lemma_one_peak<R: Real>(f: Seq<R>, a: R, b: R)
    requires
        computes_alike::<R>(),
        is_peak(f, a),
        is_peak(f, b),
    ensures
        a == b,
    decreases f.len(),
{
    if f.len() > 0 {
        let (so_far, mag, keep) = choose|so_far: R, mag: R, keep: bool|
            {
                &&& is_peak(f.drop_last(), so_far)
                &&& #[trigger] is_magnitude(f.last(), mag)
                &&& #[trigger] is_below(mag, so_far, keep)
                &&& a == (if keep {
                    so_far
                } else {
                    mag
                })
            };
        let (so_far1, mag1, keep1) = choose|so_far: R, mag: R, keep: bool|
            {
                &&& is_peak(f.drop_last(), so_far)
                &&& #[trigger] is_magnitude(f.last(), mag)
                &&& #[trigger] is_below(mag, so_far, keep)
                &&& b == (if keep {
                    so_far
                } else {
                    mag
                })
            };
        lemma_one_peak(f.drop_last(), so_far, so_far1);
    }
}

/// A step leads to one point.
proof fn lemma_one_step<R: Real>(x: Seq<R>, alpha: R, dir: Seq<R>, a: Seq<R>, b: Seq<R>)
    requires
        computes_alike::<R>(),
        is_step(x, alpha, dir, a),
        is_step(x, alpha, dir, b),
    ensures
        a == b,
{
    assert forall|i: int| 0 <= i < a.len() implies a[i] == b[i] by {
        assert(is_moved(x[i], alpha, dir[i], a[i]));
        assert(is_moved(x[i], alpha, dir[i], b[i]));
    }
    assert(a =~= b);
}

/// A line search finds one thing.
proof fn lemma_one_find<M: NonlinearSystem>(
    m: M,
    cfg: NewtonCfg<M::Real>,
    x: Seq<M::Real>,
    dir: Seq<M::Real>,
    res: M::Real,
    alpha: M::Real,
    trials: nat,
    a: Option<(Seq<M::Real>, M::Real)>,
    b: Option<(Seq<M::Real>, M::Real)>,
)
    requires
        computes_alike::<M::Real>(),
        line_search_finds(m, cfg, x, dir, res, alpha, trials, a),
        line_search_finds(m, cfg, x, dir, res, alpha, trials, b),
    ensures
        a == b,
    decreases trials,
{
    if trials > 0 {
        let (point, peak, better) = choose|point: Seq<M::Real>, peak: M::Real, better: bool|
            {
                &&& #[trigger] is_step(x, alpha, dir, point)
                &&& is_peak(m.residual_at(point), peak)
                &&& #[trigger] is_below(peak, res, better)
                &&& if better {
                    a == Some((point, alpha))
                } else {
                    search_goes_on(m, cfg, x, dir, res, alpha, trials, a)
                }
            };
        let (point1, peak1, better1) = choose|point: Seq<M::Real>, peak: M::Real, better: bool|
            {
                &&& #[trigger] is_step(x, alpha, dir, point)
                &&& is_peak(m.residual_at(point), peak)
                &&& #[trigger] is_below(peak, res, better)
                &&& if better {
                    b == Some((point, alpha))
                } else {
                    search_goes_on(m, cfg, x, dir, res, alpha, trials, b)
                }
            };
        lemma_one_step(x, alpha, dir, point, point1);
        lemma_one_peak(m.residual_at(point), peak, peak1);
        if !better {
            let (shorter, spent) = choose|shorter: M::Real, spent: bool|
                {
                    &&& #[trigger] is_product(alpha, cfg.ls_backtrack, shorter)
                    &&& #[trigger] is_below(shorter, cfg.min_damping, spent)
                    &&& if spent {
                        a is None
                    } else {
                        line_search_finds(
                            m,
                            cfg,
                            x,
                            dir,
                            res,
                            shorter,
                            (trials - 1) as nat,
                            a,
                        )
                    }
                };
            let (shorter1, spent1) = choose|shorter: M::Real, spent: bool|
                {
                    &&& #[trigger] is_product(alpha, cfg.ls_backtrack, shorter)
                    &&& #[trigger] is_below(shorter, cfg.min_damping, spent)
                    &&& if spent {
                        b is None
                    } else {
                        line_search_finds(
                            m,
                            cfg,
                            x,
                            dir,
                            res,
                            shorter,
                            (trials - 1) as nat,
                            b,
                        )
                    }
                };
            if !spent {
                lemma_one_find(m, cfg, x, dir, res, shorter, (trials - 1) as nat, a, b);
            }
        }
    }
}

/// What a line search comes to after a trial that failed.
spec fn search_goes_on<M: NonlinearSystem>(
    m: M,
    cfg: NewtonCfg<M::Real>,
    x: Seq<M::Real>,
    dir: Seq<M::Real>,
    res: M::Real,
    alpha: M::Real,
    trials: nat,
    found: Option<(Seq<M::Real>, M::Real)>,
) -> bool {
    exists|shorter: M::Real, spent: bool|
        {
            &&& #[trigger] is_product(alpha, cfg.ls_backtrack, shorter)
            &&& #[trigger] is_below(shorter, cfg.min_damping, spent)
            &&& if spent {
                found is None
            } else {
                line_search_finds(m, cfg, x, dir, res, shorter, (trials - 1) as nat, found)
            }
        }
}

/// A damping is lowered to one value.
proof fn lemma_one_lowered<R: Real>(cfg: NewtonCfg<R>, damping: R, a: R, b: R)
    requires
        computes_alike::<R>(),
        is_lowered(cfg, damping, a),
        is_lowered(cfg, damping, b),
    ensures
        a == b,
{
}

/// A damping is adapted to one value.
proof fn lemma_one_adapted<R: Real>(cfg: NewtonCfg<R>, damping: R, res: R, last_res: R, a: R, b: R)
    requires
        computes_alike::<R>(),
        is_adapted(cfg, damping, res, last_res, a),
        is_adapted(cfg, damping, res, last_res, b),
    ensures
        a == b,
{
    if is_raised(cfg, damping, a) && is_raised(cfg, damping, b) {
    } else {
        lemma_one_lowered(cfg, damping, a, b);
    }
}

/// One iteration leads to one point and one damping.
proof fn lemma_one_advance<M: NonlinearSystem>(
    m: M,
    cfg: NewtonCfg<M::Real>,
    x: Seq<M::Real>,
    dir: Seq<M::Real>,
    res: M::Real,
    damping: M::Real,
    last_res: M::Real,
    a: Option<(Seq<M::Real>, M::Real)>,
    b: Option<(Seq<M::Real>, M::Real)>,
)
    requires
        computes_alike::<M::Real>(),
        advances_to(m, cfg, x, dir, res, damping, last_res, a),
        advances_to(m, cfg, x, dir, res, damping, last_res, b),
    ensures
        a == b,
{
    if !cfg.adaptive {
        if let (Some((p, _)), Some((q, _))) = (a, b) {
            lemma_one_step(x, damping, dir, p, q);
        }
    } else {
        let (d, blew_up) = choose|d: M::Real, blew_up: bool|
            {
                &&& #[trigger] is_adapted(cfg, damping, res, last_res, d)
                &&& #[trigger] is_divergence(cfg, res, last_res, blew_up)
                &&& guarded_step(m, cfg, x, dir, res, d, blew_up, a)
            };
        let (d1, blew_up1) = choose|d: M::Real, blew_up: bool|
            {
                &&& #[trigger] is_adapted(cfg, damping, res, last_res, d)
                &&& #[trigger] is_divergence(cfg, res, last_res, blew_up)
                &&& guarded_step(m, cfg, x, dir, res, d, blew_up, b)
            };
        lemma_one_adapted(cfg, damping, res, last_res, d, d1);
        assert(blew_up == blew_up1);
        if blew_up {
            let first = choose|first: M::Real| #[trigger]
                is_lowered(cfg, d, first) && line_search_finds(
                    m,
                    cfg,
                    x,
                    dir,
                    res,
                    first,
                    cfg.ls_max_steps as nat,
                    a,
                );
            let first1 = choose|first: M::Real| #[trigger]
                is_lowered(cfg, d, first) && line_search_finds(
                    m,
                    cfg,
                    x,
                    dir,
                    res,
                    first,
                    cfg.ls_max_steps as nat,
                    b,
                );
            lemma_one_lowered(cfg, d, first, first1);
            lemma_one_find(m, cfg, x, dir, res, first, cfg.ls_max_steps as nat, a, b);
        } else {
            if let (Some((p, _)), Some((q, _))) = (a, b) {
                lemma_one_step(x, d, dir, p, q);
            }
        }
    }
}

/// Where an adaptive iteration leads once its damping is adapted.
spec fn guarded_step<M: NonlinearSystem>(
    m: M,
    cfg: NewtonCfg<M::Real>,
    x: Seq<M::Real>,
    dir: Seq<M::Real>,
    res: M::Real,
    adapted: M::Real,
    blew_up: bool,
    next: Option<(Seq<M::Real>, M::Real)>,
) -> bool {
    if blew_up {
        exists|first: M::Real| #[trigger]
            is_lowered(cfg, adapted, first) && line_search_finds(
                m,
                cfg,
                x,
                dir,
                res,
                first,
                cfg.ls_max_steps as nat,
                next,
            )
    } else {
        next matches Some((point, d)) && d == adapted && is_step(x, adapted, dir, point)
    }
}

/// The views are of the same matrix.
pub open spec fn same_matrix<T>(a: SparseView<'_, T>, b: SparseView<'_, T>) -> bool {
    *a.symbolic == *b.symbolic && a.values@ == b.values@
}

/// Two sparse linear solvers that are `at_rest` with each other come to the same for a
/// matrix with the pattern `p`, unless one fails for the reason `bad`, and are then
/// `in_step`; two that are `in_step` come to the same for a right-hand side, and are then
/// `at_rest`.
pub open spec fn answers_alike<M, L>(
    p: SymbolicSparseColMat<usize>,
    bad: Failure,
    at_rest: spec_fn(L, L) -> bool,
    in_step: spec_fn(L, L) -> bool,
) -> bool where
    M: NonlinearSystem,
    L: for<'a> LinearSolver<M::Real, SparseView<'a, M::Real>>,
 {
    &&& forall|
        l: L,
        k: L,
        a: SparseView<'_, M::Real>,
        b: SparseView<'_, M::Real>,
        l1: L,
        k1: L,
        r: SolverResult<()>,
        s: SolverResult<()>,
    |
        #![trigger L::factored(l, a, l1, r), L::factored(k, b, k1, s)]
        L::factored(l, a, l1, r) && L::factored(k, b, k1, s) && at_rest(l, k) && same_matrix(a, b)
            && *a.symbolic == p && r != fails::<()>(bad) && s != fails::<()>(bad) ==> r == s && (r
            is Ok ==> in_step(l1, k1))
    &&& forall|
        l: L,
        k: L,
        f: Mat<M::Real>,
        g: Mat<M::Real>,
        before: Mat<M::Real>,
        before1: Mat<M::Real>,
        l1: L,
        k1: L,
        after: Mat<M::Real>,
        after1: Mat<M::Real>,
        r: SolverResult<()>,
        s: SolverResult<()>,
    |
        #![trigger
            <L as LinearSolver<M::Real, SparseView<'_, M::Real>>>::solved(
                l, f, before, l1, after, r
            ),
            <L as LinearSolver<M::Real, SparseView<'_, M::Real>>>::solved(
                k, g, before1, k1, after1, s
            )
        ]
        <L as LinearSolver<M::Real, SparseView<'_, M::Real>>>::solved(l, f, before, l1, after, r)
            && <L as LinearSolver<M::Real, SparseView<'_, M::Real>>>::solved(
            k,
            g,
            before1,
            k1,
            after1,
            s,
        ) && in_step(l, k) && f.same_entries(g) && before.same_entries(before1)
            && after.same_shape(before) && after1.same_shape(before1) ==> r == s && (r is Ok ==> {
            &&& after.same_entries(after1)
            &&& at_rest(l1, k1)
        })
}

/// Two linear systems that are the same come to the same.
proof fn lemma_one_direction<M, L>(
    bad: Failure,
    at_rest: spec_fn(L, L) -> bool,
    in_step: spec_fn(L, L) -> bool,
    l: L,
    k: L,
    a: SparseView<'_, M::Real>,
    b: SparseView<'_, M::Real>,
    f: Seq<M::Real>,
    rhs: Mat<M::Real>,
    rhs1: Mat<M::Real>,
    before: Mat<M::Real>,
    before1: Mat<M::Real>,
    after: Mat<M::Real>,
    after1: Mat<M::Real>,
    l1: L,
    k1: L,
    dir: Seq<M::Real>,
    dir1: Seq<M::Real>,
    r: SolverResult<()>,
    s: SolverResult<()>,
) where
    M: NonlinearSystem,
    L: for<'a> LinearSolver<M::Real, SparseView<'a, M::Real>>,

    requires
        computes_alike::<M::Real>(),
        answers_alike::<M, L>(*a.symbolic, bad, at_rest, in_step),
        at_rest(l, k),
        same_matrix(a, b),
        before.cols() == 1,
        before.same_entries(before1),
        after.same_shape(before),
        after1.same_shape(before1),
        linear_solve(l, a, f, rhs, before, after, l1, dir, r),
        linear_solve(k, b, f, rhs1, before1, after1, k1, dir1, s),
        r != fails::<()>(bad),
        s != fails::<()>(bad),
    ensures
        r == s,
        r is Ok ==> dir == dir1 && after.same_entries(after1) && at_rest(l1, k1),
{
    let (mid, first) = choose|mid: L, first: SolverResult<()>| #[trigger]
        L::factored(l, a, mid, first) && match first {
            Err(e) => r == first && l1 == mid,
            Ok(_) => {
                &&& is_negated_column(f, rhs)
                &&& L::solved(mid, rhs, before, l1, after, r)
                &&& r is Ok ==> is_first_column(after, dir)
            },
        };
    let (mid1, first1) = choose|mid: L, first: SolverResult<()>| #[trigger]
        L::factored(k, b, mid, first) && match first {
            Err(e) => s == first && k1 == mid,
            Ok(_) => {
                &&& is_negated_column(f, rhs1)
                &&& L::solved(mid, rhs1, before1, k1, after1, s)
                &&& s is Ok ==> is_first_column(after1, dir1)
            },
        };
    assert(first == first1);
    if first is Ok {
        assert forall|i: int, j: int| rhs.covers(i, j) implies #[trigger] rhs.at(i, j) == rhs1.at(
            i,
            j,
        ) by {
            assert(is_negation(f[i], rhs.at(i, 0)));
            assert(is_negation(f[i], rhs1.at(i, 0)));
        }
        assert(rhs.same_entries(rhs1));
        assert(in_step(mid, mid1));
        assert(r == s);
        if r is Ok {
            assert(after.same_entries(after1));
            assert forall|i: int| 0 <= i < dir.len() implies dir[i] == dir1[i] by {
                assert(after.covers(i, 0));
                assert(after.at(i, 0) == after1.at(i, 0));
            }
            assert(dir =~= dir1);
        }
    }
}

/// Two solves that stand at the same point before iteration `iter`, with linear solvers
/// that are at rest with each other, come to the same.
proof fn lemma_in_lockstep<M, L, Cb>(
    cfg: NewtonCfg<M::Real>,
    on_iter: Cb,
    iter: nat,
    now: Progress<M, L, SparseDirection<M::Real>>,
    now1: Progress<M, L, SparseDirection<M::Real>>,
    damping: M::Real,
    last_res: M::Real,
    result: SolverResult<Iterations>,
    end: Progress<M, L, SparseDirection<M::Real>>,
    result1: SolverResult<Iterations>,
    end1: Progress<M, L, SparseDirection<M::Real>>,
    bad: Failure,
    at_rest: spec_fn(L, L) -> bool,
    in_step: spec_fn(L, L) -> bool,
) where
    M: NonlinearSystem,
    L: for<'a> LinearSolver<M::Real, SparseView<'a, M::Real>>,
    Cb: FnMut(&IterationStats<M::Real>) -> Control,

    requires
        iterates_to(cfg, on_iter, iter, now, damping, last_res, result, end),
        iterates_to(cfg, on_iter, iter, now1, damping, last_res, result1, end1),
        computes_alike::<M::Real>(),
        behaves_alike::<M, Cb>(on_iter),
        answers_alike::<M, L>(now.model.jacobian_of().pattern(), bad, at_rest, in_step),
        now.model == now1.model,
        now.x == now1.x,
        now.direction.out.cols() == 1,
        now.direction.out.same_entries(now1.direction.out),
        at_rest(now.lin, now1.lin),
        result != fails::<Iterations>(bad),
        result1 != fails::<Iterations>(bad),
    ensures
        result == result1,
        end.model == end1.model,
        end.x == end1.x,
    decreases cfg.max_iter - iter,
{
    if iter < cfg.max_iter {
        let turn = choose|turn: Turn<M, L, SparseDirection<M::Real>>| #[trigger]
            takes_turn(cfg, on_iter, iter, now, damping, last_res, turn) && turn_leads_to(
                cfg,
                on_iter,
                iter,
                now,
                turn,
                result,
                end,
            );
        let turn1 = choose|turn: Turn<M, L, SparseDirection<M::Real>>| #[trigger]
            takes_turn(cfg, on_iter, iter, now1, damping, last_res, turn) && turn_leads_to(
                cfg,
                on_iter,
                iter,
                now1,
                turn,
                result1,
                end1,
            );
        let f = now.model.residual_at(now.x);
        lemma_one_peak(f, turn.res, turn1.res);
        assert(turn.answer == turn1.answer);
        if turn.answer == Control::Continue {
            assert(turn.converged == turn1.converged);
        }
        if turn.answer == Control::Continue && !turn.converged {
            assert(turn.after.model == turn1.after.model);
            let m1 = turn.after.model;
            let a = choose|a: SparseView<'_, M::Real>|
                {
                    &&& *a.symbolic == m1.jacobian_of().pattern()
                    &&& a.values@ == m1.jacobian_of().entries()
                    &&& #[trigger] linear_solve(
                        now.lin,
                        a,
                        f,
                        turn.after.direction.rhs,
                        now.direction.out,
                        turn.after.direction.out,
                        turn.after.lin,
                        turn.dir,
                        turn.outcome,
                    )
                };
            let b = choose|b: SparseView<'_, M::Real>|
                {
                    &&& *b.symbolic == m1.jacobian_of().pattern()
                    &&& b.values@ == m1.jacobian_of().entries()
                    &&& #[trigger] linear_solve(
                        now1.lin,
                        b,
                        f,
                        turn1.after.direction.rhs,
                        now1.direction.out,
                        turn1.after.direction.out,
                        turn1.after.lin,
                        turn1.dir,
                        turn1.outcome,
                    )
                };
            lemma_one_direction::<M, L>(
                bad,
                at_rest,
                in_step,
                now.lin,
                now1.lin,
                a,
                b,
                f,
                turn.after.direction.rhs,
                turn1.after.direction.rhs,
                now.direction.out,
                now1.direction.out,
                turn.after.direction.out,
                turn1.after.direction.out,
                turn.after.lin,
                turn1.after.lin,
                turn.dir,
                turn1.dir,
                turn.outcome,
                turn1.outcome,
            );
            if turn.outcome is Ok {
                lemma_one_advance(
                    m1,
                    cfg,
                    now.x,
                    turn.dir,
                    turn.res,
                    damping,
                    last_res,
                    turn.next,
                    turn1.next,
                );
                if let Some((x, d)) = turn.next {
                    lemma_in_lockstep(
                        cfg,
                        on_iter,
                        iter + 1,
                        Progress { x, ..turn.after },
                        Progress { x, ..turn1.after },
                        d,
                        turn.res,
                        result,
                        end,
                        result1,
                        end1,
                        bad,
                        at_rest,
                        in_step,
                    );
                }
            }
        }
    }
}

/// Two Newton solves of one problem, with linear solvers that are at rest with each other,
/// come to the same result at the same point.
pub proof fn law_solves_agree<M, L, Cb>(
    cfg: NewtonCfg<M::Real>,
    on_iter: Cb,
    m: M,
    x: Seq<M::Real>,
    l: L,
    result: SolverResult<Iterations>,
    m1: M,
    x1: Seq<M::Real>,
    l1: L,
    k: L,
    result2: SolverResult<Iterations>,
    m2: M,
    x2: Seq<M::Real>,
    k1: L,
    bad: Failure,
    at_rest: spec_fn(L, L) -> bool,
    in_step: spec_fn(L, L) -> bool,
) where
    M: NonlinearSystem,
    L: for<'a> LinearSolver<M::Real, SparseView<'a, M::Real>>,
    Cb: FnMut(&IterationStats<M::Real>) -> Control,

    requires
        sparse_solve(cfg, on_iter, m, x, l, result, m1, x1, l1),
        sparse_solve(cfg, on_iter, m, x, k, result2, m2, x2, k1),
        computes_alike::<M::Real>(),
        behaves_alike::<M, Cb>(on_iter),
        answers_alike::<M, L>(m.jacobian_of().pattern(), bad, at_rest, in_step),
        at_rest(l, k),
        result != fails::<Iterations>(bad),
        result2 != fails::<Iterations>(bad),
    ensures
        result == result2,
        m1 == m2,
        x1 == x2,
{
    let (d, d1) = choose|d: SparseDirection<M::Real>, d1: SparseDirection<M::Real>|
        {
            &&& d.is_new(m.layout_of().residuals(), m.layout_of().variables())
            &&& #[trigger] solves_to(
                cfg,
                on_iter,
                Progress { model: m, lin: l, direction: d, x },
                result,
                Progress { model: m1, lin: l1, direction: d1, x: x1 },
            )
        };
    let (e, e1) = choose|e: SparseDirection<M::Real>, e1: SparseDirection<M::Real>|
        {
            &&& e.is_new(m.layout_of().residuals(), m.layout_of().variables())
            &&& #[trigger] solves_to(
                cfg,
                on_iter,
                Progress { model: m, lin: k, direction: e, x },
                result2,
                Progress { model: m2, lin: k1, direction: e1, x: x2 },
            )
        };
    let start = Progress { model: m, lin: l, direction: d, x };
    let end = Progress { model: m1, lin: l1, direction: d1, x: x1 };
    let start2 = Progress { model: m, lin: k, direction: e, x };
    let end2 = Progress { model: m2, lin: k1, direction: e1, x: x2 };
    let u = choose|u: M::Real| #[trigger]
        is_infinity(u) && iterates_to(cfg, on_iter, 0, start, cfg.damping, u, result, end);
    let v = choose|v: M::Real| #[trigger]
        is_infinity(v) && iterates_to(cfg, on_iter, 0, start2, cfg.damping, v, result2, end2);
    assert(u == v);
    assert(d.out.same_entries(e.out));
    lemma_in_lockstep(
        cfg,
        on_iter,
        0,
        start,
        start2,
        cfg.damping,
        u,
        result,
        end,
        result2,
        end2,
        bad,
        at_rest,
        in_step,
    );
}

/// The numeric half of a sparse LU factorization comes to the same for the same matrix and
/// the same right-hand sides, whatever it was used for before: two factorizations of one
/// matrix leave numeric halves that are `alike`, and those solve alike.
pub open spec fn lu_computes_alike<T, N: LuNumeric<T>>(
    sym: SymbolicLu<usize>,
    alike: spec_fn(N, N) -> bool,
) -> bool {
    &&& forall|
        n: N,
        f: N,
        a: SparseView<'_, T>,
        b: SparseView<'_, T>,
        n1: N,
        f1: N,
        r: bool,
        s: bool,
    | #[trigger]
        call_ensures(N::factorize, (n, &sym, &a), (n1, r)) && #[trigger] call_ensures(
            N::factorize,
            (f, &sym, &b),
            (f1, s),
        ) && same_matrix(a, b) ==> r == s && (r ==> alike(n1, f1))
    &&& forall|n: N, f: N, v: Mat<T>, w: Mat<T>, n1: N, f1: N, r: Mat<T>, s: Mat<T>| #[trigger]
        call_ensures(N::solve_in_place, (n, &sym, v), (n1, r)) && #[trigger] call_ensures(
            N::solve_in_place,
            (f, &sym, w),
            (f1, s),
        ) && alike(n, f) && v.same_entries(w) ==> r.same_entries(s)
}

/// The last factorization of both solvers was one of a matrix with the pattern `p`, and
/// left numeric halves that are `alike`.
spec fn lu_in_step<N>(
    p: SymbolicSparseColMat<usize>,
    alike: spec_fn(N, N) -> bool,
    l: FaerLu<N>,
    k: FaerLu<N>,
) -> bool {
    &&& l.ready() && k.ready()
    &&& is_kept_for(l.seen(), lu_of(p), p)
    &&& is_kept_for(k.seen(), lu_of(p), p)
    &&& alike(l.numeric(), k.numeric())
}

/// A sparse LU solver that was used before comes to the same result at the same point as a
/// new one, unless an analysis fails: it saves the analysis of a pattern, and never changes
/// the answer.
pub proof fn law_reused_lu_answers_as_new<M, N, Cb>(
    cfg: NewtonCfg<M::Real>,
    on_iter: Cb,
    m: M,
    x: Seq<M::Real>,
    used: FaerLu<N>,
    result: SolverResult<Iterations>,
    m1: M,
    x1: Seq<M::Real>,
    used1: FaerLu<N>,
    fresh: FaerLu<N>,
    result2: SolverResult<Iterations>,
    m2: M,
    x2: Seq<M::Real>,
    fresh1: FaerLu<N>,
    alike: spec_fn(N, N) -> bool,
) where
    M: NonlinearSystem,
    N: LuNumeric<M::Real>,
    Cb: FnMut(&IterationStats<M::Real>) -> Control,

    requires
        sparse_solve(cfg, on_iter, m, x, used, result, m1, x1, used1),
        sparse_solve(cfg, on_iter, m, x, fresh, result2, m2, x2, fresh1),
        fresh.seen() is None,
        computes_alike::<M::Real>(),
        behaves_alike::<M, Cb>(on_iter),
        lu_computes_alike::<M::Real, N>(lu_of(m.jacobian_of().pattern()), alike),
        result != fails::<Iterations>(Failure::SymbolicLu),
        result2 != fails::<Iterations>(Failure::SymbolicLu),
    ensures
        result == result2,
        m1 == m2,
        x1 == x2,
{
    let p = m.jacobian_of().pattern();
    let at_rest = |l: FaerLu<N>, k: FaerLu<N>| true;
    let in_step = |l: FaerLu<N>, k: FaerLu<N>| lu_in_step(p, alike, l, k);
    assert forall|
        l: FaerLu<N>,
        k: FaerLu<N>,
        a: SparseView<'_, M::Real>,
        b: SparseView<'_, M::Real>,
        l1: FaerLu<N>,
        k1: FaerLu<N>,
        r: SolverResult<()>,
        s: SolverResult<()>,
    |
        #![trigger FaerLu::<N>::factored(l, a, l1, r), FaerLu::<N>::factored(k, b, k1, s)]
        FaerLu::<N>::factored(l, a, l1, r) && FaerLu::<N>::factored(k, b, k1, s) && at_rest(l, k)
            && same_matrix(a, b) && *a.symbolic == p && r != fails::<()>(Failure::SymbolicLu) && s
            != fails::<()>(Failure::SymbolicLu) implies r == s && (r is Ok ==> in_step(l1, k1)) by {
        lemma_lu_factors_alike::<M::Real, N>(l, k, a, b, l1, k1, r, s, alike);
    }
    assert(answers_alike::<M, FaerLu<N>>(p, Failure::SymbolicLu, at_rest, in_step));
    law_solves_agree(
        cfg,
        on_iter,
        m,
        x,
        used,
        result,
        m1,
        x1,
        used1,
        fresh,
        result2,
        m2,
        x2,
        fresh1,
        Failure::SymbolicLu,
        at_rest,
        in_step,
    );
}

/// Two sparse LU solvers come to the same for the same matrix.
proof fn lemma_lu_factors_alike<T: Copy, N: LuNumeric<T>>(
    l: FaerLu<N>,
    k: FaerLu<N>,
    a: SparseView<'_, T>,
    b: SparseView<'_, T>,
    l1: FaerLu<N>,
    k1: FaerLu<N>,
    r: SolverResult<()>,
    s: SolverResult<()>,
    alike: spec_fn(N, N) -> bool,
)
    requires
        FaerLu::<N>::factored(l, a, l1, r),
        FaerLu::<N>::factored(k, b, k1, s),
        same_matrix(a, b),
        r != fails::<()>(Failure::SymbolicLu),
        s != fails::<()>(Failure::SymbolicLu),
        lu_computes_alike::<T, N>(lu_of(*a.symbolic), alike),
    ensures
        r == s,
        r is Ok ==> lu_in_step(*a.symbolic, alike, l1, k1),
{
    let n = lemma_lu_ran(l, a, l1, r);
    let f = lemma_lu_ran(k, b, k1, s);
}

/// The numeric half that a factorization ran with.
proof fn lemma_lu_ran<T: Copy, N: LuNumeric<T>>(
    l: FaerLu<N>,
    a: SparseView<'_, T>,
    l1: FaerLu<N>,
    r: SolverResult<()>,
) -> (n: N)
    requires
        FaerLu::<N>::factored(l, a, l1, r),
        r != fails::<()>(Failure::SymbolicLu),
    ensures
        call_ensures(N::factorize, (n, &lu_of(*a.symbolic), &a), (l1.numeric(), r is Ok)),
        r is Ok || r == fails::<()>(Failure::NumericLu),
        l1.ready() == (r is Ok),
{
    let sym = lu_of(*a.symbolic);
    let n = if l.knows(*a.symbolic) {
        l.numeric()
    } else {
        choose|num: N| #[trigger]
            call_ensures(N::with_scratch, (l.numeric(), &sym), num) && lu_completed(
                num,
                sym,
                a,
                l1.numeric(),
                r,
            )
    };
    assert(lu_completed(n, sym, a, l1.numeric(), r));
    let ok = choose|ok: bool| #[trigger]
        call_ensures(N::factorize, (n, &sym, &a), (l1.numeric(), ok)) && (ok <==> r is Ok);
    n
}

/// The numeric half of a sparse QR factorization comes to the same for the same matrix and
/// the same right-hand sides: two factorizations of one matrix are `alike`, and solve alike.
pub open spec fn qr_computes_alike<T, N: QrNumeric<T>>(
    sym: SymbolicQr<usize>,
    alike: spec_fn(N, N) -> bool,
) -> bool {
    &&& qr_keeps_shape::<T, N>()
    &&& forall|a: SparseView<'_, T>, b: SparseView<'_, T>, r: Option<N>, s: Option<N>| #[trigger]
        call_ensures(N::try_new, (&sym, &a), r) && #[trigger] call_ensures(
            N::try_new,
            (&sym, &b),
            s,
        ) && same_matrix(a, b) ==> match (r, s) {
            (Some(n), Some(f)) => alike(n, f),
            (None, None) => true,
            _ => false,
        }
    &&& forall|n: N, f: N, v: Mat<T>, w: Mat<T>, r: Mat<T>, s: Mat<T>| #[trigger]
        call_ensures(N::solve_lstsq_in_place, (&n, v), r) && #[trigger] call_ensures(
            N::solve_lstsq_in_place,
            (&f, w),
            s,
        ) && alike(n, f) && v.same_entries(w) ==> r.same_entries(s)
}

/// Both solvers have factorized matrices of one shape, with numeric halves that are
/// `alike`.
spec fn qr_in_step<N>(alike: spec_fn(N, N) -> bool, l: SparseQr<N>, k: SparseQr<N>) -> bool {
    match (l.factorized(), k.factorized()) {
        (Some(a), Some(b)) => a.nrows == b.nrows && a.ncols == b.ncols && alike(a.num, b.num),
        _ => false,
    }
}

/// A sparse QR solver that was used before comes to the same result at the same point as a
/// new one, unless an analysis fails.
pub proof fn law_reused_qr_answers_as_new<M, N, Cb>(
    cfg: NewtonCfg<M::Real>,
    on_iter: Cb,
    m: M,
    x: Seq<M::Real>,
    used: SparseQr<N>,
    result: SolverResult<Iterations>,
    m1: M,
    x1: Seq<M::Real>,
    used1: SparseQr<N>,
    fresh: SparseQr<N>,
    result2: SolverResult<Iterations>,
    m2: M,
    x2: Seq<M::Real>,
    fresh1: SparseQr<N>,
    alike: spec_fn(N, N) -> bool,
) where
    M: NonlinearSystem,
    N: QrNumeric<M::Real>,
    Cb: FnMut(&IterationStats<M::Real>) -> Control,

    requires
        sparse_solve(cfg, on_iter, m, x, used, result, m1, x1, used1),
        sparse_solve(cfg, on_iter, m, x, fresh, result2, m2, x2, fresh1),
        fresh.seen() is None,
        computes_alike::<M::Real>(),
        behaves_alike::<M, Cb>(on_iter),
        qr_computes_alike::<M::Real, N>(qr_of(m.jacobian_of().pattern()), alike),
        result != fails::<Iterations>(Failure::SymbolicQr),
        result2 != fails::<Iterations>(Failure::SymbolicQr),
    ensures
        result == result2,
        m1 == m2,
        x1 == x2,
{
    let p = m.jacobian_of().pattern();
    let at_rest = |l: SparseQr<N>, k: SparseQr<N>| true;
    let in_step = |l: SparseQr<N>, k: SparseQr<N>| qr_in_step(alike, l, k);
    assert forall|
        l: SparseQr<N>,
        k: SparseQr<N>,
        a: SparseView<'_, M::Real>,
        b: SparseView<'_, M::Real>,
        l1: SparseQr<N>,
        k1: SparseQr<N>,
        r: SolverResult<()>,
        s: SolverResult<()>,
    |
        #![trigger SparseQr::<N>::factored(l, a, l1, r), SparseQr::<N>::factored(k, b, k1, s)]
        SparseQr::<N>::factored(l, a, l1, r) && SparseQr::<N>::factored(k, b, k1, s) && at_rest(
            l,
            k,
        ) && same_matrix(a, b) && *a.symbolic == p && r != fails::<()>(Failure::SymbolicQr) && s
            != fails::<()>(Failure::SymbolicQr) implies r == s && (r is Ok ==> in_step(l1, k1)) by {
        let sym = qr_of(p);
        assert(qr_completed(l.factorized(), sym, a, l1.factorized(), r));
        assert(qr_completed(k.factorized(), sym, b, k1.factorized(), s));
    }
    assert forall|
        l: SparseQr<N>,
        k: SparseQr<N>,
        f: Mat<M::Real>,
        g: Mat<M::Real>,
        before: Mat<M::Real>,
        before1: Mat<M::Real>,
        l1: SparseQr<N>,
        k1: SparseQr<N>,
        after: Mat<M::Real>,
        after1: Mat<M::Real>,
        r: SolverResult<()>,
        s: SolverResult<()>,
    |
        #![trigger
            SparseQr::<N>::solved(l, f, before, l1, after, r),
            SparseQr::<N>::solved(k, g, before1, k1, after1, s)
        ]
        SparseQr::<N>::solved(l, f, before, l1, after, r) && SparseQr::<N>::solved(
            k,
            g,
            before1,
            k1,
            after1,
            s,
        ) && in_step(l, k) && f.same_entries(g) && before.same_entries(before1)
            && after.same_shape(before) && after1.same_shape(before1) implies r == s && (r is Ok
        ==> after.same_entries(after1) && at_rest(l1, k1)) by {
        lemma_qr_solves_alike::<M::Real, N>(
            p,
            l,
            k,
            f,
            g,
            before,
            before1,
            l1,
            k1,
            after,
            after1,
            r,
            s,
            alike,
        );
    }
    assert(answers_alike::<M, SparseQr<N>>(p, Failure::SymbolicQr, at_rest, in_step));
    law_solves_agree(
        cfg,
        on_iter,
        m,
        x,
        used,
        result,
        m1,
        x1,
        used1,
        fresh,
        result2,
        m2,
        x2,
        fresh1,
        Failure::SymbolicQr,
        at_rest,
        in_step,
    );
}

/// Two sparse QR solvers that are in step come to the same for the same right-hand sides.
proof fn lemma_qr_solves_alike<T: Copy, N: QrNumeric<T>>(
    p: SymbolicSparseColMat<usize>,
    l: SparseQr<N>,
    k: SparseQr<N>,
    f: Mat<T>,
    g: Mat<T>,
    before: Mat<T>,
    before1: Mat<T>,
    l1: SparseQr<N>,
    k1: SparseQr<N>,
    after: Mat<T>,
    after1: Mat<T>,
    r: SolverResult<()>,
    s: SolverResult<()>,
    alike: spec_fn(N, N) -> bool,
)
    requires
        SparseQr::<N>::solved(l, f, before, l1, after, r),
        SparseQr::<N>::solved(k, g, before1, k1, after1, s),
        qr_in_step(alike, l, k),
        f.same_entries(g),
        before.same_entries(before1),
        after.same_shape(before),
        after1.same_shape(before1),
        qr_computes_alike::<T, N>(qr_of(p), alike),
    ensures
        r == s,
        r is Ok ==> after.same_entries(after1),
{
    if r is Ok {
        let x = l.factorized()->0;
        let y = k.factorized()->0;
        let (v, u) = choose|v: Mat<T>, u: Mat<T>|
            {
                &&& v.same_entries(f)
                &&& #[trigger] call_ensures(N::solve_lstsq_in_place, (&x.num, v), u)
                &&& forall|i: int, j: int|
                    after.covers(i, j) ==> #[trigger] after.at(i, j) == (if i < f.rows() {
                        u.at(i, j)
                    } else {
                        before.at(i, j)
                    })
            };
        let (w, t) = choose|w: Mat<T>, t: Mat<T>|
            {
                &&& w.same_entries(g)
                &&& #[trigger] call_ensures(N::solve_lstsq_in_place, (&y.num, w), t)
                &&& forall|i: int, j: int|
                    after1.covers(i, j) ==> #[trigger] after1.at(i, j) == (if i < g.rows() {
                        t.at(i, j)
                    } else {
                        before1.at(i, j)
                    })
            };
        assert(v.same_entries(w)) by {
            assert forall|i: int, j: int| v.covers(i, j) implies #[trigger] v.at(i, j) == w.at(
                i,
                j,
            ) by {
                assert(v.at(i, j) == f.at(i, j));
                assert(f.at(i, j) == g.at(i, j));
                assert(w.at(i, j) == g.at(i, j));
            }
        }
        assert(u.same_entries(t));
        assert(u.same_shape(v));
        assert forall|i: int, j: int| after.covers(i, j) implies #[trigger] after.at(i, j)
            == after1.at(i, j) by {
            if i < f.rows() {
                assert(u.covers(i, j));
                assert(u.at(i, j) == t.at(i, j));
            } else {
                assert(before.at(i, j) == before1.at(i, j));
            }
        }
    }
}

} // verus!
