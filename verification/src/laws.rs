//! What holds of every solve.
use vstd::prelude::*;

use crate::config::{Control, IterationStats, Iterations, NewtonCfg};
use crate::direction::Direction;
use crate::error::{Failure, SolverError, SolverResult};
use crate::scalar::Real;
use crate::system::NonlinearSystem;

verus! {

use crate::damping::{is_adapted, is_divergence, is_lowered, is_peak, is_raised, is_step};
use crate::failures::direction_failed;
use crate::order::Order;
use crate::scalar::{is_below, is_infinity, is_magnitude, is_product};
use crate::search::{advances_to, line_search_finds};
use crate::solver::{fails, iterates_to, solves_to, takes_turn, turn_leads_to, Progress, Turn};

/// The largest residual of `m` at `x` is below `bound`.
pub open spec fn residual_below<M: NonlinearSystem>(
    m: M,
    x: Seq<M::Real>,
    bound: M::Real,
) -> bool {
    exists|res: M::Real| #[trigger] is_peak(m.residual_at(x), res) && is_below(res, bound, true)
}

/// A solve that succeeds ends at a point whose largest residual is below the
/// tolerance. It reports at least one iteration, and no more than it was allowed.
pub proof fn law_success_means_converged<M, L, D, Cb>(
    cfg: NewtonCfg<M::Real>,
    on_iter: Cb,
    start: Progress<M, L, D>,
    result: SolverResult<Iterations>,
    end: Progress<M, L, D>,
) where
    M: NonlinearSystem,
    D: Direction<M, L>,
    Cb: FnMut(&IterationStats<M::Real>) -> Control,

    requires
        solves_to(cfg, on_iter, start, result, end),
        result is Ok,
    ensures
        residual_below(end.model, end.x, cfg.tol),
        1 <= result->Ok_0 <= cfg.max_iter,
{
    let unbounded = choose|unbounded: M::Real| #[trigger]
        is_infinity(unbounded) && iterates_to(
            cfg,
            on_iter,
            0,
            start,
            cfg.damping,
            unbounded,
            result,
            end,
        );
    lemma_success_from(cfg, on_iter, 0, start, cfg.damping, unbounded, result, end);
}

/// The same of what is left of a solve before iteration `iter`.
proof fn lemma_success_from<M, L, D, Cb>(
    cfg: NewtonCfg<M::Real>,
    on_iter: Cb,
    iter: nat,
    now: Progress<M, L, D>,
    damping: M::Real,
    last_res: M::Real,
    result: SolverResult<Iterations>,
    end: Progress<M, L, D>,
) where
    M: NonlinearSystem,
    D: Direction<M, L>,
    Cb: FnMut(&IterationStats<M::Real>) -> Control,

    requires
        iterates_to(cfg, on_iter, iter, now, damping, last_res, result, end),
        result is Ok,
    ensures
        residual_below(end.model, end.x, cfg.tol),
        iter < result->Ok_0 <= cfg.max_iter,
    decreases cfg.max_iter - iter,
{
    let turn = choose|turn: Turn<M, L, D>| #[trigger]
        takes_turn(cfg, on_iter, iter, now, damping, last_res, turn) && turn_leads_to(
            cfg,
            on_iter,
            iter,
            now,
            turn,
            result,
            end,
        );
    if turn.answer == Control::Continue && !turn.converged {
        if let Some((x, d)) = turn.next {
            lemma_success_from(
                cfg,
                on_iter,
                iter + 1,
                Progress { x, ..turn.after },
                d,
                turn.res,
                result,
                end,
            );
        }
    }
}

/// A solve that is allowed no iteration fails at once and changes nothing.
pub proof fn law_no_iterations_no_solution<M, L, D, Cb>(
    cfg: NewtonCfg<M::Real>,
    on_iter: Cb,
    start: Progress<M, L, D>,
    result: SolverResult<Iterations>,
    end: Progress<M, L, D>,
) where
    M: NonlinearSystem,
    D: Direction<M, L>,
    Cb: FnMut(&IterationStats<M::Real>) -> Control,

    requires
        solves_to(cfg, on_iter, start, result, end),
        cfg.max_iter == 0,
    ensures
        result == fails::<Iterations>(Failure::NotConverged(0)),
        end == start,
{
}

/// What the callback is told in the first iteration.
pub open spec fn first_stats<M: NonlinearSystem>(
    cfg: NewtonCfg<M::Real>,
    res: M::Real,
) -> IterationStats<M::Real> {
    IterationStats { iter: 0, residual: res, damping: cfg.damping }
}

/// A solve that starts where the residual is below the tolerance succeeds in one
/// iteration and changes nothing, unless the callback cancels it.
pub proof fn law_solution_is_recognised<M, L, D, Cb>(
    cfg: NewtonCfg<M::Real>,
    on_iter: Cb,
    start: Progress<M, L, D>,
    result: SolverResult<Iterations>,
    end: Progress<M, L, D>,
) where
    M: NonlinearSystem,
    D: Direction<M, L>,
    Cb: FnMut(&IterationStats<M::Real>) -> Control,

    requires
        solves_to(cfg, on_iter, start, result, end),
        cfg.max_iter > 0,
        forall|res: M::Real, below: bool|
            is_peak(start.model.residual_at(start.x), res) && #[trigger] is_below(
                res,
                cfg.tol,
                below,
            ) ==> below,
        forall|res: M::Real, answer: Control|
            is_peak(start.model.residual_at(start.x), res) && #[trigger] call_ensures(
                on_iter,
                (&first_stats::<M>(cfg, res),),
                answer,
            ) ==> answer == Control::Continue,
    ensures
        result == Ok::<Iterations, SolverError>(1),
        end == start,
{
    lemma_first_turn(cfg, on_iter, start, result, end);
}

/// A solve whose callback cancels the first iteration fails and changes nothing.
pub proof fn law_cancelled_at_once<M, L, D, Cb>(
    cfg: NewtonCfg<M::Real>,
    on_iter: Cb,
    start: Progress<M, L, D>,
    result: SolverResult<Iterations>,
    end: Progress<M, L, D>,
) where
    M: NonlinearSystem,
    D: Direction<M, L>,
    Cb: FnMut(&IterationStats<M::Real>) -> Control,

    requires
        solves_to(cfg, on_iter, start, result, end),
        cfg.max_iter > 0,
        forall|res: M::Real, answer: Control|
            is_peak(start.model.residual_at(start.x), res) && #[trigger] call_ensures(
                on_iter,
                (&first_stats::<M>(cfg, res),),
                answer,
            ) ==> answer == Control::Cancel,
    ensures
        result == fails::<Iterations>(Failure::Cancelled),
        end == start,
{
    lemma_first_turn(cfg, on_iter, start, result, end);
}

/// A solve that is allowed an iteration takes a first turn.
proof fn lemma_first_turn<M, L, D, Cb>(
    cfg: NewtonCfg<M::Real>,
    on_iter: Cb,
    start: Progress<M, L, D>,
    result: SolverResult<Iterations>,
    end: Progress<M, L, D>,
) where
    M: NonlinearSystem,
    D: Direction<M, L>,
    Cb: FnMut(&IterationStats<M::Real>) -> Control,

    requires
        solves_to(cfg, on_iter, start, result, end),
        cfg.max_iter > 0,
    ensures
        exists|turn: Turn<M, L, D>|
            {
                &&& is_peak(start.model.residual_at(start.x), turn.res)
                &&& call_ensures(on_iter, (&first_stats::<M>(cfg, turn.res),), turn.answer)
                &&& turn.answer == Control::Continue ==> is_below(
                    turn.res,
                    cfg.tol,
                    turn.converged,
                )
                &&& #[trigger] turn_leads_to(cfg, on_iter, 0, start, turn, result, end)
            },
{
    let unbounded = choose|unbounded: M::Real| #[trigger]
        is_infinity(unbounded) && iterates_to(
            cfg,
            on_iter,
            0,
            start,
            cfg.damping,
            unbounded,
            result,
            end,
        );
    let turn = choose|turn: Turn<M, L, D>| #[trigger]
        takes_turn(cfg, on_iter, 0, start, cfg.damping, unbounded, turn) && turn_leads_to(
            cfg,
            on_iter,
            0,
            start,
            turn,
            result,
            end,
        );
    assert(turn_leads_to(cfg, on_iter, 0, start, turn, result, end));
}

/// Without adaptive damping every iteration goes the same fraction of the way along its
/// direction, and none fails for want of progress.
pub proof fn law_plain_damping_is_constant<M: NonlinearSystem>(
    m: M,
    cfg: NewtonCfg<M::Real>,
    x: Seq<M::Real>,
    dir: Seq<M::Real>,
    res: M::Real,
    damping: M::Real,
    last_res: M::Real,
    next: Option<(Seq<M::Real>, M::Real)>,
)
    requires
        advances_to(m, cfg, x, dir, res, damping, last_res, next),
        !cfg.adaptive,
    ensures
        next matches Some((point, d)) && d == damping && is_step(x, damping, dir, point),
{
}

/// Whatever the damping was before, raising it leaves it at the largest damping or not
/// above that, and lowering it leaves it at the smallest damping or not below that.
pub proof fn law_damping_stays_in_bounds<R: Real>(cfg: NewtonCfg<R>, damping: R, d: R)
    ensures
        is_raised(cfg, damping, d) ==> d == cfg.max_damping || is_below(cfg.max_damping, d, false),
        is_lowered(cfg, damping, d) ==> d == cfg.min_damping || is_below(
            d,
            cfg.min_damping,
            false,
        ),
{
}

/// A line search that succeeds ends at a point on its line with a residual below the
/// one it started from. The damping that led there is the first one it tried, or not
/// below the smallest damping.
pub proof fn law_line_search_makes_progress<M: NonlinearSystem>(
    m: M,
    cfg: NewtonCfg<M::Real>,
    x: Seq<M::Real>,
    dir: Seq<M::Real>,
    res: M::Real,
    first: M::Real,
    trials: nat,
    point: Seq<M::Real>,
    alpha: M::Real,
)
    requires
        line_search_finds(m, cfg, x, dir, res, first, trials, Some((point, alpha))),
    ensures
        is_step(x, alpha, dir, point),
        residual_below(m, point, res),
        alpha == first || is_below(alpha, cfg.min_damping, false),
    decreases trials,
{
    if trials > 0 {
        let (tried, peak, better) = choose|tried: Seq<M::Real>, peak: M::Real, better: bool|
            {
                &&& #[trigger] is_step(x, first, dir, tried)
                &&& is_peak(m.residual_at(tried), peak)
                &&& #[trigger] is_below(peak, res, better)
                &&& if better {
                    Some((point, alpha)) == Some((tried, first))
                } else {
                    exists|shorter: M::Real, spent: bool|
                        {
                            &&& #[trigger] is_product(
                                first,
                                cfg.ls_backtrack,
                                shorter,
                            )
                            &&& #[trigger] is_below(shorter, cfg.min_damping, spent)
                            &&& !spent && line_search_finds(
                                m,
                                cfg,
                                x,
                                dir,
                                res,
                                shorter,
                                (trials - 1) as nat,
                                Some((point, alpha)),
                            )
                        }
                }
            };
        if !better {
            let (shorter, spent) = choose|shorter: M::Real, spent: bool|
                {
                    &&& #[trigger] is_product(first, cfg.ls_backtrack, shorter)
                    &&& #[trigger] is_below(shorter, cfg.min_damping, spent)
                    &&& !spent && line_search_finds(
                        m,
                        cfg,
                        x,
                        dir,
                        res,
                        shorter,
                        (trials - 1) as nat,
                        Some((point, alpha)),
                    )
                };
            law_line_search_makes_progress(
                m,
                cfg,
                x,
                dir,
                res,
                shorter,
                (trials - 1) as nat,
                point,
                alpha,
            );
        }
    }
}

/// A callback that cancels iteration `k`, whatever it is told, ends the solve there at the
/// latest: the solve succeeds only in earlier iterations, and otherwise fails, never for
/// want of iterations.
pub proof fn law_cancellation_is_honoured<M, L, D, Cb>(
    cfg: NewtonCfg<M::Real>,
    on_iter: Cb,
    start: Progress<M, L, D>,
    result: SolverResult<Iterations>,
    end: Progress<M, L, D>,
    k: usize,
) where
    M: NonlinearSystem,
    D: Direction<M, L>,
    Cb: FnMut(&IterationStats<M::Real>) -> Control,

    requires
        solves_to(cfg, on_iter, start, result, end),
        k < cfg.max_iter,
        forall|stats: IterationStats<M::Real>, answer: Control| #[trigger]
            call_ensures(on_iter, (&stats,), answer) && stats.iter == k ==> answer
                == Control::Cancel,
    ensures
        match result {
            Ok(n) => n <= k,
            Err(e) => {
                ||| e.reason == Failure::Cancelled
                ||| e.reason == Failure::LineSearchFailed && cfg.adaptive
                ||| direction_failed::<M, L, D>(e)
            },
        },
{
    let unbounded = choose|unbounded: M::Real| #[trigger]
        is_infinity(unbounded) && iterates_to(
            cfg,
            on_iter,
            0,
            start,
            cfg.damping,
            unbounded,
            result,
            end,
        );
    lemma_cancelled_from(cfg, on_iter, 0, start, cfg.damping, unbounded, result, end, k);
}

/// The same of what is left of a solve before iteration `iter`.
proof fn lemma_cancelled_from<M, L, D, Cb>(
    cfg: NewtonCfg<M::Real>,
    on_iter: Cb,
    iter: nat,
    now: Progress<M, L, D>,
    damping: M::Real,
    last_res: M::Real,
    result: SolverResult<Iterations>,
    end: Progress<M, L, D>,
    k: usize,
) where
    M: NonlinearSystem,
    D: Direction<M, L>,
    Cb: FnMut(&IterationStats<M::Real>) -> Control,

    requires
        iterates_to(cfg, on_iter, iter, now, damping, last_res, result, end),
        iter <= k < cfg.max_iter,
        forall|stats: IterationStats<M::Real>, answer: Control| #[trigger]
            call_ensures(on_iter, (&stats,), answer) && stats.iter == k ==> answer
                == Control::Cancel,
    ensures
        match result {
            Ok(n) => n <= k,
            Err(e) => {
                ||| e.reason == Failure::Cancelled
                ||| e.reason == Failure::LineSearchFailed && cfg.adaptive
                ||| direction_failed::<M, L, D>(e)
            },
        },
    decreases cfg.max_iter - iter,
{
    let turn = choose|turn: Turn<M, L, D>| #[trigger]
        takes_turn(cfg, on_iter, iter, now, damping, last_res, turn) && turn_leads_to(
            cfg,
            on_iter,
            iter,
            now,
            turn,
            result,
            end,
        );
    if turn.answer == Control::Continue && !turn.converged && turn.outcome is Ok {
        if let Some((x, d)) = turn.next {
            lemma_cancelled_from(
                cfg,
                on_iter,
                iter + 1,
                Progress { x, ..turn.after },
                d,
                turn.res,
                result,
                end,
                k,
            );
        }
    }
}

/// An adaptive step after the residual blew up goes to a point on its line with a smaller
/// residual, or fails.
pub proof fn law_divergence_is_guarded<M: NonlinearSystem>(
    m: M,
    cfg: NewtonCfg<M::Real>,
    x: Seq<M::Real>,
    dir: Seq<M::Real>,
    res: M::Real,
    damping: M::Real,
    last_res: M::Real,
    next: Option<(Seq<M::Real>, M::Real)>,
)
    requires
        advances_to(m, cfg, x, dir, res, damping, last_res, next),
        cfg.adaptive,
        forall|answer: bool| #[trigger] is_divergence(cfg, res, last_res, answer) ==> answer,
    ensures
        next matches Some((point, alpha)) ==> residual_below(m, point, res) && is_step(
            x,
            alpha,
            dir,
            point,
        ),
{
    let (adapted, blew_up) = choose|adapted: M::Real, blew_up: bool|
        {
            &&& #[trigger] is_adapted(cfg, damping, res, last_res, adapted)
            &&& #[trigger] is_divergence(cfg, res, last_res, blew_up)
            &&& blew_up && exists|first: M::Real| #[trigger]
                is_lowered(cfg, adapted, first) && line_search_finds(
                    m,
                    cfg,
                    x,
                    dir,
                    res,
                    first,
                    cfg.ls_max_steps as nat,
                    next,
                )
        };
    let first = choose|first: M::Real| #[trigger]
        is_lowered(cfg, adapted, first) && line_search_finds(
            m,
            cfg,
            x,
            dir,
            res,
            first,
            cfg.ls_max_steps as nat,
            next,
        );
    if let Some((point, alpha)) = next {
        law_line_search_makes_progress(
            m,
            cfg,
            x,
            dir,
            res,
            first,
            cfg.ls_max_steps as nat,
            point,
            alpha,
        );
    }
}

/// Every entry of `f` has a magnitude below `bound`.
pub open spec fn all_below<R: Real>(order: Order<R>, f: Seq<R>, bound: R) -> bool {
    forall|i: int, mag: R|
        0 <= i < f.len() && #[trigger] is_magnitude(f[i], mag) ==> order.less(mag, bound)
}

/// A scalar has one magnitude; those of the entries of `f` take part in the order.
pub open spec fn has_magnitudes_of<R: Real>(order: Order<R>, f: Seq<R>) -> bool {
    &&& forall|a: R, m: R, n: R| #[trigger]
        is_magnitude(a, m) && #[trigger] is_magnitude(a, n) ==> m == n
    &&& forall|i: int, mag: R|
        0 <= i < f.len() && #[trigger] is_magnitude(f[i], mag) ==> order.has(mag)
}

/// The peak of a vector takes part in the order, and is not below the magnitude of any
/// entry.
proof fn lemma_peak_is_largest<R: Real>(order: Order<R>, f: Seq<R>, peak: R)
    requires
        is_peak(f, peak),
        order.holds(),
        has_magnitudes_of(order, f),
    ensures
        order.has(peak),
        forall|i: int, mag: R|
            0 <= i < f.len() && #[trigger] is_magnitude(f[i], mag) ==> !order.less(peak, mag),
    decreases f.len(),
{
    if f.len() > 0 {
        let (so_far, mag, keep) = choose|so_far: R, mag: R, keep: bool|
            {
                &&& is_peak(f.drop_last(), so_far)
                &&& #[trigger] is_magnitude(f.last(), mag)
                &&& #[trigger] is_below(mag, so_far, keep)
                &&& peak == (if keep {
                    so_far
                } else {
                    mag
                })
            };
        let front = f.drop_last();
        assert forall|i: int, m: R|
            0 <= i < front.len() && #[trigger] is_magnitude(front[i], m) implies order.has(m) by {
            assert(is_magnitude(f[i], m));
        }
        lemma_peak_is_largest(order, front, so_far);
        let last = f.len() - 1;
        assert(is_magnitude(f[last], mag));
        assert(!order.less(mag, mag));
        assert forall|i: int, m: R|
            0 <= i < f.len() && #[trigger] is_magnitude(f[i], m) implies !order.less(
            peak,
            m,
        ) by {
            if i < last {
                assert(is_magnitude(front[i], m));
                assert(!order.less(so_far, m));
            } else if keep && order.less(so_far, mag) {
                assert(order.less(mag, so_far));
            }
        }
    } else {
        assert(order.bounds(order.zero));
    }
}

/// A solve that succeeds ends at a point where every residual is below the tolerance in
/// magnitude, for scalars that are ordered as numbers are and residuals that take part in
/// the order.
pub proof fn law_every_residual_is_below<M, L, D, Cb>(
    cfg: NewtonCfg<M::Real>,
    on_iter: Cb,
    start: Progress<M, L, D>,
    result: SolverResult<Iterations>,
    end: Progress<M, L, D>,
    order: Order<M::Real>,
) where
    M: NonlinearSystem,
    D: Direction<M, L>,
    Cb: FnMut(&IterationStats<M::Real>) -> Control,

    requires
        solves_to(cfg, on_iter, start, result, end),
        result is Ok,
        order.holds(),
        order.has(cfg.tol),
        has_magnitudes_of(order, end.model.residual_at(end.x)),
    ensures
        all_below(order, end.model.residual_at(end.x), cfg.tol),
{
    law_success_means_converged(cfg, on_iter, start, result, end);
    let f = end.model.residual_at(end.x);
    let res = choose|res: M::Real| #[trigger] is_peak(f, res) && is_below(res, cfg.tol, true);
    lemma_peak_is_largest(order, f, res);
    assert forall|i: int, mag: M::Real|
        0 <= i < f.len() && #[trigger] is_magnitude(f[i], mag) implies order.less(
        mag,
        cfg.tol,
    ) by {
        assert(order.less(res, cfg.tol));
        assert(!order.less(res, mag));
        if !order.less(mag, cfg.tol) {
            assert(!order.less(res, cfg.tol));
        }
    }
}

} // verus!
