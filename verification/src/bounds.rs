//! The damping of an adaptive solve stays between its bounds.
use vstd::prelude::*;

use crate::config::{Control, IterationStats, Iterations, NewtonCfg};
use crate::direction::Direction;
use crate::error::SolverResult;
use crate::scalar::Real;
use crate::solver::{Progress, Turn};
use crate::system::NonlinearSystem;

verus! {

use crate::damping::{is_adapted, is_divergence, is_lowered, is_peak, is_raised, is_step};
use crate::order::Order;
use crate::scalar::{is_below, is_infinity, is_product};
use crate::search::{advances_to, line_search_finds};
use crate::solver::{iterates_to, solves_to, takes_turn};

/// `d` is a finite number from the smallest damping to the largest.
pub open spec fn in_bounds<R: Real>(order: Order<R>, cfg: NewtonCfg<R>, d: R) -> bool {
    order.bounds(d) && !order.less(d, cfg.min_damping) && !order.less(cfg.max_damping, d)
}

/// The settings of the step control make sense: the bounds are finite and above zero, the
/// first damping lies between them, `grow` is not below one, and `shrink` and
/// `ls_backtrack` are above zero and not above one.
pub open spec fn is_sound<R: Real>(order: Order<R>, cfg: NewtonCfg<R>) -> bool {
    &&& order.bounds(cfg.min_damping) && order.bounds(cfg.max_damping)
    &&& order.less(order.zero, cfg.min_damping)
    &&& in_bounds(order, cfg, cfg.damping)
    &&& order.is_growth(cfg.grow)
    &&& order.is_fraction(cfg.shrink)
    &&& order.is_fraction(cfg.ls_backtrack)
}

/// However a solve goes on that stands at `now` before iteration `iter`: every iteration
/// reports a damping that is `fine`, and every step goes a fraction of the way along its
/// direction that is `fine`.
pub open spec fn every_damping<M, L, D, Cb>(
    cfg: NewtonCfg<M::Real>,
    on_iter: Cb,
    iter: nat,
    now: Progress<M, L, D>,
    damping: M::Real,
    last_res: M::Real,
    fine: spec_fn(M::Real) -> bool,
) -> bool where
    M: NonlinearSystem,
    D: Direction<M, L>,
    Cb: FnMut(&IterationStats<M::Real>) -> Control,

    decreases cfg.max_iter - iter,
{
    iter < cfg.max_iter ==> {
        &&& fine(damping)
        &&& forall|turn: Turn<M, L, D>| #[trigger]
            takes_turn(cfg, on_iter, iter, now, damping, last_res, turn) && turn.answer
                == Control::Continue && !turn.converged && turn.outcome is Ok ==> (
            turn.next matches Some((x, d)) ==> {
                &&& fine(d)
                &&& is_step(now.x, d, turn.dir, x)
                &&& iter < cfg.max_iter && every_damping(
                    cfg,
                    on_iter,
                    iter + 1,
                    Progress { x, ..turn.after },
                    d,
                    turn.res,
                    fine,
                )
            })
    }
}

/// In a whole solve with sound settings, for scalars that are ordered as numbers are, every
/// damping that the callback is told of, and every fraction of a direction that the point is
/// moved by, lies within the bounds, also after a line search.
pub proof fn law_dampings_stay_in_bounds<M, L, D, Cb>(
    cfg: NewtonCfg<M::Real>,
    on_iter: Cb,
    start: Progress<M, L, D>,
    result: SolverResult<Iterations>,
    end: Progress<M, L, D>,
    order: Order<M::Real>,
) where
    M: NonlinearSystem,
    D: Direction<M, L>,
    Cb: FnMut(&IterationStats<M::Real>) -> Control,

    requires
        solves_to(cfg, on_iter, start, result, end),
        order.holds(),
        is_sound(order, cfg),
    ensures
        exists|unbounded: M::Real| #[trigger]
            is_infinity(unbounded) && iterates_to(
                cfg,
                on_iter,
                0,
                start,
                cfg.damping,
                unbounded,
                result,
                end,
            ) && every_damping(
                cfg,
                on_iter,
                0,
                start,
                cfg.damping,
                unbounded,
                |d: M::Real| in_bounds(order, cfg, d),
            ),
{
    let unbounded = choose|unbounded: M::Real| #[trigger]
        is_infinity(unbounded) && iterates_to(
            cfg,
            on_iter,
            0,
            start,
            cfg.damping,
            unbounded,
            result,
            end,
        );
    lemma_dampings_from(cfg, on_iter, 0, start, cfg.damping, unbounded, order);
}

/// The same of what is left of a solve before iteration `iter`.
proof fn lemma_dampings_from<M, L, D, Cb>(
    cfg: NewtonCfg<M::Real>,
    on_iter: Cb,
    iter: nat,
    now: Progress<M, L, D>,
    damping: M::Real,
    last_res: M::Real,
    order: Order<M::Real>,
) where
    M: NonlinearSystem,
    D: Direction<M, L>,
    Cb: FnMut(&IterationStats<M::Real>) -> Control,

    requires
        order.holds(),
        is_sound(order, cfg),
        in_bounds(order, cfg, damping),
    ensures
        every_damping(
            cfg,
            on_iter,
            iter,
            now,
            damping,
            last_res,
            |d: M::Real| in_bounds(order, cfg, d),
        ),
    decreases cfg.max_iter - iter,
{
    let fine = |d: M::Real| in_bounds(order, cfg, d);
    if iter < cfg.max_iter {
        assert forall|turn: Turn<M, L, D>| #[trigger]
            takes_turn(cfg, on_iter, iter, now, damping, last_res, turn) && turn.answer
                == Control::Continue && !turn.converged && turn.outcome is Ok implies (
        turn.next matches Some((x, d)) ==> {
            &&& fine(d)
            &&& is_step(now.x, d, turn.dir, x)
            &&& every_damping(
                cfg,
                on_iter,
                iter + 1,
                Progress { x, ..turn.after },
                d,
                turn.res,
                fine,
            )
        }) by {
            if let Some((x, d)) = turn.next {
                law_step_stays_in_bounds(
                    turn.after.model,
                    cfg,
                    now.x,
                    turn.dir,
                    turn.res,
                    damping,
                    last_res,
                    x,
                    d,
                    order,
                );
                lemma_dampings_from(
                    cfg,
                    on_iter,
                    iter + 1,
                    Progress { x, ..turn.after },
                    d,
                    turn.res,
                    order,
                );
            }
        }
    }
}

/// One iteration with sound settings, from a damping within the bounds, goes a fraction of the
/// way along its direction that lies within the bounds, and leaves that as the damping.
pub proof fn law_step_stays_in_bounds<M: NonlinearSystem>(
    m: M,
    cfg: NewtonCfg<M::Real>,
    x: Seq<M::Real>,
    dir: Seq<M::Real>,
    res: M::Real,
    damping: M::Real,
    last_res: M::Real,
    point: Seq<M::Real>,
    d: M::Real,
    order: Order<M::Real>,
)
    requires
        advances_to(m, cfg, x, dir, res, damping, last_res, Some((point, d))),
        order.holds(),
        is_sound(order, cfg),
        in_bounds(order, cfg, damping),
    ensures
        in_bounds(order, cfg, d),
        is_step(x, d, dir, point),
{
    if cfg.adaptive {
        let (adapted, blew_up) = choose|adapted: M::Real, blew_up: bool|
            {
                &&& #[trigger] is_adapted(cfg, damping, res, last_res, adapted)
                &&& #[trigger] is_divergence(cfg, res, last_res, blew_up)
                &&& if blew_up {
                    exists|first: M::Real| #[trigger]
                        is_lowered(cfg, adapted, first) && line_search_finds(
                            m,
                            cfg,
                            x,
                            dir,
                            res,
                            first,
                            cfg.ls_max_steps as nat,
                            Some((point, d)),
                        )
                } else {
                    d == adapted && is_step(x, adapted, dir, point)
                }
            };
        if is_raised(cfg, damping, adapted) {
            lemma_raised_in_bounds(order, cfg, damping, adapted);
        } else {
            lemma_lowered_in_bounds(order, cfg, damping, adapted);
        }
        if blew_up {
            let first = choose|first: M::Real| #[trigger]
                is_lowered(cfg, adapted, first) && line_search_finds(
                    m,
                    cfg,
                    x,
                    dir,
                    res,
                    first,
                    cfg.ls_max_steps as nat,
                    Some((point, d)),
                );
            lemma_lowered_in_bounds(order, cfg, adapted, first);
            lemma_search_in_bounds(
                m,
                cfg,
                x,
                dir,
                res,
                first,
                cfg.ls_max_steps as nat,
                point,
                d,
                order,
            );
        }
    }
}

/// A damping that was raised stays within the bounds.
proof fn lemma_raised_in_bounds<R: Real>(order: Order<R>, cfg: NewtonCfg<R>, damping: R, d: R)
    requires
        is_raised(cfg, damping, d),
        order.holds(),
        is_sound(order, cfg),
        in_bounds(order, cfg, damping),
    ensures
        in_bounds(order, cfg, d),
{
}

/// A damping that was lowered stays within the bounds.
proof fn lemma_lowered_in_bounds<R: Real>(order: Order<R>, cfg: NewtonCfg<R>, damping: R, d: R)
    requires
        is_lowered(cfg, damping, d),
        order.holds(),
        is_sound(order, cfg),
        in_bounds(order, cfg, damping),
    ensures
        in_bounds(order, cfg, d),
{
}

/// What a line search finds lies on its line, at a damping within the bounds.
proof fn lemma_search_in_bounds<M: NonlinearSystem>(
    m: M,
    cfg: NewtonCfg<M::Real>,
    x: Seq<M::Real>,
    dir: Seq<M::Real>,
    res: M::Real,
    first: M::Real,
    trials: nat,
    point: Seq<M::Real>,
    alpha: M::Real,
    order: Order<M::Real>,
)
    requires
        line_search_finds(m, cfg, x, dir, res, first, trials, Some((point, alpha))),
        order.holds(),
        is_sound(order, cfg),
        in_bounds(order, cfg, first),
    ensures
        in_bounds(order, cfg, alpha),
        is_step(x, alpha, dir, point),
    decreases trials,
{
    let (tried, peak, better) = choose|tried: Seq<M::Real>, peak: M::Real, better: bool|
        {
            &&& #[trigger] is_step(x, first, dir, tried)
            &&& is_peak(m.residual_at(tried), peak)
            &&& #[trigger] is_below(peak, res, better)
            &&& if better {
                Some((point, alpha)) == Some((tried, first))
            } else {
                exists|shorter: M::Real, spent: bool|
                    {
                        &&& #[trigger] is_product(first, cfg.ls_backtrack, shorter)
                        &&& #[trigger] is_below(shorter, cfg.min_damping, spent)
                        &&& !spent && line_search_finds(
                            m,
                            cfg,
                            x,
                            dir,
                            res,
                            shorter,
                            (trials - 1) as nat,
                            Some((point, alpha)),
                        )
                    }
            }
        };
    if !better {
        let (shorter, spent) = choose|shorter: M::Real, spent: bool|
            {
                &&& #[trigger] is_product(first, cfg.ls_backtrack, shorter)
                &&& #[trigger] is_below(shorter, cfg.min_damping, spent)
                &&& !spent && line_search_finds(
                    m,
                    cfg,
                    x,
                    dir,
                    res,
                    shorter,
                    (trials - 1) as nat,
                    Some((point, alpha)),
                )
            };
        lemma_search_in_bounds(
            m,
            cfg,
            x,
            dir,
            res,
            shorter,
            (trials - 1) as nat,
            point,
            alpha,
            order,
        );
    }
}

} // verus!
