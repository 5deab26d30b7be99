//! The choice of the next point along a Newton direction.
use vstd::prelude::*;

use crate::config::NewtonCfg;
use crate::damping::{adapt, diverged, lower, residual_norm, step_by, step_to};
use crate::scalar::Real;
use crate::system::{NonlinearSystem, RowMap};

verus! {

use crate::damping::{is_adapted, is_divergence, is_lowered, is_peak, is_step};
use crate::scalar::{is_below, is_product};

/// What a line search along `dir` from `x` finds with `trials` trials left, the next
/// of them at `alpha`: the first point whose residual is below `res`, with the
/// damping that led there. Each trial that fails shortens the next; the search gives
/// up when the trials are used up or the next one would be below the smallest damping.
pub open spec fn line_search_finds<M: NonlinearSystem>(
    m: M,
    cfg: NewtonCfg<M::Real>,
    x: Seq<M::Real>,
    dir: Seq<M::Real>,
    res: M::Real,
    alpha: M::Real,
    trials: nat,
    found: Option<(Seq<M::Real>, M::Real)>,
) -> bool
    decreases trials,
{
    if trials == 0 {
        found is None
    } else {
        exists|point: Seq<M::Real>, peak: M::Real, better: bool|
            {
                &&& #[trigger] is_step(x, alpha, dir, point)
                &&& is_peak(m.residual_at(point), peak)
                &&& #[trigger] is_below(peak, res, better)
                &&& if better {
                    found == Some((point, alpha))
                } else {
                    exists|shorter: M::Real, spent: bool|
                        {
                            &&& #[trigger] is_product(alpha, cfg.ls_backtrack, shorter)
                            &&& #[trigger] is_below(shorter, cfg.min_damping, spent)
                            &&& if spent {
                                found is None
                            } else {
                                line_search_finds(
                                    m,
                                    cfg,
                                    x,
                                    dir,
                                    res,
                                    shorter,
                                    (trials - 1) as nat,
                                    found,
                                )
                            }
                        }
                }
            }
    }
}

/// Searches along `dir` for a point with a residual below `res`, starting at the
/// damping `first`. Moves `x` there and returns the damping, or leaves `x`. The
/// buffers hold a point and a residual vector.
pub fn line_search<M: NonlinearSystem>(
    model: &M,
    cfg: &NewtonCfg<M::Real>,
    x: &mut [M::Real],
    dir: &[M::Real],
    res: M::Real,
    first: M::Real,
    x_trial: &mut Vec<M::Real>,
    f_trial: &mut Vec<M::Real>,
) -> (found: Option<M::Real>)
    requires
        old(x)@.len() == model.layout_of().variables(),
        dir@.len() == model.layout_of().variables(),
        old(x_trial)@.len() == model.layout_of().variables(),
        old(f_trial)@.len() == model.layout_of().residuals(),
    ensures
        final(x_trial)@.len() == old(x_trial)@.len(),
        final(f_trial)@.len() == old(f_trial)@.len(),
        final(x)@.len() == old(x)@.len(),
        match found {
            Some(alpha) => line_search_finds(
                *model,
                *cfg,
                old(x)@,
                dir@,
                res,
                first,
                cfg.ls_max_steps as nat,
                Some((final(x)@, alpha)),
            ),
            None => final(x)@ == old(x)@ && line_search_finds(
                *model,
                *cfg,
                old(x)@,
                dir@,
                res,
                first,
                cfg.ls_max_steps as nat,
                None,
            ),
        },
{
    let mut alpha: M::Real = first;
    let mut left: usize = cfg.ls_max_steps;
    while left > 0
        invariant
            x@ == old(x)@,
            x@.len() == model.layout_of().variables(),
            dir@.len() == model.layout_of().variables(),
            x_trial@.len() == model.layout_of().variables(),
            x_trial@.len() == old(x_trial)@.len(),
            f_trial@.len() == model.layout_of().residuals(),
            f_trial@.len() == old(f_trial)@.len(),
            left <= cfg.ls_max_steps,
            forall|found: Option<(Seq<M::Real>, M::Real)>| #[trigger]
                line_search_finds(*model, *cfg, old(x)@, dir@, res, alpha, left as nat, found)
                    ==> line_search_finds(
                    *model,
                    *cfg,
                    old(x)@,
                    dir@,
                    res,
                    first,
                    cfg.ls_max_steps as nat,
                    found,
                ),
        decreases left,
    {
        step_to(x, alpha, dir, x_trial.as_mut_slice());
        model.residual(x_trial.as_slice(), f_trial.as_mut_slice());
        let peak: M::Real = residual_norm(f_trial.as_slice());
        let better: bool = peak.below(res);
        let ghost point = x_trial@;
        assert(is_step(x@, alpha, dir@, point));
        assert(is_below(peak, res, better));
        if better {
            copy_over(x, x_trial.as_slice());
            assert(line_search_finds(
                *model,
                *cfg,
                old(x)@,
                dir@,
                res,
                alpha,
                left as nat,
                Some((point, alpha)),
            ));
            return Some(alpha);
        }
        let shorter: M::Real = alpha.times(cfg.ls_backtrack);
        let spent: bool = shorter.below(cfg.min_damping);
        assert(is_product(alpha, cfg.ls_backtrack, shorter));
        assert(is_below(shorter, cfg.min_damping, spent));
        if spent {
            assert(line_search_finds(*model, *cfg, old(x)@, dir@, res, alpha, left as nat, None));
            return None;
        }
        let ghost longer = alpha;
        let ghost trials = left as nat;
        alpha = shorter;
        left = left - 1;
        assert forall|found: Option<(Seq<M::Real>, M::Real)>| #[trigger]
            line_search_finds(
                *model,
                *cfg,
                old(x)@,
                dir@,
                res,
                alpha,
                left as nat,
                found,
            ) implies line_search_finds(
            *model,
            *cfg,
            old(x)@,
            dir@,
            res,
            first,
            cfg.ls_max_steps as nat,
            found,
        ) by {
            assert(line_search_finds(*model, *cfg, old(x)@, dir@, res, longer, trials, found));
        }
    }
    assert(line_search_finds(*model, *cfg, old(x)@, dir@, res, alpha, 0, None));
    None
}

/// Copies `from` over `to`.
fn copy_over<R: Copy>(to: &mut [R], from: &[R])
    requires
        old(to)@.len() == from@.len(),
    ensures
        final(to)@ == from@,
{
    let n: usize = to.len();
    let mut i: usize = 0;
    while i < n
        invariant
            i <= n,
            n == from@.len(),
            to@.len() == n,
            forall|k: int| 0 <= k < i ==> to@[k] == from@[k],
        decreases n - i,
    {
        to[i] = from[i];
        i = i + 1;
    }
    assert(to@ =~= from@);
}

/// Where one iteration takes `x` along the direction `dir`, and the damping it leaves:
/// a plain step at the damping in force; or, with adaptive damping, a step at the
/// adapted damping, unless the residual blew up, in which case a line search decides.
/// `None` stands for a line search that found nothing.
pub open spec fn advances_to<M: NonlinearSystem>(
    m: M,
    cfg: NewtonCfg<M::Real>,
    x: Seq<M::Real>,
    dir: Seq<M::Real>,
    res: M::Real,
    damping: M::Real,
    last_res: M::Real,
    next: Option<(Seq<M::Real>, M::Real)>,
) -> bool {
    if !cfg.adaptive {
        next matches Some((point, d)) && d == damping && is_step(x, damping, dir, point)
    } else {
        exists|adapted: M::Real, blew_up: bool|
            {
                &&& #[trigger] is_adapted(cfg, damping, res, last_res, adapted)
                &&& #[trigger] is_divergence(cfg, res, last_res, blew_up)
                &&& if blew_up {
                    exists|first: M::Real| #[trigger]
                        is_lowered(cfg, adapted, first) && line_search_finds(
                            m,
                            cfg,
                            x,
                            dir,
                            res,
                            first,
                            cfg.ls_max_steps as nat,
                            next,
                        )
                } else {
                    next matches Some((point, d)) && d == adapted && is_step(
                        x,
                        adapted,
                        dir,
                        point,
                    )
                }
            }
    }
}

/// Moves `x` along the direction `dir` and returns the damping for the next iteration,
/// or leaves `x` if the line search found nothing. The buffers hold a point and a
/// residual vector.
pub fn advance<M: NonlinearSystem>(
    model: &M,
    cfg: &NewtonCfg<M::Real>,
    x: &mut [M::Real],
    dir: &[M::Real],
    res: M::Real,
    damping: M::Real,
    last_res: M::Real,
    x_trial: &mut Vec<M::Real>,
    f_trial: &mut Vec<M::Real>,
) -> (next: Option<M::Real>)
    requires
        old(x)@.len() == model.layout_of().variables(),
        dir@.len() == model.layout_of().variables(),
        old(x_trial)@.len() == model.layout_of().variables(),
        old(f_trial)@.len() == model.layout_of().residuals(),
    ensures
        final(x_trial)@.len() == old(x_trial)@.len(),
        final(f_trial)@.len() == old(f_trial)@.len(),
        final(x)@.len() == old(x)@.len(),
        next is None ==> final(x)@ == old(x)@,
        advances_to(
            *model,
            *cfg,
            old(x)@,
            dir@,
            res,
            damping,
            last_res,
            match next {
                Some(d) => Some((final(x)@, d)),
                None => None,
            },
        ),
{
    if !cfg.adaptive {
        step_by(x, damping, dir);
        return Some(damping);
    }
    let adapted: M::Real = adapt(cfg, damping, res, last_res);
    let blew_up: bool = diverged(cfg, res, last_res);
    assert(is_adapted(*cfg, damping, res, last_res, adapted));
    assert(is_divergence(*cfg, res, last_res, blew_up));
    if blew_up {
        let first: M::Real = lower(cfg, adapted);
        assert(is_lowered(*cfg, adapted, first));
        line_search(model, cfg, x, dir, res, first, x_trial, f_trial)
    } else {
        step_by(x, adapted, dir);
        Some(adapted)
    }
}

} // verus!
