//! What a line search tries, and where an iteration takes a point.
use vstd::prelude::*;

use crate::config::NewtonCfg;
use crate::scalar::Real;
use crate::search::{advance, line_search};
use crate::system::NonlinearSystem;

verus! {

use crate::damping::{is_adapted, is_divergence, is_lowered, is_peak, is_step};
use crate::laws::law_line_search_makes_progress;
use crate::scalar::{is_below, is_product};
use crate::search::{advances_to, line_search_finds};
use crate::stepping::{law_divergence_is_relative, law_step_moves_every_unknown};

/// The trials of a line search, in order.
pub struct Trials<R> {
    /// The damping of each.
    pub dampings: Seq<R>,
    /// The point of each.
    pub points: Seq<Seq<R>>,
    /// The largest residual at each.
    pub peaks: Seq<R>,
}

/// A line search with at most `most` trials made these.
spec fn are_trials<M: NonlinearSystem>(
    m: M,
    cfg: NewtonCfg<M::Real>,
    x: Seq<M::Real>,
    dir: Seq<M::Real>,
    res: M::Real,
    first: M::Real,
    most: nat,
    found: Option<(Seq<M::Real>, M::Real)>,
    t: Trials<M::Real>,
) -> bool {
    let n = t.dampings.len();
    &&& n <= most && (most > 0 ==> n > 0)
    &&& t.points.len() == n && t.peaks.len() == n
    &&& n > 0 ==> t.dampings[0] == first
    &&& forall|j: int, k: int|
        0 <= j && k == j + 1 && k < n ==> call_ensures(
            M::Real::times,
            (#[trigger] t.dampings[j], cfg.ls_backtrack),
            #[trigger] t.dampings[k],
        )
    &&& forall|k: int|
        0 < k < n ==> call_ensures(
            M::Real::below,
            (#[trigger] t.dampings[k], cfg.min_damping),
            false,
        )
    &&& forall|k: int| 0 <= k < n ==> is_step(x, t.dampings[k], dir, #[trigger] t.points[k])
    &&& forall|k: int| 0 <= k < n ==> is_peak(m.residual_at(#[trigger] t.points[k]), t.peaks[k])
    &&& forall|k: int|
        0 <= k < n - 1 ==> call_ensures(M::Real::below, (#[trigger] t.peaks[k], res), false)
    &&& n > 0 ==> call_ensures(M::Real::below, (t.peaks.last(), res), found is Some)
    &&& match found {
        Some((point, alpha)) => n > 0 && point == t.points.last() && alpha == t.dampings.last(),
        None => n == most || (n > 0 && exists|next: M::Real| #[trigger]
            call_ensures(M::Real::times, (t.dampings.last(), cfg.ls_backtrack), next)
                && call_ensures(M::Real::below, (next, cfg.min_damping), true)),
    }
}

/// A line search makes trials.
proof fn lemma_search_makes_trials<M: NonlinearSystem>(
    m: M,
    cfg: NewtonCfg<M::Real>,
    x: Seq<M::Real>,
    dir: Seq<M::Real>,
    res: M::Real,
    first: M::Real,
    most: nat,
    found: Option<(Seq<M::Real>, M::Real)>,
) -> (t: Trials<M::Real>)
    requires
        line_search_finds(m, cfg, x, dir, res, first, most, found),
    ensures
        are_trials(m, cfg, x, dir, res, first, most, found, t),
    decreases most,
{
    if most == 0 {
        Trials { dampings: Seq::empty(), points: Seq::empty(), peaks: Seq::empty() }
    } else {
        let (point, peak, better) = choose|point: Seq<M::Real>, peak: M::Real, better: bool|
            {
                &&& #[trigger] is_step(x, first, dir, point)
                &&& is_peak(m.residual_at(point), peak)
                &&& #[trigger] is_below(peak, res, better)
                &&& if better {
                    found == Some((point, first))
                } else {
                    exists|shorter: M::Real, spent: bool|
                        {
                            &&& #[trigger] is_product(first, cfg.ls_backtrack, shorter)
                            &&& #[trigger] is_below(shorter, cfg.min_damping, spent)
                            &&& if spent {
                                found is None
                            } else {
                                line_search_finds(
                                    m,
                                    cfg,
                                    x,
                                    dir,
                                    res,
                                    shorter,
                                    (most - 1) as nat,
                                    found,
                                )
                            }
                        }
                }
            };
        let one = Trials { dampings: seq![first], points: seq![point], peaks: seq![peak] };
        if better {
            assert(one.peaks.last() == peak);
            one
        } else {
            let (shorter, spent) = choose|shorter: M::Real, spent: bool|
                {
                    &&& #[trigger] is_product(first, cfg.ls_backtrack, shorter)
                    &&& #[trigger] is_below(shorter, cfg.min_damping, spent)
                    &&& if spent {
                        found is None
                    } else {
                        line_search_finds(m, cfg, x, dir, res, shorter, (most - 1) as nat, found)
                    }
                };
            assert(call_ensures(M::Real::times, (first, cfg.ls_backtrack), shorter));
            if spent {
                assert(one.peaks.last() == peak && one.dampings.last() == first);
                one
            } else {
                let rest = lemma_search_makes_trials(
                    m,
                    cfg,
                    x,
                    dir,
                    res,
                    shorter,
                    (most - 1) as nat,
                    found,
                );
                let t = Trials {
                    dampings: one.dampings + rest.dampings,
                    points: one.points + rest.points,
                    peaks: one.peaks + rest.peaks,
                };
                let n = t.dampings.len();
                assert forall|j: int, k: int| 0 <= j && k == j + 1 && k < n implies call_ensures(
                    M::Real::times,
                    (#[trigger] t.dampings[j], cfg.ls_backtrack),
                    #[trigger] t.dampings[k],
                ) by {
                    if j > 0 {
                        assert(t.dampings[j] == rest.dampings[j - 1]);
                    }
                    assert(t.dampings[k] == rest.dampings[k - 1]);
                }
                assert forall|k: int| 0 < k < n implies call_ensures(
                    M::Real::below,
                    (#[trigger] t.dampings[k], cfg.min_damping),
                    false,
                ) by {
                    assert(t.dampings[k] == rest.dampings[k - 1]);
                }
                assert forall|k: int| 0 <= k < n implies is_step(
                    x,
                    t.dampings[k],
                    dir,
                    #[trigger] t.points[k],
                ) by {
                    if k > 0 {
                        assert(t.points[k] == rest.points[k - 1]);
                    }
                }
                assert forall|k: int| 0 <= k < n implies is_peak(
                    m.residual_at(#[trigger] t.points[k]),
                    t.peaks[k],
                ) by {
                    if k > 0 {
                        assert(t.points[k] == rest.points[k - 1]);
                    }
                }
                assert forall|k: int| 0 <= k < n - 1 implies call_ensures(
                    M::Real::below,
                    (#[trigger] t.peaks[k], res),
                    false,
                ) by {
                    if k > 0 {
                        assert(t.peaks[k] == rest.peaks[k - 1]);
                    }
                }
                if rest.dampings.len() > 0 {
                    assert(t.peaks.last() == rest.peaks.last());
                    assert(t.points.last() == rest.points.last());
                    assert(t.dampings.last() == rest.dampings.last());
                } else {
                    assert(t.peaks.last() == peak);
                }
                t
            }
        }
    }
}

/// A line search tries the first damping, and after every trial that fails the damping of
/// that trial times `ls_backtrack`: so after k failures, the first damping multiplied k times
/// by `ls_backtrack`. It stops at the first trial whose largest residual is below `res`. It
/// gives up only once it has made `ls_max_steps` trials, or the next damping would be below
/// `min_damping`.
pub proof fn law_search_backs_off_by_its_factor<M: NonlinearSystem>(
    m: M,
    cfg: NewtonCfg<M::Real>,
    x: Seq<M::Real>,
    dir: Seq<M::Real>,
    res: M::Real,
    first: M::Real,
    most: nat,
    found: Option<(Seq<M::Real>, M::Real)>,
)
    requires
        line_search_finds(m, cfg, x, dir, res, first, most, found),
    ensures
        exists|t: Trials<M::Real>|
            {
                let n = (#[trigger] t.dampings).len();
                &&& n <= most && (most > 0 ==> n > 0)
                &&& t.points.len() == n && t.peaks.len() == n
                &&& n > 0 ==> t.dampings[0] == first
                &&& forall|j: int, k: int|
                    0 <= j && k == j + 1 && k < n ==> call_ensures(
                        M::Real::times,
                        (#[trigger] t.dampings[j], cfg.ls_backtrack),
                        #[trigger] t.dampings[k],
                    )
                &&& forall|k: int|
                    0 < k < n ==> call_ensures(
                        M::Real::below,
                        (#[trigger] t.dampings[k], cfg.min_damping),
                        false,
                    )
                &&& forall|k: int|
                    0 <= k < n ==> is_step(x, t.dampings[k], dir, #[trigger] t.points[k])
                &&& forall|k: int|
                    0 <= k < n ==> is_peak(m.residual_at(#[trigger] t.points[k]), t.peaks[k])
                &&& forall|k: int|
                    0 <= k < n - 1 ==> call_ensures(
                        M::Real::below,
                        (#[trigger] t.peaks[k], res),
                        false,
                    )
                &&& n > 0 ==> call_ensures(M::Real::below, (t.peaks.last(), res), found is Some)
                &&& match found {
                    Some((point, alpha)) => n > 0 && point == t.points.last() && alpha
                        == t.dampings.last(),
                    None => n == most || (n > 0 && exists|next: M::Real| #[trigger]
                        call_ensures(M::Real::times, (t.dampings.last(), cfg.ls_backtrack), next)
                            && call_ensures(M::Real::below, (next, cfg.min_damping), true)),
                }
            },
{
    let t = lemma_search_makes_trials(m, cfg, x, dir, res, first, most, found);
    assert(t.dampings.len() <= most);
}

/// [`line_search`] tries the first damping, and after every trial that fails the damping of
/// that trial times `ls_backtrack`. It moves the point to the first trial whose largest
/// residual is below `res`, and returns the damping of it. It leaves the point and gives up
/// only once it has made `ls_max_steps` trials, or the next damping would be below
/// `min_damping`.
pub proof fn law_line_search_backs_off_by_its_factor<M: NonlinearSystem>(
    model: &M,
    cfg: &NewtonCfg<M::Real>,
    x: &mut [M::Real],
    dir: &[M::Real],
    res: M::Real,
    first: M::Real,
    x_trial: &mut Vec<M::Real>,
    f_trial: &mut Vec<M::Real>,
    found: Option<M::Real>,
)
    requires
        call_ensures(
            line_search::<M>,
            (model, cfg, x, dir, res, first, x_trial, f_trial),
            found,
        ),
    ensures
        exists|t: Trials<M::Real>|
            {
                let n = (#[trigger] t.dampings).len();
                &&& n <= cfg.ls_max_steps && (cfg.ls_max_steps > 0 ==> n > 0)
                &&& t.points.len() == n && t.peaks.len() == n
                &&& n > 0 ==> t.dampings[0] == first
                &&& forall|j: int, k: int|
                    0 <= j && k == j + 1 && k < n ==> call_ensures(
                        M::Real::times,
                        (#[trigger] t.dampings[j], cfg.ls_backtrack),
                        #[trigger] t.dampings[k],
                    )
                &&& forall|k: int|
                    0 < k < n ==> call_ensures(
                        M::Real::below,
                        (#[trigger] t.dampings[k], cfg.min_damping),
                        false,
                    )
                &&& forall|k: int|
                    0 <= k < n ==> is_step(old(x)@, t.dampings[k], dir@, #[trigger] t.points[k])
                &&& forall|k: int|
                    0 <= k < n ==> is_peak(model.residual_at(#[trigger] t.points[k]), t.peaks[k])
                &&& forall|k: int|
                    0 <= k < n - 1 ==> call_ensures(
                        M::Real::below,
                        (#[trigger] t.peaks[k], res),
                        false,
                    )
                &&& n > 0 ==> call_ensures(M::Real::below, (t.peaks.last(), res), found is Some)
                &&& match found {
                    Some(alpha) => n > 0 && final(x)@ == t.points.last() && alpha
                        == t.dampings.last(),
                    None => final(x)@ == old(x)@ && (n == cfg.ls_max_steps || (n > 0 && exists|
                        next: M::Real,
                    | #[trigger]
                        call_ensures(M::Real::times, (t.dampings.last(), cfg.ls_backtrack), next)
                            && call_ensures(M::Real::below, (next, cfg.min_damping), true))),
                }
            },
{
    let end = match found {
        Some(alpha) => Some((final(x)@, alpha)),
        None => None,
    };
    let t = lemma_search_makes_trials(
        *model,
        *cfg,
        x@,
        dir@,
        res,
        first,
        cfg.ls_max_steps as nat,
        end,
    );
    assert(t.dampings.len() <= cfg.ls_max_steps);
}

/// What a line search finds with some settings, it finds with others that agree in
/// `ls_backtrack` and `min_damping`.
proof fn lemma_search_with_other_settings<M: NonlinearSystem>(
    m: M,
    a: NewtonCfg<M::Real>,
    b: NewtonCfg<M::Real>,
    x: Seq<M::Real>,
    dir: Seq<M::Real>,
    res: M::Real,
    first: M::Real,
    most: nat,
    found: Option<(Seq<M::Real>, M::Real)>,
)
    requires
        a.ls_backtrack == b.ls_backtrack,
        a.min_damping == b.min_damping,
        line_search_finds(m, a, x, dir, res, first, most, found),
    ensures
        line_search_finds(m, b, x, dir, res, first, most, found),
    decreases most,
{
    if most > 0 {
        let left = (most - 1) as nat;
        let (point, peak, better) = choose|point: Seq<M::Real>, peak: M::Real, better: bool|
            {
                &&& #[trigger] is_step(x, first, dir, point)
                &&& is_peak(m.residual_at(point), peak)
                &&& #[trigger] is_below(peak, res, better)
                &&& if better {
                    found == Some((point, first))
                } else {
                    exists|shorter: M::Real, spent: bool|
                        {
                            &&& #[trigger] is_product(first, a.ls_backtrack, shorter)
                            &&& #[trigger] is_below(shorter, a.min_damping, spent)
                            &&& if spent {
                                found is None
                            } else {
                                line_search_finds(m, a, x, dir, res, shorter, left, found)
                            }
                        }
                }
            };
        if !better {
            let (shorter, spent) = choose|shorter: M::Real, spent: bool|
                {
                    &&& #[trigger] is_product(first, a.ls_backtrack, shorter)
                    &&& #[trigger] is_below(shorter, a.min_damping, spent)
                    &&& if spent {
                        found is None
                    } else {
                        line_search_finds(m, a, x, dir, res, shorter, left, found)
                    }
                };
            if !spent {
                lemma_search_with_other_settings(m, a, b, x, dir, res, shorter, left, found);
            }
            assert(is_product(first, b.ls_backtrack, shorter));
            assert(is_below(shorter, b.min_damping, spent));
        }
        assert(is_step(x, first, dir, point));
        assert(is_below(peak, res, better));
    }
}

/// What a line search finds depends on no settings but `ls_backtrack`, `min_damping` and the
/// number of trials.
pub proof fn law_search_ignores_other_settings<M: NonlinearSystem>(
    m: M,
    a: NewtonCfg<M::Real>,
    b: NewtonCfg<M::Real>,
    x: Seq<M::Real>,
    dir: Seq<M::Real>,
    res: M::Real,
    first: M::Real,
    most: nat,
    found: Option<(Seq<M::Real>, M::Real)>,
)
    requires
        a.ls_backtrack == b.ls_backtrack,
        a.min_damping == b.min_damping,
    ensures
        line_search_finds(m, a, x, dir, res, first, most, found) == line_search_finds(
            m,
            b,
            x,
            dir,
            res,
            first,
            most,
            found,
        ),
{
    if line_search_finds(m, a, x, dir, res, first, most, found) {
        lemma_search_with_other_settings(m, a, b, x, dir, res, first, most, found);
    }
    if line_search_finds(m, b, x, dir, res, first, most, found) {
        lemma_search_with_other_settings(m, b, a, x, dir, res, first, most, found);
    }
}

/// A step that is taken goes the fraction that it reports of the way along its direction.
proof fn lemma_advance_is_a_step<M: NonlinearSystem>(
    m: M,
    cfg: NewtonCfg<M::Real>,
    x: Seq<M::Real>,
    dir: Seq<M::Real>,
    res: M::Real,
    damping: M::Real,
    last_res: M::Real,
    point: Seq<M::Real>,
    d: M::Real,
)
    requires
        advances_to(m, cfg, x, dir, res, damping, last_res, Some((point, d))),
    ensures
        is_step(x, d, dir, point),
{
    if cfg.adaptive {
        let next = Some((point, d));
        let (adapted, blew_up) = choose|adapted: M::Real, blew_up: bool|
            {
                &&& #[trigger] is_adapted(cfg, damping, res, last_res, adapted)
                &&& #[trigger] is_divergence(cfg, res, last_res, blew_up)
                &&& if blew_up {
                    exists|first: M::Real| #[trigger]
                        is_lowered(cfg, adapted, first) && line_search_finds(
                            m,
                            cfg,
                            x,
                            dir,
                            res,
                            first,
                            cfg.ls_max_steps as nat,
                            next,
                        )
                } else {
                    d == adapted && is_step(x, adapted, dir, point)
                }
            };
        if blew_up {
            let first = choose|first: M::Real| #[trigger]
                is_lowered(cfg, adapted, first) && line_search_finds(
                    m,
                    cfg,
                    x,
                    dir,
                    res,
                    first,
                    cfg.ls_max_steps as nat,
                    next,
                );
            law_line_search_makes_progress(
                m,
                cfg,
                x,
                dir,
                res,
                first,
                cfg.ls_max_steps as nat,
                point,
                d,
            );
        }
    }
}

/// Wherever an iteration goes, every unknown, without exception, moves by the damping that
/// is reported next times its entry of the direction.
pub proof fn law_advance_moves_every_unknown<M: NonlinearSystem>(
    m: M,
    cfg: NewtonCfg<M::Real>,
    x: Seq<M::Real>,
    dir: Seq<M::Real>,
    res: M::Real,
    damping: M::Real,
    last_res: M::Real,
    point: Seq<M::Real>,
    d: M::Real,
)
    requires
        advances_to(m, cfg, x, dir, res, damping, last_res, Some((point, d))),
    ensures
        point.len() == x.len(),
        forall|i: int|
            0 <= i < x.len() ==> exists|p: M::Real| #[trigger]
                call_ensures(M::Real::times, (d, #[trigger] dir[i]), p) && call_ensures(
                    M::Real::plus,
                    (x[i], p),
                    point[i],
                ),
{
    lemma_advance_is_a_step(m, cfg, x, dir, res, damping, last_res, point, d);
    law_step_moves_every_unknown(x, d, dir, point);
}

/// [`advance`] moves every unknown, without exception, by the damping that it returns times
/// its entry of the direction; or it returns none, which only adaptive damping can lead to,
/// and leaves the point.
pub proof fn law_advance_moves_or_leaves<M: NonlinearSystem>(
    model: &M,
    cfg: &NewtonCfg<M::Real>,
    x: &mut [M::Real],
    dir: &[M::Real],
    res: M::Real,
    damping: M::Real,
    last_res: M::Real,
    x_trial: &mut Vec<M::Real>,
    f_trial: &mut Vec<M::Real>,
    next: Option<M::Real>,
)
    requires
        call_ensures(
            advance::<M>,
            (model, cfg, x, dir, res, damping, last_res, x_trial, f_trial),
            next,
        ),
    ensures
        advances_to(
            *model,
            *cfg,
            old(x)@,
            dir@,
            res,
            damping,
            last_res,
            match next {
                Some(d) => Some((final(x)@, d)),
                None => None,
            },
        ),
        final(x)@.len() == old(x)@.len(),
        next is None ==> final(x)@ == old(x)@ && cfg.adaptive,
        next matches Some(d) ==> forall|i: int|
            0 <= i < old(x)@.len() ==> exists|p: M::Real| #[trigger]
                call_ensures(M::Real::times, (d, #[trigger] dir@[i]), p) && call_ensures(
                    M::Real::plus,
                    (old(x)@[i], p),
                    final(x)@[i],
                ),
{
    if let Some(d) = next {
        law_advance_moves_every_unknown(
            *model,
            *cfg,
            x@,
            dir@,
            res,
            damping,
            last_res,
            final(x)@,
            d,
        );
    }
}

/// An adaptive iteration whose residual is not above the one before times
/// `divergence_ratio`, or has none before it that is finite, never fails: it goes the adapted
/// damping of the way along its direction.
pub proof fn law_quiet_iterations_step<M: NonlinearSystem>(
    m: M,
    cfg: NewtonCfg<M::Real>,
    x: Seq<M::Real>,
    dir: Seq<M::Real>,
    res: M::Real,
    damping: M::Real,
    last_res: M::Real,
    next: Option<(Seq<M::Real>, M::Real)>,
)
    requires
        advances_to(m, cfg, x, dir, res, damping, last_res, next),
        cfg.adaptive,
        ({
            ||| forall|known: bool| #[trigger]
                call_ensures(M::Real::finite, (last_res,), known) ==> !known
            ||| forall|bound: M::Real, above: bool|
                call_ensures(M::Real::times, (last_res, cfg.divergence_ratio), bound)
                    && #[trigger] call_ensures(M::Real::below, (bound, res), above) ==> !above
        }),
    ensures
        next matches Some((point, d)) && is_adapted(cfg, damping, res, last_res, d) && is_step(
            x,
            d,
            dir,
            point,
        ),
{
    let (adapted, blew_up) = choose|adapted: M::Real, blew_up: bool|
        {
            &&& #[trigger] is_adapted(cfg, damping, res, last_res, adapted)
            &&& #[trigger] is_divergence(cfg, res, last_res, blew_up)
            &&& !blew_up ==> (next matches Some((point, d)) && d == adapted && is_step(
                x,
                adapted,
                dir,
                point,
            ))
        };
    law_divergence_is_relative(cfg, res, last_res, blew_up);
}

/// An adaptive iteration whose residual is above the one before, a finite one, times
/// `divergence_ratio` searches, from the adapted damping lowered once more. It goes to a
/// point with a smaller residual, or fails.
pub proof fn law_loud_iterations_search<M: NonlinearSystem>(
    m: M,
    cfg: NewtonCfg<M::Real>,
    x: Seq<M::Real>,
    dir: Seq<M::Real>,
    res: M::Real,
    damping: M::Real,
    last_res: M::Real,
    next: Option<(Seq<M::Real>, M::Real)>,
)
    requires
        advances_to(m, cfg, x, dir, res, damping, last_res, next),
        cfg.adaptive,
        forall|known: bool| #[trigger] call_ensures(M::Real::finite, (last_res,), known) ==> known,
        forall|bound: M::Real, above: bool|
            call_ensures(M::Real::times, (last_res, cfg.divergence_ratio), bound)
                && #[trigger] call_ensures(M::Real::below, (bound, res), above) ==> above,
    ensures
        exists|adapted: M::Real, first: M::Real|
            {
                &&& #[trigger] is_adapted(cfg, damping, res, last_res, adapted)
                &&& #[trigger] is_lowered(cfg, adapted, first)
                &&& line_search_finds(
                    m,
                    cfg,
                    x,
                    dir,
                    res,
                    first,
                    cfg.ls_max_steps as nat,
                    next,
                )
            },
        next matches Some((point, d)) ==> exists|peak: M::Real| #[trigger]
            is_peak(m.residual_at(point), peak) && call_ensures(
                M::Real::below,
                (peak, res),
                true,
            ),
{
    let (adapted, blew_up) = choose|adapted: M::Real, blew_up: bool|
        {
            &&& #[trigger] is_adapted(cfg, damping, res, last_res, adapted)
            &&& #[trigger] is_divergence(cfg, res, last_res, blew_up)
            &&& blew_up ==> exists|first: M::Real| #[trigger]
                is_lowered(cfg, adapted, first) && line_search_finds(
                    m,
                    cfg,
                    x,
                    dir,
                    res,
                    first,
                    cfg.ls_max_steps as nat,
                    next,
                )
        };
    law_divergence_is_relative(cfg, res, last_res, blew_up);
    assert(blew_up);
    let first = choose|first: M::Real| #[trigger]
        is_lowered(cfg, adapted, first) && line_search_finds(
            m,
            cfg,
            x,
            dir,
            res,
            first,
            cfg.ls_max_steps as nat,
            next,
        );
    if let Some((point, d)) = next {
        law_line_search_makes_progress(
            m,
            cfg,
            x,
            dir,
            res,
            first,
            cfg.ls_max_steps as nat,
            point,
            d,
        );
    }
}

} // verus!
