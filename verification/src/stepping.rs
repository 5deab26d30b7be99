//! What the step control does, in terms of the operations on scalars alone.
use vstd::prelude::*;

use crate::config::NewtonCfg;
use crate::damping::{adapt, diverged, lower, raise, residual_norm, step_by, step_to};
use crate::scalar::Real;

verus! {

use crate::bounds::{in_bounds, is_sound};
use crate::damping::{is_adapted, is_divergence, is_lowered, is_moved, is_peak, is_raised, is_step};
use crate::order::Order;
use crate::scalar::{is_below, is_finite, is_magnitude, is_product, is_zero};

/// A step moves every unknown, without exception, by the damping times its entry of the
/// direction.
pub proof fn law_step_moves_every_unknown<R: Real>(
    from: Seq<R>,
    alpha: R,
    dir: Seq<R>,
    to: Seq<R>,
)
    requires
        is_step(from, alpha, dir, to),
    ensures
        to.len() == from.len(),
        forall|i: int|
            0 <= i < from.len() ==> exists|p: R| #[trigger]
                call_ensures(R::times, (alpha, #[trigger] dir[i]), p) && call_ensures(
                    R::plus,
                    (from[i], p),
                    to[i],
                ),
{
    assert forall|i: int| 0 <= i < from.len() implies exists|p: R| #[trigger]
        call_ensures(R::times, (alpha, #[trigger] dir[i]), p) && call_ensures(
            R::plus,
            (from[i], p),
            to[i],
        ) by {
        assert(is_moved(from[i], alpha, dir[i], to[i]));
    }
}

/// [`step_by`] moves every unknown, without exception, by the damping times its entry of the
/// direction.
pub proof fn law_step_by_moves_every_unknown<R: Real>(x: &mut [R], alpha: R, dir: &[R])
    requires
        call_ensures(step_by::<R>, (x, alpha, dir), ()),
    ensures
        final(x)@.len() == old(x)@.len(),
        forall|i: int|
            0 <= i < old(x)@.len() ==> exists|p: R| #[trigger]
                call_ensures(R::times, (alpha, #[trigger] dir@[i]), p) && call_ensures(
                    R::plus,
                    (old(x)@[i], p),
                    final(x)@[i],
                ),
{
    law_step_moves_every_unknown(x@, alpha, dir@, final(x)@);
}

/// [`step_to`] writes, for every unknown without exception, where the damping times its entry
/// of the direction moves it.
pub proof fn law_step_to_moves_every_unknown<R: Real>(
    from: &[R],
    alpha: R,
    dir: &[R],
    to: &mut [R],
)
    requires
        call_ensures(step_to::<R>, (from, alpha, dir, to), ()),
    ensures
        final(to)@.len() == from@.len(),
        forall|i: int|
            0 <= i < from@.len() ==> exists|p: R| #[trigger]
                call_ensures(R::times, (alpha, #[trigger] dir@[i]), p) && call_ensures(
                    R::plus,
                    (from@[i], p),
                    final(to)@[i],
                ),
{
    law_step_moves_every_unknown(from@, alpha, dir@, final(to)@);
}

/// How the largest magnitude among the entries of a vector is found: entry by entry.
pub struct Run<R> {
    /// The largest so far, zero first.
    pub peaks: Seq<R>,
    /// The magnitude of each entry.
    pub magnitudes: Seq<R>,
    /// Whether that was below the largest so far.
    pub below: Seq<bool>,
}

/// The entries of `f` are gone through.
spec fn is_run<R: Real>(f: Seq<R>, run: Run<R>) -> bool {
    &&& run.peaks.len() == f.len() + 1
    &&& call_ensures(R::zero, (), run.peaks[0])
    &&& forall|i: int|
        0 <= i < f.len() ==> call_ensures(
            R::magnitude,
            (#[trigger] f[i],),
            run.magnitudes[i],
        )
    &&& forall|i: int|
        0 <= i < f.len() ==> call_ensures(
            R::below,
            (#[trigger] run.magnitudes[i], run.peaks[i]),
            run.below[i],
        )
    &&& forall|i: int|
        0 <= i < f.len() ==> run.peaks[i + 1] == (if #[trigger] run.below[i] {
            run.peaks[i]
        } else {
            run.magnitudes[i]
        })
}

/// A peak ends a run.
proof fn lemma_peak_ends_a_run<R: Real>(f: Seq<R>, peak: R) -> (run: Run<R>)
    requires
        is_peak(f, peak),
    ensures
        is_run(f, run),
        run.magnitudes.len() == f.len(),
        run.below.len() == f.len(),
        run.peaks.last() == peak,
    decreases f.len(),
{
    if f.len() == 0 {
        let run = Run { peaks: seq![peak], magnitudes: Seq::empty(), below: Seq::empty() };
        assert(run.peaks[0] == peak);
        run
    } else {
        let (so_far, mag, keep) = choose|so_far: R, mag: R, keep: bool|
            {
                &&& is_peak(f.drop_last(), so_far)
                &&& #[trigger] is_magnitude(f.last(), mag)
                &&& #[trigger] is_below(mag, so_far, keep)
                &&& peak == (if keep {
                    so_far
                } else {
                    mag
                })
            };
        let front = f.drop_last();
        let before = lemma_peak_ends_a_run(front, so_far);
        let run = Run {
            peaks: before.peaks.push(peak),
            magnitudes: before.magnitudes.push(mag),
            below: before.below.push(keep),
        };
        assert(run.peaks[0] == before.peaks[0]);
        assert forall|i: int| 0 <= i < f.len() implies call_ensures(
            R::magnitude,
            (#[trigger] f[i],),
            run.magnitudes[i],
        ) by {
            if i < f.len() - 1 {
                assert(f[i] == front[i]);
            }
        }
        assert forall|i: int| 0 <= i < f.len() implies call_ensures(
            R::below,
            (#[trigger] run.magnitudes[i], run.peaks[i]),
            run.below[i],
        ) by {
            if i < f.len() - 1 {
                assert(run.magnitudes[i] == before.magnitudes[i]);
            }
        }
        assert forall|i: int| 0 <= i < f.len() implies run.peaks[i + 1] == (
        if #[trigger] run.below[i] {
            run.peaks[i]
        } else {
            run.magnitudes[i]
        }) by {
            if i < f.len() - 1 {
                assert(run.below[i] == before.below[i]);
            }
        }
        run
    }
}

/// The largest residual is what is left of zero once the magnitude of every residual in turn
/// has taken its place, unless it was below.
pub proof fn law_peak_takes_in_every_residual<R: Real>(f: Seq<R>, peak: R)
    requires
        is_peak(f, peak),
    ensures
        exists|run: Run<R>|
            {
                &&& (#[trigger] run.peaks).len() == f.len() + 1
                &&& call_ensures(R::zero, (), run.peaks[0])
                &&& run.peaks.last() == peak
                &&& forall|i: int|
        0 <= i < f.len() ==> call_ensures(
            R::magnitude,
            (#[trigger] f[i],),
            run.magnitudes[i],
        )
    &&& forall|i: int|
        0 <= i < f.len() ==> call_ensures(
            R::below,
            (#[trigger] run.magnitudes[i], run.peaks[i]),
            run.below[i],
        )
    &&& forall|i: int|
        0 <= i < f.len() ==> run.peaks[i + 1] == (if #[trigger] run.below[i] {
            run.peaks[i]
        } else {
            run.magnitudes[i]
        })
            },
{
    let run = lemma_peak_ends_a_run(f, peak);
    assert(run.peaks.len() == f.len() + 1);
    assert(call_ensures(R::zero, (), run.peaks[0]));
    assert(run.peaks.last() == peak);
}

/// What [`residual_norm`] returns is a peak, and for scalars that are ordered as numbers are
/// no residual exceeds it in magnitude, and it is zero or the magnitude of a residual.
pub proof fn law_norm_is_the_largest_magnitude<R: Real>(f: &[R], peak: R, order: Order<R>)
    requires
        call_ensures(residual_norm::<R>, (f,), peak),
        order.holds(),
        forall|a: R, m: R, n: R| #[trigger]
            call_ensures(R::magnitude, (a,), m) && #[trigger] call_ensures(R::magnitude, (a,), n)
                ==> m == n,
        forall|i: int, mag: R|
            0 <= i < f@.len() && #[trigger] call_ensures(R::magnitude, (f@[i],), mag)
                ==> order.has(mag),
    ensures
        is_peak(f@, peak),
        order.has(peak),
        forall|i: int, mag: R|
            0 <= i < f@.len() && #[trigger] call_ensures(R::magnitude, (f@[i],), mag)
                ==> !order.less(peak, mag),
        peak == order.zero || exists|i: int| #![trigger f@[i]]
            0 <= i < f@.len() && call_ensures(R::magnitude, (f@[i],), peak),
{
    let run = lemma_peak_ends_a_run(f@, peak);
    lemma_run_rises(f@, run, order, f@.len() as int);
}

/// No entry of a run is below one before it, or below a magnitude that it has taken in.
proof fn lemma_run_rises<R: Real>(f: Seq<R>, run: Run<R>, order: Order<R>, k: int)
    requires
        is_run(f, run),
        order.holds(),
        0 <= k <= f.len(),
        forall|a: R, m: R, n: R| #[trigger]
            call_ensures(R::magnitude, (a,), m) && #[trigger] call_ensures(R::magnitude, (a,), n)
                ==> m == n,
        forall|i: int, mag: R|
            0 <= i < f.len() && #[trigger] call_ensures(R::magnitude, (f[i],), mag)
                ==> order.has(mag),
    ensures
        order.has(run.peaks[k]),
        forall|i: int, mag: R|
            0 <= i < k && #[trigger] call_ensures(R::magnitude, (f[i],), mag) ==> !order.less(
                run.peaks[k],
                mag,
            ),
        run.peaks[k] == order.zero || exists|i: int| #![trigger f[i]]
            0 <= i < k && call_ensures(R::magnitude, (f[i],), run.peaks[k]),
    decreases k,
{
    if k == 0 {
        assert(is_zero(run.peaks[0]));
        assert(order.bounds(order.zero));
    } else {
        let l = k - 1;
        lemma_run_rises(f, run, order, l);
        let mag = run.magnitudes[l];
        let keep = run.below[l];
        assert(call_ensures(R::magnitude, (f[l],), mag));
        assert(is_below(mag, run.peaks[l], keep));
        assert(!order.less(mag, mag));
        assert(keep == order.less(mag, run.peaks[l]));
        assert forall|i: int, m: R|
            0 <= i < k && #[trigger] call_ensures(R::magnitude, (f[i],), m) implies !order.less(
            run.peaks[k],
            m,
        ) by {
            if i < l {
                assert(!order.less(run.peaks[l], m));
            } else if keep && order.less(run.peaks[l], mag) {
                assert(order.less(mag, run.peaks[l]));
            }
        }
    }
}

/// Raising a damping multiplies it by `grow`, and stops at `max_damping`.
pub proof fn law_raising_multiplies_by_grow<R: Real>(cfg: NewtonCfg<R>, damping: R, d: R)
    requires
        is_raised(cfg, damping, d) || call_ensures(raise::<R>, (&cfg, damping), d),
    ensures
        exists|p: R, over: bool| #[trigger]
            call_ensures(R::times, (damping, cfg.grow), p) && #[trigger] call_ensures(
                R::below,
                (cfg.max_damping, p),
                over,
            ) && d == (if over {
                cfg.max_damping
            } else {
                p
            }),
{
    assert(is_raised(cfg, damping, d));
    let (p, over) = choose|p: R, over: bool|
        {
            &&& #[trigger] is_product(damping, cfg.grow, p)
            &&& #[trigger] is_below(cfg.max_damping, p, over)
            &&& d == (if over {
                cfg.max_damping
            } else {
                p
            })
        };
    assert(call_ensures(R::times, (damping, cfg.grow), p));
    assert(call_ensures(R::below, (cfg.max_damping, p), over));
}

/// Lowering a damping multiplies it by `shrink`, and stops at `min_damping`.
pub proof fn law_lowering_multiplies_by_shrink<R: Real>(cfg: NewtonCfg<R>, damping: R, d: R)
    requires
        is_lowered(cfg, damping, d) || call_ensures(lower::<R>, (&cfg, damping), d),
    ensures
        exists|p: R, under: bool| #[trigger]
            call_ensures(R::times, (damping, cfg.shrink), p) && #[trigger] call_ensures(
                R::below,
                (p, cfg.min_damping),
                under,
            ) && d == (if under {
                cfg.min_damping
            } else {
                p
            }),
{
    assert(is_lowered(cfg, damping, d));
    let (p, under) = choose|p: R, under: bool|
        {
            &&& #[trigger] is_product(damping, cfg.shrink, p)
            &&& #[trigger] is_below(p, cfg.min_damping, under)
            &&& d == (if under {
                cfg.min_damping
            } else {
                p
            })
        };
    assert(call_ensures(R::times, (damping, cfg.shrink), p));
    assert(call_ensures(R::below, (p, cfg.min_damping), under));
}

/// After an iteration whose residual fell, the damping is multiplied by `grow`, up to
/// `max_damping`; after one whose residual did not, by `shrink`, down to `min_damping`.
pub proof fn law_damping_follows_the_residual<R: Real>(
    cfg: NewtonCfg<R>,
    damping: R,
    res: R,
    last_res: R,
    d: R,
)
    requires
        is_adapted(cfg, damping, res, last_res, d) || call_ensures(
            adapt::<R>,
            (&cfg, damping, res, last_res),
            d,
        ),
    ensures
        exists|fell: bool| #[trigger]
            call_ensures(R::below, (res, last_res), fell) && if fell {
                exists|p: R, over: bool| #[trigger]
                    call_ensures(R::times, (damping, cfg.grow), p) && #[trigger] call_ensures(
                        R::below,
                        (cfg.max_damping, p),
                        over,
                    ) && d == (if over {
                        cfg.max_damping
                    } else {
                        p
                    })
            } else {
                exists|p: R, under: bool| #[trigger]
                    call_ensures(R::times, (damping, cfg.shrink), p) && #[trigger] call_ensures(
                        R::below,
                        (p, cfg.min_damping),
                        under,
                    ) && d == (if under {
                        cfg.min_damping
                    } else {
                        p
                    })
            },
{
    assert(is_adapted(cfg, damping, res, last_res, d));
    let fell = choose|fell: bool| #[trigger]
        is_below(res, last_res, fell) && (if fell {
            is_raised(cfg, damping, d)
        } else {
            is_lowered(cfg, damping, d)
        });
    if fell {
        law_raising_multiplies_by_grow(cfg, damping, d);
    } else {
        law_lowering_multiplies_by_shrink(cfg, damping, d);
    }
    assert(call_ensures(R::below, (res, last_res), fell));
}

/// Two operations of the scalars give the same for the same.
pub open spec fn multiplies_and_compares_alike<R: Real>() -> bool {
    &&& forall|a: R, b: R, p: R, q: R| #[trigger]
        call_ensures(R::times, (a, b), p) && #[trigger] call_ensures(R::times, (a, b), q) ==> p
            == q
    &&& forall|a: R, b: R, x: bool, y: bool| #[trigger]
        call_ensures(R::below, (a, b), x) && #[trigger] call_ensures(R::below, (a, b), y) ==> x
            == y
}

/// Two dampings that are adapted alike agree, whatever the settings other than `grow`,
/// `shrink`, `min_damping` and `max_damping` are.
pub proof fn law_adaptation_ignores_other_settings<R: Real>(
    a: NewtonCfg<R>,
    b: NewtonCfg<R>,
    damping: R,
    res: R,
    last_res: R,
    d: R,
    e: R,
)
    requires
        multiplies_and_compares_alike::<R>(),
        a.grow == b.grow,
        a.shrink == b.shrink,
        a.min_damping == b.min_damping,
        a.max_damping == b.max_damping,
        call_ensures(adapt::<R>, (&a, damping, res, last_res), d),
        call_ensures(adapt::<R>, (&b, damping, res, last_res), e),
    ensures
        d == e,
{
    law_damping_follows_the_residual(a, damping, res, last_res, d);
    law_damping_follows_the_residual(b, damping, res, last_res, e);
}

/// With sound settings, for scalars that are ordered as numbers are, an iteration that made
/// progress does not lower the damping, and one that did not does not raise it.
pub proof fn law_progress_is_rewarded<R: Real>(
    cfg: NewtonCfg<R>,
    damping: R,
    res: R,
    last_res: R,
    d: R,
    order: Order<R>,
)
    requires
        call_ensures(adapt::<R>, (&cfg, damping, res, last_res), d),
        order.holds(),
        is_sound(order, cfg),
        in_bounds(order, cfg, damping),
        order.has(res),
        order.has(last_res),
    ensures
        order.less(res, last_res) ==> !order.less(d, damping),
        !order.less(res, last_res) ==> !order.less(damping, d),
{
    law_damping_follows_the_residual(cfg, damping, res, last_res, d);
    let fell = choose|fell: bool| #[trigger]
        call_ensures(R::below, (res, last_res), fell) && if fell {
            exists|p: R, over: bool| #[trigger]
                call_ensures(R::times, (damping, cfg.grow), p) && #[trigger] call_ensures(
                    R::below,
                    (cfg.max_damping, p),
                    over,
                ) && d == (if over {
                    cfg.max_damping
                } else {
                    p
                })
        } else {
            exists|p: R, under: bool| #[trigger]
                call_ensures(R::times, (damping, cfg.shrink), p) && #[trigger] call_ensures(
                    R::below,
                    (p, cfg.min_damping),
                    under,
                ) && d == (if under {
                    cfg.min_damping
                } else {
                    p
                })
        };
    assert(is_below(res, last_res, fell));
    assert(order.has(damping) && order.has(cfg.min_damping));
    assert(order.less(order.zero, damping)) by {
        assert(order.has(order.zero));
        if !order.less(order.zero, damping) {
            assert(!order.less(damping, cfg.min_damping));
            assert(!order.less(order.zero, cfg.min_damping));
        }
    }
    if fell {
        let (p, over) = choose|p: R, over: bool| #[trigger]
            call_ensures(R::times, (damping, cfg.grow), p) && #[trigger] call_ensures(
                R::below,
                (cfg.max_damping, p),
                over,
            ) && d == (if over {
                cfg.max_damping
            } else {
                p
            });
        assert(is_product(damping, cfg.grow, p));
    } else {
        let (p, under) = choose|p: R, under: bool| #[trigger]
            call_ensures(R::times, (damping, cfg.shrink), p) && #[trigger] call_ensures(
                R::below,
                (p, cfg.min_damping),
                under,
            ) && d == (if under {
                cfg.min_damping
            } else {
                p
            });
        assert(is_product(damping, cfg.shrink, p));
    }
}

/// A residual counts as a divergence when the one before it is finite, and it is above that
/// one times `divergence_ratio`.
pub proof fn law_divergence_is_relative<R: Real>(
    cfg: NewtonCfg<R>,
    res: R,
    last_res: R,
    answer: bool,
)
    requires
        is_divergence(cfg, res, last_res, answer) || call_ensures(
            diverged::<R>,
            (&cfg, res, last_res),
            answer,
        ),
    ensures
        exists|known: bool| #[trigger]
            call_ensures(R::finite, (last_res,), known) && if known {
                exists|bound: R| #[trigger]
                    call_ensures(R::times, (last_res, cfg.divergence_ratio), bound)
                        && call_ensures(R::below, (bound, res), answer)
            } else {
                !answer
            },
{
    assert(is_divergence(cfg, res, last_res, answer));
    let known = choose|known: bool| #[trigger]
        is_finite(last_res, known) && (if known {
            exists|bound: R| #[trigger]
                is_product(last_res, cfg.divergence_ratio, bound)
                    && is_below(bound, res, answer)
        } else {
            !answer
        });
    if known {
        let bound = choose|bound: R| #[trigger]
            is_product(last_res, cfg.divergence_ratio, bound)
                && is_below(bound, res, answer);
        assert(call_ensures(R::times, (last_res, cfg.divergence_ratio), bound));
    }
    assert(call_ensures(R::finite, (last_res,), known));
}

/// For scalars that are ordered as numbers are: a residual that grew to more than
/// `divergence_ratio` times a finite one is a divergence, and one that did not is none.
pub proof fn law_growth_is_noticed<R: Real>(
    cfg: NewtonCfg<R>,
    res: R,
    last_res: R,
    answer: bool,
    order: Order<R>,
)
    requires
        call_ensures(diverged::<R>, (&cfg, res, last_res), answer),
        order.holds(),
        order.has(res),
        forall|bound: R| #[trigger]
            call_ensures(R::times, (last_res, cfg.divergence_ratio), bound) ==> order.has(bound),
    ensures
        !order.bounds(last_res) ==> !answer,
        forall|bound: R|
            order.bounds(last_res) && (forall|p: R| #[trigger]
                call_ensures(R::times, (last_res, cfg.divergence_ratio), p) ==> p == bound)
                ==> answer == #[trigger] order.less(bound, res),
{
    law_divergence_is_relative(cfg, res, last_res, answer);
    let known = choose|known: bool| #[trigger]
        call_ensures(R::finite, (last_res,), known) && if known {
            exists|bound: R| #[trigger]
                call_ensures(R::times, (last_res, cfg.divergence_ratio), bound) && call_ensures(
                    R::below,
                    (bound, res),
                    answer,
                )
        } else {
            !answer
        };
    assert(is_finite(last_res, known));
    if known {
        let bound = choose|bound: R| #[trigger]
            call_ensures(R::times, (last_res, cfg.divergence_ratio), bound) && call_ensures(
                R::below,
                (bound, res),
                answer,
            );
        assert(is_below(bound, res, answer));
    }
}

} // verus!
