//! The step control of a solve: how far to go along a Newton direction.
use vstd::prelude::*;

use crate::config::NewtonCfg;
use crate::scalar::Real;

verus! {

use crate::scalar::{is_below, is_finite, is_magnitude, is_product, is_sum, is_zero};

/// `peak` is the largest magnitude among the entries of `f`, at least zero: each
/// entry in turn replaces the peak so far unless its magnitude is below that.
pub open spec fn is_peak<R: Real>(f: Seq<R>, peak: R) -> bool
    decreases f.len(),
{
    if f.len() == 0 {
        is_zero(peak)
    } else {
        exists|so_far: R, mag: R, keep: bool|
            {
                &&& is_peak(f.drop_last(), so_far)
                &&& #[trigger] is_magnitude(f.last(), mag)
                &&& #[trigger] is_below(mag, so_far, keep)
                &&& peak == (if keep {
                    so_far
                } else {
                    mag
                })
            }
    }
}

/// The largest magnitude among the entries of `f`.
pub fn residual_norm<R: Real>(f: &[R]) -> (peak: R)
    ensures
        is_peak(f@, peak),
{
    let mut peak: R = R::zero();
    let mut i: usize = 0;
    assert(is_peak(f@.take(0), peak));
    while i < f.len()
        invariant
            i <= f@.len(),
            is_peak(f@.take(i as int), peak),
        decreases f@.len() - i,
    {
        let mag: R = f[i].magnitude();
        let keep: bool = mag.below(peak);
        let ghost next = f@.take(i + 1);
        assert(next.drop_last() =~= f@.take(i as int));
        assert(is_magnitude(next.last(), mag));
        assert(is_below(mag, peak, keep));
        if !keep {
            peak = mag;
        }
        assert(is_peak(next, peak));
        i = i + 1;
    }
    assert(f@.take(i as int) =~= f@);
    peak
}

/// `to` is `from + alpha * dir`.
pub open spec fn is_moved<R: Real>(from: R, alpha: R, dir: R, to: R) -> bool {
    exists|p: R| #[trigger] is_product(alpha, dir, p) && is_sum(from, p, to)
}

/// `to` is `from + alpha * dir`, entry by entry.
pub open spec fn is_step<R: Real>(from: Seq<R>, alpha: R, dir: Seq<R>, to: Seq<R>) -> bool {
    &&& to.len() == from.len()
    &&& forall|i: int|
        0 <= i < to.len() ==> #[trigger] is_moved(from[i], alpha, dir[i], to[i])
}

/// `d` is `damping * grow`, or the largest damping if that is above it.
pub open spec fn is_raised<R: Real>(cfg: NewtonCfg<R>, damping: R, d: R) -> bool {
    exists|p: R, over: bool|
        {
            &&& #[trigger] is_product(damping, cfg.grow, p)
            &&& #[trigger] is_below(cfg.max_damping, p, over)
            &&& d == (if over {
                cfg.max_damping
            } else {
                p
            })
        }
}

/// `d` is `damping * shrink`, or the smallest damping if that is below it.
pub open spec fn is_lowered<R: Real>(cfg: NewtonCfg<R>, damping: R, d: R) -> bool {
    exists|p: R, under: bool|
        {
            &&& #[trigger] is_product(damping, cfg.shrink, p)
            &&& #[trigger] is_below(p, cfg.min_damping, under)
            &&& d == (if under {
                cfg.min_damping
            } else {
                p
            })
        }
}

/// `d` is the damping after an iteration with residual `res` that followed one with
/// residual `last_res`: raised if the residual fell, lowered if it did not.
pub open spec fn is_adapted<R: Real>(
    cfg: NewtonCfg<R>,
    damping: R,
    res: R,
    last_res: R,
    d: R,
) -> bool {
    exists|fell: bool| #[trigger]
        is_below(res, last_res, fell) && (if fell {
            is_raised(cfg, damping, d)
        } else {
            is_lowered(cfg, damping, d)
        })
}

/// `answer` says whether the residual blew up: the one before is finite, and the
/// residual is above it times the divergence ratio.
pub open spec fn is_divergence<R: Real>(
    cfg: NewtonCfg<R>,
    res: R,
    last_res: R,
    answer: bool,
) -> bool {
    exists|known: bool| #[trigger]
        is_finite(last_res, known) && (if known {
            exists|bound: R| #[trigger]
                is_product(last_res, cfg.divergence_ratio, bound) && is_below(bound, res, answer)
        } else {
            !answer
        })
}

/// The damping raised.
pub fn raise<R: Real>(cfg: &NewtonCfg<R>, damping: R) -> (d: R)
    ensures
        is_raised(*cfg, damping, d),
{
    let p: R = damping.times(cfg.grow);
    let over: bool = cfg.max_damping.below(p);
    assert(is_product(damping, cfg.grow, p));
    assert(is_below(cfg.max_damping, p, over));
    if over {
        cfg.max_damping
    } else {
        p
    }
}

/// The damping lowered.
pub fn lower<R: Real>(cfg: &NewtonCfg<R>, damping: R) -> (d: R)
    ensures
        is_lowered(*cfg, damping, d),
{
    let p: R = damping.times(cfg.shrink);
    let under: bool = p.below(cfg.min_damping);
    assert(is_product(damping, cfg.shrink, p));
    assert(is_below(p, cfg.min_damping, under));
    if under {
        cfg.min_damping
    } else {
        p
    }
}

/// The damping after an iteration with residual `res` that followed one with
/// residual `last_res`.
pub fn adapt<R: Real>(cfg: &NewtonCfg<R>, damping: R, res: R, last_res: R) -> (d: R)
    ensures
        is_adapted(*cfg, damping, res, last_res, d),
{
    let fell: bool = res.below(last_res);
    assert(is_below(res, last_res, fell));
    if fell {
        raise(cfg, damping)
    } else {
        lower(cfg, damping)
    }
}

/// Whether the residual blew up.
pub fn diverged<R: Real>(cfg: &NewtonCfg<R>, res: R, last_res: R) -> (answer: bool)
    ensures
        is_divergence(*cfg, res, last_res, answer),
{
    let known: bool = last_res.finite();
    assert(is_finite(last_res, known));
    if known {
        let bound: R = last_res.times(cfg.divergence_ratio);
        assert(is_product(last_res, cfg.divergence_ratio, bound));
        bound.below(res)
    } else {
        false
    }
}

/// Writes `from + alpha * dir` to `to`.
pub fn step_to<R: Real>(from: &[R], alpha: R, dir: &[R], to: &mut [R])
    requires
        dir@.len() == from@.len(),
        old(to)@.len() == from@.len(),
    ensures
        is_step(from@, alpha, dir@, final(to)@),
{
    let n: usize = from.len();
    let mut i: usize = 0;
    while i < n
        invariant
            i <= n,
            n == from@.len(),
            dir@.len() == n,
            to@.len() == n,
            forall|k: int| 0 <= k < i ==> #[trigger] is_moved(from@[k], alpha, dir@[k], to@[k]),
        decreases n - i,
    {
        let p: R = alpha.times(dir[i]);
        let sum: R = from[i].plus(p);
        assert(is_product(alpha, dir@[i as int], p));
        assert(is_moved(from@[i as int], alpha, dir@[i as int], sum));
        to[i] = sum;
        i = i + 1;
    }
}

/// Moves `x` by `alpha * dir`.
pub fn step_by<R: Real>(x: &mut [R], alpha: R, dir: &[R])
    requires
        dir@.len() == old(x)@.len(),
    ensures
        is_step(old(x)@, alpha, dir@, final(x)@),
{
    let n: usize = x.len();
    let mut i: usize = 0;
    while i < n
        invariant
            i <= n,
            n == old(x)@.len(),
            dir@.len() == n,
            x@.len() == n,
            forall|k: int| i <= k < n ==> x@[k] == old(x)@[k],
            forall|k: int|
                0 <= k < i ==> #[trigger] is_moved(old(x)@[k], alpha, dir@[k], x@[k]),
        decreases n - i,
    {
        let p: R = alpha.times(dir[i]);
        let sum: R = x[i].plus(p);
        assert(is_product(alpha, dir@[i as int], p));
        assert(is_moved(old(x)@[i as int], alpha, dir@[i as int], sum));
        x[i] = sum;
        i = i + 1;
    }
}

} // verus!
