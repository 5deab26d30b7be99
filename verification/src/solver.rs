//! The Newton iteration.
use vstd::prelude::*;

use crate::config::{Control, IterationStats, Iterations, NewtonCfg};
use crate::damping::residual_norm;
use crate::direction::Direction;
use crate::error::{Failure, SolverError, SolverResult};
use crate::scalar::Real;
use crate::search::advance;
use crate::system::{NonlinearSystem, RowMap};

verus! {

use crate::damping::is_peak;
use crate::scalar::{is_below, is_infinity, is_zero};
use crate::search::advances_to;
use crate::system::{same_size, same_structure};

/// Everything that a solve works on.
pub struct Progress<M: NonlinearSystem, L, D> {
    /// The model.
    pub model: M,
    /// The linear solver.
    pub lin: L,
    /// The buffers for the direction.
    pub direction: D,
    /// The point.
    pub x: Seq<M::Real>,
}

/// What one iteration came to.
pub struct Turn<M: NonlinearSystem, L, D> {
    /// The largest residual.
    pub res: M::Real,
    /// The answer of the callback.
    pub answer: Control,
    /// Whether the residual is below the tolerance.
    pub converged: bool,
    /// Where the solve stands once the direction is computed.
    pub after: Progress<M, L, D>,
    /// The direction.
    pub dir: Seq<M::Real>,
    /// Whether there is one.
    pub outcome: SolverResult<()>,
    /// The next point, with the next damping; `None` if the line search found nothing.
    pub next: Option<(Seq<M::Real>, M::Real)>,
}

/// Iteration `iter`, begun at `now` with this damping and with the residual `last_res`
/// one iteration earlier, can come to `turn`.
///
/// The callback is told of the largest residual at the point. Unless it cancels, the
/// residual is held against the tolerance. If it is not below, a direction is
/// computed; and if that succeeds, the point moves along it.
pub open spec fn takes_turn<M, L, D, Cb>(
    cfg: NewtonCfg<M::Real>,
    on_iter: Cb,
    iter: nat,
    now: Progress<M, L, D>,
    damping: M::Real,
    last_res: M::Real,
    turn: Turn<M, L, D>,
) -> bool where
    M: NonlinearSystem,
    D: Direction<M, L>,
    Cb: FnMut(&IterationStats<M::Real>) -> Control,
 {
    let f = now.model.residual_at(now.x);
    let goes_on = turn.answer == Control::Continue && !turn.converged;
    &&& is_peak(f, turn.res)
    &&& call_ensures(
        on_iter,
        (&IterationStats { iter: iter as usize, residual: turn.res, damping },),
        turn.answer,
    )
    &&& turn.answer == Control::Continue ==> is_below(turn.res, cfg.tol, turn.converged)
    &&& goes_on ==> {
        &&& D::computed(
            now.direction,
            now.model,
            now.lin,
            now.x,
            f,
            turn.after.direction,
            turn.after.model,
            turn.after.lin,
            turn.dir,
            turn.outcome,
        )
        &&& turn.after.x == now.x
    }
    &&& goes_on && turn.outcome is Ok ==> advances_to(
        turn.after.model,
        cfg,
        now.x,
        turn.dir,
        turn.res,
        damping,
        last_res,
        turn.next,
    )
}

/// The solve that stands at `now` before iteration `iter`, with this damping and with
/// the residual `last_res` one iteration earlier, returns `result` and ends at `end`.
/// It fails once the iterations are used up; otherwise it takes another turn.
pub open spec fn iterates_to<M, L, D, Cb>(
    cfg: NewtonCfg<M::Real>,
    on_iter: Cb,
    iter: nat,
    now: Progress<M, L, D>,
    damping: M::Real,
    last_res: M::Real,
    result: SolverResult<Iterations>,
    end: Progress<M, L, D>,
) -> bool where
    M: NonlinearSystem,
    D: Direction<M, L>,
    Cb: FnMut(&IterationStats<M::Real>) -> Control,

    decreases cfg.max_iter - iter, 1int,
{
    if iter >= cfg.max_iter {
        result == fails::<Iterations>(Failure::NotConverged(cfg.max_iter)) && end == now
    } else {
        exists|turn: Turn<M, L, D>| #[trigger]
            takes_turn(cfg, on_iter, iter, now, damping, last_res, turn) && turn_leads_to(
                cfg,
                on_iter,
                iter,
                now,
                turn,
                result,
                end,
            )
    }
}

/// After iteration `iter`, begun at `now`, came to `turn`, the solve returns `result`
/// and ends at `end`. A cancellation, a residual below the tolerance, an error of the
/// linear solver and a line search that found nothing end it where it stands; otherwise
/// the next iteration follows.
pub open spec fn turn_leads_to<M, L, D, Cb>(
    cfg: NewtonCfg<M::Real>,
    on_iter: Cb,
    iter: nat,
    now: Progress<M, L, D>,
    turn: Turn<M, L, D>,
    result: SolverResult<Iterations>,
    end: Progress<M, L, D>,
) -> bool where
    M: NonlinearSystem,
    D: Direction<M, L>,
    Cb: FnMut(&IterationStats<M::Real>) -> Control,

    decreases cfg.max_iter - iter, 0int,
{
    if turn.answer == Control::Cancel {
        result == fails::<Iterations>(Failure::Cancelled) && end == now
    } else if turn.converged {
        result == Ok::<Iterations, SolverError>((iter + 1) as usize) && end == now
    } else {
        match turn.outcome {
            Err(e) => result == Err::<Iterations, SolverError>(e) && end == turn.after,
            Ok(_) => match turn.next {
                None => {
                    result == fails::<Iterations>(Failure::LineSearchFailed) && end == turn.after
                },
                Some((x, damping)) => iter < cfg.max_iter && iterates_to(
                    cfg,
                    on_iter,
                    iter + 1,
                    Progress { x, ..turn.after },
                    damping,
                    turn.res,
                    result,
                    end,
                ),
            },
        }
    }
}

/// The error with the given reason.
pub open spec fn fails<T>(reason: Failure) -> SolverResult<T> {
    Err(SolverError { reason })
}

/// A solve that starts at `start` returns `result` and ends at `end`.
pub open spec fn solves_to<M, L, D, Cb>(
    cfg: NewtonCfg<M::Real>,
    on_iter: Cb,
    start: Progress<M, L, D>,
    result: SolverResult<Iterations>,
    end: Progress<M, L, D>,
) -> bool where
    M: NonlinearSystem,
    D: Direction<M, L>,
    Cb: FnMut(&IterationStats<M::Real>) -> Control,
 {
    exists|unbounded: M::Real| #[trigger]
        is_infinity(unbounded) && iterates_to(
            cfg,
            on_iter,
            0,
            start,
            cfg.damping,
            unbounded,
            result,
            end,
        )
}

/// A vector of `n` zeros.
fn zero_vector<R: Real>(n: usize) -> (v: Vec<R>)
    ensures
        v@.len() == n,
        exists|zero: R| #[trigger] is_zero(zero) && forall|i: int| 0 <= i < n ==> v@[i] == zero,
{
    let zero: R = R::zero();
    assert(is_zero(zero));
    let mut v: Vec<R> = Vec::new();
    let mut i: usize = 0;
    while i < n
        invariant
            i <= n,
            v@.len() == i,
            forall|k: int| 0 <= k < i ==> v@[k] == zero,
        decreases n - i,
    {
        v.push(zero);
        i = i + 1;
    }
    v
}

/// Iterates from `x` until the residual is below the tolerance, and returns the number
/// of iterations.
pub fn newton_iterate<M, L, D, Cb>(
    model: &mut M,
    x: &mut [M::Real],
    lin: &mut L,
    direction: &mut D,
    cfg: NewtonCfg<M::Real>,
    on_iter: Cb,
) -> (result: SolverResult<Iterations>) where
    M: NonlinearSystem,
    D: Direction<M, L>,
    Cb: FnMut(&IterationStats<M::Real>) -> Control,

    requires
        old(x)@.len() == old(model).layout_of().variables(),
        old(direction).ready(*old(model)),
        forall|stats: IterationStats<M::Real>| on_iter.requires((&stats,)),
    ensures
        solves_to(
            cfg,
            on_iter,
            Progress { model: *old(model), lin: *old(lin), direction: *old(direction), x: old(x)@ },
            result,
            Progress {
                model: *final(model),
                lin: *final(lin),
                direction: *final(direction),
                x: final(x)@,
            },
        ),
        final(x)@.len() == old(x)@.len(),
        same_size(final(model).layout_of(), old(model).layout_of()),
        same_structure::<M::Real, M::Jacobian>(
            final(model).jacobian_of(),
            old(model).jacobian_of(),
        ),
{
    let n_vars: usize = model.layout().n_variables();
    let n_res: usize = model.layout().n_residuals();
    let mut f: Vec<M::Real> = zero_vector(n_res);
    let mut dir: Vec<M::Real> = zero_vector(n_vars);
    let mut x_trial: Vec<M::Real> = zero_vector(n_vars);
    let mut f_trial: Vec<M::Real> = zero_vector(n_res);
    let mut damping: M::Real = cfg.damping;
    let unbounded: M::Real = M::Real::infinity();
    let mut last_res: M::Real = unbounded;
    let mut callback = on_iter;
    let mut iter: usize = 0;
    let ghost start = Progress { model: *model, lin: *lin, direction: *direction, x: x@ };
    assert(is_infinity(unbounded));
    while iter < cfg.max_iter
        invariant
            callback == on_iter,
            forall|stats: IterationStats<M::Real>| on_iter.requires((&stats,)),
            iter <= cfg.max_iter,
            x@.len() == n_vars,
            n_vars == old(x)@.len(),
            n_vars == model.layout_of().variables(),
            n_res == model.layout_of().residuals(),
            direction.ready(*model),
            same_size(model.layout_of(), old(model).layout_of()),
            same_structure::<M::Real, M::Jacobian>(model.jacobian_of(), old(model).jacobian_of()),
            f@.len() == n_res,
            dir@.len() == n_vars,
            x_trial@.len() == n_vars,
            f_trial@.len() == n_res,
            start == (Progress {
                model: *old(model),
                lin: *old(lin),
                direction: *old(direction),
                x: old(x)@,
            }),
            is_infinity(unbounded),
            forall|result: SolverResult<Iterations>, end: Progress<M, L, D>| #[trigger]
                iterates_to(
                    cfg,
                    on_iter,
                    iter as nat,
                    Progress { model: *model, lin: *lin, direction: *direction, x: x@ },
                    damping,
                    last_res,
                    result,
                    end,
                ) ==> iterates_to(cfg, on_iter, 0, start, cfg.damping, unbounded, result, end),
        decreases cfg.max_iter - iter,
    {
        let ghost now = Progress { model: *model, lin: *lin, direction: *direction, x: x@ };
        let ghost step = iter as nat;
        let ghost damping_now = damping;
        let ghost last_now = last_res;
        model.residual(x, f.as_mut_slice());
        let ghost f_now = f@;
        let res: M::Real = residual_norm(f.as_slice());
        let stats = IterationStats { iter, residual: res, damping };
        let answer: Control = callback(&stats);
        let ghost mut turn: Turn<M, L, D> = Turn {
            res,
            answer,
            converged: false,
            after: now,
            dir: Seq::empty(),
            outcome: Ok(()),
            next: None,
        };
        if answer == Control::Cancel {
            let result: SolverResult<Iterations> = Err(SolverError::new(Failure::Cancelled));
            assert(takes_turn(cfg, on_iter, step, now, damping_now, last_now, turn));
            assert(iterates_to(cfg, on_iter, step, now, damping_now, last_now, result, now));
            return result;
        }
        let converged: bool = res.below(cfg.tol);
        proof {
            turn.converged = converged;
        }
        if converged {
            let result: SolverResult<Iterations> = Ok(iter + 1);
            assert(takes_turn(cfg, on_iter, step, now, damping_now, last_now, turn));
            assert(iterates_to(cfg, on_iter, step, now, damping_now, last_now, result, now));
            return result;
        }
        let outcome: SolverResult<()> = direction.compute(model, lin, x, f.as_slice(), &mut dir);
        let ghost here = Progress { model: *model, lin: *lin, direction: *direction, x: x@ };
        proof {
            turn.after = here;
            turn.dir = dir@;
            turn.outcome = outcome;
        }
        if let Err(e) = outcome {
            let result: SolverResult<Iterations> = Err(e);
            assert(takes_turn(cfg, on_iter, step, now, damping_now, last_now, turn));
            assert(iterates_to(cfg, on_iter, step, now, damping_now, last_now, result, here));
            return result;
        }
        let next: Option<M::Real> = advance(
            model,
            &cfg,
            x,
            dir.as_slice(),
            res,
            damping,
            last_res,
            &mut x_trial,
            &mut f_trial,
        );
        proof {
            turn.next = match next {
                Some(d) => Some((x@, d)),
                None => None,
            };
        }
        assert(takes_turn(cfg, on_iter, step, now, damping_now, last_now, turn));
        match next {
            None => {
                let result: SolverResult<Iterations> = Err(
                    SolverError::new(Failure::LineSearchFailed),
                );
                assert(iterates_to(cfg, on_iter, step, now, damping_now, last_now, result, here));
                return result;
            },
            Some(d) => {
                damping = d;
            },
        }
        last_res = res;
        iter = iter + 1;
        assert forall|result: SolverResult<Iterations>, end: Progress<M, L, D>| #[trigger]
            iterates_to(
                cfg,
                on_iter,
                iter as nat,
                Progress { model: *model, lin: *lin, direction: *direction, x: x@ },
                damping,
                last_res,
                result,
                end,
            ) implies iterates_to(
            cfg,
            on_iter,
            0,
            start,
            cfg.damping,
            unbounded,
            result,
            end,
        ) by {
            assert(turn_leads_to(cfg, on_iter, step, now, turn, result, end));
            assert(iterates_to(cfg, on_iter, step, now, damping_now, last_now, result, end));
        }
    }
    let result: SolverResult<Iterations> = Err(
        SolverError::new(Failure::NotConverged(cfg.max_iter)),
    );
    let ghost end = Progress { model: *model, lin: *lin, direction: *direction, x: x@ };
    assert(iterates_to(cfg, on_iter, iter as nat, end, damping, last_res, result, end));
    result
}

} // verus!
