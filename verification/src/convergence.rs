//! When a solve is over, and what it depends on.
use vstd::prelude::*;

use crate::config::{Control, IterationStats, Iterations, NewtonCfg};
use crate::direction::Direction;
use crate::error::{SolverError, SolverResult};
use crate::scalar::Real;
use crate::system::NonlinearSystem;

verus! {

use crate::damping::{is_adapted, is_divergence, is_lowered, is_peak, is_raised, is_step};
use crate::history::lemma_solve_has_a_history;
use crate::scalar::is_infinity;
use crate::search::{advances_to, line_search_finds};
use crate::searching::{law_advance_moves_every_unknown, law_search_ignores_other_settings};
use crate::solver::{Progress, Turn, iterates_to, solves_to, takes_turn, turn_leads_to};

/// If the damping is one, and the point that is the sum of the first point and its direction,
/// unknown by unknown, solves the system, the solve is over after at most one step, whatever
/// the number of unknowns: it succeeds in its first iteration or in its second, unless there
/// is no direction or the callback cancels. So it is with a system of linear equations, in
/// exact arithmetic.
pub proof fn law_full_step_ends_the_solve<M, L, D, Cb>(
    cfg: NewtonCfg<M::Real>,
    on_iter: Cb,
    start: Progress<M, L, D>,
    result: SolverResult<Iterations>,
    end: Progress<M, L, D>,
) where
    M: NonlinearSystem,
    D: Direction<M, L>,
    Cb: FnMut(&IterationStats<M::Real>) -> Control,

    requires
        solves_to(cfg, on_iter, start, result, end),
        !cfg.adaptive,
        cfg.max_iter >= 2,
        forall|a: M::Real, p: M::Real| #[trigger]
            call_ensures(M::Real::times, (cfg.damping, a), p) ==> p == a,
        forall|stats: IterationStats<M::Real>, answer: Control| #[trigger]
            call_ensures(on_iter, (&stats,), answer) ==> answer == Control::Continue,
        forall|
            d1: D,
            m1: M,
            l1: L,
            dir: Seq<M::Real>,
            y: Seq<M::Real>,
            peak: M::Real,
            below: bool,
        |
            #[trigger] D::computed(
                start.direction,
                start.model,
                start.lin,
                start.x,
                start.model.residual_at(start.x),
                d1,
                m1,
                l1,
                dir,
                Ok::<(), SolverError>(()),
            ) && y.len() == start.x.len() && (forall|i: int|
                0 <= i < y.len() ==> call_ensures(
                    M::Real::plus,
                    (start.x[i], dir[i]),
                    #[trigger] y[i],
                )) && #[trigger] is_peak(m1.residual_at(y), peak) && #[trigger] call_ensures(
                M::Real::below,
                (peak, cfg.tol),
                below,
            ) ==> below,
    ensures
        match result {
            Ok(n) => {
                ||| n == 1 && end == start
                ||| n == 2 && end.x.len() == start.x.len() && exists|dir: Seq<M::Real>| #[trigger]
                    D::computed(
                        start.direction,
                        start.model,
                        start.lin,
                        start.x,
                        start.model.residual_at(start.x),
                        end.direction,
                        end.model,
                        end.lin,
                        dir,
                        Ok::<(), SolverError>(()),
                    ) && forall|i: int|
                        0 <= i < end.x.len() ==> call_ensures(
                            M::Real::plus,
                            (start.x[i], dir[i]),
                            #[trigger] end.x[i],
                        )
            },
            Err(e) => exists|d1: D, m1: M, l1: L, dir: Seq<M::Real>| #[trigger]
                D::computed(
                    start.direction,
                    start.model,
                    start.lin,
                    start.x,
                    start.model.residual_at(start.x),
                    d1,
                    m1,
                    l1,
                    dir,
                    Err::<(), SolverError>(e),
                ),
        },
{
    let h = lemma_solve_has_a_history(cfg, on_iter, start, result, end);
    let m = h.before.len() - 1;
    assert(h.before[0] == start);
    if m == 0 {
        assert(h.answers[0] == Control::Continue);
        assert(h.residuals[0] == h.residuals[0]);
    } else {
        let x1 = h.before[1].x;
        let dir = h.directions[0];
        let after = h.after[0];
        assert(h.dampings[0] == cfg.damping && h.dampings[1] == h.dampings[1]);
        assert(advances_to(
            after.model,
            cfg,
            start.x,
            dir,
            h.residuals[0],
            h.dampings[0],
            h.previous[0],
            Some((x1, h.dampings[1])),
        ));
        law_advance_moves_every_unknown(
            after.model,
            cfg,
            start.x,
            dir,
            h.residuals[0],
            h.dampings[0],
            h.previous[0],
            x1,
            h.dampings[1],
        );
        assert forall|i: int| 0 <= i < x1.len() implies call_ensures(
            M::Real::plus,
            (start.x[i], dir[i]),
            #[trigger] x1[i],
        ) by {
            let p = choose|p: M::Real| #[trigger]
                call_ensures(M::Real::times, (h.dampings[1], dir[i]), p) && call_ensures(
                    M::Real::plus,
                    (start.x[i], p),
                    x1[i],
                );
            assert(p == dir[i]);
        }
        assert(h.before[1] == (Progress { x: x1, ..after }));
        assert(is_peak(after.model.residual_at(x1), h.residuals[1]));
        assert(D::computed(
            start.direction,
            start.model,
            start.lin,
            start.x,
            start.model.residual_at(start.x),
            after.direction,
            after.model,
            after.lin,
            dir,
            Ok::<(), SolverError>(()),
        ));
        assert(!call_ensures(M::Real::below, (h.residuals[1], cfg.tol), false));
        assert(m == 1);
        assert(h.answers[1] == Control::Continue);
        assert(end == h.before[1]);
        assert(D::computed(
            start.direction,
            start.model,
            start.lin,
            start.x,
            start.model.residual_at(start.x),
            end.direction,
            end.model,
            end.lin,
            dir,
            Ok::<(), SolverError>(()),
        ));
        assert(end.x == x1);
    }
}

/// Two settings ask for the same steps: they agree in whether the damping is adaptive, and,
/// if it is, in the settings of the step control.
pub open spec fn step_alike<R>(a: NewtonCfg<R>, b: NewtonCfg<R>) -> bool {
    &&& a.adaptive == b.adaptive
    &&& a.adaptive ==> {
        &&& a.min_damping == b.min_damping
        &&& a.max_damping == b.max_damping
        &&& a.grow == b.grow
        &&& a.shrink == b.shrink
        &&& a.divergence_ratio == b.divergence_ratio
        &&& a.ls_backtrack == b.ls_backtrack
        &&& a.ls_max_steps == b.ls_max_steps
    }
}

/// Where a step leads with some settings, it leads with others that ask for the same.
proof fn lemma_steps_agree<M: NonlinearSystem>(
    m: M,
    a: NewtonCfg<M::Real>,
    b: NewtonCfg<M::Real>,
    x: Seq<M::Real>,
    dir: Seq<M::Real>,
    res: M::Real,
    damping: M::Real,
    last_res: M::Real,
    next: Option<(Seq<M::Real>, M::Real)>,
)
    requires
        advances_to(m, a, x, dir, res, damping, last_res, next),
        step_alike(a, b),
    ensures
        advances_to(m, b, x, dir, res, damping, last_res, next),
{
    if a.adaptive {
        let (adapted, blew_up) = choose|adapted: M::Real, blew_up: bool|
            {
                &&& #[trigger] is_adapted(a, damping, res, last_res, adapted)
                &&& #[trigger] is_divergence(a, res, last_res, blew_up)
                &&& if blew_up {
                    exists|first: M::Real| #[trigger]
                        is_lowered(a, adapted, first) && line_search_finds(
                            m,
                            a,
                            x,
                            dir,
                            res,
                            first,
                            a.ls_max_steps as nat,
                            next,
                        )
                } else {
                    next matches Some((point, d)) && d == adapted && is_step(
                        x,
                        adapted,
                        dir,
                        point,
                    )
                }
            };
        assert(is_adapted(b, damping, res, last_res, adapted)) by {
            if is_raised(a, damping, adapted) {
                assert(is_raised(b, damping, adapted));
            }
            if is_lowered(a, damping, adapted) {
                assert(is_lowered(b, damping, adapted));
            }
        }
        assert(is_divergence(b, res, last_res, blew_up));
        if blew_up {
            let first = choose|first: M::Real| #[trigger]
                is_lowered(a, adapted, first) && line_search_finds(
                    m,
                    a,
                    x,
                    dir,
                    res,
                    first,
                    a.ls_max_steps as nat,
                    next,
                );
            assert(is_lowered(b, adapted, first));
            law_search_ignores_other_settings(
                m,
                a,
                b,
                x,
                dir,
                res,
                first,
                a.ls_max_steps as nat,
                next,
            );
        }
    }
}

/// What is left of a solve goes the same way with settings that ask for the same.
proof fn lemma_iterations_agree<M, L, D, Cb>(
    a: NewtonCfg<M::Real>,
    b: NewtonCfg<M::Real>,
    on_iter: Cb,
    iter: nat,
    now: Progress<M, L, D>,
    damping: M::Real,
    last_res: M::Real,
    result: SolverResult<Iterations>,
    end: Progress<M, L, D>,
) where
    M: NonlinearSystem,
    D: Direction<M, L>,
    Cb: FnMut(&IterationStats<M::Real>) -> Control,

    requires
        iterates_to(a, on_iter, iter, now, damping, last_res, result, end),
        a.tol == b.tol,
        a.max_iter == b.max_iter,
        step_alike(a, b),
    ensures
        iterates_to(b, on_iter, iter, now, damping, last_res, result, end),
    decreases a.max_iter - iter,
{
    if iter < a.max_iter {
        let turn = choose|turn: Turn<M, L, D>| #[trigger]
            takes_turn(a, on_iter, iter, now, damping, last_res, turn) && turn_leads_to(
                a,
                on_iter,
                iter,
                now,
                turn,
                result,
                end,
            );
        let goes_on = turn.answer == Control::Continue && !turn.converged;
        if goes_on && turn.outcome is Ok {
            lemma_steps_agree(
                turn.after.model,
                a,
                b,
                now.x,
                turn.dir,
                turn.res,
                damping,
                last_res,
                turn.next,
            );
            if let Some((x, d)) = turn.next {
                lemma_iterations_agree(
                    a,
                    b,
                    on_iter,
                    iter + 1,
                    Progress { x, ..turn.after },
                    d,
                    turn.res,
                    result,
                    end,
                );
            }
        }
        assert(takes_turn(b, on_iter, iter, now, damping, last_res, turn));
        assert(turn_leads_to(b, on_iter, iter, now, turn, result, end));
    }
}

/// A solve depends on no settings but the tolerance, the first damping, the number of
/// iterations and whether the damping is adaptive; and, if it is, on those of the step
/// control. Without adaptive damping, the settings of the step control do not matter. The
/// matrix format and the number of threads never do.
pub proof fn law_other_settings_do_not_matter<M, L, D, Cb>(
    a: NewtonCfg<M::Real>,
    b: NewtonCfg<M::Real>,
    on_iter: Cb,
    start: Progress<M, L, D>,
    result: SolverResult<Iterations>,
    end: Progress<M, L, D>,
) where
    M: NonlinearSystem,
    D: Direction<M, L>,
    Cb: FnMut(&IterationStats<M::Real>) -> Control,

    requires
        a.tol == b.tol,
        a.damping == b.damping,
        a.max_iter == b.max_iter,
        step_alike(a, b),
    ensures
        solves_to(a, on_iter, start, result, end) == solves_to(b, on_iter, start, result, end),
{
    if solves_to(a, on_iter, start, result, end) {
        let unbounded = choose|unbounded: M::Real| #[trigger]
            is_infinity(unbounded) && iterates_to(
                a,
                on_iter,
                0,
                start,
                a.damping,
                unbounded,
                result,
                end,
            );
        lemma_iterations_agree(a, b, on_iter, 0, start, a.damping, unbounded, result, end);
    }
    if solves_to(b, on_iter, start, result, end) {
        let unbounded = choose|unbounded: M::Real| #[trigger]
            is_infinity(unbounded) && iterates_to(
                b,
                on_iter,
                0,
                start,
                b.damping,
                unbounded,
                result,
                end,
            );
        lemma_iterations_agree(b, a, on_iter, 0, start, b.damping, unbounded, result, end);
    }
}

} // verus!
