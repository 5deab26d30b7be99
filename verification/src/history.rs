//! What happens in every iteration of a solve.
use vstd::prelude::*;

use crate::config::{Control, IterationStats, Iterations, NewtonCfg};
use crate::direction::Direction;
use crate::error::{Failure, SolverError, SolverResult};
use crate::pattern::JacobianCache;
use crate::scalar::Real;
use crate::solver::newton_iterate;
use crate::system::{NonlinearSystem, RowMap};

verus! {

use crate::damping::is_peak;
use crate::scalar::is_infinity;
use crate::search::advances_to;
use crate::searching::law_advance_moves_every_unknown;
use crate::solver::{iterates_to, solves_to, takes_turn, turn_leads_to, Progress, Turn};

/// The iterations of a solve. The last one is the one that ended it, unless the solve ran
/// out of iterations.
pub struct History<M: NonlinearSystem, L, D> {
    /// Where the solve stands before each iteration.
    pub before: Seq<Progress<M, L, D>>,
    /// Where it stands once the direction of each iteration is computed.
    pub after: Seq<Progress<M, L, D>>,
    /// The damping before each iteration.
    pub dampings: Seq<M::Real>,
    /// The largest residual one iteration earlier.
    pub previous: Seq<M::Real>,
    /// The largest residual in each iteration.
    pub residuals: Seq<M::Real>,
    /// What the callback answered in each iteration.
    pub answers: Seq<Control>,
    /// The direction of each iteration.
    pub directions: Seq<Seq<M::Real>>,
    /// What each iteration adds to each unknown.
    pub moves: Seq<Seq<M::Real>>,
    /// Whether the last residual was below the tolerance.
    pub converged: bool,
    /// Whether there was a direction in the last iteration.
    pub outcome: SolverResult<()>,
}

/// The history of what is left of a solve before iteration `iter`.
pub(crate) open spec fn is_history<M, L, D, Cb>(
    cfg: NewtonCfg<M::Real>,
    on_iter: Cb,
    iter: nat,
    now: Progress<M, L, D>,
    damping: M::Real,
    last_res: M::Real,
    result: SolverResult<Iterations>,
    end: Progress<M, L, D>,
    h: History<M, L, D>,
) -> bool where
    M: NonlinearSystem,
    D: Direction<M, L>,
    Cb: FnMut(&IterationStats<M::Real>) -> Control,
 {
    let m = h.before.len() - 1;
    &&& 0 <= m <= cfg.max_iter - iter
    &&& h.before.len() == m + 1 && h.dampings.len() == m + 1 && h.previous.len() == m + 1
    &&& h.before[0] == now
    &&& h.dampings[0] == damping
    &&& h.previous[0] == last_res
    &&& forall|k: int|
        0 <= k <= m && iter + k < cfg.max_iter ==> is_peak(
            h.before[k].model.residual_at(h.before[k].x),
            #[trigger] h.residuals[k],
        )
    &&& forall|k: int|
        0 <= k <= m && iter + k < cfg.max_iter ==> call_ensures(
            on_iter,
            (&IterationStats {
                iter: (iter + k) as usize,
                residual: h.residuals[k],
                damping: h.dampings[k],
            },),
            #[trigger] h.answers[k],
        )
    &&& forall|k: int| 0 <= k < m ==> #[trigger] h.answers[k] == Control::Continue
    &&& forall|k: int|
        0 <= k < m ==> call_ensures(
            M::Real::below,
            (#[trigger] h.residuals[k], cfg.tol),
            false,
        )
    &&& forall|k: int|
        0 <= k < m ==> D::computed(
            h.before[k].direction,
            h.before[k].model,
            h.before[k].lin,
            h.before[k].x,
            h.before[k].model.residual_at(h.before[k].x),
            h.after[k].direction,
            h.after[k].model,
            h.after[k].lin,
            #[trigger] h.directions[k],
            Ok::<(), SolverError>(()),
        )
    &&& forall|j: int, k: int|
        0 <= j < m && k == j + 1 ==> advances_to(
            h.after[j].model,
            cfg,
            h.before[j].x,
            h.directions[j],
            h.residuals[j],
            #[trigger] h.dampings[j],
            h.previous[j],
            Some((h.before[k].x, #[trigger] h.dampings[k])),
        )
    &&& forall|j: int, k: int|
        0 <= j < m && k == j + 1 ==> #[trigger] h.before[k] == (Progress {
            x: h.before[k].x,
            ..#[trigger] h.after[j]
        })
    &&& forall|j: int, k: int|
        0 <= j < m && k == j + 1 ==> #[trigger] h.previous[k] == #[trigger] h.residuals[j]
    &&& if iter + m == cfg.max_iter {
        &&& result == Err::<Iterations, SolverError>(
            SolverError { reason: Failure::NotConverged(cfg.max_iter) },
        )
        &&& end == h.before[m]
    } else if h.answers[m] == Control::Cancel {
        &&& result == Err::<Iterations, SolverError>(SolverError { reason: Failure::Cancelled })
        &&& end == h.before[m]
    } else if h.converged {
        &&& call_ensures(M::Real::below, (h.residuals[m], cfg.tol), true)
        &&& result == Ok::<Iterations, SolverError>((iter + m + 1) as usize)
        &&& end == h.before[m]
    } else {
        &&& call_ensures(M::Real::below, (h.residuals[m], cfg.tol), false)
        &&& end.x == h.before[m].x
        &&& D::computed(
            h.before[m].direction,
            h.before[m].model,
            h.before[m].lin,
            h.before[m].x,
            h.before[m].model.residual_at(h.before[m].x),
            end.direction,
            end.model,
            end.lin,
            h.directions[m],
            h.outcome,
        )
        &&& match h.outcome {
            Err(e) => result == Err::<Iterations, SolverError>(e),
            Ok(_) => {
                &&& result == Err::<Iterations, SolverError>(
                    SolverError { reason: Failure::LineSearchFailed },
                )
                &&& advances_to(
                    end.model,
                    cfg,
                    h.before[m].x,
                    h.directions[m],
                    h.residuals[m],
                    h.dampings[m],
                    h.previous[m],
                    None,
                )
            },
        }
    }
}

/// What is left of a solve has a history.
#[verifier::rlimit(60)]
proof fn lemma_history_from<M, L, D, Cb>(
    cfg: NewtonCfg<M::Real>,
    on_iter: Cb,
    iter: nat,
    now: Progress<M, L, D>,
    damping: M::Real,
    last_res: M::Real,
    result: SolverResult<Iterations>,
    end: Progress<M, L, D>,
) -> (h: History<M, L, D>) where
    M: NonlinearSystem,
    D: Direction<M, L>,
    Cb: FnMut(&IterationStats<M::Real>) -> Control,

    requires
        iterates_to(cfg, on_iter, iter, now, damping, last_res, result, end),
        iter <= cfg.max_iter,
    ensures
        is_history(cfg, on_iter, iter, now, damping, last_res, result, end, h),
        h.residuals.len() == h.before.len(),
        h.answers.len() == h.before.len(),
        h.directions.len() == h.before.len(),
        h.after.len() == h.before.len(),
    decreases cfg.max_iter - iter,
{
    if iter == cfg.max_iter {
        History {
            before: seq![now],
            after: seq![now],
            dampings: seq![damping],
            previous: seq![last_res],
            residuals: seq![last_res],
            answers: seq![Control::Continue],
            directions: seq![now.x],
            moves: Seq::empty(),
            converged: false,
            outcome: Ok(()),
        }
    } else {
        let turn = choose|turn: Turn<M, L, D>| #[trigger]
            takes_turn(cfg, on_iter, iter, now, damping, last_res, turn) && turn_leads_to(
                cfg,
                on_iter,
                iter,
                now,
                turn,
                result,
                end,
            );
        let one = History {
            before: seq![now],
            after: seq![turn.after],
            dampings: seq![damping],
            previous: seq![last_res],
            residuals: seq![turn.res],
            answers: seq![turn.answer],
            directions: seq![turn.dir],
            moves: Seq::empty(),
            converged: turn.converged,
            outcome: turn.outcome,
        };
        if turn.answer == Control::Cancel || turn.converged || turn.outcome is Err || turn.next
            is None {
            one
        } else {
            let (x, d) = turn.next->Some_0;
            let next = Progress { x, ..turn.after };
            let rest = lemma_history_from(
                cfg,
                on_iter,
                iter + 1,
                next,
                d,
                turn.res,
                result,
                end,
            );
            lemma_prepend(
                cfg,
                on_iter,
                iter,
                now,
                damping,
                last_res,
                turn,
                x,
                d,
                rest,
                result,
                end,
            )
        }
    }
}

/// The history of a solve is its first iteration, and the history of what follows.
#[verifier::rlimit(60)]
proof fn lemma_prepend<M, L, D, Cb>(
    cfg: NewtonCfg<M::Real>,
    on_iter: Cb,
    iter: nat,
    now: Progress<M, L, D>,
    damping: M::Real,
    last_res: M::Real,
    turn: Turn<M, L, D>,
    x: Seq<M::Real>,
    d: M::Real,
    rest: History<M, L, D>,
    result: SolverResult<Iterations>,
    end: Progress<M, L, D>,
) -> (h: History<M, L, D>) where
    M: NonlinearSystem,
    D: Direction<M, L>,
    Cb: FnMut(&IterationStats<M::Real>) -> Control,

    requires
        iter < cfg.max_iter,
        takes_turn(cfg, on_iter, iter, now, damping, last_res, turn),
        turn.answer == Control::Continue,
        !turn.converged,
        turn.outcome is Ok,
        turn.next == Some((x, d)),
        is_history(
            cfg,
            on_iter,
            iter + 1,
            Progress { x, ..turn.after },
            d,
            turn.res,
            result,
            end,
            rest,
        ),
        rest.residuals.len() == rest.before.len(),
        rest.answers.len() == rest.before.len(),
        rest.directions.len() == rest.before.len(),
        rest.after.len() == rest.before.len(),
    ensures
        is_history(cfg, on_iter, iter, now, damping, last_res, result, end, h),
        h.residuals.len() == h.before.len(),
        h.answers.len() == h.before.len(),
        h.directions.len() == h.before.len(),
        h.after.len() == h.before.len(),
{
    let h = History {
        before: seq![now] + rest.before,
        after: seq![turn.after] + rest.after,
        dampings: seq![damping] + rest.dampings,
        previous: seq![last_res] + rest.previous,
        residuals: seq![turn.res] + rest.residuals,
        answers: seq![turn.answer] + rest.answers,
        directions: seq![turn.dir] + rest.directions,
        moves: Seq::empty(),
        converged: rest.converged,
        outcome: rest.outcome,
    };
    let m = h.before.len() - 1;
    assert forall|k: int| 0 < k <= m implies {
        &&& #[trigger] h.before[k] == rest.before[k - 1]
        &&& h.after[k] == rest.after[k - 1]
        &&& h.dampings[k] == rest.dampings[k - 1]
        &&& h.previous[k] == rest.previous[k - 1]
        &&& h.residuals[k] == rest.residuals[k - 1]
        &&& h.answers[k] == rest.answers[k - 1]
        &&& h.directions[k] == rest.directions[k - 1]
    } by {}
    if let Ok(unit) = turn.outcome {
        assert(unit == ());
    }
    assert forall|k: int|
        0 <= k <= m && iter + k < cfg.max_iter implies is_peak(
            h.before[k].model.residual_at(h.before[k].x),
            #[trigger] h.residuals[k],
        ) by {
        if k > 0 {
            assert(h.before[k] == rest.before[k - 1]);
        }
    }
    assert forall|k: int|
        0 <= k <= m && iter + k < cfg.max_iter implies call_ensures(
            on_iter,
            (&IterationStats {
                iter: (iter + k) as usize,
                residual: h.residuals[k],
                damping: h.dampings[k],
            },),
            #[trigger] h.answers[k],
        ) by {
        if k > 0 {
            assert(h.before[k] == rest.before[k - 1]);
        }
    }
    assert forall|k: int| 0 <= k < m implies #[trigger] h.answers[k] == Control::Continue by {
        if k > 0 {
            assert(h.before[k] == rest.before[k - 1]);
        }
    }
    assert forall|k: int|
        0 <= k < m implies call_ensures(
            M::Real::below,
            (#[trigger] h.residuals[k], cfg.tol),
            false,
        ) by {
        if k > 0 {
            assert(h.before[k] == rest.before[k - 1]);
        }
    }
    assert forall|k: int|
        0 <= k < m implies D::computed(
            h.before[k].direction,
            h.before[k].model,
            h.before[k].lin,
            h.before[k].x,
            h.before[k].model.residual_at(h.before[k].x),
            h.after[k].direction,
            h.after[k].model,
            h.after[k].lin,
            #[trigger] h.directions[k],
            Ok::<(), SolverError>(()),
        ) by {
        if k > 0 {
            assert(h.before[k] == rest.before[k - 1]);
        }
    }
    assert forall|j: int, k: int|
        0 <= j < m && k == j + 1 implies advances_to(
            h.after[j].model,
            cfg,
            h.before[j].x,
            h.directions[j],
            h.residuals[j],
            #[trigger] h.dampings[j],
            h.previous[j],
            Some((h.before[k].x, #[trigger] h.dampings[k])),
        ) by {
        assert(h.before[k] == rest.before[k - 1]);
        if j > 0 {
            assert(h.before[j] == rest.before[j - 1]);
        }
    }
    assert forall|j: int, k: int|
        0 <= j < m && k == j + 1 implies #[trigger] h.before[k] == (Progress {
            x: h.before[k].x,
            ..#[trigger] h.after[j]
        }) by {
        assert(h.before[k] == rest.before[k - 1]);
        if j > 0 {
            assert(h.before[j] == rest.before[j - 1]);
        }
    }
    assert forall|j: int, k: int|
        0 <= j < m && k == j + 1 implies #[trigger] h.previous[k] == #[trigger] h.residuals[j] by {
        assert(h.before[k] == rest.before[k - 1]);
        if j > 0 {
            assert(h.before[j] == rest.before[j - 1]);
        }
    }
    assert(h.before[m] == rest.before[m - 1]);
    h
}

/// A solve starts where it is told to, with the damping that is set. In every iteration, not
/// only the first, the callback is told the iteration, the largest residual at the point
/// where the solve stands, and the damping that the step before left. Unless it cancels, the
/// residual is held against the tolerance; unless it is below, a direction is computed, and
/// every unknown, without exception, moves by the next damping times its entry of the
/// direction. The solve ends when the callback cancels, when the residual is
/// below the tolerance, when there is no direction, when a line search finds nothing, or when
/// the iterations are used up; and for nothing else.
pub proof fn law_every_iteration_is_accounted_for<M, L, D, Cb>(
    cfg: NewtonCfg<M::Real>,
    on_iter: Cb,
    start: Progress<M, L, D>,
    result: SolverResult<Iterations>,
    end: Progress<M, L, D>,
) where
    M: NonlinearSystem,
    D: Direction<M, L>,
    Cb: FnMut(&IterationStats<M::Real>) -> Control,

    requires
        solves_to(cfg, on_iter, start, result, end),
    ensures
        exists|h: History<M, L, D>|
            {
                let m = (#[trigger] h.before).len() - 1;
                &&& 0 <= m <= cfg.max_iter
                &&& h.before.len() == m + 1 && h.dampings.len() == m + 1 && h.previous.len() == m + 1
                &&& h.before[0] == start
                &&& h.dampings[0] == cfg.damping
                &&& call_ensures(M::Real::infinity, (), h.previous[0])
                &&& forall|k: int|
                    0 <= k <= m && k < cfg.max_iter ==> is_peak(
                        h.before[k].model.residual_at(h.before[k].x),
                        #[trigger] h.residuals[k],
                    )
                &&& forall|k: int|
                    0 <= k <= m && k < cfg.max_iter ==> call_ensures(
                        on_iter,
                        (&IterationStats {
                            iter: k as usize,
                            residual: h.residuals[k],
                            damping: h.dampings[k],
                        },),
                        #[trigger] h.answers[k],
                    )
                &&& forall|k: int| 0 <= k < m ==> #[trigger] h.answers[k] == Control::Continue
                &&& forall|k: int|
                    0 <= k < m ==> call_ensures(
                        M::Real::below,
                        (#[trigger] h.residuals[k], cfg.tol),
                        false,
                    )
                &&& forall|k: int|
                    0 <= k < m ==> D::computed(
                        h.before[k].direction,
                        h.before[k].model,
                        h.before[k].lin,
                        h.before[k].x,
                        h.before[k].model.residual_at(h.before[k].x),
                        h.after[k].direction,
                        h.after[k].model,
                        h.after[k].lin,
                        #[trigger] h.directions[k],
                        Ok::<(), SolverError>(()),
                    )
                &&& forall|j: int, k: int|
                    0 <= j < m && k == j + 1 ==> advances_to(
                        h.after[j].model,
                        cfg,
                        h.before[j].x,
                        h.directions[j],
                        h.residuals[j],
                        #[trigger] h.dampings[j],
                        h.previous[j],
                        Some((h.before[k].x, #[trigger] h.dampings[k])),
                    )
                &&& forall|j: int, k: int|
                    0 <= j < m && k == j + 1 ==> #[trigger] h.before[k] == (Progress {
                        x: h.before[k].x,
                        ..#[trigger] h.after[j]
                    })
                &&& forall|j: int, k: int|
                    0 <= j < m && k == j + 1 ==> #[trigger] h.previous[k] == #[trigger] h.residuals[j]
                &&& forall|j: int|
                    0 <= j < m ==> h.before[j + 1].x.len() == (#[trigger] h.before[j]).x.len()
                &&& forall|j: int, i: int|
                    0 <= j < m && 0 <= i < h.before[j].x.len() ==> call_ensures(
                        M::Real::times,
                        (h.dampings[j + 1], h.directions[j][i]),
                        #[trigger] h.moves[j][i],
                    )
                &&& forall|j: int, i: int|
                    0 <= j < m && 0 <= i < h.before[j].x.len() ==> call_ensures(
                        M::Real::plus,
                        (h.before[j].x[i], #[trigger] h.moves[j][i]),
                        h.before[j + 1].x[i],
                    )
                &&& if m == cfg.max_iter {
                    &&& result == Err::<Iterations, SolverError>(
                        SolverError { reason: Failure::NotConverged(cfg.max_iter) },
                    )
                    &&& end == h.before[m]
                } else if h.answers[m] == Control::Cancel {
                    &&& result == Err::<Iterations, SolverError>(SolverError { reason: Failure::Cancelled })
                    &&& end == h.before[m]
                } else if h.converged {
                    &&& call_ensures(M::Real::below, (h.residuals[m], cfg.tol), true)
                    &&& result == Ok::<Iterations, SolverError>((m + 1) as usize)
                    &&& end == h.before[m]
                } else {
                    &&& call_ensures(M::Real::below, (h.residuals[m], cfg.tol), false)
                    &&& end.x == h.before[m].x
                    &&& D::computed(
                        h.before[m].direction,
                        h.before[m].model,
                        h.before[m].lin,
                        h.before[m].x,
                        h.before[m].model.residual_at(h.before[m].x),
                        end.direction,
                        end.model,
                        end.lin,
                        h.directions[m],
                        h.outcome,
                    )
                    &&& match h.outcome {
                        Err(e) => result == Err::<Iterations, SolverError>(e),
                        Ok(_) => {
                            &&& result == Err::<Iterations, SolverError>(
                                SolverError { reason: Failure::LineSearchFailed },
                            )
                            &&& advances_to(
                                end.model,
                                cfg,
                                h.before[m].x,
                                h.directions[m],
                                h.residuals[m],
                                h.dampings[m],
                                h.previous[m],
                                None,
                            )
                        },
                    }
                }
            },
{
    let told = lemma_solve_has_a_history(cfg, on_iter, start, result, end);
    let m = told.before.len() - 1;
    let h = History {
        moves: Seq::new(
            m as nat,
            |j: int|
                Seq::new(
                    told.before[j].x.len(),
                    |i: int|
                        choose|p: M::Real|
                            call_ensures(
                                M::Real::times,
                                (told.dampings[j + 1], told.directions[j][i]),
                                p,
                            ) && #[trigger] call_ensures(
                                M::Real::plus,
                                (told.before[j].x[i], p),
                                told.before[j + 1].x[i],
                            ),
                ),
        ),
        ..told
    };
    assert(is_history(cfg, on_iter, 0, start, cfg.damping, h.previous[0], result, end, h));
    assert forall|j: int| 0 <= j < m implies h.before[j + 1].x.len() == (
    #[trigger] h.before[j]).x.len() by {
        lemma_iteration_moves_every_unknown(cfg, on_iter, start, result, end, told, j);
    }
    assert forall|j: int, i: int| 0 <= j < m && 0 <= i < h.before[j].x.len() implies {
        &&& call_ensures(
            M::Real::times,
            (h.dampings[j + 1], h.directions[j][i]),
            #[trigger] h.moves[j][i],
        )
        &&& call_ensures(M::Real::plus, (h.before[j].x[i], h.moves[j][i]), h.before[j + 1].x[i])
    } by {
        lemma_iteration_moves_every_unknown(cfg, on_iter, start, result, end, told, j);
        let p = choose|p: M::Real| #[trigger]
            call_ensures(M::Real::times, (told.dampings[j + 1], told.directions[j][i]), p)
                && call_ensures(
                M::Real::plus,
                (told.before[j].x[i], p),
                told.before[j + 1].x[i],
            );
        assert(call_ensures(M::Real::plus, (told.before[j].x[i], p), told.before[j + 1].x[i]));
    }
    assert(h.before.len() > 0);
}

/// In an iteration that is not the last, every unknown moves.
proof fn lemma_iteration_moves_every_unknown<M, L, D, Cb>(
    cfg: NewtonCfg<M::Real>,
    on_iter: Cb,
    start: Progress<M, L, D>,
    result: SolverResult<Iterations>,
    end: Progress<M, L, D>,
    h: History<M, L, D>,
    j: int,
) where
    M: NonlinearSystem,
    D: Direction<M, L>,
    Cb: FnMut(&IterationStats<M::Real>) -> Control,

    requires
        is_history(cfg, on_iter, 0, start, cfg.damping, h.previous[0], result, end, h),
        0 <= j < h.before.len() - 1,
    ensures
        h.before[j + 1].x.len() == h.before[j].x.len(),
        forall|i: int|
            0 <= i < h.before[j].x.len() ==> exists|p: M::Real| #[trigger]
                call_ensures(M::Real::times, (h.dampings[j + 1], #[trigger] h.directions[j][i]), p)
                    && call_ensures(M::Real::plus, (h.before[j].x[i], p), h.before[j + 1].x[i]),
{
    let k = j + 1;
    assert(advances_to(
        h.after[j].model,
        cfg,
        h.before[j].x,
        h.directions[j],
        h.residuals[j],
        h.dampings[j],
        h.previous[j],
        Some((h.before[k].x, h.dampings[k])),
    ));
    law_advance_moves_every_unknown(
        h.after[j].model,
        cfg,
        h.before[j].x,
        h.directions[j],
        h.residuals[j],
        h.dampings[j],
        h.previous[j],
        h.before[k].x,
        h.dampings[k],
    );
}

/// A whole solve has a history.
pub(crate) proof fn lemma_solve_has_a_history<M, L, D, Cb>(
    cfg: NewtonCfg<M::Real>,
    on_iter: Cb,
    start: Progress<M, L, D>,
    result: SolverResult<Iterations>,
    end: Progress<M, L, D>,
) -> (h: History<M, L, D>) where
    M: NonlinearSystem,
    D: Direction<M, L>,
    Cb: FnMut(&IterationStats<M::Real>) -> Control,

    requires
        solves_to(cfg, on_iter, start, result, end),
    ensures
        is_history(cfg, on_iter, 0, start, cfg.damping, h.previous[0], result, end, h),
        call_ensures(M::Real::infinity, (), h.previous[0]),
{
    let unbounded = choose|unbounded: M::Real| #[trigger]
        is_infinity(unbounded) && iterates_to(
            cfg,
            on_iter,
            0,
            start,
            cfg.damping,
            unbounded,
            result,
            end,
        );
    lemma_history_from(cfg, on_iter, 0, start, cfg.damping, unbounded, result, end)
}

/// [`newton_iterate`] runs a solve from the model, the point, the linear solver and the
/// buffers that it is handed, to what it leaves of them. The size of the problem and the
/// pattern of the Jacobian stay.
pub proof fn law_newton_iterate_solves<M, L, D, Cb>(
    model: &mut M,
    x: &mut [M::Real],
    lin: &mut L,
    direction: &mut D,
    cfg: NewtonCfg<M::Real>,
    on_iter: Cb,
    result: SolverResult<Iterations>,
) where
    M: NonlinearSystem,
    D: Direction<M, L>,
    Cb: FnMut(&IterationStats<M::Real>) -> Control,

    requires
        call_ensures(
            newton_iterate::<M, L, D, Cb>,
            (model, x, lin, direction, cfg, on_iter),
            result,
        ),
    ensures
        solves_to(
            cfg,
            on_iter,
            Progress { model: *old(model), lin: *old(lin), direction: *old(direction), x: old(x)@ },
            result,
            Progress {
                model: *final(model),
                lin: *final(lin),
                direction: *final(direction),
                x: final(x)@,
            },
        ),
        final(x)@.len() == old(x)@.len(),
        final(model).layout_of().variables() == old(model).layout_of().variables(),
        final(model).layout_of().residuals() == old(model).layout_of().residuals(),
        final(model).jacobian_of().pattern() == old(model).jacobian_of().pattern(),
        final(model).jacobian_of().entries().len() == old(model).jacobian_of().entries().len(),
{
}

} // verus!
