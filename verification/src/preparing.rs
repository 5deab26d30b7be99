//! What settings are made of, what threads are asked for, and what a solve accepts.
use vstd::prelude::*;

use crate::config::{Control, IterationStats, MatrixFormat, NewtonCfg};
use crate::damping::{adapt, diverged, lower, raise, residual_norm, step_by, step_to};
use crate::dense::Mat;
use crate::direction::Direction;
use crate::drivers::{solve, solve_cb, solve_dense_cb, solve_sparse_cb};
use crate::linalg::{DenseLu, FaerLu, SparseQr};
use crate::numeric::Numerics;
use crate::parallel::{
    current_parallelism, init_global_parallelism, start_threads, thread_target,
    with_started_threads, Parallelism,
};
use crate::pattern::{JacobianCache, SparseView};
use crate::scalar::Real;
use crate::search::{advance, line_search};
use crate::solver::newton_iterate;
use crate::system::{LinearSolver, NonlinearSystem, RowMap};

verus! {

use crate::direction::{dense_solvable, sparse_solvable};
use crate::parallel::{pool_was_asked_for, pool_was_found_with};
use crate::pattern::{pattern_ncols, pattern_nrows, pattern_row_idx};

/// The settings that a solve comes with, whichever matrix format they are for.
pub proof fn law_presets_hold_the_defaults<T: Real>(
    base: NewtonCfg<T>,
    sparse: NewtonCfg<T>,
    dense: NewtonCfg<T>,
)
    requires
        call_ensures(<NewtonCfg<T> as Default>::default, (), base),
        call_ensures(NewtonCfg::<T>::sparse, (), sparse),
        call_ensures(NewtonCfg::<T>::dense, (), dense),
    ensures
        base.format == MatrixFormat::Auto(100),
        sparse.format == MatrixFormat::Sparse,
        dense.format == MatrixFormat::Dense,
        forall|cfg: NewtonCfg<T>| #![trigger cfg.tol]
            cfg == base || cfg == sparse || cfg == dense ==> {
                &&& call_ensures(T::quotient, (1u32, 100_000_000u32), cfg.tol)
                &&& call_ensures(T::one, (), cfg.damping)
                &&& cfg.max_iter == 25
                &&& !cfg.adaptive
                &&& call_ensures(T::quotient, (1u32, 10u32), cfg.min_damping)
                &&& call_ensures(T::one, (), cfg.max_damping)
                &&& call_ensures(T::quotient, (11u32, 10u32), cfg.grow)
                &&& call_ensures(T::quotient, (1u32, 2u32), cfg.shrink)
                &&& call_ensures(T::quotient, (3u32, 1u32), cfg.divergence_ratio)
                &&& call_ensures(T::quotient, (1u32, 2u32), cfg.ls_backtrack)
                &&& cfg.ls_max_steps == 10
                &&& cfg.n_threads == 0
            },
{
}

/// As many threads are wanted as are asked for; for zero, as many as the machine offers, and
/// one where that is none or not known.
pub proof fn law_zero_threads_stand_for_all(
    threads: usize,
    available: Option<usize>,
    target: usize,
)
    requires
        call_ensures(thread_target, (threads, available), target),
    ensures
        target >= 1,
        threads != 0 ==> target == threads,
        threads == 0 ==> match available {
            Some(n) => n >= 1 ==> target == n,
            None => target == 1,
        },
        threads == 0 && available == Some(0usize) ==> target == 1,
{
}

/// The first initialization asks the pool for the threads that are wanted, and settles on
/// those that it is found to have. Every later one changes nothing and returns the same, and
/// so does every question for the number of threads.
pub proof fn law_first_initialization_decides(
    p: &mut Parallelism,
    threads: usize,
    available: Option<usize>,
    n: usize,
    target: usize,
    q: &mut Parallelism,
    again: usize,
    offered: Option<usize>,
    later: usize,
    asked: usize,
)
    requires
        call_ensures(init_global_parallelism, (p, threads, available), n),
        call_ensures(thread_target, (threads, available), target),
        *old(q) == *final(p),
        call_ensures(init_global_parallelism, (q, again, offered), later),
        call_ensures(current_parallelism, (&*final(p),), asked),
    ensures
        match old(p).settled {
            Some(before) => n == before && *final(p) == *old(p),
            None => {
                &&& final(p).asked == Some(target) && pool_was_asked_for(target)
                &&& n >= 1 && pool_was_found_with(n)
            },
        },
        final(p).settled == Some(n),
        later == n && *final(q) == *final(p),
        asked == n,
{
}

/// Before anything is settled, the number of threads is that of the pool.
pub proof fn law_unsettled_threads_are_those_of_the_pool(p: Parallelism, n: usize)
    requires
        call_ensures(current_parallelism, (&p,), n),
        p.settled is None,
    ensures
        n >= 1 && pool_was_found_with(n),
{
}

/// Settings that name a number of threads start the pool with as many, the first time.
pub proof fn law_settings_start_the_pool<T>(
    cfg: NewtonCfg<T>,
    n_threads: usize,
    p: &mut Parallelism,
    available: Option<usize>,
    out: NewtonCfg<T>,
    target: usize,
    q: &mut Parallelism,
    n: usize,
)
    requires
        call_ensures(with_started_threads::<T>, (cfg, n_threads, p, available), out),
        call_ensures(thread_target, (n_threads, available), target),
        call_ensures(start_threads::<T>, (&out, q, available), n),
        old(p).settled is None,
        old(q).settled is None,
    ensures
        out == (NewtonCfg { n_threads, ..cfg }),
        final(p).asked == Some(target) && final(p).settled is Some,
        pool_was_asked_for(target),
        final(q).asked == Some(target) && final(q).settled == Some(n),
        n >= 1 && pool_was_found_with(n),
{
}

/// The step control takes every damping and every residual; a step takes a direction with an
/// entry for every unknown.
pub proof fn law_step_control_takes_everything<R: Real>(
    cfg: NewtonCfg<R>,
    damping: R,
    res: R,
    last_res: R,
    f: &[R],
    x: &mut [R],
    dir: &[R],
)
    ensures
        call_requires(raise::<R>, (&cfg, damping)),
        call_requires(lower::<R>, (&cfg, damping)),
        call_requires(adapt::<R>, (&cfg, damping, res, last_res)),
        call_requires(diverged::<R>, (&cfg, res, last_res)),
        call_requires(residual_norm::<R>, (f,)),
        dir@.len() == old(x)@.len() ==> call_requires(step_by::<R>, (x, damping, dir)),
        dir@.len() == f@.len() && old(x)@.len() == f@.len() ==> call_requires(
            step_to::<R>,
            (f, damping, dir, x),
        ),
{
}

/// An iteration takes every point and direction with an entry for every unknown, and buffers
/// of the size of the problem.
pub proof fn law_iterations_take_every_direction<M: NonlinearSystem>(
    model: &M,
    cfg: &NewtonCfg<M::Real>,
    x: &mut [M::Real],
    dir: &[M::Real],
    res: M::Real,
    damping: M::Real,
    last_res: M::Real,
    x_trial: &mut Vec<M::Real>,
    f_trial: &mut Vec<M::Real>,
)
    requires
        old(x)@.len() == model.layout_of().variables(),
        dir@.len() == model.layout_of().variables(),
        old(x_trial)@.len() == model.layout_of().variables(),
        old(f_trial)@.len() == model.layout_of().residuals(),
    ensures
        call_requires(
            line_search::<M>,
            (model, cfg, x, dir, res, damping, x_trial, f_trial),
        ),
        call_requires(
            advance::<M>,
            (model, cfg, x, dir, res, damping, last_res, x_trial, f_trial),
        ),
{
}

/// A solve takes every point with an entry for every unknown, if the Jacobian has a value for
/// each row index, the linear solver takes every matrix with the pattern of the Jacobian, and
/// the callback takes whatever it is told. With a full matrix, the Jacobian has to fit in it.
pub proof fn law_solves_take_every_fitting_problem<M, L, K, Cb>(
    model: &mut M,
    x: &mut [M::Real],
    lin: &mut L,
    lu: &mut K,
    cfg: NewtonCfg<M::Real>,
    on_iter: Cb,
) where
    M: NonlinearSystem,
    L: for<'a> LinearSolver<M::Real, SparseView<'a, M::Real>>,
    K: LinearSolver<M::Real, Mat<M::Real>>,
    Cb: FnMut(&IterationStats<M::Real>) -> Control,

    requires
        old(x)@.len() == old(model).layout_of().variables(),
        old(model).jacobian_of().entries().len() == pattern_row_idx(
            old(model).jacobian_of().pattern(),
        ).len(),
        forall|stats: IterationStats<M::Real>| on_iter.requires((&stats,)),
    ensures
        (forall|a: SparseView<'_, M::Real>|
            *a.symbolic == old(model).jacobian_of().pattern() && a.values@.len()
                == pattern_row_idx(*a.symbolic).len() ==> #[trigger] L::factorable(a)
                && L::accepts(
                a,
                old(model).layout_of().residuals(),
                old(model).layout_of().variables(),
            )) ==> call_requires(solve_sparse_cb::<M, L, Cb>, (model, x, lin, cfg, on_iter)),
        pattern_nrows(old(model).jacobian_of().pattern()) <= old(model).layout_of().residuals()
            && pattern_ncols(old(model).jacobian_of().pattern())
            <= old(model).layout_of().variables() && (forall|a: Mat<M::Real>|
            a.rows() == old(model).layout_of().residuals() && a.cols()
                == old(model).layout_of().variables() ==> #[trigger] K::factorable(a)
                && K::accepts(
                a,
                old(model).layout_of().residuals(),
                old(model).layout_of().variables(),
            )) ==> call_requires(solve_dense_cb::<M, K, Cb>, (model, x, lu, cfg, on_iter)),
{
    if forall|a: SparseView<'_, M::Real>|
        *a.symbolic == model.jacobian_of().pattern() && a.values@.len() == pattern_row_idx(
            *a.symbolic,
        ).len() ==> #[trigger] L::factorable(a) && L::accepts(
            a,
            model.layout_of().residuals(),
            model.layout_of().variables(),
        ) {
        assert forall|a: SparseView<'_, M::Real>|
            #![trigger L::factorable(a)]
            #![trigger L::accepts(a, model.layout_of().residuals(), model.layout_of().variables())]
            *a.symbolic == model.jacobian_of().pattern() && a.wf() implies L::factorable(a)
            && L::accepts(
            a,
            model.layout_of().residuals(),
            model.layout_of().variables(),
        ) by {
            assert(L::factorable(a));
        }
        assert(sparse_solvable::<M, L>(*model));
    }
    if forall|a: Mat<M::Real>|
        a.rows() == model.layout_of().residuals() && a.cols() == model.layout_of().variables()
            ==> #[trigger] K::factorable(a) && K::accepts(
            a,
            model.layout_of().residuals(),
            model.layout_of().variables(),
        ) {
        assert forall|a: Mat<M::Real>|
            #![trigger K::factorable(a)]
            #![trigger K::accepts(a, model.layout_of().residuals(), model.layout_of().variables())]
            a.rows() == model.layout_of().residuals() && a.cols() == model.layout_of().variables()
                implies K::factorable(a) && K::accepts(
            a,
            model.layout_of().residuals(),
            model.layout_of().variables(),
        ) by {
            assert(K::factorable(a));
        }
        assert(dense_solvable::<M, K>(*model));
    }
}

/// An iteration loop takes every point with an entry for every unknown, with buffers that are
/// ready for the model and a callback that takes whatever it is told. The entry points that
/// pick a linear solver take every problem that the one for its shape and format can solve.
pub proof fn law_default_solves_take_every_fitting_problem<M, L, D, K, Cb>(
    model: &mut M,
    x: &mut [M::Real],
    lin: &mut L,
    direction: &mut D,
    cfg: NewtonCfg<M::Real>,
    on_iter: Cb,
) where
    M: NonlinearSystem,
    D: Direction<M, L>,
    K: Numerics<M::Real>,
    Cb: FnMut(&IterationStats<M::Real>) -> Control,

    requires
        old(x)@.len() == old(model).layout_of().variables(),
        forall|stats: IterationStats<M::Real>| on_iter.requires((&stats,)),
    ensures
        old(direction).ready(*old(model)) ==> call_requires(
            newton_iterate::<M, L, D, Cb>,
            (model, x, lin, direction, cfg, on_iter),
        ),
        ({
            let n = old(model).layout_of().variables();
            let full = match cfg.format {
                MatrixFormat::Dense => true,
                MatrixFormat::Sparse => false,
                MatrixFormat::Auto(threshold) => n < threshold,
            };
            &&& old(model).jacobian_of().entries().len() == pattern_row_idx(
                old(model).jacobian_of().pattern(),
            ).len()
            &&& if n != old(model).layout_of().residuals() {
                sparse_solvable::<M, SparseQr<K::Qr>>(*old(model))
            } else if full {
                &&& pattern_nrows(old(model).jacobian_of().pattern()) <= n
                &&& pattern_ncols(old(model).jacobian_of().pattern()) <= n
                &&& dense_solvable::<M, DenseLu<K::Dense>>(*old(model))
            } else {
                sparse_solvable::<M, FaerLu<K::Lu>>(*old(model))
            }
        }) ==> call_requires(solve_cb::<M, K, Cb>, (model, x, cfg, on_iter)) && call_requires(
            solve::<M, K>,
            (model, x, cfg),
        ),
{
}

/// What is settled about the threads stays; until something is, the latest word counts.
pub proof fn law_settled_threads_stay(
    p: &mut Parallelism,
    target: usize,
    actual: usize,
    n: usize,
    q: Parallelism,
    in_charge: usize,
    known: usize,
)
    requires
        call_ensures(Parallelism::settle, (p, target, actual), n),
        call_ensures(Parallelism::settled_or, (&q, in_charge), known),
    ensures
        old(p).settled matches Some(before) ==> n == before && *final(p) == *old(p),
        old(p).settled is None ==> n == actual && final(p).asked == Some(target)
            && final(p).settled == Some(actual),
        q.settled matches Some(before) ==> known == before,
        q.settled is None ==> known == in_charge,
{
}

} // verus!
