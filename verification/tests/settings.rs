//! Settings, errors, the choice of a linear solver, and threads.
use newton_faer::drivers::{keep_going, select_backend, Backend};
use newton_faer::parallel::thread_target;
use newton_faer::{
    current_parallelism, init_global_parallelism, Control, Failure, IterationStats, MatrixFormat,
    NewtonCfg, Parallelism, Real, SolverError,
};

#[derive(Clone, Copy, Debug, PartialEq)]
struct R(f64);

impl Real for R {
    fn zero() -> R {
        R(0.0)
    }
    fn one() -> R {
        R(1.0)
    }
    fn infinity() -> R {
        R(f64::INFINITY)
    }
    fn quotient(num: u32, den: u32) -> R {
        R(num as f64 / den as f64)
    }
    fn plus(self, other: R) -> R {
        R(self.0 + other.0)
    }
    fn times(self, other: R) -> R {
        R(self.0 * other.0)
    }
    fn negated(self) -> R {
        R(-self.0)
    }
    fn magnitude(self) -> R {
        R(self.0.abs())
    }
    fn below(self, other: R) -> bool {
        self.0 < other.0
    }
    fn finite(self) -> bool {
        self.0.is_finite()
    }
}

#[test]
fn default_settings() {
    let cfg = NewtonCfg::<R>::default();
    assert_eq!(cfg.tol, R(1e-8));
    assert_eq!(cfg.damping, R(1.0));
    assert_eq!(cfg.max_iter, 25);
    assert_eq!(cfg.format, MatrixFormat::Auto(100));
    assert!(!cfg.adaptive);
    assert_eq!(cfg.min_damping, R(0.1));
    assert_eq!(cfg.max_damping, R(1.0));
    assert_eq!(cfg.grow, R(1.1));
    assert_eq!(cfg.shrink, R(0.5));
    assert_eq!(cfg.divergence_ratio, R(3.0));
    assert_eq!(cfg.ls_backtrack, R(0.5));
    assert_eq!(cfg.ls_max_steps, 10);
    assert_eq!(cfg.n_threads, 0);
}

#[test]
fn settings_are_changed_one_by_one() {
    assert_eq!(MatrixFormat::default(), MatrixFormat::Auto(100));
    assert_eq!(NewtonCfg::<R>::sparse().format, MatrixFormat::Sparse);
    assert_eq!(NewtonCfg::<R>::dense().format, MatrixFormat::Dense);
    let cfg = NewtonCfg::<R>::dense()
        .with_adaptive(true)
        .with_threads(3)
        .with_format(MatrixFormat::Auto(7));
    assert!(cfg.adaptive);
    assert_eq!(cfg.n_threads, 3);
    assert_eq!(cfg.format, MatrixFormat::Auto(7));
    assert_eq!(cfg.tol, R(1e-8));
    assert!(!cfg.with_adaptive(false).adaptive);
}

#[test]
fn errors_have_a_text() {
    let e = SolverError::new(Failure::NotConverged(3));
    assert_eq!(e.reason, Failure::NotConverged(3));
    assert_eq!(e.message(), "solver error");
}

#[test]
fn format_decides_for_square_systems() {
    assert_eq!(select_backend(MatrixFormat::Dense, 500, 500), Backend::DenseLu);
    assert_eq!(select_backend(MatrixFormat::Sparse, 2, 2), Backend::SparseLu);
    assert_eq!(select_backend(MatrixFormat::Auto(100), 99, 99), Backend::DenseLu);
    assert_eq!(select_backend(MatrixFormat::Auto(100), 100, 100), Backend::SparseLu);
    assert_eq!(select_backend(MatrixFormat::Auto(0), 0, 0), Backend::SparseLu);
}

#[test]
fn other_systems_are_solved_by_least_squares() {
    assert_eq!(select_backend(MatrixFormat::Dense, 2, 3), Backend::SparseQr);
    assert_eq!(select_backend(MatrixFormat::Sparse, 2, 3), Backend::SparseQr);
    assert_eq!(select_backend(MatrixFormat::Auto(100), 3, 2), Backend::SparseQr);
}

#[test]
fn plain_solves_go_on() {
    let stats = IterationStats { iter: 0, residual: R(1.0), damping: R(1.0) };
    assert_eq!(keep_going(&stats), Control::Continue);
}

#[test]
fn zero_threads_stand_for_all() {
    assert_eq!(thread_target(3, Some(8)), 3);
    assert_eq!(thread_target(0, Some(8)), 8);
    assert_eq!(thread_target(0, None), 1);
    assert_eq!(thread_target(0, Some(0)), 1);
    assert_eq!(thread_target(5, None), 5);
}

#[test]
fn threads_are_settled_once() {
    let mut p = Parallelism::default();
    assert_eq!(p.settled, None);
    assert_eq!(p.settled_or(6), 6);
    assert_eq!(p.settle(5, 4), 4);
    assert_eq!(p.settle(9, 9), 4);
    assert_eq!(p.asked, Some(5));
    assert_eq!(p.settled_or(6), 4);
    assert_eq!(init_global_parallelism(&mut p, 7, None), 4);
    assert_eq!(current_parallelism(&p), 4);
}

#[test]
fn pool_has_the_threads_that_were_asked_for() {
    let mut p = Parallelism::default();
    assert_eq!(init_global_parallelism(&mut p, 3, Some(8)), 3);
    assert_eq!((p.asked, p.settled), (Some(3), Some(3)));
    assert_eq!(init_global_parallelism(&mut p, 5, Some(8)), 3);
    assert_eq!(current_parallelism(&p), 3);
    // The pool is running, so another attempt finds it as it is.
    let mut q = Parallelism::default();
    assert_eq!(current_parallelism(&q), 3);
    assert_eq!(init_global_parallelism(&mut q, 5, Some(8)), 3);
}

#[test]
fn presets_agree_but_for_the_format() {
    let base = NewtonCfg::<R>::default();
    for other in [NewtonCfg::<R>::sparse(), NewtonCfg::dense()] {
        let other = other.with_format(base.format);
        assert_eq!(format!("{other:?}"), format!("{base:?}"));
    }
}
