//! Settings that start the thread pool. Every test here asks for one thread, so that the pool
//! of the process has one, whichever test comes first.
use newton_faer::{
    current_parallelism, start_threads, with_started_threads, MatrixFormat, NewtonCfg, Parallelism,
    Real,
};

#[derive(Clone, Copy, Debug, PartialEq)]
struct R(f64);

impl Real for R {
    fn zero() -> R {
        R(0.0)
    }
    fn one() -> R {
        R(1.0)
    }
    fn infinity() -> R {
        R(f64::INFINITY)
    }
    fn quotient(num: u32, den: u32) -> R {
        R(num as f64 / den as f64)
    }
    fn plus(self, other: R) -> R {
        R(self.0 + other.0)
    }
    fn times(self, other: R) -> R {
        R(self.0 * other.0)
    }
    fn negated(self) -> R {
        R(-self.0)
    }
    fn magnitude(self) -> R {
        R(self.0.abs())
    }
    fn below(self, other: R) -> bool {
        self.0 < other.0
    }
    fn finite(self) -> bool {
        self.0.is_finite()
    }
}

#[test]
fn settings_override_the_number_of_threads() {
    let mut p = Parallelism::default();
    let cfg = NewtonCfg::<R>::default().with_threads(1);
    assert_eq!(start_threads(&cfg, &mut p, Some(8)), 1);
    assert_eq!((cfg.n_threads, p.asked, current_parallelism(&p)), (1, Some(1), 1));
    // The first solve decides.
    let cfg = NewtonCfg::<R>::default().with_threads(4);
    assert_eq!(start_threads(&cfg, &mut p, Some(8)), 1);
    assert_eq!(p.asked, Some(1));
}

#[test]
fn changing_the_number_of_threads_starts_the_pool() {
    let mut p = Parallelism::default();
    let cfg = with_started_threads(NewtonCfg::<R>::sparse(), 1, &mut p, Some(8));
    assert_eq!((p.asked, p.settled), (Some(1), Some(1)));
    assert_eq!((cfg.n_threads, cfg.format, cfg.tol), (1, MatrixFormat::Sparse, R(1e-8)));
    // The settings follow a later call; the pool does not.
    let cfg = with_started_threads(cfg, 6, &mut p, Some(8));
    assert_eq!((cfg.n_threads, p.asked, p.settled), (6, Some(1), Some(1)));
    assert_eq!(current_parallelism(&p), 1);
}
