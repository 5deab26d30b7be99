//! The iteration and its step control, on equations with one unknown.
use faer::sparse::SymbolicSparseColMat;
use newton_faer::damping::{adapt, diverged, lower, raise, residual_norm, step_by, step_to};
use newton_faer::search::{advance, line_search};
use newton_faer::{
    solve_sparse_cb, Control, Failure, JacobianCache, LinearSolver, Mat, NewtonCfg,
    NonlinearSystem, Real, RowMap, SolverError, SolverResult, SparseView,
};
use std::cell::Cell;

#[derive(Clone, Copy, Debug, PartialEq)]
struct R(f64);

impl Real for R {
    fn zero() -> R {
        R(0.0)
    }
    fn one() -> R {
        R(1.0)
    }
    fn infinity() -> R {
        R(f64::INFINITY)
    }
    fn quotient(num: u32, den: u32) -> R {
        R(num as f64 / den as f64)
    }
    fn plus(self, other: R) -> R {
        R(self.0 + other.0)
    }
    fn times(self, other: R) -> R {
        R(self.0 * other.0)
    }
    fn negated(self) -> R {
        R(-self.0)
    }
    fn magnitude(self) -> R {
        R(self.0.abs())
    }
    fn below(self, other: R) -> bool {
        self.0 < other.0
    }
    fn finite(self) -> bool {
        self.0.is_finite()
    }
}

struct One;

impl RowMap for One {
    type Var = ();
    fn n_variables(&self) -> usize {
        1
    }
    fn n_residuals(&self) -> usize {
        1
    }
    fn row(&self, _bus: usize, _var: ()) -> Option<usize> {
        Some(0)
    }
}

struct Slope(SymbolicSparseColMat<usize>, [R; 1]);

impl JacobianCache<R> for Slope {
    fn symbolic(&self) -> &SymbolicSparseColMat<usize> {
        &self.0
    }
    fn values(&self) -> &[R] {
        &self.1
    }
    fn values_mut(&mut self) -> &mut [R] {
        &mut self.1
    }
}

/// The equation `f(x) = 0`, with a slope that is given rather than derived. Counts the
/// evaluations.
struct Equation {
    f: fn(f64) -> f64,
    slope: f64,
    layout: One,
    jac: Slope,
    evaluations: Cell<usize>,
}

impl Equation {
    fn new(f: fn(f64) -> f64, slope: f64) -> Equation {
        let pattern = SymbolicSparseColMat::new_checked(1, 1, vec![0, 1], None, vec![0]);
        Equation {
            f,
            slope,
            layout: One,
            jac: Slope(pattern, [R(0.0)]),
            evaluations: Cell::new(0),
        }
    }
}

impl NonlinearSystem for Equation {
    type Real = R;
    type Layout = One;
    type Jacobian = Slope;

    fn layout(&self) -> &One {
        &self.layout
    }
    fn jacobian(&self) -> &Slope {
        &self.jac
    }
    fn jacobian_mut(&mut self) -> &mut Slope {
        &mut self.jac
    }
    fn residual(&self, x: &[R], out: &mut [R]) {
        self.evaluations.set(self.evaluations.get() + 1);
        out[0] = R((self.f)(x[0].0));
    }
    fn refresh_jacobian(&mut self, _x: &[R]) {
        self.jac.1[0] = R(self.slope);
    }
}

/// Divides by the only entry of the matrix.
struct Divide(f64);

impl<'a> LinearSolver<R, SparseView<'a, R>> for Divide {
    fn factor(&mut self, a: &SparseView<'a, R>) -> SolverResult<()> {
        self.0 = a.values[0].0;
        if self.0 == 0.0 {
            Err(SolverError::new(Failure::Unspecified))
        } else {
            Ok(())
        }
    }

    fn solve_into(&mut self, rhs: &Mat<R>, out: &mut Mat<R>) -> SolverResult<()> {
        if self.0.is_infinite() {
            return Err(SolverError::new(Failure::Unspecified));
        }
        out.set(0, 0, R(rhs.get(0, 0).0 / self.0));
        Ok(())
    }
}

type Told = Vec<(usize, f64, f64)>;

/// Solves from `x`; returns the result, the last point, and what the callback was told.
fn run(model: &mut Equation, x: f64, cfg: NewtonCfg<R>) -> (SolverResult<usize>, f64, Told) {
    let mut point = [R(x)];
    let mut told = Vec::new();
    let result = solve_sparse_cb(model, &mut point, &mut Divide(0.0), cfg, |stats| {
        told.push((stats.iter, stats.residual.0, stats.damping.0));
        Control::Continue
    });
    (result, point[0].0, told)
}

fn failed(reason: Failure) -> SolverResult<usize> {
    Err(SolverError { reason })
}

#[test]
fn linear_equation_takes_one_step() {
    let mut model = Equation::new(|x| 2.0 * x - 6.0, 2.0);
    let (result, x, told) = run(&mut model, 0.0, NewtonCfg::sparse());
    assert_eq!(result, Ok(2));
    assert_eq!(x, 3.0);
    assert_eq!(told, vec![(0, 6.0, 1.0), (1, 0.0, 1.0)]);
}

#[test]
fn plain_damping_is_constant() {
    let mut model = Equation::new(|x| 2.0 * x - 6.0, 2.0);
    let cfg = NewtonCfg { damping: R(0.5), max_iter: 4, ..NewtonCfg::sparse() };
    let (result, x, told) = run(&mut model, 0.0, cfg);
    assert_eq!(result, failed(Failure::NotConverged(4)));
    assert_eq!(x, 3.0 - 3.0 / 16.0);
    assert_eq!(told, vec![(0, 6.0, 0.5), (1, 3.0, 0.5), (2, 1.5, 0.5), (3, 0.75, 0.5)]);
}

#[test]
fn plain_solve_never_searches() {
    // The residual grows by a factor of nine in every step.
    let mut model = Equation::new(|x| x, -0.125);
    let cfg = NewtonCfg { max_iter: 3, ..NewtonCfg::sparse() };
    let (result, x, told) = run(&mut model, 1.0, cfg);
    assert_eq!(result, failed(Failure::NotConverged(3)));
    assert_eq!(x, 729.0);
    assert_eq!(told, vec![(0, 1.0, 1.0), (1, 9.0, 1.0), (2, 81.0, 1.0)]);
    assert_eq!(model.evaluations.get(), 3);
}

#[test]
fn adaptive_damping_grows_to_its_maximum() {
    let mut model = Equation::new(|x| 2.0 * x - 6.0, 2.0);
    let cfg = NewtonCfg { damping: R(0.5), grow: R(1.5), ..NewtonCfg::sparse() };
    let (result, x, told) = run(&mut model, 0.0, cfg.with_adaptive(true));
    assert_eq!(result, Ok(3));
    assert_eq!(x, 3.0);
    assert_eq!(told, vec![(0, 6.0, 0.5), (1, 1.5, 0.75), (2, 0.0, 1.0)]);
}

#[test]
fn adaptive_damping_shrinks_to_its_minimum() {
    let mut model = Equation::new(|_| 1.0, 1.0);
    let cfg = NewtonCfg { max_iter: 6, ..NewtonCfg::sparse() }.with_adaptive(true);
    let (result, _, told) = run(&mut model, 0.0, cfg);
    assert_eq!(result, failed(Failure::NotConverged(6)));
    let dampings: Vec<f64> = told.iter().map(|t| t.2).collect();
    assert_eq!(dampings, vec![1.0, 1.0, 0.5, 0.25, 0.125, 0.1]);
}

/// The first step, from 0, leads to -1, where the residual is ten times as large. The
/// first trial of the line search leads to -3.5, the second to -2.25.
fn cliff(x: f64) -> f64 {
    if x == 0.0 {
        1.0
    } else if x == -1.0 {
        10.0
    } else if x == -3.5 {
        20.0
    } else if x == -2.25 {
        5.0
    } else {
        0.0
    }
}

#[test]
fn line_search_backtracks() {
    let mut model = Equation::new(cliff, 1.0);
    let cfg = NewtonCfg::sparse().with_adaptive(true);
    let (result, x, told) = run(&mut model, 0.0, cfg);
    assert_eq!(result, Ok(4));
    assert_eq!(
        told,
        vec![(0, 1.0, 1.0), (1, 10.0, 1.0), (2, 5.0, 0.125), (3, 0.0, 0.125 * 1.1)]
    );
    assert_eq!(x, -2.25 - 0.125 * 1.1 * 5.0);
    assert_eq!(model.evaluations.get(), 6);
}

#[test]
fn dampings_stay_in_bounds() {
    let cfg = NewtonCfg { damping: R(0.75), ..NewtonCfg::sparse() }.with_adaptive(true);
    let models: [fn(f64) -> f64; 3] = [cliff, |x| x * x * x - 2.0, |x| x.sin() + 1.5];
    for f in models {
        let (_, _, told) = run(&mut Equation::new(f, 1.0), 0.0, cfg);
        assert!(told.len() > 1);
        assert!(told.iter().all(|t| 0.1 <= t.2 && t.2 <= 1.0));
    }
}

#[test]
fn line_search_gives_up_below_the_minimum() {
    let mut model = Equation::new(|x| if x == 0.0 { 1.0 } else { 10.0 }, 1.0);
    let cfg = NewtonCfg::sparse().with_adaptive(true);
    let (result, x, told) = run(&mut model, 0.0, cfg);
    assert_eq!(result, failed(Failure::LineSearchFailed));
    assert_eq!(x, -1.0);
    assert_eq!(told.len(), 2);
    // Two iterations, and trials at 0.25 and 0.125; the next would be below 0.1.
    assert_eq!(model.evaluations.get(), 4);
}

#[test]
fn line_search_gives_up_after_its_trials() {
    let mut model = Equation::new(|x| if x == 0.0 { 1.0 } else { 10.0 }, 1.0);
    let cfg = NewtonCfg { ls_max_steps: 1, ..NewtonCfg::sparse() }.with_adaptive(true);
    assert_eq!(run(&mut model, 0.0, cfg).0, failed(Failure::LineSearchFailed));
    assert_eq!(model.evaluations.get(), 3);
    let mut model = Equation::new(|x| if x == 0.0 { 1.0 } else { 10.0 }, 1.0);
    let cfg = NewtonCfg { ls_max_steps: 0, ..NewtonCfg::sparse() }.with_adaptive(true);
    assert_eq!(run(&mut model, 0.0, cfg).0, failed(Failure::LineSearchFailed));
    assert_eq!(model.evaluations.get(), 2);
}

#[test]
fn line_search_makes_progress() {
    let model = Equation::new(cliff, 1.0);
    let cfg = NewtonCfg::sparse();
    let mut x = [R(-1.0)];
    let (mut xs, mut fs) = (vec![R(0.0)], vec![R(0.0)]);
    let found =
        line_search(&model, &cfg, &mut x, &[R(-10.0)], R(10.0), R(0.25), &mut xs, &mut fs);
    assert_eq!(found, Some(R(0.125)));
    assert_eq!(x, [R(-2.25)]);
    let missed =
        line_search(&model, &cfg, &mut x, &[R(-10.0)], R(0.0), R(0.25), &mut xs, &mut fs);
    assert_eq!(missed, None);
    assert_eq!(x, [R(-2.25)]);
}

#[test]
fn advance_takes_a_plain_or_an_adapted_step() {
    let model = Equation::new(|x| x, 1.0);
    let plain = NewtonCfg::sparse();
    let adaptive = plain.with_adaptive(true);
    let (mut xs, mut fs) = (vec![R(0.0)], vec![R(0.0)]);
    let mut x = [R(1.0)];
    let dir = [R(4.0)];
    let (half, one, two) = (R(0.5), R(1.0), R(2.0));
    assert_eq!(
        advance(&model, &plain, &mut x, &dir, two, half, one, &mut xs, &mut fs),
        Some(half)
    );
    assert_eq!(x, [R(3.0)]);
    // The residual doubled, which is not yet a divergence.
    assert_eq!(
        advance(&model, &adaptive, &mut x, &dir, two, half, one, &mut xs, &mut fs),
        Some(R(0.25))
    );
    assert_eq!(x, [R(4.0)]);
}

#[test]
fn solver_errors_are_passed_on() {
    // The matrix cannot be factorized.
    let mut model = Equation::new(|x| x, 0.0);
    let (result, x, told) = run(&mut model, 1.0, NewtonCfg::sparse());
    assert_eq!(result, failed(Failure::Unspecified));
    assert_eq!((x, told.len()), (1.0, 1));
    // The system cannot be solved.
    let mut model = Equation::new(|x| x, f64::INFINITY);
    assert_eq!(run(&mut model, 1.0, NewtonCfg::sparse()).0, failed(Failure::Unspecified));
}

#[test]
fn cancellation_is_honoured() {
    let mut model = Equation::new(|x| 2.0 * x - 6.0, 2.0);
    let cfg = NewtonCfg { damping: R(0.5), ..NewtonCfg::sparse() };
    let mut x = [R(0.0)];
    let result = solve_sparse_cb(&mut model, &mut x, &mut Divide(0.0), cfg, |stats| {
        if stats.iter == 2 {
            Control::Cancel
        } else {
            Control::Continue
        }
    });
    assert_eq!(result, failed(Failure::Cancelled));
    assert_eq!(x, [R(2.25)]);
    // A cancelled iteration does not count as a solution, not even at one.
    let mut x = [R(3.0)];
    let result =
        solve_sparse_cb(&mut model, &mut x, &mut Divide(0.0), cfg, |_| Control::Cancel);
    assert_eq!(result, failed(Failure::Cancelled));
}

#[test]
fn residual_equal_to_the_tolerance_is_not_enough() {
    let mut model = Equation::new(|_| 0.5, 1.0);
    let cfg = NewtonCfg { tol: R(0.5), max_iter: 1, ..NewtonCfg::sparse() };
    assert_eq!(run(&mut model, 0.0, cfg).0, failed(Failure::NotConverged(1)));
    let cfg = NewtonCfg { tol: R(0.75), max_iter: 1, ..NewtonCfg::sparse() };
    assert_eq!(run(&mut model, 0.0, cfg).0, Ok(1));
}

#[test]
fn norm_is_the_largest_magnitude() {
    assert_eq!(residual_norm::<R>(&[]), R(0.0));
    assert_eq!(residual_norm(&[R(1.0), R(-4.0), R(3.0)]), R(4.0));
    assert_eq!(residual_norm(&[R(f64::NAN), R(1.0)]), R(1.0));
    assert!(residual_norm(&[R(1.0), R(f64::NAN)]).0.is_nan());
}

#[test]
fn damping_is_raised_and_lowered() {
    let cfg = NewtonCfg::<R>::default();
    assert_eq!(raise(&cfg, R(0.5)), R(0.5 * 1.1));
    assert_eq!(raise(&cfg, R(0.95)), R(1.0));
    assert_eq!(lower(&cfg, R(0.5)), R(0.25));
    assert_eq!(lower(&cfg, R(0.15)), R(0.1));
    assert_eq!(adapt(&cfg, R(0.5), R(1.0), R(2.0)), R(0.5 * 1.1));
    assert_eq!(adapt(&cfg, R(0.5), R(2.0), R(2.0)), R(0.25));
    assert_eq!(adapt(&cfg, R(0.5), R(f64::NAN), R(2.0)), R(0.25));
}

#[test]
fn divergence_is_growth_beyond_the_ratio() {
    let cfg = NewtonCfg::<R>::default();
    assert!(diverged(&cfg, R(3.5), R(1.0)));
    assert!(!diverged(&cfg, R(3.0), R(1.0)));
    assert!(!diverged(&cfg, R(3.5), R(f64::INFINITY)));
    assert!(!diverged(&cfg, R(f64::NAN), R(1.0)));
}

#[test]
fn steps_follow_the_direction() {
    let mut to = [R(0.0), R(0.0)];
    step_to(&[R(1.0), R(2.0)], R(0.5), &[R(4.0), R(-2.0)], &mut to);
    assert_eq!(to, [R(3.0), R(1.0)]);
    step_by(&mut to, R(2.0), &[R(1.0), R(-1.0)]);
    assert_eq!(to, [R(5.0), R(-1.0)]);
}
