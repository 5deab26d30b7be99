//! Whole solves, with faer doing the numeric half of the factorizations.
use dyn_stack::{MemBuffer, MemStack};
use faer::linalg::solvers::{FullPivLu, Solve, SolveLstsq};
use faer::sparse::linalg::lu::{NumericLu, SymbolicLu};
use faer::sparse::linalg::solvers::{Qr, SymbolicQr};
use faer::sparse::{Pair, SparseColMatRef, SymbolicSparseColMat};
use faer::{Conj, Par};
use newton_faer::{
    solve, solve_cb, solve_dense_cb, solve_sparse_cb, Control, DenseLu, DenseNumeric, FaerLu,
    Failure, IterationStats, JacobianCache, LinearSolver, LuNumeric, Mat, MatrixFormat, NewtonCfg,
    NonlinearSystem, Numerics, QrNumeric, Real, RowMap, SolverError, SparseQr, SparseView,
};

#[derive(Clone, Copy, Debug, PartialEq)]
struct R(f64);

impl Real for R {
    fn zero() -> R {
        R(0.0)
    }
    fn one() -> R {
        R(1.0)
    }
    fn infinity() -> R {
        R(f64::INFINITY)
    }
    fn quotient(num: u32, den: u32) -> R {
        R(num as f64 / den as f64)
    }
    fn plus(self, other: R) -> R {
        R(self.0 + other.0)
    }
    fn times(self, other: R) -> R {
        R(self.0 * other.0)
    }
    fn negated(self) -> R {
        R(-self.0)
    }
    fn magnitude(self) -> R {
        R(self.0.abs())
    }
    fn below(self, other: R) -> bool {
        self.0 < other.0
    }
    fn finite(self) -> bool {
        self.0.is_finite()
    }
}

fn to_faer(m: &Mat<R>) -> faer::Mat<f64> {
    faer::Mat::from_fn(m.nrows(), m.ncols(), |i, j| m.get(i, j).0)
}

fn from_faer(m: &faer::Mat<f64>) -> Mat<R> {
    let mut out = Mat::filled(m.nrows(), m.ncols(), R(0.0));
    for j in 0..m.ncols() {
        for i in 0..m.nrows() {
            out.set(i, j, R(m[(i, j)]));
        }
    }
    out
}

fn plain(values: &[R]) -> Vec<f64> {
    values.iter().map(|v| v.0).collect()
}

/// Sparse LU.
#[derive(Default)]
struct Lu {
    pattern: Option<SymbolicSparseColMat<usize>>,
    values: Vec<f64>,
}

/// Factorizes numerically; on success solves in place, where there is something to solve.
fn numeric_lu(
    sym: &SymbolicLu<usize>,
    matrix: SparseColMatRef<'_, usize, f64>,
    work: Option<&mut faer::Mat<f64>>,
) -> bool {
    let par = Par::rayon(0);
    let size = sym.factorize_numeric_lu_scratch::<f64>(par, Default::default());
    let mut buffer = MemBuffer::new(size);
    let mut num = NumericLu::new();
    let stack = MemStack::new(&mut buffer);
    match sym.factorize_numeric_lu(&mut num, matrix, par, stack, Default::default()) {
        Ok(lu) => {
            if let Some(work) = work {
                let size = sym.solve_in_place_scratch::<f64>(work.ncols(), par);
                let mut buffer = MemBuffer::new(size);
                let stack = MemStack::new(&mut buffer);
                lu.solve_in_place_with_conj(Conj::No, work.as_mut(), par, stack);
            }
            true
        }
        Err(_) => false,
    }
}

impl LuNumeric<R> for Lu {
    fn with_scratch(self, _sym: &SymbolicLu<usize>) -> Lu {
        self
    }

    fn factorize(self, sym: &SymbolicLu<usize>, a: &SparseView<'_, R>) -> (Lu, bool) {
        let values = plain(a.values);
        let ok = numeric_lu(sym, SparseColMatRef::new(a.symbolic.as_ref(), &values), None);
        (Lu { pattern: Some(a.symbolic.clone()), values }, ok)
    }

    fn solve_in_place(self, sym: &SymbolicLu<usize>, m: Mat<R>) -> (Lu, Mat<R>) {
        let mut work = to_faer(&m);
        let pattern = self.pattern.as_ref().unwrap();
        let matrix = SparseColMatRef::new(pattern.as_ref(), &self.values);
        assert!(numeric_lu(sym, matrix, Some(&mut work)));
        (self, from_faer(&work))
    }
}

/// Sparse QR.
struct LeastSquares(Qr<usize, f64>);

impl QrNumeric<R> for LeastSquares {
    fn try_new(sym: &SymbolicQr<usize>, a: &SparseView<'_, R>) -> Option<LeastSquares> {
        let values = plain(a.values);
        let matrix = SparseColMatRef::new(a.symbolic.as_ref(), &values);
        Qr::try_new_with_symbolic(sym.clone(), matrix).ok().map(LeastSquares)
    }

    fn solve_lstsq_in_place(&self, m: Mat<R>) -> Mat<R> {
        let mut work = to_faer(&m);
        self.0.solve_lstsq_in_place(work.as_mut());
        from_faer(&work)
    }
}

/// Dense LU.
struct Full(FullPivLu<f64>);

impl DenseNumeric<R> for Full {
    fn new(a: &Mat<R>) -> Full {
        Full(to_faer(a).full_piv_lu())
    }

    fn solve(&self, rhs: &Mat<R>) -> Mat<R> {
        from_faer(&self.0.solve(to_faer(rhs)))
    }
}

struct Faer;

impl Numerics<R> for Faer {
    type Lu = Lu;
    type Qr = LeastSquares;
    type Dense = Full;
}

struct Jc {
    sym: SymbolicSparseColMat<usize>,
    vals: Vec<R>,
}

impl Jc {
    fn new(nrows: usize, ncols: usize, pairs: &[Pair<usize, usize>]) -> Jc {
        let (sym, _argsort) =
            SymbolicSparseColMat::try_new_from_indices(nrows, ncols, pairs).unwrap();
        let nnz = sym.col_ptr()[sym.ncols()];
        Jc { sym, vals: vec![R(0.0); nnz] }
    }
}

impl JacobianCache<R> for Jc {
    fn symbolic(&self) -> &SymbolicSparseColMat<usize> {
        &self.sym
    }
    fn values(&self) -> &[R] {
        &self.vals
    }
    fn values_mut(&mut self) -> &mut [R] {
        &mut self.vals
    }
}

struct Size {
    variables: usize,
    residuals: usize,
}

impl RowMap for Size {
    type Var = ();
    fn n_variables(&self) -> usize {
        self.variables
    }
    fn n_residuals(&self) -> usize {
        self.residuals
    }
    fn row(&self, _bus: usize, _var: ()) -> Option<usize> {
        None
    }
}

struct Model {
    layout: Size,
    jac: Jc,
}

impl Model {
    fn new() -> Model {
        let pairs = vec![
            Pair { row: 0, col: 0 },
            Pair { row: 1, col: 0 },
            Pair { row: 0, col: 1 },
            Pair { row: 1, col: 1 },
        ];
        Model { layout: Size { variables: 2, residuals: 2 }, jac: Jc::new(2, 2, &pairs) }
    }
}

impl NonlinearSystem for Model {
    type Real = R;
    type Layout = Size;
    type Jacobian = Jc;

    fn layout(&self) -> &Size {
        &self.layout
    }
    fn jacobian(&self) -> &Jc {
        &self.jac
    }
    fn jacobian_mut(&mut self) -> &mut Jc {
        &mut self.jac
    }
    fn residual(&self, x: &[R], out: &mut [R]) {
        let (xx, yy) = (x[0].0, x[1].0);
        out[0] = R(xx + yy - 3.0);
        out[1] = R(xx * xx + yy - 3.0);
    }
    fn refresh_jacobian(&mut self, x: &[R]) {
        let xx = x[0].0;
        let v = self.jac.values_mut();
        v[0] = R(1.0);
        v[1] = R(2.0 * xx);
        v[2] = R(1.0);
        v[3] = R(1.0);
    }
}

#[test]
fn solves_two_equations_sparse() {
    let cfg = NewtonCfg::<R>::sparse().with_adaptive(true).with_threads(1);

    let mut model = Model::new();
    let mut x = [R(0.9), R(2.1)];

    let iters = solve_sparse_cb(&mut model, &mut x, &mut FaerLu::<Lu>::default(), cfg, |_| {
        Control::Continue
    })
    .expect("solver");

    assert!(iters > 0 && iters <= 25);
    assert!((x[0].0 - 1.0).abs() < 1e-10);
    assert!((x[1].0 - 2.0).abs() < 1e-10);
}

/// A system with 2 variables and 3 residuals (overdetermined).
struct NonSquareModel {
    layout: Size,
    jac: Jc,
}

impl NonSquareModel {
    fn new() -> NonSquareModel {
        // Jacobian pattern: 3 residuals x 2 variables
        let pairs = vec![
            Pair { row: 0, col: 0 },
            Pair { row: 0, col: 1 },
            Pair { row: 1, col: 0 },
            Pair { row: 1, col: 1 },
            Pair { row: 2, col: 0 },
            Pair { row: 2, col: 1 },
        ];
        NonSquareModel { layout: Size { variables: 2, residuals: 3 }, jac: Jc::new(3, 2, &pairs) }
    }
}

impl NonlinearSystem for NonSquareModel {
    type Real = R;
    type Layout = Size;
    type Jacobian = Jc;

    fn layout(&self) -> &Size {
        &self.layout
    }
    fn jacobian(&self) -> &Jc {
        &self.jac
    }
    fn jacobian_mut(&mut self) -> &mut Jc {
        &mut self.jac
    }
    fn residual(&self, x: &[R], out: &mut [R]) {
        let (xx, yy) = (x[0].0, x[1].0);
        // x + y = 3, x - y = 1, 2x + y = 5
        out[0] = R(xx + yy - 3.0);
        out[1] = R(xx - yy - 1.0);
        out[2] = R(2.0 * xx + yy - 5.0);
    }
    fn refresh_jacobian(&mut self, _x: &[R]) {
        let v = self.jac.values_mut();
        // Jacobian entries in column-major order.
        v[0] = R(1.0);
        v[1] = R(1.0);
        v[2] = R(2.0);
        v[3] = R(1.0);
        v[4] = R(-1.0);
        v[5] = R(1.0);
    }
}

#[test]
fn solves_non_square_system() {
    let mut model = NonSquareModel::new();
    let mut x = [R(1.0), R(1.0)];
    let cfg = NewtonCfg::<R>::sparse().with_threads(1);

    let result = solve::<_, Faer>(&mut model, &mut x, cfg);

    assert!(result.is_ok());
    let iters = result.unwrap();
    assert!(iters > 0 && iters <= 25);

    // The exact solution is x=2, y=1 (satisfies the first two equations exactly).
    let tol = 1e-6;
    assert!((x[0].0 - 2.0).abs() < tol);
    assert!((x[1].0 - 1.0).abs() < tol);
}

/// Fit data to a Gaussian: y = a * exp(-((x-mu)/sigma)^2), 3 parameters, 5 data points.
struct GaussianModel {
    layout: Size,
    jac: Jc,
    data: Vec<(f64, f64)>,
}

impl GaussianModel {
    fn new() -> GaussianModel {
        // Jacobian: 5 residuals x 3 variables, all related.
        let mut pairs = Vec::new();
        for row in 0..5 {
            for col in 0..3 {
                pairs.push(Pair { row, col });
            }
        }

        // Data generated from y = 2.0 * exp(-((x-1.0)/0.8)^2).
        let x_vals: [f64; 5] = [-1.0, 0.0, 1.0, 2.0, 2.5];
        let a = 2.0;
        let mu = 1.0;
        let sigma = 0.8;
        let data: Vec<(f64, f64)> = x_vals
            .iter()
            .map(|&x| {
                let y = a * (-((x - mu) / sigma).powi(2)).exp();
                (x, y)
            })
            .collect();

        GaussianModel {
            layout: Size { variables: 3, residuals: 5 },
            jac: Jc::new(5, 3, &pairs),
            data,
        }
    }
}

impl NonlinearSystem for GaussianModel {
    type Real = R;
    type Layout = Size;
    type Jacobian = Jc;

    fn layout(&self) -> &Size {
        &self.layout
    }
    fn jacobian(&self) -> &Jc {
        &self.jac
    }
    fn jacobian_mut(&mut self) -> &mut Jc {
        &mut self.jac
    }
    fn residual(&self, x: &[R], out: &mut [R]) {
        let (a, mu, sigma) = (x[0].0, x[1].0, x[2].0);
        for (i, &(xi, yi)) in self.data.iter().enumerate() {
            let z = (xi - mu) / sigma;
            let gaussian = a * (-z * z).exp();
            out[i] = R(gaussian - yi);
        }
    }
    fn refresh_jacobian(&mut self, x: &[R]) {
        let (a, mu, sigma) = (x[0].0, x[1].0, x[2].0);
        let v = &mut self.jac.vals;
        for (i, &(xi, _)) in self.data.iter().enumerate() {
            let z = (xi - mu) / sigma;
            let exp_term = (-z * z).exp();
            let gaussian = a * exp_term;
            let n_eqn = 5;

            // dr/da = exp(-z^2)
            v[i] = R(exp_term);

            // dr/dmu = gaussian * 2(xi-mu)/sigma^2
            v[i + n_eqn] = R(gaussian * 2.0 * (xi - mu) / (sigma * sigma));

            // dr/dsigma = gaussian * 2(xi-mu)^2/sigma^3
            v[i + n_eqn * 2] =
                R(gaussian * 2.0 * (xi - mu) * (xi - mu) / (sigma * sigma * sigma));
        }
    }
}

#[test]
fn solves_gaussian_peak_fitting() {
    let mut model = GaussianModel::new();

    // Initial guess: amplitude, mean, std_dev.
    let mut x = [R(1.8), R(0.5), R(1.2)];
    let cfg = NewtonCfg::<R>::sparse().with_adaptive(true).with_threads(1);

    let callback = |stats: &IterationStats<R>| {
        println!(
            "Iter: {:>2}, Residual: {:.4e}, Damping: {:.4}",
            stats.iter, stats.residual.0, stats.damping.0
        );
        Control::Continue
    };

    let result = solve_cb::<_, Faer, _>(&mut model, &mut x, cfg, callback);

    assert!(result.is_ok());
    let iters = result.unwrap();
    assert!(iters > 0 && iters <= 50);

    // True values: a=2.0, mu=1.0, sigma=0.8.
    println!(
        "Fitted parameters: a={:.4}, mu={:.4}, sigma={:.4}",
        x[0].0, x[1].0, x[2].0
    );

    let tol = 1e-6;
    assert!((x[0].0 - 2.0).abs() < tol, "Amplitude should be 2.0, got {}", x[0].0);
    assert!((x[1].0 - 1.0).abs() < tol, "Mean should be 1.0, got {}", x[1].0);
    assert!((x[2].0 - 0.8).abs() < tol, "Std dev should be 0.8, got {}", x[2].0);
}

#[test]
fn dense_and_sparse_agree() {
    let mut sparse = [R(0.9), R(2.1)];
    let mut dense = [R(0.9), R(2.1)];
    let n = solve_sparse_cb(
        &mut Model::new(),
        &mut sparse,
        &mut FaerLu::<Lu>::default(),
        NewtonCfg::sparse(),
        |_| Control::Continue,
    );
    let m = solve_dense_cb(
        &mut Model::new(),
        &mut dense,
        &mut DenseLu::<Full>::default(),
        NewtonCfg::dense(),
        |_| Control::Continue,
    );
    assert_eq!(n, m);
    assert!((sparse[0].0 - dense[0].0).abs() < 1e-12);
    assert!((sparse[1].0 - dense[1].0).abs() < 1e-12);
}

#[test]
fn default_format_solves_small_systems() {
    let mut x = [R(0.9), R(2.1)];
    let cfg = NewtonCfg::<R>::default().with_adaptive(true);
    let result = solve::<_, Faer>(&mut Model::new(), &mut x, cfg);
    assert!(result.is_ok());
    assert!((x[0].0 - 1.0).abs() < 1e-10);
    let mut y = [R(0.9), R(2.1)];
    let sparse = cfg.with_format(MatrixFormat::Auto(2));
    assert_eq!(solve::<_, Faer>(&mut Model::new(), &mut y, sparse), result);
}

#[test]
fn symbolic_factorization_is_kept_across_solves() {
    let model = Model::new();
    let mut lu = FaerLu::<Lu>::default();
    let first = SparseView::new(&model.jac.sym, &[R(1.0), R(1.0), R(0.0), R(1.0)]);
    assert!(lu.needs_analysis(&model.jac.sym));
    assert!(lu.factor(&first).is_ok());
    assert!(!lu.needs_analysis(&model.jac.sym));
    for start in [0.9, 0.8, 1.3] {
        // Every model owns a pattern of its own; what it holds is the same.
        let mut model = Model::new();
        assert!(!lu.needs_analysis(&model.jac.sym));
        let mut x = [R(start), R(2.1)];
        let result = solve_sparse_cb(&mut model, &mut x, &mut lu, NewtonCfg::sparse(), |_| {
            Control::Continue
        });
        assert!(result.is_ok());
    }
    assert!(!lu.needs_analysis(&model.jac.sym));
    assert!(lu.needs_analysis(&NonSquareModel::new().jac.sym));
}

#[test]
fn solvers_know_what_they_solved() {
    let mut lu = FaerLu::<Lu>::default();
    let mut x = [R(0.9), R(2.1)];
    let result = solve_sparse_cb(&mut Model::new(), &mut x, &mut lu, NewtonCfg::sparse(), |_| {
        Control::Continue
    });
    assert!(result.unwrap() > 1);
    assert!(!lu.needs_analysis(&Model::new().jac.sym));

    let mut qr = SparseQr::<LeastSquares>::default();
    let mut x = [R(1.0), R(1.0)];
    let mut model = NonSquareModel::new();
    let result = solve_sparse_cb(&mut model, &mut x, &mut qr, NewtonCfg::sparse(), |_| {
        Control::Continue
    });
    assert!(result.unwrap() > 1);
    assert!(!qr.needs_analysis(&NonSquareModel::new().jac.sym));
}

#[test]
fn reused_solvers_answer_as_new_ones() {
    let mut used = FaerLu::<Lu>::default();
    let mut qr = SparseQr::<LeastSquares>::default();
    for start in [0.9, 0.8, 1.3] {
        let (mut x, mut y) = ([R(start), R(2.1)], [R(start), R(2.1)]);
        let cfg = NewtonCfg::sparse();
        let with_used =
            solve_sparse_cb(&mut Model::new(), &mut x, &mut used, cfg, |_| Control::Continue);
        let mut fresh = FaerLu::<Lu>::default();
        let with_new =
            solve_sparse_cb(&mut Model::new(), &mut y, &mut fresh, cfg, |_| Control::Continue);
        assert_eq!((with_used, x), (with_new, y));
        let (mut x, mut y) = ([R(start), R(1.0)], [R(start), R(1.0)]);
        let mut model = NonSquareModel::new();
        let with_used =
            solve_sparse_cb(&mut model, &mut x, &mut qr, cfg, |_| Control::Continue);
        let mut fresh = SparseQr::<LeastSquares>::default();
        let with_new =
            solve_sparse_cb(&mut model, &mut y, &mut fresh, cfg, |_| Control::Continue);
        assert_eq!((with_used, x), (with_new, y));
    }
}

#[test]
fn least_squares_into_a_tall_output() {
    // x + y = 3, 2 x + y = 4.
    let model = Model::new();
    let values = [R(1.0), R(2.0), R(1.0), R(1.0)];
    let mut qr = SparseQr::<LeastSquares>::default();
    assert_eq!(qr.factor(&SparseView::new(&model.jac.sym, &values)), Ok(()));
    let mut rhs = Mat::filled(2, 1, R(3.0));
    rhs.set(1, 0, R(4.0));
    let mut out = Mat::filled(3, 1, R(0.0));
    assert_eq!(qr.solve_into(&rhs, &mut out), Ok(()));
    assert!((out.get(0, 0).0 - 1.0).abs() < 1e-12);
    assert!((out.get(1, 0).0 - 2.0).abs() < 1e-12);
}

#[test]
fn success_means_residual_below_tolerance() {
    let mut model = Model::new();
    let mut x = [R(0.9), R(2.1)];
    let cfg = NewtonCfg::<R>::sparse();
    let n = solve_sparse_cb(&mut model, &mut x, &mut FaerLu::<Lu>::default(), cfg, |_| Control::Continue)
        .unwrap();
    assert!(1 <= n && n <= cfg.max_iter);
    let mut f = [R(0.0); 2];
    model.residual(&x, &mut f);
    assert!(f[0].0.abs() < 1e-8 && f[1].0.abs() < 1e-8);
}

#[test]
fn solution_is_recognised_at_once() {
    let mut x = [R(1.0), R(2.0)];
    let mut told = Vec::new();
    let result = solve_sparse_cb(
        &mut Model::new(),
        &mut x,
        &mut FaerLu::<Lu>::default(),
        NewtonCfg::sparse(),
        |stats| {
            told.push((stats.iter, stats.residual.0, stats.damping.0));
            Control::Continue
        },
    );
    assert_eq!(result, Ok(1));
    assert_eq!(x, [R(1.0), R(2.0)]);
    assert_eq!(told, vec![(0, 0.0, 1.0)]);
}

#[test]
fn no_iterations_no_solution() {
    let mut x = [R(1.0), R(2.0)];
    let mut cfg = NewtonCfg::<R>::sparse();
    cfg.max_iter = 0;
    let result = solve_sparse_cb(&mut Model::new(), &mut x, &mut FaerLu::<Lu>::default(), cfg, |_| {
        Control::Continue
    });
    assert_eq!(result, Err(SolverError { reason: Failure::NotConverged(0) }));
    assert_eq!(x, [R(1.0), R(2.0)]);
}

#[test]
fn too_few_iterations_fail() {
    let mut x = [R(0.9), R(2.1)];
    let mut cfg = NewtonCfg::<R>::sparse();
    cfg.max_iter = 2;
    let mut told = 0;
    let result = solve_sparse_cb(&mut Model::new(), &mut x, &mut FaerLu::<Lu>::default(), cfg, |_| {
        told += 1;
        Control::Continue
    });
    assert_eq!(result, Err(SolverError { reason: Failure::NotConverged(2) }));
    assert_eq!(told, 2);
}

#[test]
fn callback_cancels() {
    let mut x = [R(0.9), R(2.1)];
    let result = solve_sparse_cb(
        &mut Model::new(),
        &mut x,
        &mut FaerLu::<Lu>::default(),
        NewtonCfg::sparse(),
        |_| Control::Cancel,
    );
    assert_eq!(result, Err(SolverError { reason: Failure::Cancelled }));
    assert_eq!(x, [R(0.9), R(2.1)]);

    let mut told = 0;
    let result = solve_sparse_cb(
        &mut Model::new(),
        &mut x,
        &mut FaerLu::<Lu>::default(),
        NewtonCfg::sparse(),
        |stats| {
            told += 1;
            if stats.iter == 2 {
                Control::Cancel
            } else {
                Control::Continue
            }
        },
    );
    assert_eq!(result, Err(SolverError { reason: Failure::Cancelled }));
    assert_eq!(told, 3);
}

#[test]
fn singular_matrix_is_an_error() {
    // At x = 1/2 both rows of the Jacobian are (1, 1).
    let mut x = [R(0.5), R(2.1)];
    let result = solve_sparse_cb(
        &mut Model::new(),
        &mut x,
        &mut FaerLu::<Lu>::default(),
        NewtonCfg::sparse(),
        |_| Control::Continue,
    );
    match result {
        Err(e) => assert!(matches!(e.reason, Failure::NumericLu | Failure::NotConverged(25))),
        Ok(_) => panic!("a singular Jacobian cannot be solved"),
    }
}

#[test]
fn matrices_without_a_transversal_are_factorized() {
    // A full first column beside two that share a row.
    let hook =
        SymbolicSparseColMat::new_checked(3, 3, vec![0, 3, 4, 5], None, vec![0, 1, 2, 0, 0]);
    let values = [2.0, 1.0, 1.0, 1.0, 1.0].map(R);
    let mut lu = FaerLu::<Lu>::default();
    assert_eq!(lu.factor(&SparseView::new(&hook, &values)), Ok(()));
    assert!(!lu.needs_analysis(&hook));
}
