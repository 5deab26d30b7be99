//! The linear solvers, with numeric halves that show what they are asked for.
use faer::sparse::linalg::lu::{factorize_symbolic_lu, SymbolicLu};
use faer::sparse::linalg::solvers::SymbolicQr;
use faer::sparse::{FaerError, SymbolicSparseColMat};
use newton_faer::linalg::QrPlan;
use newton_faer::matching::find_transversal;
use newton_faer::pattern::patterns_agree;
use newton_faer::signature::pattern_sig;
use newton_faer::{
    DenseLu, DenseNumeric, FaerLu, Failure, LinearSolver, LuNumeric, Mat, QrNumeric, SolverError,
    SparseQr, SparseView,
};

type Pattern = SymbolicSparseColMat<usize>;

fn error(reason: Failure) -> Result<(), SolverError> {
    Err(SolverError { reason })
}

/// A full pattern.
fn full(nrows: usize, ncols: usize) -> Pattern {
    let col_ptr = (0..=ncols).map(|j| j * nrows).collect();
    let row_idx = (0..ncols).flat_map(|_| 0..nrows).collect();
    Pattern::new_checked(nrows, ncols, col_ptr, None, row_idx)
}

/// The pattern of a diagonal matrix.
fn diagonal(n: usize) -> Pattern {
    Pattern::new_checked(n, n, (0..=n).collect(), None, (0..n).collect())
}

fn column(entries: &[i64]) -> Mat<i64> {
    let mut m = Mat::filled(entries.len(), 1, 0);
    for (i, &e) in entries.iter().enumerate() {
        m.set(i, 0, e);
    }
    m
}

fn entries(m: &Mat<i64>) -> Vec<i64> {
    (0..m.nrows()).map(|i| m.get(i, 0)).collect()
}

/// A numeric half whose "solution" is the right-hand side with the number of workspaces
/// and the number of factorizations in front. It fails to factorize a matrix whose first
/// value is zero.
#[derive(Default)]
struct Lu {
    workspaces: i64,
    factorizations: i64,
}

impl LuNumeric<i64> for Lu {
    fn with_scratch(self, _sym: &SymbolicLu<usize>) -> Lu {
        Lu { workspaces: self.workspaces + 1, ..self }
    }

    fn factorize(self, _sym: &SymbolicLu<usize>, a: &SparseView<'_, i64>) -> (Lu, bool) {
        (Lu { factorizations: self.factorizations + 1, ..self }, a.values[0] != 0)
    }

    fn solve_in_place(self, _sym: &SymbolicLu<usize>, mut m: Mat<i64>) -> (Lu, Mat<i64>) {
        m.set(0, 0, self.workspaces);
        m.set(1, 0, self.factorizations);
        (self, m)
    }
}

fn lu_counts(lu: &mut FaerLu<Lu>) -> Vec<i64> {
    let mut out = column(&[0, 0, 0]);
    assert_eq!(lu.solve_into(&column(&[7, 8, 9]), &mut out), Ok(()));
    assert_eq!(out.get(2, 0), 9);
    entries(&out)[..2].to_vec()
}

#[test]
fn lu_analyses_a_pattern_once() {
    let (a, b) = (full(3, 3), full(3, 3));
    let d = diagonal(3);
    let nine = [1; 9];
    let three = [1; 3];
    let mut lu = FaerLu::<Lu>::default();
    assert_eq!(lu.factor(&SparseView::new(&a, &nine)), Ok(()));
    assert_eq!(lu_counts(&mut lu), vec![1, 1]);
    assert_eq!(lu.factor(&SparseView::new(&a, &nine)), Ok(()));
    assert_eq!(lu_counts(&mut lu), vec![1, 2]);
    // The same pattern, stored elsewhere.
    assert_eq!(lu.factor(&SparseView::new(&b, &nine)), Ok(()));
    assert_eq!(lu_counts(&mut lu), vec![1, 3]);
    // Another pattern.
    assert_eq!(lu.factor(&SparseView::new(&d, &three)), Ok(()));
    assert_eq!(lu_counts(&mut lu), vec![2, 4]);
    assert!(lu.needs_analysis(&a) && !lu.needs_analysis(&d));
}

#[test]
fn lu_reports_failures() {
    let d = diagonal(3);
    let mut lu = FaerLu::<Lu>::default();
    let mut out = column(&[4, 5, 6]);
    assert_eq!(
        lu.solve_into(&column(&[7, 8, 9]), &mut out),
        error(Failure::LuNotFactorized)
    );
    assert_eq!(entries(&out), vec![4, 5, 6]);
    assert_eq!(lu.factor(&SparseView::new(&d, &[0, 1, 1])), error(Failure::NumericLu));
    // The analysis was fine and is kept.
    assert_eq!(lu.factor(&SparseView::new(&d, &[1, 1, 1])), Ok(()));
    assert_eq!(lu_counts(&mut lu), vec![1, 2]);
}

#[test]
fn lu_keeps_what_it_has_when_an_analysis_fails() {
    let (a, d) = (full(3, 3), diagonal(3));
    let nine = [1; 9];
    let three = [1; 3];
    let mut lu = FaerLu::<Lu>::default();
    assert_eq!(
        lu.factor_with(&SparseView::new(&a, &nine), Err(FaerError::OutOfMemory)),
        error(Failure::SymbolicLu)
    );
    assert!(lu.needs_analysis(&a));
    assert_eq!(lu.factor(&SparseView::new(&a, &nine)), Ok(()));
    assert_eq!(
        lu.factor_with(&SparseView::new(&d, &three), Err(FaerError::IndexOverflow)),
        error(Failure::SymbolicLu)
    );
    assert!(!lu.needs_analysis(&a) && lu.needs_analysis(&d));
    assert_eq!(lu_counts(&mut lu), vec![1, 1]);
}

#[test]
fn lu_takes_in_an_analysis() {
    let d = diagonal(3);
    let mut lu = FaerLu::<Lu>::default();
    let analysis = factorize_symbolic_lu(d.as_ref(), Default::default());
    assert_eq!(lu.factor_with(&SparseView::new(&d, &[1, 1, 1]), analysis), Ok(()));
    assert!(!lu.needs_analysis(&d));
    assert_eq!(lu_counts(&mut lu), vec![1, 1]);
    let analysis = factorize_symbolic_lu(d.as_ref(), Default::default());
    assert_eq!(
        lu.factor_with(&SparseView::new(&d, &[0, 1, 1]), analysis),
        error(Failure::NumericLu)
    );
}

#[test]
fn lu_does_not_solve_after_a_failure() {
    let d = diagonal(3);
    let mut lu = FaerLu::<Lu>::default();
    let mut out = column(&[4, 5, 6]);
    assert_eq!(lu.factor(&SparseView::new(&d, &[1, 1, 1])), Ok(()));
    assert_eq!(lu.factor(&SparseView::new(&d, &[0, 1, 1])), error(Failure::NumericLu));
    assert_eq!(
        lu.solve_into(&column(&[7, 8, 9]), &mut out),
        error(Failure::LuNotFactorized)
    );
    assert_eq!(entries(&out), vec![4, 5, 6]);
}

#[test]
fn lu_takes_patterns_without_a_transversal() {
    // Three columns that share a single row.
    let chain = Pattern::new_checked(3, 3, vec![0, 1, 2, 3], None, vec![0, 0, 0]);
    // A full first column beside two that share a row.
    let hook = Pattern::new_checked(3, 3, vec![0, 3, 4, 5], None, vec![0, 1, 2, 0, 0]);
    assert!(!find_transversal(&chain) && !find_transversal(&hook));
    for p in [chain, hook] {
        let values = vec![1; p.row_idx().len()];
        let mut lu = FaerLu::<Lu>::default();
        assert!(lu.needs_analysis(&p));
        assert_eq!(lu.factor(&SparseView::new(&p, &values)), Ok(()));
        assert!(!lu.needs_analysis(&p));
        // The analysis is kept for a copy of the pattern.
        assert_eq!(lu.factor(&SparseView::new(&p.clone(), &values)), Ok(()));
        assert_eq!(lu_counts(&mut lu), vec![1, 2]);
        // A numeric half that gives up is believed, here as elsewhere.
        let zeros = vec![0; values.len()];
        assert_eq!(lu.factor(&SparseView::new(&p, &zeros)), error(Failure::NumericLu));
        // Another pattern takes its place.
        let d = diagonal(3);
        assert_eq!(lu.factor(&SparseView::new(&d, &[1; 3])), Ok(()));
        assert!(!lu.needs_analysis(&d) && lu.needs_analysis(&p));
    }
}

#[test]
fn entry_counts_tell_patterns_apart() {
    // The same slots, of which the second pattern has fewer in use.
    let slots = vec![0, 1, 0, 1];
    let a = Pattern::new_checked(2, 2, vec![0, 2, 4], Some(vec![2, 2]), slots.clone());
    let b = Pattern::new_checked(2, 2, vec![0, 2, 4], Some(vec![1, 2]), slots.clone());
    let c = Pattern::new_checked(2, 2, vec![0, 2, 4], None, slots);
    assert_eq!(pattern_sig(&a), pattern_sig(&b));
    assert!(!patterns_agree(&a, &b) && !patterns_agree(&a, &c) && patterns_agree(&a, &a.clone()));
    let four = [1; 4];
    let mut lu = FaerLu::<Lu>::default();
    assert_eq!(lu.factor(&SparseView::new(&a, &four)), Ok(()));
    assert!(!lu.needs_analysis(&a) && lu.needs_analysis(&b) && lu.needs_analysis(&c));
    let mut qr = SparseQr::<Qr>::default();
    assert_eq!(qr.factor(&SparseView::new(&b, &four)), Ok(()));
    assert!(qr.needs_analysis(&a) && !qr.needs_analysis(&b) && qr.needs_analysis(&c));
}

/// A numeric half whose "solution" is the right-hand side plus the first value of the
/// matrix. It fails to factorize a matrix whose first value is zero.
struct Qr(i64);

impl QrNumeric<i64> for Qr {
    fn try_new(_sym: &SymbolicQr<usize>, a: &SparseView<'_, i64>) -> Option<Qr> {
        if a.values[0] != 0 {
            Some(Qr(a.values[0]))
        } else {
            None
        }
    }

    fn solve_lstsq_in_place(&self, mut m: Mat<i64>) -> Mat<i64> {
        for i in 0..m.nrows() {
            m.set(i, 0, m.get(i, 0) + self.0);
        }
        m
    }
}

#[test]
fn qr_solves_in_place_or_in_a_workspace() {
    let a = full(3, 2);
    let mut qr = SparseQr::<Qr>::default();
    assert_eq!(qr.factor(&SparseView::new(&a, &[10; 6])), Ok(()));
    let rhs = column(&[1, 2, 3]);
    assert_eq!(qr.plan_solve(3, 1, 3, 1), Ok(QrPlan::InPlace));
    let mut out = column(&[0, 0, 0]);
    assert_eq!(qr.solve_into(&rhs, &mut out), Ok(()));
    assert_eq!(entries(&out), vec![11, 12, 13]);
    assert_eq!(qr.plan_solve(3, 1, 2, 1), Ok(QrPlan::Workspace));
    let mut out = column(&[0, 0]);
    assert_eq!(qr.solve_into(&rhs, &mut out), Ok(()));
    assert_eq!(entries(&out), vec![11, 12]);
    // More rows than the right-hand side has: those further down stay.
    assert_eq!(qr.plan_solve(3, 1, 5, 1), Ok(QrPlan::Workspace));
    let mut out = column(&[0, 0, 0, 7, 8]);
    assert_eq!(qr.solve_into(&rhs, &mut out), Ok(()));
    assert_eq!(entries(&out), vec![11, 12, 13, 7, 8]);
}

#[test]
fn qr_reports_failures() {
    let a = full(3, 2);
    let rhs = column(&[1, 2, 3]);
    let mut out = column(&[5, 6]);
    let mut qr = SparseQr::<Qr>::default();
    assert_eq!(qr.solve_into(&rhs, &mut out), error(Failure::QrNotFactorized));
    assert_eq!(
        qr.factor_with(&SparseView::new(&a, &[10; 6]), Err(FaerError::OutOfMemory)),
        error(Failure::SymbolicQr)
    );
    assert!(qr.needs_analysis(&a));
    assert_eq!(qr.factor(&SparseView::new(&a, &[0; 6])), error(Failure::NumericQr));
    assert!(!qr.needs_analysis(&a));
    assert_eq!(qr.solve_into(&rhs, &mut out), error(Failure::QrNotFactorized));
    assert_eq!(qr.factor(&SparseView::new(&a, &[10; 6])), Ok(()));
    // A failure leaves the factorization before it in force.
    assert_eq!(qr.factor(&SparseView::new(&a, &[0; 6])), error(Failure::NumericQr));
    assert_eq!(qr.solve_into(&rhs, &mut out), Ok(()));
    assert_eq!(entries(&out), vec![11, 12]);
    // One row too few, and one column too many.
    let mut short = column(&[5]);
    assert_eq!(qr.solve_into(&rhs, &mut short), error(Failure::QrOutputTooSmall));
    assert_eq!(entries(&short), vec![5]);
    let mut wide = Mat::filled(3, 2, 0);
    assert_eq!(qr.solve_into(&rhs, &mut wide), error(Failure::QrOutputTooSmall));
    assert_eq!(qr.plan_solve(3, 1, 1, 1), Err(SolverError { reason: Failure::QrOutputTooSmall }));
}

#[test]
fn qr_analyses_a_pattern_once() {
    let (a, b) = (full(3, 2), full(3, 2));
    let mut qr = SparseQr::<Qr>::default();
    assert!(qr.needs_analysis(&a));
    let analysis = SymbolicQr::try_new(a.as_ref());
    assert_eq!(qr.factor_with(&SparseView::new(&a, &[10; 6]), analysis), Ok(()));
    assert!(!qr.needs_analysis(&a) && !qr.needs_analysis(&b));
    assert_eq!(qr.factor(&SparseView::new(&diagonal(2), &[10; 2])), Ok(()));
    assert!(qr.needs_analysis(&a) && qr.needs_analysis(&b));
}

/// A numeric half for matrices without entries.
#[derive(Default)]
struct Empty;

impl LuNumeric<i64> for Empty {
    fn with_scratch(self, _sym: &SymbolicLu<usize>) -> Empty {
        self
    }

    fn factorize(self, _sym: &SymbolicLu<usize>, _a: &SparseView<'_, i64>) -> (Empty, bool) {
        (self, true)
    }

    fn solve_in_place(self, _sym: &SymbolicLu<usize>, m: Mat<i64>) -> (Empty, Mat<i64>) {
        (self, m)
    }
}

impl QrNumeric<i64> for Empty {
    fn try_new(_sym: &SymbolicQr<usize>, _a: &SparseView<'_, i64>) -> Option<Empty> {
        Some(Empty)
    }

    fn solve_lstsq_in_place(&self, m: Mat<i64>) -> Mat<i64> {
        m
    }
}

#[test]
fn empty_patterns_are_analysed() {
    let square = full(0, 0);
    let mut lu = FaerLu::<Empty>::default();
    assert_eq!(lu.factor(&SparseView::new(&square, &[])), Ok(()));
    assert!(!lu.needs_analysis(&square));
    let tall = full(2, 0);
    let mut qr = SparseQr::<Empty>::default();
    assert_eq!(qr.factor(&SparseView::new(&tall, &[])), Ok(()));
    assert!(!qr.needs_analysis(&tall));
}

/// A dense factorization whose "solution" is the right-hand side times the first entry of
/// the matrix.
struct Dense(i64);

impl DenseNumeric<i64> for Dense {
    fn new(a: &Mat<i64>) -> Dense {
        Dense(a.get(0, 0))
    }

    fn solve(&self, rhs: &Mat<i64>) -> Mat<i64> {
        column(&entries(rhs).iter().map(|e| e * self.0).collect::<Vec<_>>())
    }
}

#[test]
fn dense_solves_with_the_last_matrix() {
    let mut lu = DenseLu::<Dense>::default();
    let mut out = column(&[4, 5]);
    let rhs = column(&[1, 2]);
    assert_eq!(lu.solve_into(&rhs, &mut out), error(Failure::DenseNotFactorized));
    assert_eq!(entries(&out), vec![4, 5]);
    assert_eq!(lu.factor(&Mat::filled(2, 2, 3)), Ok(()));
    assert_eq!(lu.solve_into(&rhs, &mut out), Ok(()));
    assert_eq!(entries(&out), vec![3, 6]);
    assert_eq!(lu.factor(&Mat::filled(2, 2, 5)), Ok(()));
    assert_eq!(lu.solve_into(&rhs, &mut out), Ok(()));
    assert_eq!(entries(&out), vec![5, 10]);
}

#[test]
fn transversals_are_found() {
    assert!(find_transversal(&full(3, 3)));
    assert!(find_transversal(&full(3, 2)));
    assert!(!find_transversal(&full(2, 3)));
    assert!(find_transversal(&full(0, 0)));
    assert!(find_transversal(&diagonal(4)));
    // Each column gets its row only once the one before has moved on.
    let stairs = Pattern::new_checked(3, 3, vec![0, 3, 5, 6], None, vec![0, 1, 2, 0, 1, 0]);
    assert!(find_transversal(&stairs));
    // Three columns in two rows.
    let crowded = Pattern::new_checked(3, 3, vec![0, 2, 4, 6], None, vec![0, 1, 0, 1, 0, 1]);
    assert!(!find_transversal(&crowded));
    // An empty column.
    let hollow = Pattern::new_checked(2, 2, vec![0, 2, 2], None, vec![0, 1]);
    assert!(!find_transversal(&hollow));
}
