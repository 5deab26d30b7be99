//! Patterns, their signatures, and full matrices.
use faer::sparse::SymbolicSparseColMat;
use newton_faer::pattern::{has_sorted_columns, n_indices, shape};
use newton_faer::signature::{
    fnv1a64_init, fnv1a64_step, hash_usize_slice, pattern_sig, PatternSig,
};
use newton_faer::{JacobianCache, Mat, NonlinearSystem, Pattern, Real, RowMap};

type Symbolic = SymbolicSparseColMat<usize>;

/// Whole numbers, which are enough for a Jacobian.
#[derive(Clone, Copy, Debug, PartialEq)]
struct Z(i64);

impl Real for Z {
    fn zero() -> Z {
        Z(0)
    }
    fn one() -> Z {
        Z(1)
    }
    fn infinity() -> Z {
        Z(i64::MAX)
    }
    fn quotient(num: u32, den: u32) -> Z {
        Z(i64::from(num / den))
    }
    fn plus(self, other: Z) -> Z {
        Z(self.0 + other.0)
    }
    fn times(self, other: Z) -> Z {
        Z(self.0 * other.0)
    }
    fn negated(self) -> Z {
        Z(-self.0)
    }
    fn magnitude(self) -> Z {
        Z(self.0.abs())
    }
    fn below(self, other: Z) -> bool {
        self.0 < other.0
    }
    fn finite(self) -> bool {
        self.0 != i64::MAX
    }
}

/// The pattern of [[1, 0], [2, 3]].
fn triangle() -> Symbolic {
    Symbolic::new_checked(2, 2, vec![0, 2, 3], None, vec![0, 1, 1])
}

#[test]
fn hash_starts_at_the_offset_basis() {
    assert_eq!(fnv1a64_init(), 0xcbf29ce484222325);
    assert_eq!(hash_usize_slice(fnv1a64_init(), &[]), 0xcbf29ce484222325);
}

#[test]
fn hash_steps() {
    assert_eq!(fnv1a64_step(0, 1), 0x100000001b3);
    assert_eq!(fnv1a64_step(1, 1), 0);
    assert_eq!(fnv1a64_step(fnv1a64_init(), 0), 0xaf63bd4c8601b7df);
    assert_eq!(hash_usize_slice(fnv1a64_init(), &[0]), 0xaf63bd4c8601b7df);
    assert_eq!(hash_usize_slice(fnv1a64_init(), &[0, 2, 4]), 0xd94642186c096299);
}

#[test]
fn hash_notices_a_change() {
    let h = fnv1a64_init();
    let plain = hash_usize_slice(h, &[3, 1, 4, 1, 5]);
    assert_ne!(hash_usize_slice(h, &[2, 1, 4, 1, 5]), plain);
    assert_ne!(hash_usize_slice(h, &[3, 1, 4, 1, 6]), plain);
    assert_ne!(hash_usize_slice(h, &[1, 3, 4, 1, 5]), plain);
    assert_ne!(fnv1a64_step(7, 1), fnv1a64_step(7, 2));
    assert_ne!(fnv1a64_step(7, 1), fnv1a64_step(8, 1));
}

#[test]
fn signature_of_a_pattern() {
    let full = Symbolic::new_checked(2, 2, vec![0, 2, 4], None, vec![0, 1, 0, 1]);
    let expected = PatternSig {
        nrows: 2,
        ncols: 2,
        nnz: 4,
        col_ptr_hash: 0xd94642186c096299,
        row_idx_hash: 0x447bfc7f98e616fd,
    };
    assert_eq!(pattern_sig(&full), expected);
    assert_eq!(pattern_sig(&full.clone()), expected);
}

#[test]
fn signature_tells_patterns_apart() {
    let sig = pattern_sig(&triangle());
    let taller = Symbolic::new_checked(3, 2, vec![0, 2, 3], None, vec![0, 1, 1]);
    let wider = Symbolic::new_checked(2, 3, vec![0, 2, 3, 3], None, vec![0, 1, 1]);
    let moved = Symbolic::new_checked(2, 2, vec![0, 2, 3], None, vec![0, 1, 0]);
    let split = Symbolic::new_checked(2, 2, vec![0, 1, 3], None, vec![0, 0, 1]);
    for other in [&taller, &wider, &moved, &split] {
        assert_ne!(pattern_sig(other), sig);
    }
    let empty = Symbolic::new_checked(0, 0, vec![0], None, vec![]);
    assert_eq!(pattern_sig(&empty).nnz, 0);
}

#[test]
fn pattern_has_a_shape_and_indices() {
    let s = Symbolic::new_checked(3, 2, vec![0, 2, 3], None, vec![0, 1, 1]);
    assert_eq!(shape(&s), (3, 2));
    assert_eq!(n_indices(&s), 3);
}

#[test]
fn columns_are_sorted_or_not() {
    assert!(has_sorted_columns(&triangle()));
    let unsorted = Symbolic::new_unsorted_checked(2, 2, vec![0, 1, 3], None, vec![0, 1, 0]);
    assert!(!has_sorted_columns(&unsorted));
    let repeated = Symbolic::new_unsorted_checked(2, 1, vec![0, 2], None, vec![1, 1]);
    assert!(!has_sorted_columns(&repeated));
    // What lies behind the entries in use does not count.
    let loose = Symbolic::new_checked(2, 2, vec![0, 2, 4], Some(vec![1, 2]), vec![1, 0, 0, 1]);
    assert!(has_sorted_columns(&loose));
}

#[test]
fn pattern_attaches_values() {
    let mut p = Pattern { symbolic: triangle(), values: vec![1, 2, 3] };
    p.values_mut()[1] = 5;
    assert_eq!(p.values, vec![1, 5, 3]);
    let view = p.attach_values();
    assert_eq!(view.values, &[1, 5, 3]);
    assert_eq!(shape(view.symbolic), (2, 2));
    let copy = p.clone();
    p.values_mut()[0] = 9;
    assert_eq!(copy.values, vec![1, 5, 3]);
    assert_eq!(copy.symbolic.col_ptr(), &[0, 2, 3]);
    assert_eq!(copy.symbolic.row_idx(), &[0, 1, 1]);
    assert_eq!(pattern_sig(&copy.symbolic), pattern_sig(&p.symbolic));
}

struct Size(usize, usize);

impl RowMap for Size {
    type Var = ();
    fn n_variables(&self) -> usize {
        self.1
    }
    fn n_residuals(&self) -> usize {
        self.0
    }
    fn row(&self, bus: usize, _var: ()) -> Option<usize> {
        Some(bus)
    }
}

struct Cache(Pattern<Z>);

impl JacobianCache<Z> for Cache {
    fn symbolic(&self) -> &Symbolic {
        &self.0.symbolic
    }
    fn values(&self) -> &[Z] {
        &self.0.values
    }
    fn values_mut(&mut self) -> &mut [Z] {
        self.0.values_mut()
    }
}

/// A model whose Jacobian holds 10, 20, 30, ... plus the first unknown.
struct Model(Size, Cache);

impl Model {
    fn new(symbolic: Symbolic) -> Model {
        let n = symbolic.row_idx().len();
        let size = Size(symbolic.nrows(), symbolic.ncols());
        Model(size, Cache(Pattern { symbolic, values: vec![Z(0); n] }))
    }

    fn dense(&mut self, x: i64) -> Vec<Vec<i64>> {
        let (nrows, ncols) = ((self.0).0, (self.0).1);
        let mut jac = Mat::filled(nrows, ncols, Z(-1));
        let point = vec![Z(x); ncols];
        self.jacobian_dense(&point, &mut jac);
        (0..nrows).map(|i| (0..ncols).map(|j| jac.get(i, j).0).collect()).collect()
    }
}

impl NonlinearSystem for Model {
    type Real = Z;
    type Layout = Size;
    type Jacobian = Cache;

    fn layout(&self) -> &Size {
        &self.0
    }
    fn jacobian(&self) -> &Cache {
        &self.1
    }
    fn jacobian_mut(&mut self) -> &mut Cache {
        &mut self.1
    }
    fn residual(&self, _x: &[Z], _out: &mut [Z]) {}
    fn refresh_jacobian(&mut self, x: &[Z]) {
        for (k, v) in self.1.values_mut().iter_mut().enumerate() {
            *v = Z(10 * (k as i64 + 1) + x[0].0);
        }
    }
}

#[test]
fn jacobian_becomes_a_full_matrix() {
    let mut model = Model::new(triangle());
    assert_eq!(model.dense(0), vec![vec![10, 0], vec![20, 30]]);
    assert_eq!(model.dense(1), vec![vec![11, 0], vec![21, 31]]);
    assert_eq!(model.jacobian().attach().values, &[Z(11), Z(21), Z(31)]);
}

#[test]
fn jacobian_with_an_empty_column() {
    let s = Symbolic::new_checked(2, 3, vec![0, 1, 1, 3], None, vec![1, 0, 1]);
    assert_eq!(Model::new(s).dense(0), vec![vec![0, 0, 20], vec![10, 0, 30]]);
}

#[test]
fn jacobian_that_is_not_compressed() {
    // Two slots per column, of which the first has one in use and the second two.
    let s = Symbolic::new_checked(2, 2, vec![0, 2, 4], Some(vec![1, 2]), vec![1, 0, 0, 1]);
    assert_eq!(Model::new(s).dense(0), vec![vec![0, 30], vec![10, 40]]);
}

#[test]
fn jacobian_with_repeated_entries() {
    // Row 0 is stored twice in the first column: the later value stays.
    let s = Symbolic::new_unsorted_checked(2, 1, vec![0, 3], None, vec![0, 1, 0]);
    assert_eq!(Model::new(s).dense(0), vec![vec![30], vec![20]]);
}

#[test]
fn jacobian_smaller_than_the_matrix() {
    let mut model = Model::new(triangle());
    let mut jac = Mat::filled(3, 3, Z(-1));
    model.jacobian_dense(&[Z(0), Z(0)], &mut jac);
    assert_eq!((jac.get(1, 1), jac.get(2, 0), jac.get(0, 2)), (Z(30), Z(0), Z(0)));
}

#[test]
fn matrix_entries() {
    let mut m: Mat<Z> = Mat::zeros(2, 3);
    assert_eq!((m.nrows(), m.ncols()), (2, 3));
    m.set(1, 2, Z(7));
    assert_eq!((m.get(1, 2), m.get(0, 2), m.get(1, 1)), (Z(7), Z(0), Z(0)));
    let copy = m.duplicate();
    m.fill(Z(4));
    assert_eq!((m.get(0, 0), m.get(1, 2)), (Z(4), Z(4)));
    assert_eq!((copy.get(0, 0), copy.get(1, 2)), (Z(0), Z(7)));
    let mut corner = Mat::filled(2, 1, Z(9));
    corner.copy_leading(&copy);
    assert_eq!((corner.get(0, 0), corner.get(1, 0)), (Z(0), Z(0)));
    let mut large = Mat::filled(3, 4, Z(9));
    large.copy_leading(&copy);
    assert_eq!((large.get(1, 2), large.get(0, 0)), (Z(7), Z(0)));
    assert_eq!((large.get(2, 2), large.get(1, 3)), (Z(9), Z(9)));
    let nothing: Mat<Z> = Mat::empty();
    assert_eq!((nothing.nrows(), nothing.ncols()), (0, 0));
}
