//! Settings of a solve, and what it reports while it runs.
use vstd::prelude::*;

use crate::scalar::Real;

verus! {

use crate::scalar::{is_one, is_quotient};

/// How the Jacobian is stored and factorized.
#[derive(Clone, Copy, Debug, PartialEq, Eq, Structural)]
pub enum MatrixFormat {
    /// Compressed sparse columns.
    Sparse,
    /// A full matrix.
    Dense,
    /// A full matrix for fewer unknowns than the threshold, sparse otherwise.
    Auto(usize),
}

impl Default for MatrixFormat {
    fn default() -> (format: Self)
        ensures
            format == MatrixFormat::Auto(100),
    {
        MatrixFormat::Auto(100)
    }
}

/// The settings of a Newton solve.
#[derive(Clone, Copy, Debug)]
pub struct NewtonCfg<T> {
    /// The solve ends once the largest residual is below this.
    pub tol: T,
    /// The factor that the first step is scaled by.
    pub damping: T,
    /// How many iterations are allowed.
    pub max_iter: usize,
    /// How the Jacobian is stored.
    pub format: MatrixFormat,
    /// Whether the damping follows the residual, with a guard against divergence.
    pub adaptive: bool,
    /// The damping never shrinks below this.
    pub min_damping: T,
    /// The damping never grows above this.
    pub max_damping: T,
    /// The factor on the damping after an iteration that reduced the residual.
    pub grow: T,
    /// The factor on the damping after an iteration that did not.
    pub shrink: T,
    /// A residual that grows by more than this factor starts a line search.
    pub divergence_ratio: T,
    /// The factor on the trial damping between two trials of a line search.
    pub ls_backtrack: T,
    /// How many trials a line search makes.
    pub ls_max_steps: usize,
    /// The number of threads asked for; zero stands for all of them.
    pub n_threads: usize,
}

/// `cfg` holds the default value of every setting but the matrix format.
pub open spec fn is_default_cfg<T: Real>(cfg: NewtonCfg<T>) -> bool {
    &&& is_quotient(1, 100_000_000, cfg.tol)
    &&& is_one(cfg.damping)
    &&& cfg.max_iter == 25
    &&& !cfg.adaptive
    &&& is_quotient(1, 10, cfg.min_damping)
    &&& is_one(cfg.max_damping)
    &&& is_quotient(11, 10, cfg.grow)
    &&& is_quotient(1, 2, cfg.shrink)
    &&& is_quotient(3, 1, cfg.divergence_ratio)
    &&& is_quotient(1, 2, cfg.ls_backtrack)
    &&& cfg.ls_max_steps == 10
    &&& cfg.n_threads == 0
}

impl<T: Real> Default for NewtonCfg<T> {
    fn default() -> (cfg: Self)
        ensures
            is_default_cfg(cfg),
            cfg.format == MatrixFormat::Auto(100),
    {
        NewtonCfg {
            tol: T::quotient(1, 100_000_000),
            damping: T::one(),
            max_iter: 25,
            format: MatrixFormat::default(),
            adaptive: false,
            min_damping: T::quotient(1, 10),
            max_damping: T::one(),
            grow: T::quotient(11, 10),
            shrink: T::quotient(1, 2),
            divergence_ratio: T::quotient(3, 1),
            ls_backtrack: T::quotient(1, 2),
            ls_max_steps: 10,
            n_threads: 0,
        }
    }
}

impl<T: Real> NewtonCfg<T> {
    /// The default settings, with a sparse Jacobian.
    pub fn sparse() -> (cfg: Self)
        ensures
            is_default_cfg(cfg),
            cfg.format == MatrixFormat::Sparse,
    {
        NewtonCfg { format: MatrixFormat::Sparse, ..NewtonCfg::default() }
    }

    /// The default settings, with a dense Jacobian.
    pub fn dense() -> (cfg: Self)
        ensures
            is_default_cfg(cfg),
            cfg.format == MatrixFormat::Dense,
    {
        NewtonCfg { format: MatrixFormat::Dense, ..NewtonCfg::default() }
    }

    /// The same settings with another matrix format.
    pub fn with_format(self, format: MatrixFormat) -> (cfg: Self)
        ensures
            cfg == (NewtonCfg { format, ..self }),
    {
        NewtonCfg { format, ..self }
    }

    /// The same settings with adaptive damping switched on or off.
    pub fn with_adaptive(self, enabled: bool) -> (cfg: Self)
        ensures
            cfg == (NewtonCfg { adaptive: enabled, ..self }),
    {
        NewtonCfg { adaptive: enabled, ..self }
    }

    /// The same settings with another number of threads.
    /// [`crate::parallel::start_threads`] starts them, and
    /// [`crate::parallel::with_started_threads`] does both.
    pub fn with_threads(self, n_threads: usize) -> (cfg: Self)
        ensures
            cfg == (NewtonCfg { n_threads, ..self }),
    {
        NewtonCfg { n_threads, ..self }
    }
}

/// The constants that the default settings are made of are the same every time.
pub open spec fn has_fixed_constants<T: Real>() -> bool {
    &&& forall|a: T, b: T| #[trigger] is_one(a) && #[trigger] is_one(b) ==> a == b
    &&& forall|num: u32, den: u32, a: T, b: T| #[trigger]
        is_quotient(num, den, a) && #[trigger] is_quotient(num, den, b) ==> a == b
}

/// The default settings, those for a sparse Jacobian and those for a dense one agree in
/// everything but the matrix format, for a scalar whose constants are the same every time.
pub proof fn law_presets_agree<T: Real>(a: NewtonCfg<T>, b: NewtonCfg<T>)
    requires
        is_default_cfg(a),
        is_default_cfg(b),
        has_fixed_constants::<T>(),
    ensures
        b == (NewtonCfg { format: b.format, ..a }),
{
}

/// How many iterations a solve took.
pub type Iterations = usize;

/// What the progress callback is told at the start of every iteration.
#[derive(Clone, Debug)]
pub struct IterationStats<T> {
    /// The iteration, counted from zero.
    pub iter: usize,
    /// The largest absolute residual.
    pub residual: T,
    /// The damping in force.
    pub damping: T,
}

/// The answer of the progress callback.
#[derive(Clone, Copy, Debug, PartialEq, Eq, Structural)]
pub enum Control {
    /// Go on.
    Continue,
    /// Stop; the solve fails.
    Cancel,
}

} // verus!
