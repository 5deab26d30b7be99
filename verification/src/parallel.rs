//! How many threads the linear algebra runs on.
use vstd::prelude::*;

use crate::config::NewtonCfg;

verus! {

/// `ThreadPoolBuilder::new().num_threads(threads).build_global()`: starts rayon's global
/// thread pool with this many threads. It does nothing where the pool is running
/// already; whether it started the pool depends on the process and is left unsaid.
#[verifier::external_body]
fn start_global_pool(threads: usize) {
    let _ = rayon::ThreadPoolBuilder::new().num_threads(threads).build_global();
}

/// `rayon::current_num_threads`: the number of threads of the pool in charge, at least
/// one. How many depends on the process. A pool that is not running is started; where the
/// system refuses the threads for it, the call panics, as where memory runs out.
#[verifier::external_body]
fn pool_threads() -> (n: usize)
    ensures
        n >= 1,
{
    rayon::current_num_threads()
}

/// The pool was asked for this many threads.
pub closed spec fn pool_was_asked_for(threads: usize) -> bool {
    call_ensures(start_global_pool, (threads,), ())
}

/// The pool was found to have this many threads.
pub closed spec fn pool_was_found_with(n: usize) -> bool {
    call_ensures(pool_threads, (), n)
}

/// The number of threads to start when `threads` are asked for on a machine that offers
/// `available`: that many, or, for zero, all that the machine offers, at least one.
pub open spec fn target_for(threads: usize, available: Option<usize>) -> usize {
    if threads != 0 {
        threads
    } else {
        match available {
            Some(n) => if n == 0 {
                1
            } else {
                n
            },
            None => 1,
        }
    }
}

/// The number of threads to start when `threads` are asked for on a machine that offers
/// `available`.
pub fn thread_target(threads: usize, available: Option<usize>) -> (target: usize)
    ensures
        target == target_for(threads, available),
{
    if threads == 0 {
        match available {
            Some(n) => if n == 0 {
                1
            } else {
                n
            },
            None => 1,
        }
    } else {
        threads
    }
}

/// What is settled about the threads of the process.
#[derive(Clone, Copy, Debug, PartialEq, Eq, Structural)]
pub struct Parallelism {
    /// The number of threads that the pool was asked for.
    pub asked: Option<usize>,
    /// The number of threads that the first initialization came to.
    pub settled: Option<usize>,
}

impl Default for Parallelism {
    /// Nothing is settled.
    fn default() -> (p: Self)
        ensures
            p.asked is None,
            p.settled is None,
    {
        Parallelism { asked: None, settled: None }
    }
}

impl Parallelism {
    /// Notes that the pool was asked for `target` threads and came to have `actual`, unless
    /// the threads are settled, and returns the number that is settled.
    pub fn settle(&mut self, target: usize, actual: usize) -> (n: usize)
        ensures
            match old(self).settled {
                Some(before) => n == before && *final(self) == *old(self),
                None => {
                    &&& n == actual
                    &&& final(self).asked == Some(target)
                    &&& final(self).settled == Some(actual)
                },
            },
    {
        match self.settled {
            Some(before) => before,
            None => {
                self.asked = Some(target);
                self.settled = Some(actual);
                actual
            },
        }
    }

    /// The number of threads that is settled, or else `in_charge`, that of the pool.
    pub fn settled_or(&self, in_charge: usize) -> (n: usize)
        ensures
            n == (match self.settled {
                Some(before) => before,
                None => in_charge,
            }),
    {
        match self.settled {
            Some(before) => before,
            None => in_charge,
        }
    }
}

/// A first initialization that asks for `threads` on a machine that offers `available`
/// settles on `n`; a later one changes nothing.
pub open spec fn is_initialized(
    before: Parallelism,
    threads: usize,
    available: Option<usize>,
    after: Parallelism,
    n: usize,
) -> bool {
    match before.settled {
        Some(settled) => n == settled && after == before,
        None => {
            &&& n >= 1
            &&& pool_was_asked_for(target_for(threads, available))
            &&& pool_was_found_with(n)
            &&& after.asked == Some(target_for(threads, available))
            &&& after.settled == Some(n)
        },
    }
}

/// Starts the thread pool, the first time, and returns the number of its threads. Later
/// calls change nothing and return the same number.
pub fn init_global_parallelism(
    parallelism: &mut Parallelism,
    threads: usize,
    available: Option<usize>,
) -> (n: usize)
    ensures
        is_initialized(*old(parallelism), threads, available, *final(parallelism), n),
{
    match parallelism.settled {
        Some(before) => before,
        None => {
            let target: usize = thread_target(threads, available);
            start_global_pool(target);
            parallelism.settle(target, pool_threads())
        },
    }
}

/// The number of threads that is settled, or else that of the pool in charge.
pub fn current_parallelism(parallelism: &Parallelism) -> (n: usize)
    ensures
        match parallelism.settled {
            Some(before) => n == before,
            None => n >= 1 && pool_was_found_with(n),
        },
{
    match parallelism.settled {
        Some(before) => before,
        None => parallelism.settled_or(pool_threads()),
    }
}

/// Starts the thread pool, the first time, with as many threads as the settings ask for,
/// and returns the number of its threads. Later calls change nothing.
pub fn start_threads<T>(
    cfg: &NewtonCfg<T>,
    parallelism: &mut Parallelism,
    available: Option<usize>,
) -> (n: usize)
    ensures
        is_initialized(*old(parallelism), cfg.n_threads, available, *final(parallelism), n),
{
    init_global_parallelism(parallelism, cfg.n_threads, available)
}

/// The same settings with another number of threads, with which the thread pool is started,
/// the first time.
pub fn with_started_threads<T>(
    cfg: NewtonCfg<T>,
    n_threads: usize,
    parallelism: &mut Parallelism,
    available: Option<usize>,
) -> (out: NewtonCfg<T>)
    ensures
        out == (NewtonCfg { n_threads, ..cfg }),
        exists|n: usize| #[trigger]
            is_initialized(*old(parallelism), n_threads, available, *final(parallelism), n),
        final(parallelism).settled is Some,
{
    let out: NewtonCfg<T> = NewtonCfg { n_threads, ..cfg };
    let n: usize = start_threads(&out, parallelism, available);
    assert(is_initialized(*old(parallelism), n_threads, available, *parallelism, n));
    out
}

} // verus!
