//! Signatures of sparsity patterns: how a solver notices quickly that a pattern changed.
use vstd::prelude::*;

use faer::sparse::SymbolicSparseColMat;

use crate::pattern::{col_ptr, ncols, nrows, row_idx};

verus! {

use crate::pattern::{
    pattern_col_ptr,
    pattern_ncols,
    pattern_nrows,
    pattern_row_idx,
    same_pattern,
};

/// The multiplier of the 64-bit FNV-1a hash.
pub const FNV_PRIME: u64 = 0x100000001b3;

/// One step of the 64-bit FNV-1a hash: mix in `v`, then multiply modulo 2^64.
pub open spec fn fnv_step(h: u64, v: u64) -> u64 {
    (((h ^ v) * FNV_PRIME) % 0x1_0000_0000_0000_0000) as u64
}

/// The 64-bit FNV-1a hash of a sequence of words, started from `h`.
pub open spec fn fnv_hash(h: u64, words: Seq<usize>) -> u64
    decreases words.len(),
{
    if words.len() == 0 {
        h
    } else {
        fnv_step(fnv_hash(h, words.drop_last()), words.last() as u64)
    }
}

/// The value that a 64-bit FNV-1a hash starts from.
pub fn fnv1a64_init() -> (h: u64)
    ensures
        h == 0xcbf29ce484222325,
{
    0xcbf29ce484222325
}

/// Mixes one word into a 64-bit FNV-1a hash.
pub fn fnv1a64_step(h: u64, v: u64) -> (r: u64)
    ensures
        r == fnv_step(h, v),
{
    (h ^ v).wrapping_mul(FNV_PRIME)
}

/// Mixes the words of a slice into a 64-bit FNV-1a hash, first to last.
pub fn hash_usize_slice(h: u64, s: &[usize]) -> (r: u64)
    ensures
        r == fnv_hash(h, s@),
{
    let mut r: u64 = h;
    let mut i: usize = 0;
    while i < s.len()
        invariant
            i <= s@.len(),
            r == fnv_hash(h, s@.take(i as int)),
        decreases s@.len() - i,
    {
        r = fnv1a64_step(r, s[i] as u64);
        assert(s@.take(i + 1).drop_last() =~= s@.take(i as int));
        i = i + 1;
    }
    assert(s@.take(i as int) =~= s@);
    r
}

/// What tells most patterns apart.
#[derive(Clone, Copy, Debug, PartialEq, Eq, Structural)]
pub struct PatternSig {
    /// The number of rows.
    pub nrows: usize,
    /// The number of columns.
    pub ncols: usize,
    /// The last column pointer.
    pub nnz: usize,
    /// The hash of the column pointers.
    pub col_ptr_hash: u64,
    /// The hash of the row indices.
    pub row_idx_hash: u64,
}

/// The signature of a pattern.
pub open spec fn signature(s: SymbolicSparseColMat<usize>) -> PatternSig {
    PatternSig {
        nrows: pattern_nrows(s),
        ncols: pattern_ncols(s),
        nnz: pattern_col_ptr(s).last(),
        col_ptr_hash: fnv_hash(0xcbf29ce484222325, pattern_col_ptr(s)),
        row_idx_hash: fnv_hash(0xcbf29ce484222325, pattern_row_idx(s)),
    }
}

/// The signature of a pattern.
pub fn pattern_sig(s: &SymbolicSparseColMat<usize>) -> (sig: PatternSig)
    ensures
        sig == signature(*s),
{
    let pointers: &[usize] = col_ptr(s);
    PatternSig {
        nrows: nrows(s),
        ncols: ncols(s),
        nnz: pointers[pointers.len() - 1],
        col_ptr_hash: hash_usize_slice(fnv1a64_init(), pointers),
        row_idx_hash: hash_usize_slice(fnv1a64_init(), row_idx(s)),
    }
}

/// Multiplying by the FNV prime modulo 2^64 can be undone.
proof fn lemma_prime_cancels(a: u64, b: u64)
    requires
        (a * FNV_PRIME) % 0x1_0000_0000_0000_0000 == (b * FNV_PRIME) % 0x1_0000_0000_0000_0000,
    ensures
        a == b,
{
    lemma_prime_inverse(a);
    lemma_prime_inverse(b);
}

/// The inverse of the FNV prime modulo 2^64 undoes a multiplication by it.
proof fn lemma_prime_inverse(a: u64)
    ensures
        (((a * FNV_PRIME) % 0x1_0000_0000_0000_0000) * 0xce965057aff6957b)
            % 0x1_0000_0000_0000_0000 == a,
{
    let n: int = 0x1_0000_0000_0000_0000;
    let p: int = FNV_PRIME as int;
    let inv: int = 0xce965057aff6957b;
    let x: int = a as int;
    vstd::arithmetic::div_mod::lemma_mul_mod_noop_left(x * p, inv, n);
    assert(p * inv == 1 + 887285111055 * n);
    assert((x * p) * inv == n * (887285111055 * x) + x) by (nonlinear_arith)
        requires
            p * inv == 1 + 887285111055 * n,
    ;
    vstd::arithmetic::div_mod::lemma_mod_multiples_vanish(887285111055 * x, x, n);
    vstd::arithmetic::div_mod::lemma_small_mod(a as nat, n as nat);
}

/// A step of the hash loses nothing: with the same word, different hashes stay
/// different, and from the same hash, different words give different hashes.
pub proof fn law_step_is_injective(g: u64, h: u64, v: u64, w: u64)
    ensures
        fnv_step(g, v) == fnv_step(h, v) ==> g == h,
        fnv_step(h, v) == fnv_step(h, w) ==> v == w,
{
    if fnv_step(g, v) == fnv_step(h, v) {
        lemma_prime_cancels(g ^ v, h ^ v);
        assert(g ^ v == h ^ v ==> g == h) by (bit_vector);
    }
    if fnv_step(h, v) == fnv_step(h, w) {
        lemma_prime_cancels(h ^ v, h ^ w);
        assert(h ^ v == h ^ w ==> v == w) by (bit_vector);
    }
}

/// Changing a single word of a sequence changes its hash.
pub proof fn law_hash_notices_one_change(h: u64, a: Seq<usize>, k: int, word: usize)
    requires
        0 <= k < a.len(),
        word != a[k],
    ensures
        fnv_hash(h, a.update(k, word)) != fnv_hash(h, a),
    decreases a.len(),
{
    let b = a.update(k, word);
    let last = a.len() - 1;
    law_step_is_injective(
        fnv_hash(h, b.drop_last()),
        fnv_hash(h, a.drop_last()),
        b.last() as u64,
        a.last() as u64,
    );
    if k == last {
        assert(b.drop_last() =~= a.drop_last());
    } else {
        assert(b.drop_last() =~= a.drop_last().update(k, word));
        law_hash_notices_one_change(h, a.drop_last(), k, word);
    }
}

/// A pattern that holds the same has the same signature, wherever it is stored.
pub proof fn law_same_pattern_same_signature(
    a: SymbolicSparseColMat<usize>,
    b: SymbolicSparseColMat<usize>,
)
    requires
        same_pattern(a, b),
    ensures
        signature(a) == signature(b),
{
}

/// A pattern of another shape has another signature, and so has one that differs in
/// a single row index or in a single column pointer.
pub proof fn law_changed_pattern_changes_signature(
    a: SymbolicSparseColMat<usize>,
    b: SymbolicSparseColMat<usize>,
    k: int,
    index: usize,
)
    requires
        ({
            ||| pattern_nrows(a) != pattern_nrows(b)
            ||| pattern_ncols(a) != pattern_ncols(b)
            ||| (0 <= k < pattern_row_idx(a).len() && pattern_row_idx(a)[k] != index
                && pattern_row_idx(b) == pattern_row_idx(a).update(k, index))
            ||| (0 <= k < pattern_col_ptr(a).len() && pattern_col_ptr(a)[k] != index
                && pattern_col_ptr(b) == pattern_col_ptr(a).update(k, index))
        }),
    ensures
        signature(a) != signature(b),
{
    if 0 <= k < pattern_row_idx(a).len() && pattern_row_idx(a)[k] != index {
        law_hash_notices_one_change(0xcbf29ce484222325, pattern_row_idx(a), k, index);
    }
    if 0 <= k < pattern_col_ptr(a).len() && pattern_col_ptr(a)[k] != index {
        law_hash_notices_one_change(0xcbf29ce484222325, pattern_col_ptr(a), k, index);
    }
}

} // verus!
