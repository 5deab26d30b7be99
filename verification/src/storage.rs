//! What matrices, patterns and their signatures hold.
use vstd::prelude::*;

use faer::sparse::SymbolicSparseColMat;

use crate::dense::Mat;
use crate::matching::find_transversal;
use crate::pattern::{has_sorted_columns, patterns_agree};
use crate::signature::{
    fnv1a64_init, fnv1a64_step, hash_usize_slice, pattern_sig, PatternSig,
};

verus! {

use crate::matching::{are_independent, has_transversal, in_column};
use crate::pattern::{
    col_end,
    col_start,
    pattern_col_nnz,
    pattern_col_ptr,
    pattern_ncols,
    pattern_nrows,
    pattern_row_idx,
    same_pattern,
    sorted_column,
    sorted_columns,
};
use crate::signature::{fnv_hash, fnv_step, signature};

/// Matrices with the same entries have equally many rows and columns, and agree everywhere.
pub proof fn law_same_entries_agree_everywhere<T>(a: Mat<T>, b: Mat<T>)
    ensures
        a.same_entries(b) <==> {
            &&& a.rows() == b.rows()
            &&& a.cols() == b.cols()
            &&& forall|i: int, j: int|
                0 <= i < a.rows() && 0 <= j < a.cols() ==> #[trigger] a.at(i, j) == b.at(i, j)
        },
        a.same_shape(b) <==> a.rows() == b.rows() && a.cols() == b.cols(),
        forall|i: int, j: int| #[trigger]
            a.covers(i, j) <==> 0 <= i < a.rows() && 0 <= j < a.cols(),
{
    if a.rows() == b.rows() && a.cols() == b.cols() && (forall|i: int, j: int|
        0 <= i < a.rows() && 0 <= j < a.cols() ==> #[trigger] a.at(i, j) == b.at(i, j)) {
        assert forall|i: int, j: int| a.covers(i, j) implies #[trigger] a.at(i, j) == b.at(
            i,
            j,
        ) by {}
        assert(a.same_entries(b));
    }
    if a.same_entries(b) {
        assert forall|i: int, j: int|
            0 <= i < a.rows() && 0 <= j < a.cols() implies #[trigger] a.at(i, j) == b.at(i, j) by {
            assert(a.covers(i, j));
        }
    }
}

/// What is stored in a matrix is found there again, and nothing else changes.
pub proof fn law_stored_entries_are_found<T: Copy>(
    m: &mut Mat<T>,
    i: usize,
    j: usize,
    value: T,
    r: usize,
    c: usize,
    found: T,
)
    requires
        i < old(m).rows() && j < old(m).cols(),
        r < old(m).rows() && c < old(m).cols(),
        call_ensures(Mat::<T>::set, (m, i, j, value), ()),
        call_ensures(Mat::<T>::get, (&*final(m), r, c), found),
    ensures
        found == (if r == i && c == j {
            value
        } else {
            old(m).at(r as int, c as int)
        }),
        final(m).rows() == old(m).rows(),
        final(m).cols() == old(m).cols(),
{
    assert(old(m).covers(r as int, c as int));
}

/// Patterns agree exactly when they have equally many rows and columns, and the same column
/// pointers, entry counts and row indices.
pub proof fn law_patterns_agree_in_everything(
    a: SymbolicSparseColMat<usize>,
    b: SymbolicSparseColMat<usize>,
    agree: bool,
)
    requires
        agree == same_pattern(a, b) || call_ensures(patterns_agree, (&a, &b), agree),
    ensures
        agree <==> {
            &&& pattern_nrows(a) == pattern_nrows(b)
            &&& pattern_ncols(a) == pattern_ncols(b)
            &&& pattern_col_ptr(a) == pattern_col_ptr(b)
            &&& pattern_col_nnz(a) == pattern_col_nnz(b)
            &&& pattern_row_idx(a) == pattern_row_idx(b)
        },
{
}

/// The columns of a pattern are sorted when in each of them, from its pointer to where it
/// ends, every row index is below those after it.
pub proof fn law_sorted_means_increasing(s: SymbolicSparseColMat<usize>, sorted: bool)
    requires
        sorted == sorted_columns(s) || call_ensures(has_sorted_columns, (&s,), sorted),
    ensures
        ({
            let start = |j: int| pattern_col_ptr(s)[j] as int;
            let end = |j: int|
                match pattern_col_nnz(s) {
                    Some(counts) => pattern_col_ptr(s)[j] + counts[j],
                    None => pattern_col_ptr(s)[j + 1] as int,
                };
            sorted <==> forall|j: int, k: int, l: int|
                #![trigger start(j), pattern_row_idx(s)[k], pattern_row_idx(s)[l]]
                0 <= j < pattern_ncols(s) && start(j) <= k < l < end(j) ==> pattern_row_idx(s)[k]
                    < pattern_row_idx(s)[l]
        }),
{
    let start = |j: int| pattern_col_ptr(s)[j] as int;
    let end = |j: int|
        match pattern_col_nnz(s) {
            Some(counts) => pattern_col_ptr(s)[j] + counts[j],
            None => pattern_col_ptr(s)[j + 1] as int,
        };
    if sorted {
        assert forall|j: int, k: int, l: int|
            #![trigger start(j), pattern_row_idx(s)[k], pattern_row_idx(s)[l]]
            0 <= j < pattern_ncols(s) && start(j) <= k < l < end(j) implies pattern_row_idx(s)[k]
            < pattern_row_idx(s)[l] by {
            assert(sorted_column(s, j));
        }
    } else {
        let j = choose|j: int| 0 <= j < pattern_ncols(s) && !#[trigger] sorted_column(s, j);
        let (k, l) = choose|k: int, l: int|
            col_start(s, j) <= k < l < col_end(s, j)
                && !(#[trigger] pattern_row_idx(s)[k] < #[trigger] pattern_row_idx(s)[l]);
        assert(start(j) <= k < l < end(j));
    }
}

/// A pattern has a transversal when an entry can be picked in each column, such that no two
/// of them share a row.
pub proof fn law_transversals_pick_distinct_rows(s: SymbolicSparseColMat<usize>, found: bool)
    requires
        found == has_transversal(s) || call_ensures(find_transversal, (&s,), found),
    ensures
        ({
            let start = |j: int| pattern_col_ptr(s)[j] as int;
            let end = |j: int|
                match pattern_col_nnz(s) {
                    Some(counts) => pattern_col_ptr(s)[j] + counts[j],
                    None => pattern_col_ptr(s)[j + 1] as int,
                };
            found <==> exists|picks: Seq<int>|
                {
                    &&& #[trigger] picks.len() == pattern_ncols(s)
                    &&& forall|j: int|
                        0 <= j < picks.len() ==> start(j) <= #[trigger] picks[j] < end(j)
                    &&& forall|j: int, l: int|
                        0 <= j < l < picks.len() ==> pattern_row_idx(s)[#[trigger] picks[j]]
                            != pattern_row_idx(s)[#[trigger] picks[l]]
                }
        }),
{
    let start = |j: int| pattern_col_ptr(s)[j] as int;
    let end = |j: int|
        match pattern_col_nnz(s) {
            Some(counts) => pattern_col_ptr(s)[j] + counts[j],
            None => pattern_col_ptr(s)[j + 1] as int,
        };
    assert forall|picks: Seq<int>|
        {
            &&& #[trigger] picks.len() == pattern_ncols(s)
            &&& forall|j: int| 0 <= j < picks.len() ==> start(j) <= #[trigger] picks[j] < end(j)
            &&& forall|j: int, l: int|
                0 <= j < l < picks.len() ==> pattern_row_idx(s)[#[trigger] picks[j]]
                    != pattern_row_idx(s)[#[trigger] picks[l]]
        } implies are_independent(s, picks) by {
        assert forall|j: int| 0 <= j < picks.len() implies in_column(
            s,
            j,
            #[trigger] picks[j],
        ) by {}
    }
    if has_transversal(s) {
        let picks = choose|picks: Seq<int>|
            picks.len() == pattern_ncols(s) && #[trigger] are_independent(s, picks);
        assert forall|j: int| 0 <= j < picks.len() implies start(j) <= #[trigger] picks[j]
            < end(j) by {
            assert(in_column(s, j, picks[j]));
        }
        assert(picks.len() == pattern_ncols(s));
    }
}

/// One step of the hash mixes the word in bit by bit, and multiplies by the prime of the
/// 64-bit FNV-1a hash, modulo 2^64. The hash starts from the offset basis of FNV-1a.
pub proof fn law_hash_steps_are_those_of_fnv(start: u64, h: u64, v: u64, r: u64)
    requires
        call_ensures(fnv1a64_init, (), start),
        r == fnv_step(h, v) || call_ensures(fnv1a64_step, (h, v), r),
    ensures
        start == 0xcbf29ce484222325,
        r == ((h ^ v) * 0x100000001b3) % 0x1_0000_0000_0000_0000,
{
}

/// The hashes of the leading parts of `words`, the empty one first.
proof fn lemma_hash_ends_a_run(h: u64, words: Seq<usize>) -> (run: Seq<u64>)
    ensures
        run.len() == words.len() + 1,
        run[0] == h,
        run.last() == fnv_hash(h, words),
        forall|i: int|
            0 <= i < words.len() ==> run[i + 1] == fnv_step(run[i], #[trigger] words[i] as u64),
    decreases words.len(),
{
    if words.len() == 0 {
        seq![h]
    } else {
        let front = words.drop_last();
        let before = lemma_hash_ends_a_run(h, front);
        let run = before.push(fnv_hash(h, words));
        assert forall|i: int| 0 <= i < words.len() implies run[i + 1] == fnv_step(
            run[i],
            #[trigger] words[i] as u64,
        ) by {
            if i < words.len() - 1 {
                assert(words[i] == front[i]);
            }
        }
        run
    }
}

/// The hash of a slice takes in every word, first to last, and leaves none out.
pub proof fn law_hash_takes_in_every_word(h: u64, words: &[usize], r: u64)
    requires
        call_ensures(hash_usize_slice, (h, words), r),
    ensures
        exists|run: Seq<u64>|
            {
                &&& #[trigger] run.len() == words@.len() + 1
                &&& run[0] == h && run.last() == r
                &&& forall|i: int|
                    0 <= i < words@.len() ==> run[i + 1] == ((run[i] ^ (
                    #[trigger] words@[i] as u64)) * 0x100000001b3) % 0x1_0000_0000_0000_0000
            },
        r == fnv_hash(h, words@),
{
    let run = lemma_hash_ends_a_run(h, words@);
    assert forall|i: int| 0 <= i < words@.len() implies run[i + 1] == ((run[i] ^ (
    #[trigger] words@[i] as u64)) * 0x100000001b3) % 0x1_0000_0000_0000_0000 by {
        assert(run[i + 1] == fnv_step(run[i], words@[i] as u64));
    }
    assert(run.len() == words@.len() + 1);
}

/// The signature of a pattern holds its shape, its last column pointer, and the hashes of all
/// its column pointers and of all its row indices.
pub proof fn law_signature_takes_in_the_pattern(s: SymbolicSparseColMat<usize>, sig: PatternSig)
    requires
        sig == signature(s) || call_ensures(pattern_sig, (&s,), sig),
    ensures
        sig.nrows == pattern_nrows(s),
        sig.ncols == pattern_ncols(s),
        sig.nnz == pattern_col_ptr(s).last(),
        sig.col_ptr_hash == fnv_hash(0xcbf29ce484222325, pattern_col_ptr(s)),
        sig.row_idx_hash == fnv_hash(0xcbf29ce484222325, pattern_row_idx(s)),
{
}

} // verus!
