//! Transversals: whether the columns of a pattern can be matched to distinct rows.
use vstd::prelude::*;

use faer::sparse::SymbolicSparseColMat;

use crate::pattern::{col_range, ncols, nrows, row_idx};

verus! {

use crate::pattern::{
    col_end,
    col_start,
    pattern_ncols,
    pattern_nrows,
    pattern_row_idx,
    same_pattern,
};

/// Entry `k` is one of column `j`.
pub open spec fn in_column(s: SymbolicSparseColMat<usize>, j: int, k: int) -> bool {
    col_start(s, j) <= k < col_end(s, j)
}

/// The entries in `picks`, one for each of the first columns, lie in those columns and in
/// distinct rows.
pub open spec fn are_independent(s: SymbolicSparseColMat<usize>, picks: Seq<int>) -> bool {
    &&& forall|j: int| 0 <= j < picks.len() ==> in_column(s, j, #[trigger] picks[j])
    &&& forall|j: int, l: int|
        0 <= j < l < picks.len() ==> pattern_row_idx(s)[#[trigger] picks[j]]
            != pattern_row_idx(s)[#[trigger] picks[l]]
}

/// There is an entry in each column such that no two of them share a row.
pub open spec fn has_transversal(s: SymbolicSparseColMat<usize>) -> bool {
    exists|picks: Seq<int>|
        picks.len() == pattern_ncols(s) && #[trigger] are_independent(s, picks)
}

/// A pattern that holds the same has a transversal too.
pub(crate) proof fn lemma_transversal_of_copy(
    a: SymbolicSparseColMat<usize>,
    b: SymbolicSparseColMat<usize>,
)
    requires
        same_pattern(a, b),
    ensures
        has_transversal(a) == has_transversal(b),
{
    assert forall|picks: Seq<int>| are_independent(a, picks) == #[trigger] are_independent(
        b,
        picks,
    ) by {
        assert forall|j: int, k: int| in_column(a, j, k) == in_column(b, j, k) by {
            assert(col_start(a, j) == col_start(b, j));
            assert(col_end(a, j) == col_end(b, j));
        }
    }
    if has_transversal(a) {
        let picks = choose|picks: Seq<int>|
            picks.len() == pattern_ncols(a) && #[trigger] are_independent(a, picks);
        assert(are_independent(b, picks));
    }
}

/// More than `n` distinct numbers do not fit below `n`.
proof fn lemma_pigeonhole(f: Seq<int>, n: nat)
    requires
        forall|i: int| 0 <= i < f.len() ==> 0 <= #[trigger] f[i] < n,
        forall|i: int, j: int| 0 <= i < j < f.len() ==> #[trigger] f[i] != #[trigger] f[j],
    ensures
        f.len() <= n,
    decreases n,
{
    if f.len() > n {
        let last = f.len() - 1;
        assert(0 <= f[last] < n);
        let v = f[last];
        let top = n - 1;
        let g = Seq::new(
            last as nat,
            |i: int|
                if f[i] == top {
                    v
                } else {
                    f[i]
                },
        );
        assert forall|i: int| 0 <= i < g.len() implies 0 <= #[trigger] g[i] < top by {
            assert(f[i] != f[last]);
        }
        assert forall|i: int, j: int| 0 <= i < j < g.len() implies #[trigger] g[i]
            != #[trigger] g[j] by {
            assert(f[i] != f[j]);
            assert(f[i] != f[last]);
            assert(f[j] != f[last]);
        }
        lemma_pigeonhole(g, top as nat);
    }
}

/// If the entries of some distinct columns all lie in one row fewer, there is no
/// transversal.
proof fn lemma_crowded(s: SymbolicSparseColMat<usize>, columns: Seq<usize>, rows: Seq<usize>)
    requires
        columns.len() == rows.len() + 1,
        forall|t: int| 0 <= t < columns.len() ==> #[trigger] columns[t] < pattern_ncols(s),
        forall|t: int, u: int|
            0 <= t < u < columns.len() ==> #[trigger] columns[t] != #[trigger] columns[u],
        forall|t: int, k: int|
            0 <= t < columns.len() && #[trigger] in_column(s, columns[t] as int, k)
                ==> rows.contains(pattern_row_idx(s)[k]),
    ensures
        !has_transversal(s),
{
    if has_transversal(s) {
        let picks = choose|picks: Seq<int>|
            picks.len() == pattern_ncols(s) && #[trigger] are_independent(s, picks);
        let f = Seq::new(
            columns.len(),
            |t: int| rows.index_of(pattern_row_idx(s)[picks[columns[t] as int]]),
        );
        assert forall|t: int| 0 <= t < f.len() implies 0 <= #[trigger] f[t] < rows.len() && rows[f[t]]
            == pattern_row_idx(s)[picks[columns[t] as int]] by {
            let k = picks[columns[t] as int];
            assert(in_column(s, columns[t] as int, k));
            assert(rows.contains(pattern_row_idx(s)[k]));
        }
        assert forall|t: int, u: int| 0 <= t < u < f.len() implies #[trigger] f[t]
            != #[trigger] f[u] by {
            assert(columns[t] != columns[u]);
            let a = columns[t] as int;
            let b = columns[u] as int;
            if a < b {
                assert(pattern_row_idx(s)[picks[a]] != pattern_row_idx(s)[picks[b]]);
            } else {
                assert(pattern_row_idx(s)[picks[b]] != pattern_row_idx(s)[picks[a]]);
            }
        }
        lemma_pigeonhole(f, rows.len());
    }
}

/// A matching of the first columns to rows: an entry for each column, and for each row the
/// column that it is matched to.
struct Matching {
    picks: Vec<usize>,
    owners: Vec<Option<usize>>,
}

impl Matching {
    /// The picks are independent.
    spec fn independent(self, s: SymbolicSparseColMat<usize>) -> bool {
        &&& self.owners@.len() == pattern_nrows(s)
        &&& self.picks@.len() <= pattern_ncols(s)
        &&& forall|j: int|
            0 <= j < self.picks@.len() ==> {
                &&& in_column(s, j, #[trigger] self.picks@[j] as int)
                &&& self.row(s, j) < pattern_nrows(s)
            }
        &&& forall|j: int, l: int|
            0 <= j < l < self.picks@.len() ==> #[trigger] self.row(s, j) != #[trigger] self.row(s, l)
    }

    /// The row that column `j` is matched to.
    spec fn row(self, s: SymbolicSparseColMat<usize>, j: int) -> int {
        pattern_row_idx(s)[self.picks@[j] as int] as int
    }

    /// The rows other than `hole` know the columns that they are matched to.
    spec fn knows_owners(self, s: SymbolicSparseColMat<usize>, hole: int) -> bool {
        &&& forall|j: int|
            0 <= j < self.picks@.len() && #[trigger] self.row(s, j) != hole
                ==> self.owners@[self.row(s, j)] == Some(j as usize)
        &&& forall|i: int|
            0 <= i < self.owners@.len() && i != hole ==> match #[trigger] self.owners@[i] {
                Some(j) => j < self.picks@.len() && self.row(s, j as int) == i,
                None => true,
            }
    }

    /// The matching is one of the first `n` columns.
    spec fn covers(self, s: SymbolicSparseColMat<usize>, n: nat) -> bool {
        &&& self.picks@.len() == n
        &&& self.independent(s)
        &&& self.knows_owners(s, -1)
    }
}

/// The search for a row that is free for one more column: the columns in the order in
/// which they were reached, each but the first through the row that it is matched to; and
/// for each of those rows the entry through which it was reached, and the position of the
/// column with that entry.
struct Search {
    columns: Vec<usize>,
    rows: Vec<usize>,
    entries: Vec<usize>,
    parents: Vec<usize>,
}

impl Search {
    /// The search is one from column `c`, within the matching.
    spec fn fits(self, s: SymbolicSparseColMat<usize>, m: Matching, c: int) -> bool {
        &&& self.columns@.len() == self.rows@.len() + 1
        &&& self.entries@.len() == self.rows@.len()
        &&& self.parents@.len() == self.rows@.len()
        &&& self.columns@[0] == c
        &&& forall|t: int| 0 <= t < self.rows@.len() ==> #[trigger] self.step(s, m, t)
        &&& forall|t: int, u: int|
            0 <= t < u < self.rows@.len() ==> #[trigger] self.rows@[t] != #[trigger] self.rows@[u]
    }

    /// Row `t` was reached from a column before it, and is matched to the column after it.
    spec fn step(self, s: SymbolicSparseColMat<usize>, m: Matching, t: int) -> bool {
        &&& self.rows@[t] < pattern_nrows(s)
        &&& self.columns@[t + 1] < m.picks@.len()
        &&& m.row(s, self.columns@[t + 1] as int) == self.rows@[t]
        &&& self.parents@[t] <= t
        &&& in_column(s, self.columns@[self.parents@[t] as int] as int, self.entries@[t] as int)
        &&& pattern_row_idx(s)[self.entries@[t] as int] == self.rows@[t]
    }
}

/// Matches one more column: row `row`, which is free, to the column at `position`, which
/// has `entry` there; the row that this sets free to the column that it was reached from;
/// and so on, until the new column has a row.
fn augment(
    s: &SymbolicSparseColMat<usize>,
    m: &mut Matching,
    search: &Search,
    position: usize,
    entry: usize,
    row: usize,
)
    requires
        old(m).covers(*s, old(m).picks@.len()),
        old(m).picks@.len() < pattern_ncols(*s),
        search.fits(*s, *old(m), old(m).picks@.len() as int),
        position < search.columns@.len(),
        in_column(*s, search.columns@[position as int] as int, entry as int),
        pattern_row_idx(*s)[entry as int] == row,
        row < pattern_nrows(*s),
        old(m).owners@[row as int] is None,
    ensures
        final(m).covers(*s, old(m).picks@.len() + 1),
{
    let ghost start = *m;
    let ghost c = m.picks@.len() as int;
    let mut position: usize = position;
    let mut entry: usize = entry;
    let mut hole: usize = row;
    assert(forall|j: int| 0 <= j < c ==> #[trigger] m.row(*s, j) != hole);
    assert forall|t: int| 0 <= t < position implies m.row(*s, search.columns@[t + 1] as int)
        == #[trigger] search.rows@[t] by {
        assert(search.step(*s, start, t));
    }
    while position > 0
        invariant
            c == m.picks@.len(),
            c == start.picks@.len(),
            c < pattern_ncols(*s),
            m.independent(*s),
            m.knows_owners(*s, hole as int),
            search.fits(*s, start, c),
            position < search.columns@.len(),
            in_column(*s, search.columns@[position as int] as int, entry as int),
            pattern_row_idx(*s)[entry as int] == hole,
            hole < pattern_nrows(*s),
            forall|j: int| 0 <= j < c ==> #[trigger] m.row(*s, j) != hole,
            forall|t: int|
                0 <= t < position ==> m.row(*s, search.columns@[t + 1] as int)
                    == #[trigger] search.rows@[t],
        decreases position,
    {
        let ghost before = *m;
        let col: usize = search.columns[position];
        let freed: usize = search.rows[position - 1];
        assert(search.step(*s, start, position - 1));
        assert(m.row(*s, search.columns@[(position - 1) + 1] as int) == freed);
        m.picks.set(col, entry);
        m.owners.set(hole, Some(col));
        assert(m.row(*s, col as int) == hole);
        assert(forall|j: int|
            0 <= j < c && j != col ==> #[trigger] m.row(*s, j) == before.row(*s, j));
        assert forall|t: int| 0 <= t < position - 1 implies m.row(
            *s,
            search.columns@[t + 1] as int,
        ) == #[trigger] search.rows@[t] by {
            assert(search.step(*s, start, t));
            assert(search.rows@[t] != search.rows@[position - 1]);
        }
        entry = search.entries[position - 1];
        hole = freed;
        position = search.parents[position - 1];
    }
    let ghost before = *m;
    m.picks.push(entry);
    m.owners.set(hole, Some(m.picks.len() - 1));
    assert(forall|j: int| 0 <= j < c ==> #[trigger] m.row(*s, j) == before.row(*s, j));
    assert(m.row(*s, c) == hole);
}

/// Matches one more column, if that is possible. `stamps` says for each row which column's
/// search reached it last, counted from one.
fn extend(s: &SymbolicSparseColMat<usize>, m: &mut Matching, stamps: &mut Vec<usize>) -> (found:
    bool)
    requires
        old(m).covers(*s, old(m).picks@.len()),
        old(m).picks@.len() < pattern_ncols(*s),
        old(stamps)@.len() == pattern_nrows(*s),
        forall|i: int|
            0 <= i < old(stamps)@.len() ==> #[trigger] old(stamps)@[i] <= old(m).picks@.len(),
    ensures
        found ==> final(m).covers(*s, old(m).picks@.len() + 1),
        found ==> final(stamps)@.len() == old(stamps)@.len(),
        found ==> forall|i: int|
            0 <= i < final(stamps)@.len() ==> #[trigger] final(stamps)@[i] <= old(m).picks@.len() + 1,
        !found ==> !has_transversal(*s),
{
    let rows: &[usize] = row_idx(s);
    let c: usize = m.picks.len();
    let stamp: usize = c + 1;
    let mut search: Search = Search {
        columns: vec![c],
        rows: Vec::new(),
        entries: Vec::new(),
        parents: Vec::new(),
    };
    let mut next: usize = 0;
    while next < search.columns.len()
        invariant
            *m == *old(m),
            c == m.picks@.len(),
            c < pattern_ncols(*s),
            stamp == c + 1,
            rows@ == pattern_row_idx(*s),
            m.covers(*s, c as nat),
            search.fits(*s, *m, c as int),
            next <= search.columns@.len(),
            stamps@.len() == pattern_nrows(*s),
            stamps@.len() == old(stamps)@.len(),
            forall|i: int| 0 <= i < stamps@.len() ==> #[trigger] stamps@[i] <= stamp,
            forall|i: int|
                0 <= i < stamps@.len() && #[trigger] stamps@[i] == stamp
                    ==> search.rows@.contains(i as usize),
            forall|t: int|
                0 <= t < search.rows@.len() ==> stamps@[#[trigger] search.rows@[t] as int]
                    == stamp,
            forall|t: int, k: int|
                0 <= t < next && #[trigger] in_column(*s, search.columns@[t] as int, k)
                    ==> search.rows@.contains(rows@[k]),
        decreases pattern_nrows(*s) + 1 - next,
    {
        proof {
            lemma_few_rows(*s, *m, search, c as int);
        }
        let col: usize = search.columns[next];
        assert(next > 0 ==> search.step(*s, *m, next - 1));
        let range: (usize, usize) = col_range(s, col);
        let mut k: usize = range.0;
        while k < range.1
            invariant
                *m == *old(m),
                c == m.picks@.len(),
                c < pattern_ncols(*s),
                stamp == c + 1,
                rows@ == pattern_row_idx(*s),
                m.covers(*s, c as nat),
                search.fits(*s, *m, c as int),
                next < search.columns@.len(),
                col == search.columns@[next as int],
                stamps@.len() == pattern_nrows(*s),
                stamps@.len() == old(stamps)@.len(),
                forall|i: int| 0 <= i < stamps@.len() ==> #[trigger] stamps@[i] <= stamp,
                forall|i: int|
                    0 <= i < stamps@.len() && #[trigger] stamps@[i] == stamp
                        ==> search.rows@.contains(i as usize),
                forall|t: int|
                    0 <= t < search.rows@.len() ==> stamps@[#[trigger] search.rows@[t] as int]
                        == stamp,
                forall|t: int, k: int|
                    0 <= t < next && #[trigger] in_column(*s, search.columns@[t] as int, k)
                        ==> search.rows@.contains(rows@[k]),
                range.0 == col_start(*s, col as int),
                range.1 == col_end(*s, col as int),
                range.0 <= k <= range.1 <= rows@.len(),
                forall|e: int|
                    range.0 <= e < range.1 ==> #[trigger] pattern_row_idx(*s)[e] < pattern_nrows(
                        *s,
                    ),
                forall|e: int| range.0 <= e < k ==> search.rows@.contains(#[trigger] rows@[e]),
            decreases range.1 - k,
        {
            let row: usize = rows[k];
            assert(pattern_row_idx(*s)[k as int] == row);
            assert(in_column(*s, col as int, k as int));
            if stamps[row] != stamp {
                match m.owners[row] {
                    None => {
                        augment(s, m, &search, next, k, row);
                        return true;
                    },
                    Some(owner) => {
                        let ghost before = search;
                        search.columns.push(owner);
                        search.rows.push(row);
                        search.entries.push(k);
                        search.parents.push(next);
                        stamps.set(row, stamp);
                        proof {
                            assert forall|t: int|
                                0 <= t < search.rows@.len() implies #[trigger] search.step(
                                *s,
                                *m,
                                t,
                            ) by {
                                if t < before.rows@.len() {
                                    assert(before.step(*s, *m, t));
                                }
                            }
                            assert forall|i: usize| before.rows@.contains(
                                i,
                            ) implies #[trigger] search.rows@.contains(i) by {
                                let t = before.rows@.index_of(i);
                                assert(search.rows@[t] == i);
                            }
                            assert(search.rows@[search.rows@.len() - 1] == row);
                            assert forall|t: int|
                                0 <= t < search.rows@.len() implies stamps@[
                                #[trigger] search.rows@[t] as int
                            ] == stamp by {
                                assert(search.step(*s, *m, t));
                            }
                        }
                    },
                }
            }
            k = k + 1;
        }
        next = next + 1;
        assert forall|t: int, e: int|
            0 <= t < next && #[trigger] in_column(
                *s,
                search.columns@[t] as int,
                e,
            ) implies search.rows@.contains(rows@[e]) by {
            if t == next - 1 {
                assert(range.0 <= e < range.1);
            }
        }
    }
    proof {
        assert forall|t: int, u: int| 0 <= t < u < search.columns@.len() implies #[trigger] search.columns@[t]
            != #[trigger] search.columns@[u] by {
            assert(search.step(*s, *m, u - 1));
            if t > 0 {
                assert(search.step(*s, *m, t - 1));
                assert(search.rows@[t - 1] != search.rows@[u - 1]);
            }
        }
        assert forall|t: int| 0 <= t < search.columns@.len() implies #[trigger] search.columns@[t]
            < pattern_ncols(*s) by {
            if t > 0 {
                assert(search.step(*s, *m, t - 1));
            }
        }
        lemma_crowded(*s, search.columns@, search.rows@);
    }
    false
}

/// A search reaches no more rows than there are.
proof fn lemma_few_rows(s: SymbolicSparseColMat<usize>, m: Matching, search: Search, c: int)
    requires
        search.fits(s, m, c),
    ensures
        search.rows@.len() <= pattern_nrows(s),
{
    let f = Seq::new(search.rows@.len(), |t: int| search.rows@[t] as int);
    assert forall|t: int| 0 <= t < f.len() implies 0 <= #[trigger] f[t] < pattern_nrows(s) by {
        assert(search.step(s, m, t));
    }
    lemma_pigeonhole(f, pattern_nrows(s) as nat);
}

/// Whether there is an entry in each column such that no two of them share a row.
pub fn find_transversal(s: &SymbolicSparseColMat<usize>) -> (found: bool)
    ensures
        found == has_transversal(*s),
{
    let n: usize = ncols(s);
    let height: usize = nrows(s);
    let mut m: Matching = Matching { picks: Vec::new(), owners: Vec::new() };
    let mut stamps: Vec<usize> = Vec::new();
    let mut i: usize = 0;
    while i < height
        invariant
            i <= height,
            m.picks@.len() == 0,
            m.owners@.len() == i,
            stamps@.len() == i,
            forall|r: int| 0 <= r < i ==> #[trigger] m.owners@[r] is None,
            forall|r: int| 0 <= r < i ==> #[trigger] stamps@[r] == 0,
        decreases height - i,
    {
        m.owners.push(None);
        stamps.push(0);
        i = i + 1;
    }
    let mut c: usize = 0;
    while c < n
        invariant
            c <= n,
            n == pattern_ncols(*s),
            m.covers(*s, c as nat),
            stamps@.len() == pattern_nrows(*s),
            forall|r: int| 0 <= r < stamps@.len() ==> #[trigger] stamps@[r] <= c,
        decreases n - c,
    {
        if !extend(s, &mut m, &mut stamps) {
            return false;
        }
        c = c + 1;
    }
    proof {
        let picks = Seq::new(n as nat, |j: int| m.picks@[j] as int);
        assert forall|j: int, l: int| 0 <= j < l < picks.len() implies pattern_row_idx(
            *s,
        )[#[trigger] picks[j]] != pattern_row_idx(*s)[#[trigger] picks[l]] by {
            assert(m.row(*s, j) != m.row(*s, l));
        }
        assert(are_independent(*s, picks));
    }
    true
}

} // verus!
