//! The edge matrix: pairwise travel durations between all jobs.
//!
//! Before the search starts, the travel duration between every unordered
//! pair of jobs (warehouse included) is resolved once and cached, so that
//! scoring a candidate route never performs I/O.  Travel time is taken to be
//! symmetric, so one value is kept per unordered pair.  A pair whose lookup
//! failed is recorded with a zero duration — a deliberate policy, kept even
//! though it can make an unreachable leg look free to the scorer.

use vstd::prelude::*;
use vstd::pervasive::VecAdditionalExecFns;

use crate::jobs::MAX_LEG_SECONDS;

verus! {

/// One resolved entry of the complete graph: an unordered pair of job
/// indices (smaller index first) and the travel duration between the two
/// stops in seconds, or `None` when the travel-time lookup failed.
pub struct SearchNode {
    pub edge: (usize, usize),
    pub value: Option<u64>,
}

/// The duration recorded for an entry: the resolved value, or zero when the
/// lookup failed.
pub open spec fn resolved_edge_seconds(value: Option<u64>) -> u64 {
    match value {
        Some(v) => v,
        None => 0u64,
    }
}

/// The unordered pairs `{i, j}` of one row: `(i, j)` for `j` from `from` up
/// to `n`.
pub open spec fn pairs_row(i: nat, from: nat, n: nat) -> Seq<(usize, usize)>
    decreases n - from,
{
    if from >= n {
        Seq::empty()
    } else {
        seq![(i as usize, from as usize)] + pairs_row(i, from + 1, n)
    }
}

/// The unordered pairs `{i, j}` with `start <= i < j < n`, in lexicographic
/// order.
pub open spec fn pairs_from(start: nat, n: nat) -> Seq<(usize, usize)>
    decreases n - start,
{
    if start >= n {
        Seq::empty()
    } else {
        pairs_row(start, start + 1, n) + pairs_from(start + 1, n)
    }
}

/// Every unordered pair of distinct indices below `n`, in lexicographic
/// order: the complete graph over the jobs, with no self-loops.
pub open spec fn all_pairs(n: nat) -> Seq<(usize, usize)> {
    pairs_from(0, n)
}

/// Enumerates the unordered pairs of distinct job indices below `n`: one
/// travel-time query is owed for each.
pub fn edge_pairs(n: usize) -> (pairs: Vec<(usize, usize)>)
    requires
        n <= 0xFFFF,
    ensures
        pairs@ == all_pairs(n as nat),
        2 * pairs@.len() == n * (n - 1),
{
    proof {
        lemma_all_pairs_count(n as nat);
    }
    let mut pairs: Vec<(usize, usize)> = Vec::new();
    let mut i: usize = 0;
    while i < n
        invariant
            n <= 0xFFFF,
            0 <= i <= n,
            pairs@ + pairs_from(i as nat, n as nat) == all_pairs(n as nat),
        decreases n - i,
    {
        let ghost row_start = pairs@;
        let mut j: usize = i + 1;
        while j < n
            invariant
                n <= 0xFFFF,
                0 <= i < n,
                i + 1 <= j <= n,
                row_start + pairs_from(i as nat, n as nat) == all_pairs(n as nat),
                pairs@ + pairs_row(i as nat, j as nat, n as nat) == row_start + pairs_row(
                    i as nat,
                    (i + 1) as nat,
                    n as nat,
                ),
            decreases n - j,
        {
            pairs.push((i, j));
            proof {
                assert(pairs@ + pairs_row(i as nat, (j + 1) as nat, n as nat) =~= (pairs@
                    .drop_last() + pairs_row(i as nat, j as nat, n as nat)));
            }
            j += 1;
        }
        proof {
            assert(pairs@ + pairs_from((i + 1) as nat, n as nat) =~= row_start + (pairs_row(
                i as nat,
                (i + 1) as nat,
                n as nat,
            ) + pairs_from((i + 1) as nat, n as nat)));
        }
        i += 1;
    }
    pairs
}

/// The number of unordered pairs is `n * (n - 1) / 2`: exactly that many
/// travel-time queries are made per run.
pub proof fn lemma_all_pairs_count(n: nat)
    ensures
        2 * all_pairs(n).len() == n * (n - 1),
{
    lemma_pairs_from_len(0, n);
}

proof fn lemma_pairs_row_len(i: nat, from: nat, n: nat)
    requires
        from <= n,
    ensures
        pairs_row(i, from, n).len() == n - from,
    decreases n - from,
{
    if from < n {
        lemma_pairs_row_len(i, from + 1, n);
    }
}

proof fn lemma_pairs_from_len(start: nat, n: nat)
    requires
        start <= n,
    ensures
        2 * pairs_from(start, n).len() == (n - start) * ((n - start) - 1),
    decreases n - start,
{
    if start >= n {
        assert(pairs_from(start, n) =~= Seq::<(usize, usize)>::empty());
        assert((n - start) * ((n - start) - 1) == 0);
    } else {
        lemma_pairs_row_len(start, start + 1, n);
        lemma_pairs_from_len(start + 1, n);
        let m = (n - start) as nat;
        assert(pairs_from(start, n).len() == pairs_row(start, start + 1, n).len() + pairs_from(
            start + 1,
            n,
        ).len());
        assert(pairs_row(start, start + 1, n).len() == m - 1);
        assert(n - (start + 1) == m - 1);
        assert(2 * pairs_from(start + 1, n).len() == (m - 1) * ((m - 1) - 1));
        assert(2 * pairs_from(start, n).len() == 2 * (m - 1) + (m - 1) * ((m - 1) - 1));
        assert(2 * (m - 1) + (m - 1) * ((m - 1) - 1) == m * (m - 1)) by (nonlinear_arith)
            requires
                m >= 1,
        ;
        assert((n - start) * ((n - start) - 1) == m * (m - 1));
    }
}

/// Each enumerated pair is ordered and in range: smaller index first, both
/// below `n`.
pub proof fn lemma_all_pairs_bounds(n: nat)
    requires
        n <= usize::MAX,
    ensures
        forall|k: int|
            0 <= k < all_pairs(n).len() ==> (#[trigger] all_pairs(n)[k]).0 < all_pairs(n)[k].1
                < n,
{
    lemma_pairs_from_bounds(0, n);
}

proof fn lemma_pairs_row_bounds(i: nat, from: nat, n: nat)
    requires
        n <= usize::MAX,
        i < from <= n,
    ensures
        forall|k: int|
            0 <= k < pairs_row(i, from, n).len() ==> (#[trigger] pairs_row(i, from, n)[k]) == (
            i as usize,
            (from + k) as usize,
            ),
    decreases n - from,
{
    if from < n {
        lemma_pairs_row_bounds(i, from + 1, n);
        assert(forall|k: int|
            1 <= k < pairs_row(i, from, n).len() ==> (#[trigger] pairs_row(i, from, n)[k])
                == pairs_row(i, from + 1, n)[k - 1]);
    }
}

proof fn lemma_pairs_from_bounds(start: nat, n: nat)
    requires
        n <= usize::MAX,
    ensures
        forall|k: int|
            0 <= k < pairs_from(start, n).len() ==> start <= (#[trigger] pairs_from(start, n)[k]).0
                < pairs_from(start, n)[k].1 < n,
    decreases n - start,
{
    if start >= n {
    } else {
        lemma_pairs_row_bounds(start, start + 1, n);
        lemma_pairs_from_bounds(start + 1, n);
        lemma_pairs_row_len(start, start + 1, n);
        let row = pairs_row(start, start + 1, n);
        let rest = pairs_from(start + 1, n);
        assert forall|k: int| 0 <= k < pairs_from(start, n).len() implies start <= (
        #[trigger] pairs_from(start, n)[k]).0 < pairs_from(start, n)[k].1 < n by {
            if k < row.len() {
                assert(pairs_from(start, n)[k] == row[k]);
            } else {
                assert(pairs_from(start, n)[k] == rest[k - row.len()]);
            }
        }
    }
}

/// The enumeration mentions every unordered pair below `n`.
pub proof fn lemma_all_pairs_complete(a: nat, b: nat, n: nat)
    requires
        n <= usize::MAX,
        a < b < n,
    ensures
        all_pairs(n).contains((a as usize, b as usize)),
{
    lemma_pairs_from_complete(0, a, b, n);
}

proof fn lemma_pairs_from_complete(start: nat, a: nat, b: nat, n: nat)
    requires
        n <= usize::MAX,
        start <= a,
        a < b < n,
    ensures
        pairs_from(start, n).contains((a as usize, b as usize)),
    decreases n - start,
{
    let row = pairs_row(start, start + 1, n);
    let rest = pairs_from(start + 1, n);
    if start == a {
        lemma_pairs_row_bounds(start, start + 1, n);
        lemma_pairs_row_len(start, start + 1, n);
        let k = b - start - 1;
        assert(row[k as int] == (a as usize, b as usize));
        assert(pairs_from(start, n)[k as int] == row[k as int]);
    } else {
        lemma_pairs_from_complete(start + 1, a, b, n);
        let k = choose|k: int| 0 <= k < rest.len() && rest[k] == (a as usize, b as usize);
        lemma_pairs_row_len(start, start + 1, n);
        assert(pairs_from(start, n)[row.len() + k] == (a as usize, b as usize));
    }
}

/// The enumeration never repeats a pair.
pub proof fn lemma_all_pairs_distinct(n: nat)
    requires
        n <= usize::MAX,
    ensures
        all_pairs(n).no_duplicates(),
{
    lemma_pairs_from_distinct(0, n);
}

proof fn lemma_pairs_from_distinct(start: nat, n: nat)
    requires
        n <= usize::MAX,
    ensures
        pairs_from(start, n).no_duplicates(),
    decreases n - start,
{
    if start >= n {
    } else {
        let row = pairs_row(start, start + 1, n);
        let rest = pairs_from(start + 1, n);
        lemma_pairs_row_bounds(start, start + 1, n);
        lemma_pairs_row_len(start, start + 1, n);
        lemma_pairs_from_bounds(start + 1, n);
        lemma_pairs_from_distinct(start + 1, n);
        assert forall|k1: int, k2: int|
            0 <= k1 < pairs_from(start, n).len() && 0 <= k2 < pairs_from(start, n).len() && k1
                != k2 implies pairs_from(start, n)[k1] != pairs_from(start, n)[k2] by {
            if k1 < row.len() && k2 < row.len() {
                assert(pairs_from(start, n)[k1] == row[k1]);
                assert(pairs_from(start, n)[k2] == row[k2]);
            } else if k1 < row.len() && k2 >= row.len() {
                assert(pairs_from(start, n)[k1] == row[k1]);
                assert(pairs_from(start, n)[k2] == rest[k2 - row.len()]);
                assert(row[k1].0 == start);
                assert(rest[k2 - row.len()].0 >= start + 1);
            } else if k1 >= row.len() && k2 < row.len() {
                assert(pairs_from(start, n)[k1] == rest[k1 - row.len()]);
                assert(pairs_from(start, n)[k2] == row[k2]);
                assert(row[k2].0 == start);
                assert(rest[k1 - row.len()].0 >= start + 1);
            } else {
                assert(pairs_from(start, n)[k1] == rest[k1 - row.len()]);
                assert(pairs_from(start, n)[k2] == rest[k2 - row.len()]);
            }
        }
    }
}

/// The cached complete graph: a symmetric `n` by `n` table of travel
/// durations in seconds, zero on the diagonal, built once per run and then
/// read by every scoring pass.
pub struct EdgeMatrix {
    n: usize,
    values: Vec<u64>,
}

impl EdgeMatrix {
    /// Number of jobs the matrix covers.
    pub closed spec fn size(self) -> nat {
        self.n as nat
    }

    /// The duration recorded between jobs `i` and `j`.
    pub closed spec fn edge_value(self, i: int, j: int) -> u64 {
        self.values@[i * (self.n as int) + j]
    }

    /// Structural invariant: a full square table, entries bounded, symmetric,
    /// and zero on the diagonal.
    pub closed spec fn wf(self) -> bool {
        &&& self.n <= 0xFFFF
        &&& self.values@.len() == self.n * self.n
        &&& forall|i: int, j: int|
            0 <= i < self.n && 0 <= j < self.n ==> (#[trigger] self.edge_value(i, j))
                <= MAX_LEG_SECONDS
        &&& forall|i: int, j: int|
            0 <= i < self.n && 0 <= j < self.n ==> (#[trigger] self.edge_value(i, j))
                == self.edge_value(j, i)
        &&& forall|i: int| 0 <= i < self.n ==> (#[trigger] self.edge_value(i, i)) == 0
    }

    /// Number of jobs the matrix covers.
    pub fn len(&self) -> (r: usize)
        ensures
            r == self.size(),
    {
        self.n
    }

    /// Looks up the travel duration between two jobs.  Symmetric, constant
    /// time.
    pub fn duration(&self, i: usize, j: usize) -> (d: u64)
        requires
            self.wf(),
            i < self.size(),
            j < self.size(),
        ensures
            d == self.edge_value(i as int, j as int),
            d == self.edge_value(j as int, i as int),
            d <= MAX_LEG_SECONDS,
    {
        proof {
            lemma_cell_index_bounds(i as int, j as int, self.n as int);
            assert(self.n * self.n <= 0xFFFF * 0xFFFF) by (nonlinear_arith)
                requires
                    self.n <= 0xFFFF,
            ;
        }
        self.values[i * self.n + j]
    }

    /// Builds the matrix from the query results for every unordered pair, in
    /// the order `edge_pairs` enumerates them.  A failed query (`None`)
    /// records a zero duration.
    pub fn build(n: usize, nodes: &Vec<SearchNode>) -> (m: EdgeMatrix)
        requires
            n <= 0xFFFF,
            nodes@.len() == all_pairs(n as nat).len(),
            forall|k: int|
                0 <= k < nodes@.len() ==> (#[trigger] nodes@[k]).edge == all_pairs(n as nat)[k],
            forall|k: int|
                0 <= k < nodes@.len() ==> ((#[trigger] nodes@[k]).value matches Some(v) ==> v
                    <= MAX_LEG_SECONDS),
        ensures
            m.wf(),
            m.size() == n,
            forall|k: int|
                0 <= k < nodes@.len() ==> (#[trigger] m.edge_value(
                    nodes@[k].edge.0 as int,
                    nodes@[k].edge.1 as int,
                )) == resolved_edge_seconds(nodes@[k].value),
    {
        proof {
            lemma_all_pairs_bounds(n as nat);
            lemma_all_pairs_distinct(n as nat);
            assert(n * n <= 0xFFFF * 0xFFFF) by (nonlinear_arith)
                requires
                    n <= 0xFFFF,
            ;
        }
        let total = n * n;
        let mut values: Vec<u64> = Vec::new();
        while values.len() < total
            invariant
                total == n * n,
                values@.len() <= total,
                forall|t: int| 0 <= t < values@.len() ==> (#[trigger] values@[t]) == 0,
            decreases total - values@.len(),
        {
            values.push(0);
        }
        let mut m = EdgeMatrix { n, values };
        proof {
            assert forall|i: int, j: int| 0 <= i < n && 0 <= j < n implies (#[trigger] m.edge_value(
                i,
                j,
            )) == 0 by {
                lemma_cell_index_bounds(i, j, n as int);
            }
        }
        let mut k: usize = 0;
        while k < nodes.len()
            invariant
                m.n == n,
                n <= 0xFFFF,
                m.values@.len() == n * n,
                nodes@.len() == all_pairs(n as nat).len(),
                0 <= k <= nodes@.len(),
                forall|t: int|
                    0 <= t < nodes@.len() ==> (#[trigger] nodes@[t]).edge == all_pairs(n as nat)[t],
                forall|t: int|
                    0 <= t < nodes@.len() ==> ((#[trigger] nodes@[t]).value matches Some(v) ==> v
                        <= MAX_LEG_SECONDS),
                all_pairs(n as nat).no_duplicates(),
                forall|t: int|
                    0 <= t < all_pairs(n as nat).len() ==> (#[trigger] all_pairs(n as nat)[t]).0
                        < all_pairs(n as nat)[t].1 < n,
                forall|i: int, j: int|
                    0 <= i < n && 0 <= j < n ==> (#[trigger] m.edge_value(i, j))
                        <= MAX_LEG_SECONDS,
                forall|i: int, j: int|
                    0 <= i < n && 0 <= j < n ==> (#[trigger] m.edge_value(i, j)) == m.edge_value(
                        j,
                        i,
                    ),
                forall|i: int| 0 <= i < n ==> (#[trigger] m.edge_value(i, i)) == 0,
                forall|t: int|
                    0 <= t < k ==> (#[trigger] m.edge_value(
                        nodes@[t].edge.0 as int,
                        nodes@[t].edge.1 as int,
                    )) == resolved_edge_seconds(nodes@[t].value),
            decreases nodes@.len() - k,
        {
            let ghost old_m = m;
            let a = nodes[k].edge.0;
            let b = nodes[k].edge.1;
            let v = match nodes[k].value {
                Some(v) => v,
                None => 0,
            };
            proof {
                assert(all_pairs(n as nat)[k as int] == (a, b));
                assert(a < b < n);
                lemma_cell_index_bounds(a as int, b as int, n as int);
                lemma_cell_index_bounds(b as int, a as int, n as int);
                assert(n * n <= 0xFFFF * 0xFFFF) by (nonlinear_arith)
                    requires
                        n <= 0xFFFF,
                ;
            }
            m.values.set(a * n + b, v);
            m.values.set(b * n + a, v);
            proof {
                lemma_matrix_update(old_m, m, a as int, b as int, v);
                assert forall|t: int| 0 <= t < k + 1 implies (#[trigger] m.edge_value(
                    nodes@[t].edge.0 as int,
                    nodes@[t].edge.1 as int,
                )) == resolved_edge_seconds(nodes@[t].value) by {
                    if t < k {
                        let p = nodes@[t].edge;
                        assert(all_pairs(n as nat)[t] == p);
                        assert(all_pairs(n as nat)[k as int] == (a, b));
                        assert((p.0 as int, p.1 as int) != (a as int, b as int));
                        assert((p.0 as int, p.1 as int) != (b as int, a as int)) by {
                            assert(p.0 < p.1);
                        }
                        assert(m.edge_value(p.0 as int, p.1 as int) == old_m.edge_value(
                            p.0 as int,
                            p.1 as int,
                        ));
                    } else {
                        assert(m.edge_value(a as int, b as int) == v);
                    }
                }
            }
            k += 1;
        }
        m
    }
}

/// The table never covers more jobs than its invariant allows.
pub proof fn lemma_wf_size_bound(m: EdgeMatrix)
    requires
        m.wf(),
    ensures
        m.size() <= 0xFFFF,
{
}

/// Position arithmetic for the flat table: each in-range cell has a distinct
/// index below `n * n`.
proof fn lemma_cell_index_bounds(i: int, j: int, n: int)
    requires
        0 <= i < n,
        0 <= j < n,
    ensures
        0 <= i * n + j < n * n,
    decreases 0int,
{
    assert(0 <= i * n + j < n * n) by (nonlinear_arith)
        requires
            0 <= i < n,
            0 <= j < n,
    ;
}

/// Distinct in-range cells map to distinct flat indices.
proof fn lemma_cell_index_injective(i: int, j: int, p: int, q: int, n: int)
    requires
        0 <= i < n,
        0 <= j < n,
        0 <= p < n,
        0 <= q < n,
        i * n + j == p * n + q,
    ensures
        i == p && j == q,
{
    assert(i == p && j == q) by (nonlinear_arith)
        requires
            0 <= i < n,
            0 <= j < n,
            0 <= p < n,
            0 <= q < n,
            i * n + j == p * n + q,
    ;
}

/// Writing the two mirrored cells of one off-diagonal pair updates exactly
/// that unordered pair and preserves the table's invariants.
proof fn lemma_matrix_update(before: EdgeMatrix, after: EdgeMatrix, a: int, b: int, v: u64)
    requires
        before.wf_cells_frame(after, a, b, v),
        0 <= a < before.size(),
        0 <= b < before.size(),
        a != b,
        v <= MAX_LEG_SECONDS,
        forall|i: int, j: int|
            0 <= i < before.size() && 0 <= j < before.size() ==> (#[trigger] before.edge_value(
                i,
                j,
            )) <= MAX_LEG_SECONDS,
        forall|i: int, j: int|
            0 <= i < before.size() && 0 <= j < before.size() ==> (#[trigger] before.edge_value(
                i,
                j,
            )) == before.edge_value(j, i),
        forall|i: int| 0 <= i < before.size() ==> (#[trigger] before.edge_value(i, i)) == 0,
    ensures
        after.edge_value(a, b) == v,
        after.edge_value(b, a) == v,
        forall|i: int, j: int|
            0 <= i < after.size() && 0 <= j < after.size() && !(i == a && j == b) && !(i == b && j
                == a) ==> (#[trigger] after.edge_value(i, j)) == before.edge_value(i, j),
        forall|i: int, j: int|
            0 <= i < after.size() && 0 <= j < after.size() ==> (#[trigger] after.edge_value(i, j))
                <= MAX_LEG_SECONDS,
        forall|i: int, j: int|
            0 <= i < after.size() && 0 <= j < after.size() ==> (#[trigger] after.edge_value(i, j))
                == after.edge_value(j, i),
        forall|i: int| 0 <= i < after.size() ==> (#[trigger] after.edge_value(i, i)) == 0,
{
    let n = before.size() as int;
    lemma_cell_index_bounds(a, b, n);
    lemma_cell_index_bounds(b, a, n);
    assert forall|i: int, j: int|
        0 <= i < n && 0 <= j < n && !(i == a && j == b) && !(i == b && j == a) implies (
    #[trigger] after.edge_value(i, j)) == before.edge_value(i, j) by {
        lemma_cell_index_bounds(i, j, n);
        lemma_cell_index_injective_wrap(i, j, a, b, n);
        lemma_cell_index_injective_wrap(i, j, b, a, n);
    }
}

/// Contrapositive form of cell-index injectivity, convenient for frames.
proof fn lemma_cell_index_injective_wrap(i: int, j: int, p: int, q: int, n: int)
    requires
        0 <= i < n,
        0 <= j < n,
        0 <= p < n,
        0 <= q < n,
    ensures
        !(i == p && j == q) ==> i * n + j != p * n + q,
{
    if i * n + j == p * n + q {
        lemma_cell_index_injective(i, j, p, q, n);
    }
}

impl EdgeMatrix {
    /// The two tables agree except that `after` holds `v` in the two
    /// mirrored cells of the pair `(a, b)`.
    pub closed spec fn wf_cells_frame(self, after: EdgeMatrix, a: int, b: int, v: u64) -> bool {
        &&& after.n == self.n
        &&& self.values@.len() == self.n * self.n
        &&& after.values@ == self.values@.update(a * (self.n as int) + b, v).update(b * (self.n as int) + a, v)
    }
}

} // verus!
