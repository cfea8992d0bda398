//! Exhaustive enumeration of visiting orders.
//!
//! The search evaluates every permutation of the non-warehouse job indices.
//! `all_permutations(n)` produces the complete list of permutations of
//! `0 .. n`: every entry is a permutation, every permutation appears, no
//! entry repeats, and the list has exactly `n!` entries — so a search that
//! walks the list evaluates each visiting order exactly once.

use vstd::prelude::*;
use vstd::seq_lib::lemma_multiset_commutative;

verus! {

/// The sequence `0, 1, ..., n - 1`.
pub open spec fn ident(n: nat) -> Seq<usize> {
    Seq::new(n, |i: int| i as usize)
}

/// `s` is a visiting order over `n` jobs: it holds exactly the indices
/// `0 .. n`, each once (same multiset as the identity order).
pub open spec fn is_permutation(s: Seq<usize>, n: nat) -> bool {
    s.to_multiset() == ident(n).to_multiset()
}

/// `n` factorial: the number of distinct visiting orders of `n` jobs.
pub open spec fn fact(n: nat) -> nat
    decreases n,
{
    if n == 0 {
        1
    } else {
        n * fact((n - 1) as nat)
    }
}

/// The extension of the `k0`-th order of a level by inserting the next
/// index `m` at position `pp`: the shape every entry of the next level has.
pub open spec fn inserted(level: Seq<Vec<usize>>, k0: int, pp: int, m: usize) -> Seq<usize> {
    level[k0]@.insert(pp, m)
}

/// A permutation of `n` elements has length `n`.
pub proof fn lemma_permutation_len(s: Seq<usize>, n: nat)
    requires
        is_permutation(s, n),
    ensures
        s.len() == n,
{
    s.to_multiset_ensures();
    ident(n).to_multiset_ensures();
}

/// Every element of a permutation of `n` elements is below `n`.
pub proof fn lemma_permutation_bounds(s: Seq<usize>, n: nat)
    requires
        n <= usize::MAX,
        is_permutation(s, n),
    ensures
        forall|k: int| 0 <= k < s.len() ==> (#[trigger] s[k]) < n,
{
    assert forall|k: int| 0 <= k < s.len() implies (#[trigger] s[k]) < n by {
        s.to_multiset_ensures();
        ident(n).to_multiset_ensures();
        assert(s.contains(s[k]));
        assert(s.to_multiset().count(s[k]) > 0);
        assert(ident(n).to_multiset().count(s[k]) > 0);
        assert(ident(n).contains(s[k]));
        let i = choose|i: int| 0 <= i < ident(n).len() && ident(n)[i] == s[k];
        assert(ident(n)[i] == i as usize);
    }
}

/// A permutation of `n` elements does not mention the value `n`.
pub proof fn lemma_permutation_excludes(s: Seq<usize>, n: nat)
    requires
        n <= usize::MAX,
        is_permutation(s, n),
    ensures
        !s.contains(n as usize),
{
    lemma_permutation_bounds(s, n);
    if s.contains(n as usize) {
        let i = choose|i: int| 0 <= i < s.len() && s[i] == n as usize;
        assert(s[i] < n);
    }
}

proof fn lemma_ident_extend(n: nat)
    requires
        n < usize::MAX,
    ensures
        ident(n + 1) == ident(n).push(n as usize),
{
    assert(ident(n + 1) =~= ident(n).push(n as usize));
}

/// Inserting a value anywhere in a sequence adds it to the multiset.
proof fn lemma_insert_to_multiset(s: Seq<usize>, pos: int, v: usize)
    requires
        0 <= pos <= s.len(),
    ensures
        s.insert(pos, v).to_multiset() == s.to_multiset().insert(v),
{
    let a = s.subrange(0, pos);
    let b = s.subrange(pos, s.len() as int);
    lemma_multiset_commutative(a.push(v), b);
    lemma_multiset_commutative(a, b);
    a.to_multiset_ensures();
    assert(s =~= a + b);
    assert(s.insert(pos, v).to_multiset() =~= s.to_multiset().insert(v));
}

/// Inserting the next index anywhere in a permutation of `n` elements gives
/// a permutation of `n + 1` elements.
pub proof fn lemma_insert_is_permutation(p: Seq<usize>, pos: int, n: nat)
    requires
        n < usize::MAX,
        is_permutation(p, n),
        0 <= pos <= p.len(),
    ensures
        is_permutation(p.insert(pos, n as usize), n + 1),
{
    lemma_insert_to_multiset(p, pos, n as usize);
    lemma_ident_extend(n);
    ident(n).to_multiset_ensures();
}

proof fn lemma_remove_insert_id(s: Seq<usize>, pos: int)
    requires
        0 <= pos < s.len(),
    ensures
        s.remove(pos).insert(pos, s[pos]) == s,
{
    s.remove_ensures(pos);
    s.remove(pos).insert_ensures(pos, s[pos]);
    assert(s.remove(pos).insert(pos, s[pos]) =~= s);
}

proof fn lemma_insert_remove_id(s: Seq<usize>, pos: int, v: usize)
    requires
        0 <= pos <= s.len(),
    ensures
        s.insert(pos, v).remove(pos) == s,
{
    s.insert_ensures(pos, v);
    s.insert(pos, v).remove_ensures(pos);
    assert(s.insert(pos, v).remove(pos) =~= s);
}

/// Two insertions of a fresh value agree only when they insert into the same
/// sequence at the same position.
proof fn lemma_insert_injective(p1: Seq<usize>, pos1: int, p2: Seq<usize>, pos2: int, v: usize)
    requires
        0 <= pos1 <= p1.len(),
        0 <= pos2 <= p2.len(),
        !p1.contains(v),
        !p2.contains(v),
        p1.insert(pos1, v) == p2.insert(pos2, v),
    ensures
        pos1 == pos2,
        p1 == p2,
{
    p1.insert_ensures(pos1, v);
    p2.insert_ensures(pos2, v);
    if pos1 < pos2 {
        assert(p1.insert(pos1, v)[pos1] == v);
        assert(p2.insert(pos2, v)[pos1] == p2[pos1]);
        assert(p2.contains(v));
        assert(false);
    } else if pos2 < pos1 {
        assert(p2.insert(pos2, v)[pos2] == v);
        assert(p1.insert(pos1, v)[pos2] == p1[pos2]);
        assert(p1.contains(v));
        assert(false);
    }
    lemma_insert_remove_id(p1, pos1, v);
    lemma_insert_remove_id(p2, pos2, v);
}

/// A permutation of `n + 1` elements mentions the value `n` somewhere.
proof fn lemma_permutation_mentions_last(s: Seq<usize>, n: nat)
    requires
        n < usize::MAX,
        is_permutation(s, n + 1),
    ensures
        exists|pos: int| 0 <= pos < s.len() && s[pos] == n as usize,
{
    s.to_multiset_ensures();
    ident(n + 1).to_multiset_ensures();
    assert(ident(n + 1)[n as int] == n as usize);
    assert(ident(n + 1).contains(n as usize));
    assert(ident(n + 1).to_multiset().count(n as usize) > 0);
    assert(s.to_multiset().count(n as usize) > 0);
    assert(s.contains(n as usize));
}

/// Removing an occurrence of the value `n` from a permutation of `n + 1`
/// elements leaves a permutation of `n` elements.
proof fn lemma_remove_is_permutation(s: Seq<usize>, pos: int, n: nat)
    requires
        n < usize::MAX,
        is_permutation(s, n + 1),
        0 <= pos < s.len(),
        s[pos] == n as usize,
    ensures
        is_permutation(s.remove(pos), n),
{
    s.to_multiset_ensures();
    lemma_ident_extend(n);
    ident(n).to_multiset_ensures();
    assert(s.to_multiset() == ident(n).to_multiset().insert(n as usize));
    assert(s.remove(pos).to_multiset() == s.to_multiset().remove(n as usize));
    assert(ident(n).to_multiset().insert(n as usize).remove(n as usize) =~= ident(
        n,
    ).to_multiset());
}

/// An exact copy of a visiting order.
fn copy_indices(v: &Vec<usize>) -> (r: Vec<usize>)
    ensures
        r@ == v@,
{
    let mut r: Vec<usize> = Vec::new();
    let mut i: usize = 0;
    while i < v.len()
        invariant
            0 <= i <= v@.len(),
            r@ == v@.take(i as int),
        decreases v@.len() - i,
    {
        r.push(v[i]);
        proof {
            assert(r@ =~= v@.take(i as int + 1));
        }
        i += 1;
    }
    proof {
        assert(v@.take(v@.len() as int) =~= v@);
    }
    r
}

/// The slot that the extension of order `k0` at position `pp` occupies in
/// the next level lies within the level's bounds.
proof fn lemma_slot_bound(k0: int, pp: int, len: int, m: int)
    requires
        0 <= k0 < len,
        0 <= pp <= m,
    ensures
        0 <= k0 * (m + 1) + pp < len * (m + 1),
{
    assert(0 <= k0 * (m + 1) + pp < len * (m + 1)) by (nonlinear_arith)
        requires
            0 <= k0 < len,
            0 <= pp <= m,
    ;
}

/// All extensions of one visiting order `p` over `m` jobs: for each position
/// `pp` from 0 to `m`, the order with index `m` inserted at `pp`.
fn extend_one(p: &Vec<usize>, m: usize) -> (batch: Vec<Vec<usize>>)
    requires
        m < usize::MAX,
        is_permutation(p@, m as nat),
    ensures
        batch@.len() == m + 1,
        forall|pp: int| 0 <= pp <= m ==> (#[trigger] batch@[pp])@ == p@.insert(pp, m),
        forall|pp: int|
            0 <= pp <= m ==> is_permutation((#[trigger] batch@[pp])@, m as nat + 1),
{
    proof {
        lemma_permutation_len(p@, m as nat);
    }
    let plen = p.len();
    let mut batch: Vec<Vec<usize>> = Vec::new();
    let mut pos: usize = 0;
    while pos <= plen
        invariant
            m < usize::MAX,
            is_permutation(p@, m as nat),
            plen == m,
            p@.len() == m,
            0 <= pos <= plen + 1,
            batch@.len() == pos,
            forall|pp: int| 0 <= pp < pos ==> (#[trigger] batch@[pp])@ == p@.insert(pp, m),
        decreases plen + 1 - pos,
    {
        let mut q = copy_indices(p);
        q.insert(pos, m);
        batch.push(q);
        pos += 1;
    }
    proof {
        assert forall|pp: int| 0 <= pp <= m implies is_permutation(
            (#[trigger] batch@[pp])@,
            m as nat + 1,
        ) by {
            lemma_insert_is_permutation(p@, pp, m as nat);
        }
    }
    batch
}

/// One level of the enumeration: extends every visiting order over `m` jobs
/// in `level` by the next index `m`, at every position.  Entry
/// `k0 * (m + 1) + pp` of the result extends entry `k0` at position `pp`,
/// so distinct inputs stay distinct in the output.
fn extend_level(level: &Vec<Vec<usize>>, m: usize) -> (next: Vec<Vec<usize>>)
    requires
        m < usize::MAX,
        forall|k: int| 0 <= k < level@.len() ==> is_permutation((#[trigger] level@[k])@, m as nat),
        forall|k1: int, k2: int|
            0 <= k1 < level@.len() && 0 <= k2 < level@.len() && k1 != k2 ==> (
            #[trigger] level@[k1])@ != (#[trigger] level@[k2])@,
    ensures
        next@.len() == level@.len() * (m + 1),
        forall|k0: int, pp: int|
            #![trigger inserted(level@, k0, pp, m)]
            0 <= k0 < level@.len() && 0 <= pp <= m ==> next@[k0 * (m + 1) + pp]@ == inserted(
                level@,
                k0,
                pp,
                m,
            ),
        forall|t: int| 0 <= t < next@.len() ==> is_permutation((#[trigger] next@[t])@, m as nat + 1),
        forall|t1: int, t2: int|
            0 <= t1 < next@.len() && 0 <= t2 < next@.len() && t1 != t2 ==> (#[trigger] next@[t1])@
                != (#[trigger] next@[t2])@,
{
    let mut next: Vec<Vec<usize>> = Vec::new();
    let mut kk: usize = 0;
    while kk < level.len()
        invariant
            m < usize::MAX,
            forall|k: int|
                0 <= k < level@.len() ==> is_permutation((#[trigger] level@[k])@, m as nat),
            0 <= kk <= level@.len(),
            next@.len() == kk * (m + 1),
            forall|k0: int, pp: int|
                #![trigger inserted(level@, k0, pp, m)]
                0 <= k0 < kk && 0 <= pp <= m ==> next@[k0 * (m + 1) + pp]@ == inserted(
                    level@,
                    k0,
                    pp,
                    m,
                ),
            forall|t: int|
                0 <= t < next@.len() ==> is_permutation((#[trigger] next@[t])@, m as nat + 1),
        decreases level@.len() - kk,
    {
        let ghost old_len = next@.len() as int;
        let mut batch = extend_one(&level[kk], m);
        next.append(&mut batch);
        proof {
            assert((kk + 1) * (m + 1) == kk * (m + 1) + (m + 1)) by (nonlinear_arith);
            assert(next@.len() == old_len + (m + 1));
            assert forall|k0: int, pp: int|
                #![trigger inserted(level@, k0, pp, m)]
                0 <= k0 < kk + 1 && 0 <= pp <= m implies next@[k0 * (m + 1) + pp]@ == inserted(
                    level@,
                    k0,
                    pp,
                    m,
                ) by {
                if k0 == kk {
                    assert(k0 * (m + 1) + pp == old_len + pp);
                    assert(0 <= old_len + pp < next@.len());
                    assert(next@[old_len + pp]@ == inserted(level@, k0, pp, m));
                } else {
                    assert(0 <= k0 * (m + 1) + pp < old_len) by (nonlinear_arith)
                        requires
                            0 <= k0 < kk,
                            0 <= pp <= m,
                            old_len == kk * (m + 1),
                    ;
                    assert(0 <= k0 * (m + 1) + pp < next@.len());
                    assert(next@[k0 * (m + 1) + pp]@ == inserted(level@, k0, pp, m));
                }
            }
        }
        kk += 1;
    }
    proof {
        broadcast use vstd::arithmetic::div_mod::lemma_fundamental_div_mod;
        broadcast use vstd::arithmetic::div_mod::lemma_mod_division_less_than_divisor;

        let w = m as int + 1;
        assert forall|t1: int, t2: int|
            0 <= t1 < next@.len() && 0 <= t2 < next@.len() && t1 != t2 implies (
        #[trigger] next@[t1])@ != (#[trigger] next@[t2])@ by {
            let q1 = t1 / w;
            let r1 = t1 % w;
            let q2 = t2 / w;
            let r2 = t2 % w;
            assert(t1 == w * q1 + r1);
            assert(0 <= r1 < w);
            assert(t2 == w * q2 + r2);
            assert(0 <= r2 < w);
            assert(0 <= q1 < level@.len()) by (nonlinear_arith)
                requires
                    t1 == w * q1 + r1,
                    0 <= r1 < w,
                    0 <= t1 < level@.len() * w,
            ;
            assert(0 <= q2 < level@.len()) by (nonlinear_arith)
                requires
                    t2 == w * q2 + r2,
                    0 <= r2 < w,
                    0 <= t2 < level@.len() * w,
            ;
            assert(q1 * w == w * q1) by (nonlinear_arith);
            assert(q2 * w == w * q2) by (nonlinear_arith);
            let w1 = inserted(level@, q1, r1, m);
            let w2 = inserted(level@, q2, r2, m);
            assert(next@[t1]@ == w1);
            assert(next@[t2]@ == w2);
            if next@[t1]@ == next@[t2]@ {
                lemma_permutation_len(level@[q1]@, m as nat);
                lemma_permutation_len(level@[q2]@, m as nat);
                lemma_permutation_excludes(level@[q1]@, m as nat);
                lemma_permutation_excludes(level@[q2]@, m as nat);
                lemma_insert_injective(level@[q1]@, r1, level@[q2]@, r2, m);
                assert(level@[q1]@ == level@[q2]@);
                assert(q1 == q2);
                assert(t1 == t2);
            }
        }
    }
    next
}

/// Builds the complete list of permutations of `0 .. n`, level by level:
/// every visiting order over the first `m` indices is extended by inserting
/// index `m` at each possible position.  The result enumerates every
/// visiting order of `n` jobs exactly once, `n!` in all — the search that
/// walks it therefore evaluates exactly `n!` distinct permutations.
pub fn all_permutations(n: usize) -> (out: Vec<Vec<usize>>)
    requires
        n < usize::MAX,
    ensures
        out@.len() == fact(n as nat),
        forall|k: int| 0 <= k < out@.len() ==> is_permutation((#[trigger] out@[k])@, n as nat),
        forall|s: Seq<usize>|
            #[trigger] is_permutation(s, n as nat) ==> exists|k: int|
                0 <= k < out@.len() && (#[trigger] out@[k])@ == s,
        forall|k1: int, k2: int|
            0 <= k1 < out@.len() && 0 <= k2 < out@.len() && k1 != k2 ==> (#[trigger] out@[k1])@
                != (#[trigger] out@[k2])@,
{
    let mut out: Vec<Vec<usize>> = Vec::new();
    let empty: Vec<usize> = Vec::new();
    out.push(empty);
    proof {
        Seq::<usize>::empty().to_multiset_ensures();
        ident(0).to_multiset_ensures();
        assert(ident(0) =~= Seq::<usize>::empty());
        assert(out@[0]@ =~= Seq::<usize>::empty());
        assert(is_permutation(out@[0]@, 0));
        assert forall|s: Seq<usize>| #[trigger] is_permutation(s, 0) implies exists|k: int|
            0 <= k < out@.len() && (#[trigger] out@[k])@ == s by {
            lemma_permutation_len(s, 0);
            assert(out@[0]@ =~= s);
            assert(out@[0]@ == s);
        }
    }
    let mut m: usize = 0;
    while m < n
        invariant
            n < usize::MAX,
            0 <= m <= n,
            out@.len() == fact(m as nat),
            forall|k: int| 0 <= k < out@.len() ==> is_permutation((#[trigger] out@[k])@, m as nat),
            forall|s: Seq<usize>|
                #[trigger] is_permutation(s, m as nat) ==> exists|k: int|
                    0 <= k < out@.len() && (#[trigger] out@[k])@ == s,
            forall|k1: int, k2: int|
                0 <= k1 < out@.len() && 0 <= k2 < out@.len() && k1 != k2 ==> (#[trigger] out@[k1])@
                    != (#[trigger] out@[k2])@,
        decreases n - m,
    {
        let next = extend_level(&out, m);
        proof {
            assert(fact(m as nat + 1) == (m as nat + 1) * fact(m as nat));
            assert(fact(m as nat) * (m + 1) == (m as nat + 1) * fact(m as nat)) by (nonlinear_arith);
            assert(next@.len() == fact(m as nat + 1));
            assert forall|s: Seq<usize>| #[trigger] is_permutation(s, m as nat + 1) implies exists|
                t: int,
            | 0 <= t < next@.len() && (#[trigger] next@[t])@ == s by {
                lemma_permutation_len(s, m as nat + 1);
                lemma_permutation_mentions_last(s, m as nat);
                let pos = choose|pos: int| 0 <= pos < s.len() && s[pos] == m as usize;
                lemma_remove_is_permutation(s, pos, m as nat);
                let p = s.remove(pos);
                lemma_permutation_len(p, m as nat);
                let k0 = choose|k0: int| 0 <= k0 < out@.len() && (#[trigger] out@[k0])@ == p;
                lemma_remove_insert_id(s, pos);
                let w = inserted(out@, k0, pos, m);
                assert(w == s);
                lemma_slot_bound(k0, pos, out@.len() as int, m as int);
                let t = k0 * (m as int + 1) + pos;
                assert(0 <= t < next@.len() && next@[t]@ == w);
            }
        }
        out = next;
        m += 1;
    }
    out
}

} // verus!
