//! The route search: exhaustive minimisation over visiting orders.
//!
//! Every permutation of the non-warehouse jobs is repaired and scored, and
//! the cheapest repaired route is kept.  The search is exhaustive — `n!`
//! candidate orders for `n` non-warehouse jobs — so it is only viable for a
//! day's handful of stops; all travel durations are resolved into the edge
//! matrix beforehand, and the loop itself performs no I/O.  The first
//! candidate found with the minimal duration is returned.

use vstd::prelude::*;

use crate::edges::{lemma_wf_size_bound, EdgeMatrix};
use crate::jobs::{wf_jobs, Job};
use crate::perms::{
    all_permutations, fact, is_permutation, lemma_permutation_bounds, lemma_permutation_len,
};
use crate::repair::{
    lemma_repair_bookends, raw_route_ok, repair, route_indices_ok, spec_repair, warehouse_index,
};
use crate::score::{score, spec_score};

verus! {

/// There is at least one visiting order of any number of jobs.
proof fn lemma_fact_at_least_one(n: nat)
    ensures
        fact(n) >= 1,
    decreases n,
{
    if n > 0 {
        lemma_fact_at_least_one((n - 1) as nat);
        assert(fact(n) == n * fact((n - 1) as nat));
        assert(fact(n) >= 1) by (nonlinear_arith)
            requires
                n >= 1,
                fact((n - 1) as nat) >= 1,
                fact(n) == n * fact((n - 1) as nat),
        ;
    }
}

/// Finds a cheapest route.  Every permutation of the non-warehouse jobs is
/// evaluated (repaired, then scored); the result is the repaired route of
/// one of them, together with its duration, and no permutation scores
/// strictly less.  The returned route starts and ends at the warehouse.
#[verifier::loop_isolation(false)]
pub fn search(jobs: &Vec<Job>, edges: &EdgeMatrix) -> (best: (Vec<usize>, u64))
    requires
        wf_jobs(jobs@),
        edges.wf(),
        edges.size() == jobs@.len(),
    ensures
        exists|p: Seq<usize>|
            #[trigger] is_permutation(p, (jobs@.len() - 1) as nat) && best.0@ == spec_repair(
                p,
                jobs@,
            ) && best.1 == spec_score(spec_repair(p, jobs@), *edges, jobs@),
        forall|p: Seq<usize>|
            #[trigger] is_permutation(p, (jobs@.len() - 1) as nat) ==> best.1 <= spec_score(
                spec_repair(p, jobs@),
                *edges,
                jobs@,
            ),
        best.1 == spec_score(best.0@, *edges, jobs@),
        best.0@.len() >= 1,
        best.0@.first() == warehouse_index(jobs@),
        best.0@.last() == warehouse_index(jobs@),
{
    let n = jobs.len() - 1;
    let perms = all_permutations(n);
    proof {
        lemma_fact_at_least_one(n as nat);
    }
    let first_route = repair_candidate(&perms, 0, jobs);
    let mut best_d = score_candidate(&first_route, edges, jobs);
    let mut best_r = first_route;
    let mut k: usize = 1;
    while k < perms.len()
        invariant
            1 <= k <= perms@.len(),
            exists|t: int|
                0 <= t < k && best_r@ == spec_repair((#[trigger] perms@[t])@, jobs@) && best_d
                    == spec_score(spec_repair(perms@[t]@, jobs@), *edges, jobs@),
            forall|t: int|
                0 <= t < k ==> best_d <= spec_score(
                    spec_repair((#[trigger] perms@[t])@, jobs@),
                    *edges,
                    jobs@,
                ),
        decreases perms@.len() - k,
    {
        let r = repair_candidate(&perms, k, jobs);
        let d = score_candidate(&r, edges, jobs);
        if d < best_d {
            best_d = d;
            best_r = r;
        }
        k += 1;
    }
    proof {
        let nn = (jobs@.len() - 1) as nat;
        let t0 = choose|t: int|
            0 <= t < perms@.len() && best_r@ == spec_repair((#[trigger] perms@[t])@, jobs@)
                && best_d == spec_score(spec_repair(perms@[t]@, jobs@), *edges, jobs@);
        assert(is_permutation(perms@[t0]@, nn) && best_r@ == spec_repair(perms@[t0]@, jobs@)
            && best_d == spec_score(spec_repair(perms@[t0]@, jobs@), *edges, jobs@));
        lemma_permutation_bounds(perms@[t0]@, nn);
        lemma_repair_bookends(perms@[t0]@, jobs@);
        assert forall|p: Seq<usize>| #[trigger] is_permutation(p, nn) implies best_d <= spec_score(
            spec_repair(p, jobs@),
            *edges,
            jobs@,
        ) by {
            let t = choose|t: int| 0 <= t < perms@.len() && (#[trigger] perms@[t])@ == p;
            assert(best_d <= spec_score(spec_repair(perms@[t]@, jobs@), *edges, jobs@));
        }
    }
    (best_r, best_d)
}

/// Repairs the `k`-th candidate visiting order.
fn repair_candidate(perms: &Vec<Vec<usize>>, k: usize, jobs: &Vec<Job>) -> (r: Vec<usize>)
    requires
        1 <= jobs@.len() <= usize::MAX,
        k < perms@.len(),
        is_permutation(perms@[k as int]@, (jobs@.len() - 1) as nat),
    ensures
        r@ == spec_repair(perms@[k as int]@, jobs@),
{
    proof {
        lemma_permutation_bounds(perms@[k as int]@, (jobs@.len() - 1) as nat);
        assert(raw_route_ok(perms@[k as int]@, jobs@));
    }
    repair(&perms[k], jobs)
}

/// Scores a repaired candidate route.
fn score_candidate(route: &Vec<usize>, edges: &EdgeMatrix, jobs: &Vec<Job>) -> (d: u64)
    requires
        wf_jobs(jobs@),
        edges.wf(),
        edges.size() == jobs@.len(),
        exists|p: Seq<usize>|
            is_permutation(p, (jobs@.len() - 1) as nat) && route@ == spec_repair(p, jobs@),
    ensures
        d == spec_score(route@, *edges, jobs@),
{
    proof {
        let p = choose|p: Seq<usize>|
            is_permutation(p, (jobs@.len() - 1) as nat) && route@ == spec_repair(p, jobs@);
        lemma_wf_size_bound(*edges);
        lemma_permutation_bounds(p, (jobs@.len() - 1) as nat);
        lemma_permutation_len(p, (jobs@.len() - 1) as nat);
        lemma_repair_bookends(p, jobs@);
        assert(route_indices_ok(route@, jobs@));
        assert(1 <= route@.len() <= 0x1000_0000);
    }
    score(route, edges, jobs)
}

} // verus!
