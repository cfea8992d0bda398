//! Route scoring: the total elapsed time of a repaired route.
//!
//! The duration of a route is the sum, over every leg, of the travel time
//! between the two stops plus the service time reserved at the stop just
//! departed.  If the stop immediately before the final return to the
//! warehouse is a collection, the final stop's own reserve is added once
//! more for unloading; the warehouse reserves no time, so today this adds
//! nothing, but the rule is kept for the day a warehouse unloading reserve
//! is introduced.

use vstd::prelude::*;

use crate::edges::EdgeMatrix;
use crate::jobs::{job_ok, Job, JobKind};
use crate::repair::route_indices_ok;

verus! {

/// Sum of the first `upto` legs of the route: for each, the travel duration
/// plus the reserve of the departed stop.
pub open spec fn legs_duration(route: Seq<usize>, m: EdgeMatrix, jobs: Seq<Job>, upto: int) -> int
    decreases upto,
{
    if upto <= 0 {
        0
    } else {
        legs_duration(route, m, jobs, upto - 1) + m.edge_value(
            route[upto - 1] as int,
            route[upto] as int,
        ) + jobs[route[upto - 1] as int].reserve
    }
}

/// The extra unloading time at the end of the route: the final stop's
/// reserve again, owed only when the stop visited just before the final
/// return is a collection.
pub open spec fn final_unload_seconds(route: Seq<usize>, jobs: Seq<Job>) -> int {
    if route.len() > 1 && jobs[route[route.len() - 2] as int].kind == JobKind::Collection {
        jobs[route[route.len() - 1] as int].reserve as int
    } else {
        0
    }
}

/// The total duration of a repaired route, in seconds.
pub open spec fn spec_score(route: Seq<usize>, m: EdgeMatrix, jobs: Seq<Job>) -> int {
    legs_duration(route, m, jobs, route.len() - 1) + final_unload_seconds(route, jobs)
}

/// Computes the total duration of a repaired route.  Two scoring passes over
/// the same route always return the same duration: the result is pinned to
/// `spec_score`, a function of the route, the matrix and the jobs alone.
pub fn score(route: &Vec<usize>, edges: &EdgeMatrix, jobs: &Vec<Job>) -> (d: u64)
    requires
        edges.wf(),
        jobs@.len() == edges.size(),
        forall|i: int| 0 <= i < jobs@.len() ==> job_ok(#[trigger] jobs@[i]),
        1 <= route@.len() <= 0x1000_0000,
        route_indices_ok(route@, jobs@),
    ensures
        d == spec_score(route@, *edges, jobs@),
{
    let mut d: u64 = 0;
    let mut k: usize = 0;
    while k < route.len() - 1
        invariant
            edges.wf(),
            jobs@.len() == edges.size(),
            forall|i: int| 0 <= i < jobs@.len() ==> job_ok(#[trigger] jobs@[i]),
            1 <= route@.len() <= 0x1000_0000,
            route_indices_ok(route@, jobs@),
            0 <= k <= route@.len() - 1,
            d == legs_duration(route@, *edges, jobs@, k as int),
            d <= k * 0x1_FFFF_FFFEu64,
        decreases route@.len() - 1 - k,
    {
        let leg = edges.duration(route[k], route[k + 1]);
        let reserve = jobs[route[k]].reserve;
        proof {
            assert(job_ok(jobs@[route@[k as int] as int]));
            assert(leg <= 0xFFFF_FFFFu64);
            assert(reserve <= 0xFFFF_FFFFu64);
            assert(d + leg + reserve <= (k + 1) * 0x1_FFFF_FFFEu64);
            assert((k + 1) * 0x1_FFFF_FFFEu64 <= 0x1000_0000int * 0x1_FFFF_FFFEu64);
        }
        d = d + leg + reserve;
        k += 1;
    }
    if route.len() > 1 {
        let before = route[route.len() - 2];
        if jobs[before].kind == JobKind::Collection {
            let last = route[route.len() - 1];
            proof {
                assert(job_ok(jobs@[last as int]));
                assert(d <= (route@.len() - 1) * 0x1_FFFF_FFFEu64);
                assert((route@.len() - 1) * 0x1_FFFF_FFFEu64 <= 0x1000_0000int * 0x1_FFFF_FFFEu64);
            }
            d = d + jobs[last].reserve;
        }
    }
    d
}

/// Scoring is deterministic: any two durations obtained for the same
/// repaired route against the same edge matrix and job list are equal.
pub proof fn lemma_score_deterministic(
    route: Seq<usize>,
    m: EdgeMatrix,
    jobs: Seq<Job>,
    d1: int,
    d2: int,
)
    requires
        d1 == spec_score(route, m, jobs),
        d2 == spec_score(route, m, jobs),
    ensures
        d1 == d2,
{
}

} // verus!
