//! Route repair: inserting the mandatory warehouse visits.
//!
//! A raw route is a visiting order over the non-warehouse jobs.  The vehicle
//! must start from the warehouse, must return to the warehouse between a
//! collection and any following non-collection stop (it cannot carry
//! collected goods straight into a delivery), and always returns to the
//! warehouse at the end of the day.  Repairing a raw route inserts the
//! warehouse index at exactly those places.

use vstd::prelude::*;

use crate::jobs::{Job, JobKind};

verus! {

/// Index of the warehouse job: the job list always keeps it last.
pub open spec fn warehouse_index(jobs: Seq<Job>) -> usize {
    (jobs.len() - 1) as usize
}

/// A raw route mentions only non-warehouse jobs.
pub open spec fn raw_route_ok(raw: Seq<usize>, jobs: Seq<Job>) -> bool {
    forall|i: int| 0 <= i < raw.len() ==> (#[trigger] raw[i]) < jobs.len() - 1
}

/// The separation rule fires between two consecutive stops when the earlier
/// one is a collection and the later one is not: the vehicle must unload at
/// the warehouse first.  Two consecutive collections need no visit.
pub open spec fn needs_warehouse_between(prev: usize, next: usize, jobs: Seq<Job>) -> bool {
    jobs[prev as int].kind == JobKind::Collection && jobs[next as int].kind != JobKind::Collection
}

/// The repaired continuation of a raw route, given the job appended most
/// recently (`prev`).  Each raw stop is appended in order, preceded by the
/// warehouse index whenever the separation rule fires.
pub open spec fn repair_tail(raw: Seq<usize>, prev: usize, jobs: Seq<Job>) -> Seq<usize>
    decreases raw.len(),
{
    if raw.len() == 0 {
        Seq::empty()
    } else {
        let x = raw[0];
        let step: Seq<usize> = if needs_warehouse_between(prev, x, jobs) {
            seq![warehouse_index(jobs), x]
        } else {
            seq![x]
        };
        step + repair_tail(raw.drop_first(), x, jobs)
    }
}

/// The repaired route without its final return leg: the warehouse start,
/// then the raw stops with the separation rule applied.
pub open spec fn repair_body(raw: Seq<usize>, jobs: Seq<Job>) -> Seq<usize> {
    if raw.len() == 0 {
        Seq::empty()
    } else {
        seq![warehouse_index(jobs), raw[0]] + repair_tail(raw.drop_first(), raw[0], jobs)
    }
}

/// The repaired route: the body followed by the unconditional return to the
/// warehouse.  An empty raw route repairs to the single-stop warehouse route.
pub open spec fn spec_repair(raw: Seq<usize>, jobs: Seq<Job>) -> Seq<usize> {
    repair_body(raw, jobs) + seq![warehouse_index(jobs)]
}

/// Repairs a raw route: scans it left to right, prefixes the warehouse index
/// to the first stop and to every stop for which the separation rule fires,
/// and appends the final return to the warehouse.
pub fn repair(raw: &Vec<usize>, jobs: &Vec<Job>) -> (out: Vec<usize>)
    requires
        jobs@.len() >= 1,
        raw_route_ok(raw@, jobs@),
    ensures
        out@ == spec_repair(raw@, jobs@),
{
    let w = jobs.len() - 1;
    let mut out: Vec<usize> = Vec::new();
    let mut k: usize = 0;
    while k < raw.len()
        invariant
            jobs@.len() >= 1,
            raw_route_ok(raw@, jobs@),
            w == warehouse_index(jobs@),
            0 <= k <= raw@.len(),
            k == 0 ==> out@ == Seq::<usize>::empty(),
            k >= 1 ==> out@ + repair_tail(raw@.skip(k as int), raw@[k - 1], jobs@)
                == repair_body(raw@, jobs@),
        decreases raw@.len() - k,
    {
        let x = raw[k];
        if k == 0 {
            out.push(w);
            out.push(x);
            proof {
                assert(raw@.drop_first() =~= raw@.skip(1));
                assert(out@ + repair_tail(raw@.skip(1), raw@[0], jobs@)
                    =~= seq![w, raw@[0]] + repair_tail(raw@.drop_first(), raw@[0], jobs@));
            }
        } else {
            let prev = raw[k - 1];
            proof {
                assert(raw@.skip(k as int).len() == raw@.len() - k);
                assert(raw@.skip(k as int)[0] == raw@[k as int]);
                assert(raw@.skip(k as int).drop_first() =~= raw@.skip(k as int + 1));
            }
            let ghost before = out@;
            if jobs[prev].kind == JobKind::Collection && jobs[x].kind != JobKind::Collection {
                out.push(w);
            }
            out.push(x);
            proof {
                let step: Seq<usize> = if needs_warehouse_between(prev, x, jobs@) {
                    seq![warehouse_index(jobs@), x]
                } else {
                    seq![x]
                };
                assert(out@ =~= before + step);
                assert(repair_tail(raw@.skip(k as int), prev, jobs@)
                    == step + repair_tail(raw@.skip(k as int + 1), x, jobs@));
                assert(out@ + repair_tail(raw@.skip(k as int + 1), raw@[k as int], jobs@)
                    =~= before + repair_tail(raw@.skip(k as int), raw@[k - 1], jobs@));
            }
        }
        k += 1;
    }
    proof {
        if raw@.len() >= 1 {
            assert(raw@.skip(raw@.len() as int) =~= Seq::<usize>::empty());
            assert(out@ =~= repair_body(raw@, jobs@));
        }
    }
    out.push(w);
    proof {
        assert(out@ =~= spec_repair(raw@, jobs@));
    }
    out
}

/// A route never services a delivery immediately after a collection: between
/// the two the warehouse must appear.
pub open spec fn no_collection_then_delivery(route: Seq<usize>, jobs: Seq<Job>) -> bool {
    forall|k: int|
        0 <= k < route.len() - 1 ==> !((#[trigger] jobs[route[k] as int].kind)
            == JobKind::Collection && jobs[route[k + 1] as int].kind == JobKind::Delivery)
}

/// Every index of a repaired route is a valid job index.
pub open spec fn route_indices_ok(route: Seq<usize>, jobs: Seq<Job>) -> bool {
    forall|i: int| 0 <= i < route.len() ==> (#[trigger] route[i]) < jobs.len()
}

#[verifier::rlimit(50)]
proof fn lemma_repair_tail_shape(raw: Seq<usize>, prev: usize, jobs: Seq<Job>)
    requires
        1 <= jobs.len() <= usize::MAX,
        raw_route_ok(raw, jobs),
    ensures
        raw.len() <= repair_tail(raw, prev, jobs).len() <= 2 * raw.len(),
        route_indices_ok(repair_tail(raw, prev, jobs), jobs),
        raw.len() >= 1 ==> repair_tail(raw, prev, jobs).last() == raw.last(),
    decreases raw.len(),
{
    if raw.len() > 0 {
        assert(raw_route_ok(raw.drop_first(), jobs)) by {
            assert(forall|i: int|
                0 <= i < raw.drop_first().len() ==> (#[trigger] raw.drop_first()[i]) == raw[i + 1]);
        }
        lemma_repair_tail_shape(raw.drop_first(), raw[0], jobs);
    }
}

/// Helper: the sequence `[prev] + repair_tail(raw, prev, jobs)` never puts a
/// delivery right after a collection.
#[verifier::rlimit(50)]
proof fn lemma_repair_tail_separation(raw: Seq<usize>, prev: usize, jobs: Seq<Job>)
    requires
        1 <= jobs.len() <= usize::MAX,
        jobs.last().kind == JobKind::Warehouse,
        prev < jobs.len(),
        raw_route_ok(raw, jobs),
    ensures
        no_collection_then_delivery(seq![prev] + repair_tail(raw, prev, jobs), jobs),
    decreases raw.len(),
{
    let t = seq![prev] + repair_tail(raw, prev, jobs);
    if raw.len() == 0 {
        assert(t.len() == 1);
    } else {
        let x = raw[0];
        let w = warehouse_index(jobs);
        assert(jobs[w as int].kind == JobKind::Warehouse);
        assert(raw_route_ok(raw.drop_first(), jobs)) by {
            assert(forall|i: int|
                0 <= i < raw.drop_first().len() ==> (#[trigger] raw.drop_first()[i]) == raw[i + 1]);
        }
        lemma_repair_tail_separation(raw.drop_first(), x, jobs);
        let u = seq![x] + repair_tail(raw.drop_first(), x, jobs);
        if needs_warehouse_between(prev, x, jobs) {
            assert(t =~= seq![prev, w] + u);
            assert forall|k: int| 0 <= k < t.len() - 1 implies !((#[trigger] jobs[t[k] as int].kind)
                == JobKind::Collection && jobs[t[k + 1] as int].kind == JobKind::Delivery) by {
                if k == 0 {
                    assert(t[1] == w);
                } else if k == 1 {
                    assert(jobs[t[1] as int].kind == JobKind::Warehouse);
                } else {
                    assert(t[k] == u[k - 2]);
                    assert(t[k + 1] == u[k - 1]);
                    assert(no_collection_then_delivery(u, jobs));
                }
            }
        } else {
            assert(t =~= seq![prev] + u);
            assert forall|k: int| 0 <= k < t.len() - 1 implies !((#[trigger] jobs[t[k] as int].kind)
                == JobKind::Collection && jobs[t[k + 1] as int].kind == JobKind::Delivery) by {
                if k == 0 {
                    assert(t[0] == prev);
                    assert(t[1] == u[0]);
                    assert(u[0] == x);
                    if jobs[prev as int].kind == JobKind::Collection {
                        assert(jobs[x as int].kind == JobKind::Collection);
                    }
                } else {
                    assert(t[k] == u[k - 1]);
                    assert(t[k + 1] == u[k]);
                    assert(no_collection_then_delivery(u, jobs));
                }
            }
        }
    }
}

/// Shape of every repaired route: it is never empty, it begins and ends at
/// the warehouse, its length is at most two stops per raw stop plus the two
/// warehouse legs, and it mentions only valid job indices.
pub proof fn lemma_repair_bookends(raw: Seq<usize>, jobs: Seq<Job>)
    requires
        1 <= jobs.len() <= usize::MAX,
        raw_route_ok(raw, jobs),
    ensures
        1 <= spec_repair(raw, jobs).len() <= 2 * raw.len() + 2,
        spec_repair(raw, jobs).first() == warehouse_index(jobs),
        spec_repair(raw, jobs).last() == warehouse_index(jobs),
        route_indices_ok(spec_repair(raw, jobs), jobs),
{
    let r = spec_repair(raw, jobs);
    if raw.len() == 0 {
        assert(r =~= seq![warehouse_index(jobs)]);
    } else {
        assert(raw_route_ok(raw.drop_first(), jobs)) by {
            assert(forall|i: int|
                0 <= i < raw.drop_first().len() ==> (#[trigger] raw.drop_first()[i]) == raw[i + 1]);
        }
        lemma_repair_tail_shape(raw.drop_first(), raw[0], jobs);
        assert(r.first() == warehouse_index(jobs));
        assert(r.last() == warehouse_index(jobs));
    }
}

/// The separation rule holds of every repaired route: no delivery directly
/// follows a collection; the warehouse stands between them.
#[verifier::rlimit(50)]
pub proof fn lemma_repair_separation(raw: Seq<usize>, jobs: Seq<Job>)
    requires
        1 <= jobs.len() <= usize::MAX,
        jobs.last().kind == JobKind::Warehouse,
        raw_route_ok(raw, jobs),
    ensures
        no_collection_then_delivery(spec_repair(raw, jobs), jobs),
{
    let r = spec_repair(raw, jobs);
    let w = warehouse_index(jobs);
    if raw.len() == 0 {
        assert(r =~= seq![w]);
    } else {
        let x = raw[0];
        assert(raw_route_ok(raw.drop_first(), jobs)) by {
            assert(forall|i: int|
                0 <= i < raw.drop_first().len() ==> (#[trigger] raw.drop_first()[i]) == raw[i + 1]);
        }
        lemma_repair_tail_separation(raw.drop_first(), x, jobs);
        let u = seq![x] + repair_tail(raw.drop_first(), x, jobs);
        assert(r =~= seq![w] + u + seq![w]);
        assert forall|k: int| 0 <= k < r.len() - 1 implies !((#[trigger] jobs[r[k] as int].kind)
            == JobKind::Collection && jobs[r[k + 1] as int].kind == JobKind::Delivery) by {
            assert(jobs[w as int].kind == JobKind::Warehouse);
            if k == 0 {
                assert(r[0] == w);
            } else if k == r.len() - 2 {
                assert(r[k + 1] == w);
                assert(jobs[r[k + 1] as int].kind == JobKind::Warehouse);
            } else {
                assert(r[k] == u[k - 1]);
                assert(r[k + 1] == u[k]);
                assert(no_collection_then_delivery(u, jobs));
            }
        }
    }
}

/// When every stop of the raw route is a collection, the separation rule
/// never fires: the repaired route is exactly the warehouse, the raw stops
/// unchanged, and the warehouse again.  In particular no warehouse visit is
/// inserted between two consecutive collections.
pub proof fn lemma_repair_all_collections(raw: Seq<usize>, jobs: Seq<Job>)
    requires
        1 <= jobs.len() <= usize::MAX,
        raw.len() >= 1,
        raw_route_ok(raw, jobs),
        forall|i: int|
            0 <= i < raw.len() ==> (#[trigger] jobs[raw[i] as int].kind) == JobKind::Collection,
    ensures
        spec_repair(raw, jobs) == seq![warehouse_index(jobs)] + raw + seq![warehouse_index(jobs)],
{
    lemma_repair_tail_no_insert(raw.drop_first(), raw[0], jobs);
    assert(spec_repair(raw, jobs) =~= seq![warehouse_index(jobs)] + raw + seq![
        warehouse_index(jobs),
    ]) by {
        assert(seq![warehouse_index(jobs), raw[0]] + raw.drop_first()
            =~= seq![warehouse_index(jobs)] + raw);
    }
}

/// Helper: the repaired continuation of an all-collection raw route is the
/// raw route itself.
proof fn lemma_repair_tail_no_insert(raw: Seq<usize>, prev: usize, jobs: Seq<Job>)
    requires
        jobs.len() >= 1,
        raw_route_ok(raw, jobs),
        forall|i: int|
            0 <= i < raw.len() ==> (#[trigger] jobs[raw[i] as int].kind) == JobKind::Collection,
    ensures
        repair_tail(raw, prev, jobs) == raw,
    decreases raw.len(),
{
    if raw.len() == 0 {
        assert(repair_tail(raw, prev, jobs) =~= raw);
    } else {
        assert(forall|i: int|
            0 <= i < raw.drop_first().len() ==> (#[trigger] raw.drop_first()[i]) == raw[i + 1]);
        lemma_repair_tail_no_insert(raw.drop_first(), raw[0], jobs);
        assert(repair_tail(raw, prev, jobs) =~= raw);
    }
}

} // verus!
