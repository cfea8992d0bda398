//! Jobs: the stops a route visits.
//!
//! A planning run works over a list of jobs.  Each job is a geolocated stop
//! of one kind — a delivery, a collection, or the warehouse itself — together
//! with the fixed time reserved for servicing the stop.  The warehouse job is
//! always the last element of the job list and is the route's home point.

use vstd::prelude::*;

verus! {

/// The role a stop plays in the route.
#[derive(Clone, Copy, Debug, PartialEq, Eq, Structural)]
pub enum JobKind {
    Delivery,
    Collection,
    Warehouse,
}

/// A geographic position in millionths of a degree (fixed point, so the
/// verified code never touches floating point).  Callers that obtain
/// fractional coordinates from a geocoder convert before handing them in.
#[derive(Clone, Copy, Debug, PartialEq, Eq, Structural)]
pub struct Location {
    pub lat_micro: i64,
    pub lon_micro: i64,
}

/// Time reserved at an ordinary stop for loading or unloading: 30 minutes.
pub const DEFAULT_RESERVE_SECONDS: u64 = 1800;

/// Upper bound accepted for any single duration (a stop's reserve or one
/// edge's travel time).  Scores are sums of such values; the bound keeps
/// every sum that the scorer can form well inside `u64`.
pub const MAX_LEG_SECONDS: u64 = 0xFFFF_FFFF;

/// The state a candidate record must be in before it yields jobs:
/// a confirmed order.
pub const CONFIRMED_ORDER_STATE: i64 = 3;

/// One stop of the planning run.
#[derive(Clone, Debug)]
pub struct Job {
    /// Display address, kept for diagnostics only.
    pub address: String,
    /// Resolved coordinates of the stop.
    pub location: Location,
    /// Role of the stop.
    pub kind: JobKind,
    /// Fixed service time spent at the stop, in seconds.
    pub reserve: u64,
}

/// A single job is acceptable to the scorer when its reserve is bounded.
pub open spec fn job_ok(j: Job) -> bool {
    j.reserve <= MAX_LEG_SECONDS
}

/// Well-formed job list for a planning run: at least the warehouse is
/// present, the warehouse is exactly the last element, and every reserve is
/// bounded.
pub open spec fn wf_jobs(jobs: Seq<Job>) -> bool {
    &&& jobs.len() >= 1
    &&& jobs.last().kind == JobKind::Warehouse
    &&& forall|i: int| 0 <= i < jobs.len() - 1 ==> (#[trigger] jobs[i].kind) != JobKind::Warehouse
    &&& forall|i: int| 0 <= i < jobs.len() ==> job_ok(#[trigger] jobs[i])
}

/// Is a candidate record eligible for planning?  Only confirmed orders are.
pub fn opportunity_is_confirmed(state: i64) -> (r: bool)
    ensures
        r <==> state == CONFIRMED_ORDER_STATE,
{
    state == CONFIRMED_ORDER_STATE
}

/// Builds the job for one candidate stop, given the outcome of geocoding its
/// address.  A candidate whose address could not be resolved yields no job
/// and is simply left out of the run.  A resolved stop reserves the default
/// service time.
pub fn build_job(address: String, kind: JobKind, location: Option<Location>) -> (r: Option<Job>)
    ensures
        location is None ==> r is None,
        location matches Some(l) ==> r matches Some(j) && j == (Job {
            address,
            location: l,
            kind,
            reserve: DEFAULT_RESERVE_SECONDS,
        }),
{
    match location {
        None => None,
        Some(l) => Some(Job { address, location: l, kind, reserve: DEFAULT_RESERVE_SECONDS }),
    }
}

/// Builds the warehouse job: the home point appended last to the job list.
/// No service time is reserved at the warehouse.
pub fn warehouse_job(address: String, location: Location) -> (r: Job)
    ensures
        r == (Job { address, location, kind: JobKind::Warehouse, reserve: 0u64 }),
{
    Job { address, location, kind: JobKind::Warehouse, reserve: 0 }
}

/// Joins the four parts of a postal address into the single comma-separated
/// query string handed to the geocoder.
pub fn format_address(street: &str, city: &str, county: &str, postcode: &str) -> (r: String)
    ensures
        r@ == street@ + ","@ + city@ + ","@ + county@ + ","@ + postcode@,
{
    let mut out = street.to_owned();
    out.append(",");
    out.append(city);
    out.append(",");
    out.append(county);
    out.append(",");
    out.append(postcode);
    proof {
        assert(out@ =~= street@ + ","@ + city@ + ","@ + county@ + ","@ + postcode@);
    }
    out
}

} // verus!
