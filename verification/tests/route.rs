//! Tests of the route search engine: jobs, edges, repair, scoring, search.

use schedule_assistant::edges::{edge_pairs, EdgeMatrix, SearchNode};
use schedule_assistant::jobs::{
    build_job, format_address, opportunity_is_confirmed, warehouse_job, Job, JobKind, Location,
    DEFAULT_RESERVE_SECONDS,
};
use schedule_assistant::perms::all_permutations;
use schedule_assistant::repair::repair;
use schedule_assistant::score::score;
use schedule_assistant::search::search;

fn here() -> Location {
    Location { lat_micro: 174_628_520, lon_micro: -36_886_249 }
}

fn stop(kind: JobKind) -> Job {
    build_job(String::from("stop"), kind, Some(here())).unwrap()
}

/// A job list from the non-warehouse kinds, with the warehouse appended last.
fn run_jobs(kinds: &[JobKind]) -> Vec<Job> {
    let mut jobs: Vec<Job> = kinds.iter().map(|k| stop(*k)).collect();
    jobs.push(warehouse_job(String::from("home"), here()));
    jobs
}

/// A complete matrix over `n` jobs with every edge the same duration.
fn uniform_matrix(n: usize, seconds: u64) -> EdgeMatrix {
    let pairs = edge_pairs(n);
    let nodes: Vec<SearchNode> =
        pairs.into_iter().map(|edge| SearchNode { edge, value: Some(seconds) }).collect();
    EdgeMatrix::build(n, &nodes)
}

#[test]
fn warehouse_bookends() {
    let jobs = run_jobs(&[JobKind::Delivery, JobKind::Collection]);
    let edges = uniform_matrix(3, 600);
    let (route, _) = search(&jobs, &edges);
    assert_eq!(*route.first().unwrap(), 2);
    assert_eq!(*route.last().unwrap(), 2);
}

#[test]
fn separation_rule_inserts_warehouse() {
    let jobs = run_jobs(&[JobKind::Collection, JobKind::Delivery]);
    let repaired = repair(&vec![0, 1], &jobs);
    assert_eq!(repaired, vec![2, 0, 2, 1, 2]);
    for pair in repaired.windows(2) {
        let first_is_collection = jobs[pair[0]].kind == JobKind::Collection;
        let second_is_delivery = jobs[pair[1]].kind == JobKind::Delivery;
        assert!(!(first_is_collection && second_is_delivery));
    }
}

#[test]
fn scoring_is_deterministic() {
    let jobs = run_jobs(&[JobKind::Collection, JobKind::Delivery]);
    let edges = uniform_matrix(3, 600);
    let route = repair(&vec![1, 0], &jobs);
    let once = score(&route, &edges, &jobs);
    let twice = score(&route, &edges, &jobs);
    assert_eq!(once, twice);
}

#[test]
fn empty_run_returns_warehouse_only() {
    let jobs = run_jobs(&[]);
    let edges = uniform_matrix(1, 600);
    let (route, duration) = search(&jobs, &edges);
    assert_eq!(route, vec![0]);
    assert_eq!(duration, 0);
}

#[test]
fn single_delivery_route() {
    let jobs = run_jobs(&[JobKind::Delivery]);
    let edges = uniform_matrix(2, 600);
    let (route, duration) = search(&jobs, &edges);
    assert_eq!(route, vec![1, 0, 1]);
    assert_eq!(duration, 2 * 600 + DEFAULT_RESERVE_SECONDS);
}

#[test]
fn three_jobs_evaluate_six_permutations() {
    let perms = all_permutations(3);
    assert_eq!(perms.len(), 6);
    for p in &perms {
        let mut sorted = p.clone();
        sorted.sort_unstable();
        assert_eq!(sorted, vec![0, 1, 2]);
    }
    for a in 0..perms.len() {
        for b in (a + 1)..perms.len() {
            assert_ne!(perms[a], perms[b]);
        }
    }
    let trivial = all_permutations(0);
    assert_eq!(trivial.len(), 1);
    assert!(trivial[0].is_empty());
}

#[test]
fn collection_then_delivery_scenario() {
    // One collection, one delivery, every leg ten minutes, half an hour
    // reserved per stop.  Visiting the collection first forces a warehouse
    // leg before the delivery (100 minutes in all); visiting the delivery
    // first needs no insertion and wins at 90 minutes.
    let jobs = run_jobs(&[JobKind::Collection, JobKind::Delivery]);
    let edges = uniform_matrix(3, 600);

    let forced = repair(&vec![0, 1], &jobs);
    assert_eq!(forced, vec![2, 0, 2, 1, 2]);
    assert_eq!(score(&forced, &edges, &jobs), 6000);

    let unforced = repair(&vec![1, 0], &jobs);
    assert_eq!(unforced, vec![2, 1, 0, 2]);
    assert_eq!(score(&unforced, &edges, &jobs), 5400);

    let (route, duration) = search(&jobs, &edges);
    assert_eq!(route, vec![2, 1, 0, 2]);
    assert_eq!(duration, 5400);
}

#[test]
fn consecutive_collections_need_no_warehouse() {
    let jobs = run_jobs(&[JobKind::Collection, JobKind::Collection]);
    let repaired = repair(&vec![0, 1], &jobs);
    assert_eq!(repaired, vec![2, 0, 1, 2]);
    let (route, _) = search(&jobs, &uniform_matrix(3, 600));
    assert_eq!(route.len(), 4);
}

#[test]
fn failed_edge_lookup_scores_zero() {
    let pairs = edge_pairs(3);
    let nodes: Vec<SearchNode> = pairs
        .into_iter()
        .map(|edge| SearchNode { edge, value: if edge == (0, 1) { None } else { Some(300) } })
        .collect();
    let edges = EdgeMatrix::build(3, &nodes);
    assert_eq!(edges.duration(0, 1), 0);
    assert_eq!(edges.duration(1, 0), 0);
    assert_eq!(edges.duration(0, 2), 300);
    assert_eq!(edges.duration(2, 0), 300);
}

#[test]
fn edge_pairs_enumeration() {
    assert_eq!(edge_pairs(4), vec![(0, 1), (0, 2), (0, 3), (1, 2), (1, 3), (2, 3)]);
    assert_eq!(edge_pairs(1), vec![]);
    assert_eq!(edge_pairs(2).len(), 1);
}

#[test]
fn geocoding_failure_drops_job() {
    assert!(build_job(String::from("nowhere"), JobKind::Delivery, None).is_none());
    let job = build_job(String::from("somewhere"), JobKind::Collection, Some(here())).unwrap();
    assert_eq!(job.address, "somewhere");
    assert_eq!(job.kind, JobKind::Collection);
    assert_eq!(job.reserve, DEFAULT_RESERVE_SECONDS);
}

#[test]
fn warehouse_job_reserves_no_time() {
    let home = warehouse_job(String::from("home"), here());
    assert_eq!(home.kind, JobKind::Warehouse);
    assert_eq!(home.reserve, 0);
}

#[test]
fn format_address_joins_with_commas() {
    let joined = format_address("1 High St", "Town", "County", "0000");
    assert_eq!(joined, "1 High St,Town,County,0000");
    assert_eq!(format_address("", "", "", ""), ",,,");
}

#[test]
fn confirmed_state_filter() {
    assert!(opportunity_is_confirmed(3));
    assert!(!opportunity_is_confirmed(0));
    assert!(!opportunity_is_confirmed(2));
}

#[test]
fn final_collection_unload_rule() {
    // When the stop before the final return is a collection, the final
    // stop's own reserve is charged once more for unloading.  The warehouse
    // reserves no time today, so the rule only shows with a nonzero final
    // reserve.
    let jobs = vec![
        Job {
            address: String::from("pickup"),
            location: here(),
            kind: JobKind::Collection,
            reserve: 1800,
        },
        Job { address: String::from("yard"), location: here(), kind: JobKind::Warehouse, reserve: 7 },
    ];
    let edges = uniform_matrix(2, 600);
    let route = vec![0, 1];
    assert_eq!(score(&route, &edges, &jobs), 600 + 1800 + 7);
}
