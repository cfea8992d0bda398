//! Single-day delivery/collection route planning.
//!
//! The heart of the crate is the route search engine: jobs are modelled as
//! geolocated stops (`jobs`), the pairwise travel durations between them form
//! a complete undirected graph (`edges`), candidate visiting orders are
//! repaired so that the vehicle returns to the warehouse between a collection
//! and any following delivery (`repair`), each repaired route is scored by its
//! total elapsed time (`score`), and an exhaustive permutation search picks
//! the cheapest route (`perms`, `search`).
//!
//! Around the engine the crate keeps the small verified pieces of the
//! surrounding tooling: endpoint descriptions for the rental-management and
//! field-service APIs (`endpoint`, `endpoints`) and the credential records
//! used to authenticate against them (`authentication`).  All network and
//! file I/O lives outside this crate; callers hand in plain values.

pub mod authentication;
pub mod database;
pub mod decimal;
pub mod edges;
pub mod endpoint;
pub mod endpoints;
pub mod jobs;
pub mod perms;
pub mod repair;
pub mod score;
pub mod search;
