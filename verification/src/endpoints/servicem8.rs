//! Endpoints of the field-service system.

use vstd::prelude::*;

use crate::endpoint::BasicEndpoint;

verus! {

/// The list of client companies.
pub fn clients() -> (e: BasicEndpoint)
    ensures
        e.base_url@ == "https://api.servicem8.com/api_1.0/company.json"@,
{
    BasicEndpoint { base_url: "https://api.servicem8.com/api_1.0/company.json".to_owned() }
}

/// The list of job activities.
pub fn activities() -> (e: BasicEndpoint)
    ensures
        e.base_url@ == "https://api.servicem8.com/api_1.0/jobactivity.json"@,
{
    BasicEndpoint { base_url: "https://api.servicem8.com/api_1.0/jobactivity.json".to_owned() }
}

/// The list of job contacts.
pub fn contacts() -> (e: BasicEndpoint)
    ensures
        e.base_url@ == "https://api.servicem8.com/api_1.0/jobcontact.json"@,
{
    BasicEndpoint { base_url: "https://api.servicem8.com/api_1.0/jobcontact.json".to_owned() }
}

/// The list of jobs.
pub fn jobs() -> (e: BasicEndpoint)
    ensures
        e.base_url@ == "https://api.servicem8.com/api_1.0/job.json"@,
{
    BasicEndpoint { base_url: "https://api.servicem8.com/api_1.0/job.json".to_owned() }
}

} // verus!
