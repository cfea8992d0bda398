//! Endpoints of the rental-management service.

use vstd::prelude::*;

use crate::decimal::{dec_chars, u64_to_string};
use crate::endpoint::{BasicEndpoint, PagedEndpoint};

verus! {

/// The paged listing of all opportunities.
pub fn opportunities() -> (e: PagedEndpoint)
    ensures
        e.base_url@ == "https://api.current-rms.com/api/v1/opportunities"@,
        e.page == 0,
{
    let base_url = "https://api.current-rms.com/api/v1/opportunities".to_owned();
    PagedEndpoint { base_url, page: 0 }
}

/// Marks one opportunity as dead (a lost quote).
pub fn mark_as_dead(id: u64) -> (e: BasicEndpoint)
    ensures
        e.base_url@ == "https://api.current-rms.com/api/v1/opportunities/"@ + dec_chars(id as nat)
            + "/mark_as_dead"@,
{
    let mut base_url = "https://api.current-rms.com/api/v1/opportunities/".to_owned();
    let id_text = u64_to_string(id);
    base_url.append(id_text.as_str());
    base_url.append("/mark_as_dead");
    proof {
        assert(base_url@ =~= "https://api.current-rms.com/api/v1/opportunities/"@ + dec_chars(
            id as nat,
        ) + "/mark_as_dead"@);
    }
    BasicEndpoint { base_url }
}

/// The printable PDF of one document of an opportunity, on the account's
/// own subdomain.
pub fn opportunity_print_document_pdf(subdomain: &str, opportunity_id: u64, document_id: u64) -> (e:
    BasicEndpoint)
    ensures
        e.base_url@ == "https://"@ + subdomain@ + ".current-rms.com/opportunities/"@ + dec_chars(
            opportunity_id as nat,
        ) + "/print_document.pdf?document_id="@ + dec_chars(document_id as nat),
{
    let mut base_url = "https://".to_owned();
    base_url.append(subdomain);
    base_url.append(".current-rms.com/opportunities/");
    let op_text = u64_to_string(opportunity_id);
    base_url.append(op_text.as_str());
    base_url.append("/print_document.pdf?document_id=");
    let doc_text = u64_to_string(document_id);
    base_url.append(doc_text.as_str());
    proof {
        assert(base_url@ =~= "https://"@ + subdomain@ + ".current-rms.com/opportunities/"@
            + dec_chars(opportunity_id as nat) + "/print_document.pdf?document_id="@ + dec_chars(
            document_id as nat,
        ));
    }
    BasicEndpoint { base_url }
}

} // verus!
