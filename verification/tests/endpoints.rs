//! Tests of the endpoint builders, credentials, and decimal rendering.

use schedule_assistant::authentication::AuthenticationCache;
use schedule_assistant::database::Person;
use schedule_assistant::decimal::u64_to_string;
use schedule_assistant::endpoint::{BasicEndpoint, Endpoint, PagedEndpoint};
use schedule_assistant::endpoints::{current_rms, servicem8};

#[test]
fn decimal_rendering() {
    assert_eq!(u64_to_string(0), "0");
    assert_eq!(u64_to_string(7), "7");
    assert_eq!(u64_to_string(42), "42");
    assert_eq!(u64_to_string(1_234_567_890_123), "1234567890123");
    assert_eq!(u64_to_string(u64::MAX), "18446744073709551615");
}

#[test]
fn basic_endpoint_renders_its_base_url() {
    let e = BasicEndpoint { base_url: String::from("https://example.invalid/x") };
    assert_eq!(e.url(), "https://example.invalid/x");
}

#[test]
fn opportunities_endpoint_starts_at_page_zero() {
    let e = current_rms::opportunities();
    assert_eq!(e.base_url, "https://api.current-rms.com/api/v1/opportunities");
    assert_eq!(e.page, 0);
}

#[test]
fn paged_url_appends_pagination() {
    let e = current_rms::opportunities();
    assert_eq!(
        e.url(),
        "https://api.current-rms.com/api/v1/opportunities?page=0&per_page=100"
    );
}

#[test]
fn advance_moves_to_the_next_page() {
    let mut e = current_rms::opportunities();
    e.advance();
    e.advance();
    assert_eq!(e.page, 2);
    assert_eq!(
        e.url(),
        "https://api.current-rms.com/api/v1/opportunities?page=2&per_page=100"
    );
}

#[test]
fn unparsable_base_url_is_returned_bare() {
    let e = PagedEndpoint { base_url: String::from("not a url"), page: 1 };
    assert_eq!(e.url(), "not a url");
}

#[test]
fn mark_as_dead_url() {
    let e = current_rms::mark_as_dead(42);
    assert_eq!(e.url(), "https://api.current-rms.com/api/v1/opportunities/42/mark_as_dead");
}

#[test]
fn print_document_url() {
    let e = current_rms::opportunity_print_document_pdf("acme", 7, 9);
    assert_eq!(
        e.url(),
        "https://acme.current-rms.com/opportunities/7/print_document.pdf?document_id=9"
    );
}

#[test]
fn field_service_urls() {
    assert_eq!(servicem8::clients().url(), "https://api.servicem8.com/api_1.0/company.json");
    assert_eq!(servicem8::activities().url(), "https://api.servicem8.com/api_1.0/jobactivity.json");
    assert_eq!(servicem8::contacts().url(), "https://api.servicem8.com/api_1.0/jobcontact.json");
    assert_eq!(servicem8::jobs().url(), "https://api.servicem8.com/api_1.0/job.json");
}

#[test]
fn authentication_cache_keeps_credentials() {
    let cache = AuthenticationCache::new(
        String::from("acme"),
        String::from("SECRET-REDACTED"),
        String::from("user"),
        String::from("SECRET-REDACTED"),
    );
    assert_eq!(cache.currentrms().subdomain, "acme");
    assert_eq!(cache.currentrms().password, "SECRET-REDACTED");
    assert_eq!(cache.servicem8().username, "user");
    assert_eq!(cache.servicem8().password, "SECRET-REDACTED");
}

#[test]
fn person_row_keeps_its_parts() {
    let p = Person::new(1, String::from("Ada"), Some(vec![1, 2, 3]));
    assert_eq!(p.id, 1);
    assert_eq!(p.name, "Ada");
    assert_eq!(p.data, Some(vec![1, 2, 3]));
}
