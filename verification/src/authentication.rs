//! Credential records for the two services.
//!
//! The library only carries the credentials; reading them from the
//! environment, running an authorization flow, and attaching them to a
//! request are the application's concern.

use vstd::prelude::*;

verus! {

/// Username and password for an HTTP basic-authentication service.
pub struct BasicAuthentication {
    pub username: String,
    pub password: String,
}

/// Subdomain and access token for a service addressed per account.
pub struct SubdomainAuthentication {
    pub subdomain: String,
    pub password: String,
}

/// The credentials a run needs, gathered once up front.
pub struct AuthenticationCache {
    pub currentrms: SubdomainAuthentication,
    pub servicem8: BasicAuthentication,
}

impl AuthenticationCache {
    /// Builds the cache from the credentials the caller obtained (from its
    /// environment or an authorization flow).
    pub fn new(subdomain: String, token: String, username: String, password: String) -> (c:
        AuthenticationCache)
        ensures
            c.currentrms.subdomain == subdomain,
            c.currentrms.password == token,
            c.servicem8.username == username,
            c.servicem8.password == password,
    {
        AuthenticationCache {
            currentrms: SubdomainAuthentication { subdomain, password: token },
            servicem8: BasicAuthentication { username, password },
        }
    }

    /// The field-service credentials.
    pub fn servicem8(&self) -> (a: &BasicAuthentication)
        ensures
            *a == self.servicem8,
    {
        &self.servicem8
    }

    /// The rental-management credentials.
    pub fn currentrms(&self) -> (a: &SubdomainAuthentication)
        ensures
            *a == self.currentrms,
    {
        &self.currentrms
    }
}

} // verus!
