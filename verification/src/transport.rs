//! The way to the network.
use vstd::prelude::*;

verus! {

/// `reqwest::Client`, a handle on the HTTP client.
#[verifier::external_type_specification]
#[verifier::external_body]
pub struct ExClient(reqwest::Client);

/// `reqwest::Request`, a request ready to be sent.
#[verifier::external_type_specification]
#[verifier::external_body]
pub struct ExRequest(reqwest::Request);

/// The copy of a request that `reqwest::Request::try_clone` makes: same
/// method, address, headers, body and settings. A streaming body cannot be
/// copied, and then there is none.
pub uninterp spec fn copy_of(r: reqwest::Request) -> Option<reqwest::Request>;

/// `reqwest::Request::try_clone` returns [`copy_of`] the request.
pub assume_specification[ reqwest::Request::try_clone ](r: &reqwest::Request) -> (c: Option<
    reqwest::Request,
>)
    ensures
        c == copy_of(*r),
;

/// `reqwest::Client::clone` returns one more handle on the same client.
pub assume_specification[ <reqwest::Client as Clone>::clone ](c: &reqwest::Client) -> (r:
    reqwest::Client)
    ensures
        r == *c,
;

/// The real thing: sends requests through a `reqwest::Client`.
#[derive(Debug)]
pub struct ReqwestTransport {
    client: reqwest::Client,
}

impl Clone for ReqwestTransport {
    fn clone(&self) -> (t: ReqwestTransport)
        ensures
            t@ == self@,
    {
        ReqwestTransport { client: self.client.clone() }
    }
}

impl View for ReqwestTransport {
    type V = reqwest::Client;

    closed spec fn view(&self) -> reqwest::Client {
        self.client
    }
}

impl ReqwestTransport {
    /// A transport over `client`.
    pub fn new(client: reqwest::Client) -> (t: ReqwestTransport)
        ensures
            t@ == client,
    {
        ReqwestTransport { client }
    }

    /// The client that requests go through.
    pub fn client(&self) -> (client: &reqwest::Client)
        ensures
            *client == self@,
    {
        &self.client
    }
}

} // verus!
