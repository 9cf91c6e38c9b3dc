//! What a log may show of a request.
use crate::arm::Arm;
use vstd::prelude::*;

verus! {

/// The method of a request, as `reqwest::Request::method` reports it.
pub uninterp spec fn method_of(r: reqwest::Request) -> Seq<char>;

/// The host of a request's address, as `reqwest::Url::host_str` reports it.
pub uninterp spec fn host_of(r: reqwest::Request) -> Option<Seq<char>>;

/// The path of a request's address, as `reqwest::Url::path` reports it: the
/// part that ends where a query or a fragment begins.
pub uninterp spec fn path_of(r: reqwest::Request) -> Seq<char>;

/// `reqwest::Request::method`, as text: the text is [`method_of`] the request.
#[verifier::external_body]
fn request_method(r: &reqwest::Request) -> (s: &str)
    ensures
        s@ == method_of(*r),
{
    r.method().as_str()
}

/// `reqwest::Url::host_str` of the request's address: the host is [`host_of`]
/// the request, and there is none where the address has none.
#[verifier::external_body]
fn request_host(r: &reqwest::Request) -> (s: Option<&str>)
    ensures
        s is Some <==> host_of(*r) is Some,
        s matches Some(h) ==> h@ == host_of(*r)->0,
{
    r.url().host_str()
}

/// `reqwest::Url::path` of the request's address: the path is [`path_of`] the
/// request. How an address is divided into its parts is left unsaid.
#[verifier::external_body]
fn request_path(r: &reqwest::Request) -> (s: &str)
    ensures
        s@ == path_of(*r),
{
    r.url().path()
}

/// What a log shows of a request: host and path only, because query strings
/// often carry API keys.
#[derive(Debug)]
pub struct SpanFields {
    pub name: String,
    pub method: String,
    pub host: String,
    pub path: String,
}

/// What [`SpanFields`] stand for.
pub struct SpanView {
    pub name: Seq<char>,
    pub method: Seq<char>,
    pub host: Seq<char>,
    pub path: Seq<char>,
}

impl View for SpanFields {
    type V = SpanView;

    open spec fn view(&self) -> SpanView {
        SpanView {
            name: self.name@,
            method: self.method@,
            host: self.host@,
            path: self.path@,
        }
    }
}

/// The host as a log shows it: nothing where there is none.
pub open spec fn shown_host(host: Option<Seq<char>>) -> Seq<char> {
    match host {
        Some(h) => h,
        None => ""@,
    }
}

/// What a log shows of `request` on an arm of that name.
pub open spec fn span_of(name: Seq<char>, request: reqwest::Request) -> SpanView {
    SpanView {
        name,
        method: method_of(request),
        host: shown_host(host_of(request)),
        path: path_of(request),
    }
}

impl SpanFields {
    /// The fields with these values; a host that is absent is shown as nothing.
    pub fn new(name: &str, method: &str, host: Option<&str>, path: &str) -> (f: SpanFields)
        ensures
            f@ == (SpanView {
                name: name@,
                method: method@,
                host: shown_host(
                    match host {
                        Some(h) => Some(h@),
                        None => None,
                    },
                ),
                path: path@,
            }),
            f.host@ == (match host {
                Some(h) => h@,
                None => Seq::empty(),
            }),
    {
        proof {
            reveal_strlit("");
            assert(""@ =~= Seq::empty());
        }
        let host = match host {
            Some(h) => h.to_owned(),
            None => "".to_owned(),
        };
        SpanFields { name: name.to_owned(), method: method.to_owned(), host, path: path.to_owned() }
    }
}

impl<P, T> Arm<P, T> {
    /// What a log may show of `request` on this arm.
    pub fn span_fields(&self, request: &reqwest::Request) -> (f: SpanFields)
        ensures
            f@ == span_of(self@.name, *request),
            f.name@ == self@.name,
            f.method@ == method_of(*request),
            f.path@ == path_of(*request),
            host_of(*request) is Some ==> f.host@ == host_of(*request)->0,
            host_of(*request) is None ==> f.host@.len() == 0,
    {
        proof {
            reveal_strlit("");
        }
        SpanFields::new(
            self.name(),
            request_method(request),
            request_host(request),
            request_path(request),
        )
    }
}

/// A log shows the arm's name, the method, the path, and the host or nothing
/// where there is none: each of them as it is.
pub proof fn law_span_shows_them_as_they_are(name: Seq<char>, r: reqwest::Request)
    ensures
        span_of(name, r).name == name,
        span_of(name, r).method == method_of(r),
        span_of(name, r).path == path_of(r),
        host_of(r) is Some ==> span_of(name, r).host == host_of(r)->0,
        host_of(r) is None ==> span_of(name, r).host.len() == 0,
{
    reveal_strlit("");
}

/// Requests that differ in anything but method, host and path, such as their
/// query strings, look the same in a log.
pub proof fn law_span_shows_host_and_path_only(
    name: Seq<char>,
    a: reqwest::Request,
    b: reqwest::Request,
)
    requires
        method_of(a) == method_of(b),
        host_of(a) == host_of(b),
        path_of(a) == path_of(b),
    ensures
        span_of(name, a) == span_of(name, b),
{
}

} // verus!
