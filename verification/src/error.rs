//! What can go wrong.
use crate::outcome::Outcome;
use crate::text::{decimal, decimal_digits};
use reqwest::Error as ClientError;
use vstd::prelude::*;
use vstd::string::StringExecFns;

verus! {

/// `reqwest::Error`, a failure of the HTTP client.
#[verifier::external_type_specification]
#[verifier::external_body]
pub struct ExClientError(ClientError);

/// `std::io::Error`, which can carry any error.
#[verifier::external_type_specification]
#[verifier::external_body]
pub struct ExIoError(std::io::Error);

/// What `reqwest::Error::is_timeout` says of `e`.
pub uninterp spec fn is_timeout(e: ClientError) -> bool;

/// What `reqwest::Error::is_connect` says of `e`.
pub uninterp spec fn is_connect(e: ClientError) -> bool;

/// What `reqwest::Error::is_body` says of `e`.
pub uninterp spec fn is_body(e: ClientError) -> bool;

/// What `reqwest::Error::is_decode` says of `e`.
pub uninterp spec fn is_decode(e: ClientError) -> bool;

/// What `reqwest::Error::is_request` says of `e`.
pub uninterp spec fn is_request(e: ClientError) -> bool;

/// What `reqwest::Error::is_builder` says of `e`.
pub uninterp spec fn is_builder(e: ClientError) -> bool;

/// The text of `e`, as its `Display` writes it.
pub uninterp spec fn error_text(e: ClientError) -> Seq<char>;

/// `reqwest::Error::is_timeout`: whether a timeout is among the causes.
pub assume_specification[ ClientError::is_timeout ](e: &ClientError) -> (r: bool)
    ensures
        r == is_timeout(*e),
;

/// `reqwest::Error::is_connect`: whether a failed connection is among the
/// causes.
pub assume_specification[ ClientError::is_connect ](e: &ClientError) -> (r: bool)
    ensures
        r == is_connect(*e),
;

/// `reqwest::Error::is_body`: whether the error is about a body.
pub assume_specification[ ClientError::is_body ](e: &ClientError) -> (r: bool)
    ensures
        r == is_body(*e),
;

/// `reqwest::Error::is_decode`: whether the error is about decoding a body.
pub assume_specification[ ClientError::is_decode ](e: &ClientError) -> (r: bool)
    ensures
        r == is_decode(*e),
;

/// `reqwest::Error::is_request`: whether the error is about sending a request.
pub assume_specification[ ClientError::is_request ](e: &ClientError) -> (r: bool)
    ensures
        r == is_request(*e),
;

/// `reqwest::Error::is_builder`: whether the error is about building a request.
pub assume_specification[ ClientError::is_builder ](e: &ClientError) -> (r: bool)
    ensures
        r == is_builder(*e),
;

/// `Display` of `reqwest::Error`: the text is [`error_text`].
#[verifier::external_body]
fn reqwest_text(e: &ClientError) -> (s: String)
    ensures
        s@ == error_text(*e),
{
    e.to_string()
}

/// `Display` of `std::io::Error`. Nothing is claimed of the text: it is up to
/// the error that is carried, or to the operating system and its language.
#[verifier::external_body]
fn other_text(e: &std::io::Error) -> (s: String) {
    e.to_string()
}

/// Broad category of a failure that happened before a full response arrived.
#[derive(Debug, Clone, Copy, PartialEq, Eq, Structural)]
#[non_exhaustive]
pub enum TransportErrorKind {
    /// The request or the body read timed out.
    Timeout,
    /// DNS, TCP or TLS connection failure.
    Connect,
    /// The connection broke while the body was being read.
    Body,
    /// The request itself was malformed or could not be sent.
    Request,
    /// Anything else.
    Other,
}

impl TransportErrorKind {
    /// The category of a failure that shows these traits. An earlier trait
    /// outweighs a later one.
    pub open spec fn of_traits(
        timeout: bool,
        connect: bool,
        body: bool,
        decode: bool,
        request: bool,
        builder: bool,
    ) -> TransportErrorKind {
        if timeout {
            TransportErrorKind::Timeout
        } else if connect {
            TransportErrorKind::Connect
        } else if body || decode {
            TransportErrorKind::Body
        } else if request || builder {
            TransportErrorKind::Request
        } else {
            TransportErrorKind::Other
        }
    }

    /// The category of a client failure.
    pub open spec fn of_error(e: ClientError) -> TransportErrorKind {
        TransportErrorKind::of_traits(
            is_timeout(e),
            is_connect(e),
            is_body(e),
            is_decode(e),
            is_request(e),
            is_builder(e),
        )
    }

    /// The category of a failure that shows these traits.
    pub fn classify(
        timeout: bool,
        connect: bool,
        body: bool,
        decode: bool,
        request: bool,
        builder: bool,
    ) -> (kind: TransportErrorKind)
        ensures
            kind == TransportErrorKind::of_traits(timeout, connect, body, decode, request, builder),
            timeout ==> kind is Timeout,
            !timeout && connect ==> kind is Connect,
            !timeout && !connect && (body || decode) ==> kind is Body,
            !timeout && !connect && !body && !decode && (request || builder) ==> kind is Request,
            !timeout && !connect && !body && !decode && !request && !builder ==> kind is Other,
    {
        if timeout {
            TransportErrorKind::Timeout
        } else if connect {
            TransportErrorKind::Connect
        } else if body || decode {
            TransportErrorKind::Body
        } else if request || builder {
            TransportErrorKind::Request
        } else {
            TransportErrorKind::Other
        }
    }

    /// The name of the category.
    pub open spec fn label(self) -> Seq<char> {
        match self {
            TransportErrorKind::Timeout => "Timeout"@,
            TransportErrorKind::Connect => "Connect"@,
            TransportErrorKind::Body => "Body"@,
            TransportErrorKind::Request => "Request"@,
            TransportErrorKind::Other => "Other"@,
        }
    }

    /// The name of the category.
    pub fn name(&self) -> (s: &'static str)
        ensures
            s@ == self.label(),
            *self is Timeout ==> s@ == "Timeout"@,
            *self is Connect ==> s@ == "Connect"@,
            *self is Body ==> s@ == "Body"@,
            *self is Request ==> s@ == "Request"@,
            *self is Other ==> s@ == "Other"@,
    {
        match self {
            TransportErrorKind::Timeout => "Timeout",
            TransportErrorKind::Connect => "Connect",
            TransportErrorKind::Body => "Body",
            TransportErrorKind::Request => "Request",
            TransportErrorKind::Other => "Other",
        }
    }
}

/// What a client failure is depends on its traits in this order: whatever timed
/// out is a timeout, whatever else failed to connect is a connect failure, then
/// come bodies, then requests, and only what shows no trait at all is other.
pub proof fn law_kind_follows_the_first_trait(e: ClientError)
    ensures
        TransportErrorKind::of_error(e) is Timeout <==> is_timeout(e),
        TransportErrorKind::of_error(e) is Connect <==> is_connect(e) && !is_timeout(e),
        TransportErrorKind::of_error(e) is Body <==> (is_body(e) || is_decode(e)) && !is_timeout(e)
            && !is_connect(e),
        TransportErrorKind::of_error(e) is Request <==> (is_request(e) || is_builder(e))
            && !is_timeout(e) && !is_connect(e) && !is_body(e) && !is_decode(e),
        TransportErrorKind::of_error(e) is Other <==> !is_timeout(e) && !is_connect(e)
            && !is_body(e) && !is_decode(e) && !is_request(e) && !is_builder(e),
{
}

/// Each category goes by its own name.
pub proof fn law_labels(kind: TransportErrorKind)
    ensures
        kind is Timeout ==> kind.label() == "Timeout"@,
        kind is Connect ==> kind.label() == "Connect"@,
        kind is Body ==> kind.label() == "Body"@,
        kind is Request ==> kind.label() == "Request"@,
        kind is Other ==> kind.label() == "Other"@,
{
}

/// What a [`TransportError`] wraps.
#[derive(Debug)]
pub enum Source {
    /// A message.
    Message(String),
    /// A failure of the HTTP client.
    Reqwest(ClientError),
    /// Any other error, carried as `std::io::Error::other` carries it.
    Other(std::io::Error),
}

impl Source {
    /// Whether `s` can be the source as text. An error that is neither a
    /// message nor a failure of the HTTP client may say anything.
    pub open spec fn reads(self, s: Seq<char>) -> bool {
        match self {
            Source::Message(m) => s == m@,
            Source::Reqwest(e) => s == error_text(e),
            Source::Other(_) => true,
        }
    }
}

/// What a [`TransportError`] stands for.
pub struct TransportErrorView {
    pub kind: TransportErrorKind,
    pub source: Source,
}

/// A failure that happened before a full response was received.
///
/// Wraps the underlying error (usually `reqwest::Error`) behind a small
/// `kind`, so policies don't depend on reqwest internals and tests can
/// fabricate transport failures.
#[derive(Debug)]
pub struct TransportError {
    kind: TransportErrorKind,
    source: Source,
}

impl View for TransportError {
    type V = TransportErrorView;

    closed spec fn view(&self) -> TransportErrorView {
        TransportErrorView { kind: self.kind, source: self.source }
    }
}

impl TransportErrorView {
    /// The failure as text, where `source` is the text of its source.
    pub open spec fn message(self, source: Seq<char>) -> Seq<char> {
        "transport error ("@ + self.kind.label() + "): "@ + source
    }

    /// Whether `s` can be the failure as text.
    pub open spec fn reads(self, s: Seq<char>) -> bool {
        exists|source: Seq<char>| #[trigger]
            self.message(source) == s && self.source.reads(source)
    }
}

impl TransportError {
    /// A failure of category `kind` with `source` as its message.
    pub fn new(kind: TransportErrorKind, source: &str) -> (e: TransportError)
        ensures
            e@.kind == kind,
            e@.source matches Source::Message(m) && m@ == source@,
    {
        TransportError { kind, source: Source::Message(source.to_owned()) }
    }

    /// A failure of category `kind` that `source` underlies.
    pub fn with_source(kind: TransportErrorKind, source: Source) -> (e: TransportError)
        ensures
            e@ == (TransportErrorView { kind, source }),
    {
        TransportError { kind, source }
    }

    /// The category of the failure.
    pub fn kind(&self) -> (kind: TransportErrorKind)
        ensures
            kind == self@.kind,
    {
        self.kind
    }

    /// The underlying error.
    pub fn source(&self) -> (source: &Source)
        ensures
            *source == self@.source,
    {
        &self.source
    }

    /// The failure as text, where `source` is the text of its source.
    pub fn message_with(&self, source: &str) -> (s: String)
        ensures
            s@ == self@.message(source@),
            s@ == "transport error ("@ + self@.kind.label() + "): "@ + source@,
    {
        let mut s = "transport error (".to_owned();
        s.append(self.kind.name());
        s.append("): ");
        s.append(source);
        s
    }

    /// The failure as text.
    pub fn message(&self) -> (s: String)
        ensures
            self@.reads(s@),
            self@.source matches Source::Message(m) ==> s@ == self@.message(m@),
            self@.source matches Source::Reqwest(e) ==> s@ == self@.message(error_text(e)),
    {
        let source = match &self.source {
            Source::Message(m) => m.as_str().to_owned(),
            Source::Reqwest(e) => reqwest_text(e),
            Source::Other(e) => other_text(e),
        };
        self.message_with(source.as_str())
    }
}

impl From<ClientError> for TransportError {
    fn from(e: ClientError) -> (r: TransportError)
        ensures
            r@ == (TransportErrorView {
                kind: TransportErrorKind::of_error(e),
                source: Source::Reqwest(e),
            }),
            is_timeout(e) ==> r@.kind is Timeout,
            is_connect(e) && !is_timeout(e) ==> r@.kind is Connect,
    {
        let kind = TransportErrorKind::classify(
            e.is_timeout(),
            e.is_connect(),
            e.is_body(),
            e.is_decode(),
            e.is_request(),
            e.is_builder(),
        );
        TransportError { kind, source: Source::Reqwest(e) }
    }
}

impl vstd::std_specs::convert::FromSpecImpl<ClientError> for TransportError {
    open spec fn obeys_from_spec() -> bool {
        true
    }

    closed spec fn from_spec(e: ClientError) -> TransportError {
        TransportError { kind: TransportErrorKind::of_error(e), source: Source::Reqwest(e) }
    }
}

/// Why a send failed. `E` is the policy's own error type.
#[derive(Debug)]
#[non_exhaustive]
pub enum Error<E> {
    /// The request body can't be cloned (e.g. a stream), so it can't be retried.
    NotCloneable,
    /// A transport failure the policy chose not to retry.
    Transport(TransportError),
    /// Every allowed attempt failed. `last` is what the final attempt produced.
    Exhausted { attempts: u32, last: Box<Result<Outcome, TransportError>> },
    /// The arm's total deadline (across all attempts) elapsed.
    Deadline,
    /// The policy rejected the response.
    Policy(E),
}

impl<E> Error<E> {
    /// Whether `s` can be the error as text, where `policy` is the text of the
    /// policy's own error.
    pub open spec fn reads(self, s: Seq<char>, policy: Seq<char>) -> bool {
        match self {
            Error::NotCloneable => s == "request cannot be retried: its body is not cloneable"@,
            Error::Transport(e) => e@.reads(s),
            Error::Exhausted { attempts, last } => s == "gave up after "@ + decimal_digits(
                attempts as nat,
            ) + " attempts"@,
            Error::Deadline => s == "total deadline exceeded"@,
            Error::Policy(_) => s == "policy rejected the response: "@ + policy,
        }
    }

    /// The error as text. `policy` is the text of the policy's own error; it
    /// shows only where there is one.
    pub fn message_with(&self, policy: &str) -> (s: String)
        ensures
            self.reads(s@, policy@),
            *self is NotCloneable ==> s@
                == "request cannot be retried: its body is not cloneable"@,
            *self matches Error::Exhausted { attempts, .. } ==> s@ == "gave up after "@
                + decimal_digits(attempts as nat) + " attempts"@,
            *self is Deadline ==> s@ == "total deadline exceeded"@,
            *self is Policy ==> s@ == "policy rejected the response: "@ + policy@,
    {
        match self {
            Error::NotCloneable => {
                "request cannot be retried: its body is not cloneable".to_owned()
            },
            Error::Transport(e) => e.message(),
            Error::Exhausted { attempts, last: _ } => {
                let mut s = "gave up after ".to_owned();
                s.append(decimal(*attempts).as_str());
                s.append(" attempts");
                s
            },
            Error::Deadline => "total deadline exceeded".to_owned(),
            Error::Policy(_) => {
                let mut s = "policy rejected the response: ".to_owned();
                s.append(policy);
                s
            },
        }
    }
}

} // verus!
