//! What a response means.
use crate::duration::{nanos, shorter, NANOS_PER_SEC};
use crate::error::{TransportError, TransportErrorKind};
use crate::outcome::{
    ascii_text, body_bytes, clone_body, content, fields, from_utf8_lossy, is_visible, lossy_text,
    retry_after_value, Outcome,
};
use crate::status::{reason_phrase, status_text, StatusCode};
use crate::text::{parse_u64, parsed_u64, trimmed};
use bytes::Bytes;
use http::HeaderMap;
use std::time::Duration;
use vstd::prelude::*;
use vstd::slice::slice_subrange;
use vstd::string::StringExecFns;
use vstd::utf8::{decode_utf8, valid_utf8};

verus! {

/// What the arm should do with the result of one attempt.
#[derive(Debug)]
#[non_exhaustive]
pub enum Decision<E> {
    /// Stop and hand the result back as-is (`Ok(outcome)`, or
    /// `Error::Transport` if the attempt was a transport failure).
    Accept,
    /// Try again.
    ///
    /// * `after: None`: wait per the arm's [`Backoff`](crate::Backoff); only this request waits.
    /// * `after: Some(d)`: the server told us how long. The *whole arm* pauses for
    ///   `d`, so the other in-flight requests don't each rediscover the 429.
    Retry { after: Option<Duration> },
    /// Stop and fail with the API's own error.
    Fail(E),
}

/// What a response means for one particular API.
///
/// The arm supplies the mechanics (limits, waiting, the retry loop); the
/// policy only answers "accept, retry, or fail?". It is synchronous on
/// purpose: it sees a fully buffered [`Outcome`], so it can look at status,
/// headers *and* body.
pub trait Policy: Send + Sync + 'static {
    /// The API-specific error returned via [`Decision::Fail`].
    type Error: Send + 'static;

    /// `attempt` starts at 1. `result` is `Err` if no full response arrived.
    fn decide(&self, attempt: u32, result: &Result<Outcome, TransportError>) -> (d: Decision<
        Self::Error,
    >);
}

/// Error produced by [`StatusPolicy`] for non-retryable HTTP failures.
#[derive(Debug)]
pub struct HttpStatusError {
    pub status: StatusCode,
    pub body: Bytes,
}

impl Clone for HttpStatusError {
    fn clone(&self) -> (e: HttpStatusError)
        ensures
            e.status == self.status,
            content(e.body) == content(self.body),
    {
        HttpStatusError { status: self.status, body: clone_body(&self.body) }
    }
}

/// How many bytes of a body a message shows.
pub const PREVIEW_BYTES: usize = 200;

/// The beginning of a body that a message shows.
pub open spec fn preview_bytes(body: Seq<u8>) -> Seq<u8> {
    if body.len() <= PREVIEW_BYTES {
        body
    } else {
        body.take(PREVIEW_BYTES as int)
    }
}

/// The beginning of `body` as text.
pub fn preview(body: &Bytes) -> (s: String)
    ensures
        s@ == lossy_text(preview_bytes(content(*body))),
        valid_utf8(preview_bytes(content(*body))) ==> s@ == decode_utf8(
            preview_bytes(content(*body)),
        ),
{
    let all = body_bytes(body);
    let cut: usize = if all.len() <= PREVIEW_BYTES {
        all.len()
    } else {
        PREVIEW_BYTES
    };
    let head = slice_subrange(all, 0, cut);
    assert(head@ =~= preview_bytes(content(*body)));
    from_utf8_lossy(head)
}

impl HttpStatusError {
    /// The error as text, where `status` is the text of its status and
    /// `preview` the beginning of its body.
    pub fn message_with(status: &str, preview: &str) -> (s: String)
        ensures
            s@ == "HTTP "@ + status@ + ": "@ + preview@,
    {
        let mut s = "HTTP ".to_owned();
        s.append(status);
        s.append(": ");
        s.append(preview);
        s
    }

    /// The error as text: the status and the beginning of the body.
    pub fn message(&self) -> (s: String)
        ensures
            s@ == "HTTP "@ + status_text(self.status@, reason_phrase(self.status@)) + ": "@
                + lossy_text(preview_bytes(content(self.body))),
            valid_utf8(preview_bytes(content(self.body))) ==> s@ == "HTTP "@ + status_text(
                self.status@,
                reason_phrase(self.status@),
            ) + ": "@ + decode_utf8(preview_bytes(content(self.body))),
    {
        let status = self.status.text();
        let head = preview(&self.body);
        HttpStatusError::message_with(status.as_str(), head.as_str())
    }
}

/// Whether a failure of this category may pass by itself.
pub open spec fn is_transient(kind: TransportErrorKind) -> bool {
    kind is Timeout || kind is Connect || kind is Body
}

/// Whether a response with this status is worth another try.
pub open spec fn is_retryable(code: u16) -> bool {
    code == 408 || code == 429 || code == 500 || code == 502 || code == 503 || code == 504
}

/// The seconds that a `Retry-After` value asks for, if it asks in seconds.
pub open spec fn retry_seconds(value: Seq<u8>) -> Option<u64> {
    if forall|i: int| 0 <= i < value.len() ==> is_visible(#[trigger] value[i]) {
        parsed_u64(trimmed(ascii_text(value)))
    } else {
        None
    }
}

/// So many seconds in nanoseconds, held to `max`.
pub open spec fn held_nanos(secs: Option<u64>, max: nat) -> Option<nat> {
    match secs {
        Some(secs) => Some(
            if secs * NANOS_PER_SEC <= max {
                (secs * NANOS_PER_SEC) as nat
            } else {
                max
            },
        ),
        None => None,
    }
}

/// The pause, in nanoseconds, that the headers ask for, held to `max`.
pub open spec fn retry_nanos(headers: HeaderMap, max: nat) -> Option<nat> {
    if fields(headers).contains_key("retry-after"@) {
        held_nanos(retry_seconds(fields(headers)["retry-after"@][0]), max)
    } else {
        None
    }
}

/// Whether `d` is as long as `n` says, or absent where `n` is.
pub open spec fn lasts(d: Option<Duration>, n: Option<nat>) -> bool {
    match d {
        Some(d) => n == Some(nanos(d)),
        None => n is None,
    }
}

/// Sensible default for plain REST APIs, so a new wrapper needs no policy code.
///
/// * 2xx: accept
/// * timeout / connect / body errors: retry with backoff
/// * 408, 429, 500, 502, 503, 504: retry, honouring `Retry-After` (in seconds)
/// * any other status: fail with [`HttpStatusError`]
#[derive(Debug)]
pub struct StatusPolicy {
    max_retry_after: Duration,
}

impl Clone for StatusPolicy {
    fn clone(&self) -> (p: StatusPolicy)
        ensures
            p == *self,
    {
        StatusPolicy { max_retry_after: self.max_retry_after }
    }
}

impl View for StatusPolicy {
    type V = nat;

    /// The upper bound on a `Retry-After`, in nanoseconds.
    closed spec fn view(&self) -> nat {
        nanos(self.max_retry_after)
    }
}

impl StatusPolicy {
    /// A policy that honours a `Retry-After` of up to 60s.
    pub fn new() -> (p: StatusPolicy)
        ensures
            p@ == 60 * NANOS_PER_SEC,
    {
        StatusPolicy { max_retry_after: Duration::new(60, 0) }
    }

    /// Upper bound on how long a `Retry-After` may stall the arm (default 60s).
    pub fn max_retry_after(self, max: Duration) -> (p: StatusPolicy)
        ensures
            p@ == nanos(max),
    {
        StatusPolicy { max_retry_after: max }
    }
}

impl Default for StatusPolicy {
    fn default() -> (p: StatusPolicy)
        ensures
            p@ == 60 * NANOS_PER_SEC,
    {
        StatusPolicy::new()
    }
}

/// Whether `d` is what [`StatusPolicy`] decides on `result`, where `max`
/// bounds a `Retry-After` in nanoseconds.
pub open spec fn status_decision(
    max: nat,
    result: Result<Outcome, TransportError>,
    d: Decision<HttpStatusError>,
) -> bool {
    match result {
        Err(e) => if is_transient(e@.kind) {
            d == Decision::<HttpStatusError>::Retry { after: None }
        } else {
            d == Decision::<HttpStatusError>::Accept
        },
        Ok(o) => if 200 <= o.status@ <= 299 {
            d == Decision::<HttpStatusError>::Accept
        } else if is_retryable(o.status@) {
            d matches Decision::Retry { after } && lasts(after, retry_nanos(o.headers, max))
        } else {
            d matches Decision::Fail(e) && e.status == o.status && content(e.body) == content(
                o.body,
            )
        },
    }
}

impl Policy for StatusPolicy {
    type Error = HttpStatusError;

    fn decide(&self, attempt: u32, result: &Result<Outcome, TransportError>) -> (d: Decision<
        HttpStatusError,
    >)
        ensures
            status_decision(self@, *result, d),
            *result matches Ok(o) ==> (d is Accept <==> 200 <= o.status@ <= 299),
            *result matches Ok(o) ==> (d is Retry <==> o.status@ == 408 || o.status@ == 429
                || o.status@ == 500 || o.status@ == 502 || o.status@ == 503 || o.status@ == 504),
            *result matches Err(e) ==> (d is Retry <==> e@.kind is Timeout || e@.kind is Connect
                || e@.kind is Body),
            *result matches Err(e) ==> !(d is Fail),
    {
        match result {
            Err(e) => match e.kind() {
                TransportErrorKind::Timeout
                | TransportErrorKind::Connect
                | TransportErrorKind::Body => Decision::Retry { after: None },
                _ => Decision::Accept,
            },
            Ok(o) => {
                if o.status.is_success() {
                    return Decision::Accept;
                }
                let code: u16 = o.status.as_u16();
                if code == 408 || code == 429 || code == 500 || code == 502 || code == 503 || code
                    == 504 {
                    Decision::Retry { after: retry_after(&o.headers, self.max_retry_after) }
                } else {
                    Decision::Fail(HttpStatusError { status: o.status, body: clone_body(&o.body) })
                }
            },
        }
    }
}

/// The pause that `text`, the value of a `Retry-After` field, asks for in
/// seconds, held to `max`.
pub fn retry_pause(text: &str, max: Duration) -> (d: Option<Duration>)
    requires
        text.is_ascii(),
    ensures
        lasts(d, held_nanos(parsed_u64(trimmed(text@)), nanos(max))),
{
    match parse_u64(text) {
        Some(secs) => Some(shorter(Duration::new(secs, 0), max)),
        None => None,
    }
}

/// Parses `Retry-After: <seconds>`. The HTTP-date form is not supported yet
/// and is treated as absent (the arm's backoff is used instead).
pub fn retry_after(headers: &HeaderMap, max: Duration) -> (d: Option<Duration>)
    ensures
        lasts(d, retry_nanos(*headers, nanos(max))),
{
    match retry_after_value(headers) {
        Some(value) => match value.to_str() {
            Ok(text) => retry_pause(text, max),
            Err(_) => None,
        },
        None => None,
    }
}

} // verus!
