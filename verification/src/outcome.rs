//! What came back from one attempt.
use crate::status::StatusCode;
use bytes::Bytes;
use http::header::{HeaderValue, ToStrError};
use http::HeaderMap;
use vstd::prelude::*;
use vstd::utf8::{decode_utf8, valid_utf8};

verus! {

/// `bytes::Bytes`, a run of bytes.
#[verifier::external_type_specification]
#[verifier::external_body]
pub struct ExBytes(bytes::Bytes);

/// `http::HeaderMap`, the header fields of a message.
#[verifier::external_type_specification]
#[verifier::external_body]
#[verifier::reject_recursive_types(T)]
pub struct ExHeaderMap<T>(http::HeaderMap<T>);

/// `http::header::HeaderValue`, the bytes of one header field.
#[verifier::external_type_specification]
#[verifier::external_body]
pub struct ExHeaderValue(http::header::HeaderValue);

/// `http::header::ToStrError`, the error of a header value that is no text.
#[verifier::external_type_specification]
#[verifier::external_body]
pub struct ExToStrError(http::header::ToStrError);

/// The bytes that a `Bytes` holds.
pub uninterp spec fn content(b: Bytes) -> Seq<u8>;

/// The values of each header field by its lower-case name, first one first.
/// A field that is absent has no entry.
pub uninterp spec fn fields(h: HeaderMap) -> Map<Seq<char>, Seq<Seq<u8>>>;

/// The bytes of a header value.
pub uninterp spec fn value_bytes(v: HeaderValue) -> Seq<u8>;

/// The text that `String::from_utf8_lossy` makes of bytes.
pub uninterp spec fn lossy_text(bytes: Seq<u8>) -> Seq<char>;

/// `Bytes::deref` lends out the bytes held.
#[verifier::external_body]
pub(crate) fn body_bytes(b: &Bytes) -> (s: &[u8])
    ensures
        s@ == content(*b),
{
    &b[..]
}

/// `Bytes::clone` holds the same bytes.
#[verifier::external_body]
pub(crate) fn clone_body(b: &Bytes) -> (r: Bytes)
    ensures
        content(r) == content(*b),
{
    b.clone()
}

/// `HeaderMap::clone` holds the same fields.
#[verifier::external_body]
fn clone_headers(h: &HeaderMap) -> (r: HeaderMap)
    ensures
        fields(r) == fields(*h),
{
    h.clone()
}

/// `HeaderMap::get` for the `Retry-After` field: its first value, or nothing
/// where the field is absent.
#[verifier::external_body]
pub(crate) fn retry_after_value(h: &HeaderMap) -> (r: Option<&HeaderValue>)
    ensures
        r is Some <==> fields(*h).contains_key("retry-after"@),
        r matches Some(v) ==> fields(*h)["retry-after"@].len() > 0 && value_bytes(*v)
            == fields(*h)["retry-after"@][0],
{
    h.get(http::header::RETRY_AFTER)
}

/// Whether `b` is visible ASCII, a space or a tab.
pub open spec fn is_visible(b: u8) -> bool {
    32 <= b < 127 || b == 9
}

/// Bytes read as one character each.
pub open spec fn ascii_text(bytes: Seq<u8>) -> Seq<char> {
    Seq::new(bytes.len(), |i: int| bytes[i] as char)
}

/// `HeaderValue::to_str` yields the value as text where every byte of it is
/// visible ASCII, a space or a tab, and an error otherwise.
pub assume_specification[ HeaderValue::to_str ](v: &HeaderValue) -> (r: Result<&str, ToStrError>)
    ensures
        r is Ok <==> forall|i: int|
            0 <= i < value_bytes(*v).len() ==> is_visible(#[trigger] value_bytes(*v)[i]),
        r matches Ok(s) ==> s@ == ascii_text(value_bytes(*v)),
;

/// `String::from_utf8_lossy` keeps valid UTF-8 as it is and replaces what is
/// not. What it makes of invalid bytes is [`lossy_text`].
#[verifier::external_body]
pub(crate) fn from_utf8_lossy(bytes: &[u8]) -> (s: String)
    ensures
        s@ == lossy_text(bytes@),
        valid_utf8(bytes@) ==> s@ == decode_utf8(bytes@),
{
    String::from_utf8_lossy(bytes).into_owned()
}

/// A fully-received HTTP response: status, headers and the whole body.
///
/// The body is buffered so a [`Policy`](crate::Policy) can inspect it
/// (many APIs put the real error in the JSON) and so a body-read failure
/// can be retried like any other transport failure.
#[derive(Debug)]
pub struct Outcome {
    pub status: StatusCode,
    pub headers: HeaderMap,
    pub body: Bytes,
}

impl Clone for Outcome {
    fn clone(&self) -> (o: Outcome)
        ensures
            o.status == self.status,
            fields(o.headers) == fields(self.headers),
            content(o.body) == content(self.body),
    {
        Outcome {
            status: self.status,
            headers: clone_headers(&self.headers),
            body: clone_body(&self.body),
        }
    }
}

impl Outcome {
    /// The body as text, replacing invalid UTF-8 sequences.
    pub fn text_lossy(&self) -> (s: String)
        ensures
            s@ == lossy_text(content(self.body)),
            valid_utf8(content(self.body)) ==> s@ == decode_utf8(content(self.body)),
    {
        from_utf8_lossy(body_bytes(&self.body))
    }
}

} // verus!
