use bytes::Bytes;
use http::HeaderMap;
use rustopus::flight::describe;
use rustopus::text::decimal;
use rustopus::{Error, Outcome, Source, StatusCode, TransportError, TransportErrorKind};

fn response(status: u16) -> Outcome {
    Outcome {
        status: StatusCode::from_u16(status).unwrap(),
        headers: HeaderMap::new(),
        body: Bytes::from_static(b"{}"),
    }
}

#[test]
fn transport_errors_keep_kind_and_source() {
    let e = TransportError::new(TransportErrorKind::Connect, "refused");
    assert_eq!(e.kind(), TransportErrorKind::Connect);
    assert_eq!(e.message(), "transport error (Connect): refused");
    assert!(matches!(e.source(), Source::Message(m) if m == "refused"));
}

#[test]
fn earlier_traits_outweigh_later_ones() {
    let f = TransportErrorKind::classify;
    assert_eq!(f(true, true, true, true, true, true), TransportErrorKind::Timeout);
    assert_eq!(f(false, true, true, true, true, true), TransportErrorKind::Connect);
    assert_eq!(f(false, false, true, false, true, true), TransportErrorKind::Body);
    assert_eq!(f(false, false, false, true, true, true), TransportErrorKind::Body);
    assert_eq!(f(false, false, false, false, true, false), TransportErrorKind::Request);
    assert_eq!(f(false, false, false, false, false, true), TransportErrorKind::Request);
    assert_eq!(f(false, false, false, false, false, false), TransportErrorKind::Other);
}

#[test]
fn a_request_that_cannot_be_built_is_a_request_error() {
    let e = reqwest::Client::new().get("not a url").build().unwrap_err();
    let text = e.to_string();
    let e = TransportError::from(e);
    assert_eq!(e.kind(), TransportErrorKind::Request);
    assert!(matches!(e.source(), Source::Reqwest(r) if r.is_builder()));
    assert_eq!(e.message(), format!("transport error (Request): {text}"));
}

#[test]
fn a_refusing_status_is_none_of_the_named_kinds() {
    let r = http::Response::builder().status(500).body("").unwrap();
    let e = reqwest::Response::from(r).error_for_status().unwrap_err();
    assert_eq!(TransportError::from(e).kind(), TransportErrorKind::Other);
}

#[test]
fn a_failing_connection_is_a_connect_error() {
    let rt = tokio::runtime::Builder::new_current_thread().enable_all().build().unwrap();
    let e = rt.block_on(async {
        // Without TLS support no https connection can be made.
        reqwest::Client::builder().no_proxy().build().unwrap().get("https://127.0.0.1:1/").send().await.unwrap_err()
    });
    assert_eq!(TransportError::from(e).kind(), TransportErrorKind::Connect);
}

#[derive(Debug)]
struct Broken(u8);

impl std::fmt::Display for Broken {
    fn fmt(&self, f: &mut std::fmt::Formatter<'_>) -> std::fmt::Result {
        f.write_str(&format!("broken {}", self.0))
    }
}

impl std::error::Error for Broken {}

#[test]
fn any_error_can_be_the_source() {
    let carried = Source::Other(std::io::Error::other(Broken(7)));
    let e = TransportError::with_source(TransportErrorKind::Body, carried);
    assert_eq!(e.kind(), TransportErrorKind::Body);
    assert_eq!(e.message(), "transport error (Body): broken 7");
    assert_eq!(e.message_with("x"), "transport error (Body): x");
    match e.source() {
        Source::Other(io) => {
            assert_eq!(io.get_ref().unwrap().downcast_ref::<Broken>().unwrap().0, 7);
        }
        other => panic!("{other:?}"),
    }
    let e = Error::<String>::Transport(e);
    assert_eq!(e.message_with(""), "transport error (Body): broken 7");
}

#[test]
fn errors_read_well() {
    let timeout = TransportError::new(TransportErrorKind::Timeout, "slow");
    let text = |e: Error<String>| e.message_with("bad series");
    assert_eq!(text(Error::NotCloneable), "request cannot be retried: its body is not cloneable");
    assert_eq!(text(Error::Transport(timeout)), "transport error (Timeout): slow");
    assert_eq!(
        text(Error::Exhausted { attempts: 12, last: Box::new(Ok(response(503))) }),
        "gave up after 12 attempts"
    );
    assert_eq!(text(Error::Deadline), "total deadline exceeded");
    assert_eq!(text(Error::Policy("ignored".to_string())), "policy rejected the response: bad series");
}

#[test]
fn results_are_described_briefly() {
    assert_eq!(describe(&Ok(response(429))), "status 429");
    let e = Err(TransportError::new(TransportErrorKind::Body, "cut"));
    assert_eq!(describe(&e), "transport error Body");
}

#[test]
fn decimals_match_the_usual_ones() {
    for n in [0, 7, 10, 99, 100, 1_000_000, u32::MAX] {
        assert_eq!(decimal(n), n.to_string());
    }
}
