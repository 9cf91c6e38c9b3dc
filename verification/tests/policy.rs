use bytes::Bytes;
use http::header::{HeaderValue, RETRY_AFTER};
use http::HeaderMap;
use rustopus::policy::{preview, retry_after, retry_pause};
use rustopus::{
    Decision, HttpStatusError, Outcome, Policy, StatusCode, StatusPolicy, TransportError,
    TransportErrorKind,
};
use std::time::Duration;

fn outcome(status: u16, retry_after: Option<&str>) -> Result<Outcome, TransportError> {
    let mut headers = HeaderMap::new();
    if let Some(v) = retry_after {
        headers.insert(RETRY_AFTER, v.parse().unwrap());
    }
    Ok(Outcome {
        status: StatusCode::from_u16(status).unwrap(),
        headers,
        body: Bytes::from_static(b"body"),
    })
}

#[test]
fn classifies_statuses() {
    let p = StatusPolicy::new();
    assert!(matches!(p.decide(1, &outcome(200, None)), Decision::Accept));
    assert!(matches!(p.decide(1, &outcome(503, None)), Decision::Retry { after: None }));
    assert!(matches!(p.decide(1, &outcome(400, None)), Decision::Fail(_)));
    assert!(matches!(p.decide(1, &outcome(404, None)), Decision::Fail(_)));
}

#[test]
fn honours_and_caps_retry_after() {
    let p = StatusPolicy::new();
    match p.decide(1, &outcome(429, Some("3"))) {
        Decision::Retry { after: Some(d) } => assert_eq!(d, Duration::from_secs(3)),
        other => panic!("{other:?}"),
    }
    match p.decide(1, &outcome(429, Some("99999"))) {
        Decision::Retry { after: Some(d) } => assert_eq!(d, Duration::from_secs(60)),
        other => panic!("{other:?}"),
    }
    // HTTP-date form is ignored for now.
    assert!(matches!(
        p.decide(1, &outcome(429, Some("Wed, 21 Oct 2026 07:28:00 GMT"))),
        Decision::Retry { after: None }
    ));
}

#[test]
fn retries_transient_transport_errors_only() {
    let p = StatusPolicy::new();
    let t = Err(TransportError::new(TransportErrorKind::Timeout, "t"));
    let r = Err(TransportError::new(TransportErrorKind::Request, "bad"));
    assert!(matches!(p.decide(1, &t), Decision::Retry { after: None }));
    assert!(matches!(p.decide(1, &r), Decision::Accept));
}

#[test]
fn every_status_falls_into_its_class() {
    let p = StatusPolicy::default();
    for code in 100..=999u16 {
        match p.decide(1, &outcome(code, None)) {
            Decision::Accept => assert!((200..=299).contains(&code), "{code}"),
            Decision::Retry { after: None } => {
                assert!([408, 429, 500, 502, 503, 504].contains(&code), "{code}")
            }
            Decision::Fail(e) => {
                assert!(!(200..=299).contains(&code), "{code}");
                assert!(![408, 429, 500, 502, 503, 504].contains(&code), "{code}");
                assert_eq!(e.status.as_u16(), code);
                assert_eq!(&e.body[..], b"body");
            }
            other => panic!("{other:?}"),
        }
    }
}

#[test]
fn every_transport_failure_falls_into_its_class() {
    let p = StatusPolicy::new();
    for (kind, retried) in [
        (TransportErrorKind::Timeout, true),
        (TransportErrorKind::Connect, true),
        (TransportErrorKind::Body, true),
        (TransportErrorKind::Request, false),
        (TransportErrorKind::Other, false),
    ] {
        let d = p.decide(7, &Err(TransportError::new(kind, "x")));
        assert_eq!(matches!(d, Decision::Retry { after: None }), retried);
        assert_eq!(matches!(d, Decision::Accept), !retried);
    }
}

#[test]
fn retry_after_bound_is_adjustable() {
    let p = StatusPolicy::new().max_retry_after(Duration::from_millis(1500));
    match p.clone().decide(1, &outcome(503, Some("2"))) {
        Decision::Retry { after: Some(d) } => assert_eq!(d, Duration::from_millis(1500)),
        other => panic!("{other:?}"),
    }
    match p.decide(1, &outcome(503, Some("1"))) {
        Decision::Retry { after: Some(d) } => assert_eq!(d, Duration::from_secs(1)),
        other => panic!("{other:?}"),
    }
}

#[test]
fn retry_after_reads_plain_seconds_only() {
    let max = Duration::from_secs(1_000_000);
    let read = |v: &str| retry_pause(v, max);
    assert_eq!(read("0"), Some(Duration::ZERO));
    assert_eq!(read("120"), Some(Duration::from_secs(120)));
    assert_eq!(read(" \t 7 \t"), Some(Duration::from_secs(7)));
    assert_eq!(read("+7"), Some(Duration::from_secs(7)));
    assert_eq!(read("007"), Some(Duration::from_secs(7)));
    assert_eq!(read("18446744073709551615"), Some(max));
    assert_eq!(read("18446744073709551616"), None);
    for bad in ["", " ", "+", "-1", "++1", "1.5", "1 2", "1s", "0x10", "99999999999999999999999"] {
        assert_eq!(read(bad), None, "{bad}");
        assert_eq!(bad.trim().parse::<u64>().ok(), None, "{bad}");
    }
}

#[test]
fn retry_after_uses_the_first_field_and_needs_text() {
    let max = Duration::from_secs(60);
    let mut headers = HeaderMap::new();
    assert_eq!(retry_after(&headers, max), None);
    headers.append("Retry-After", HeaderValue::from_static("5"));
    headers.append("Retry-After", HeaderValue::from_static("9"));
    assert_eq!(retry_after(&headers, max), Some(Duration::from_secs(5)));
    headers.insert(RETRY_AFTER, HeaderValue::from_bytes(b"5\xff").unwrap());
    assert_eq!(retry_after(&headers, max), None);
}

#[test]
fn status_errors_read_well() {
    let e = HttpStatusError {
        status: StatusCode::from_u16(404).unwrap(),
        body: Bytes::from_static(b"no such series"),
    };
    assert_eq!(e.clone().message(), "HTTP 404 Not Found: no such series");
    let e = HttpStatusError { status: StatusCode::from_u16(799).unwrap(), body: Bytes::new() };
    assert_eq!(e.message(), "HTTP 799 <unknown status code>: ");
    assert_eq!(HttpStatusError::message_with("200 OK", "x"), "HTTP 200 OK: x");
}

#[test]
fn previews_are_cut_at_two_hundred_bytes() {
    assert_eq!(preview(&Bytes::from(vec![b'x'; 200])), "x".repeat(200));
    assert_eq!(preview(&Bytes::from(vec![b'x'; 201])), "x".repeat(200));
    assert_eq!(preview(&Bytes::from_static(b"a\xffb")), "a\u{fffd}b");
    assert_eq!(preview(&Bytes::new()), "");
    // Cut in the middle of a character.
    let mut body = vec![b'a'; 199];
    body.extend_from_slice(b"\xc3\xa9");
    assert_eq!(preview(&Bytes::from(body)), "a".repeat(199) + "\u{fffd}");
}

#[test]
fn outcomes_show_their_body_as_text() {
    let mut o = outcome(200, Some("4")).unwrap();
    assert_eq!(o.text_lossy(), "body");
    o.body = Bytes::from_static(b"caf\xc3\xa9 \xff");
    let copy = o.clone();
    assert_eq!(copy.text_lossy(), "caf\u{e9} \u{fffd}");
    assert_eq!(copy.status.as_u16(), 200);
    assert_eq!(copy.headers.get(RETRY_AFTER).unwrap(), "4");
}

#[test]
fn status_codes_fall_into_classes() {
    for code in 100..1000u16 {
        let ours = StatusCode::from_u16(code).unwrap();
        let theirs = http::StatusCode::from_u16(code).unwrap();
        assert_eq!(ours.is_informational(), theirs.is_informational(), "{code}");
        assert_eq!(ours.is_success(), theirs.is_success(), "{code}");
        assert_eq!(ours.is_redirection(), theirs.is_redirection(), "{code}");
        assert_eq!(ours.is_client_error(), theirs.is_client_error(), "{code}");
        assert_eq!(ours.is_server_error(), theirs.is_server_error(), "{code}");
    }
}

#[test]
fn status_codes_run_from_100_to_999() {
    assert!(StatusCode::from_u16(99).is_err());
    assert!(StatusCode::from_u16(1000).is_err());
    assert!(StatusCode::from_u16(0).is_err());
    assert_eq!(StatusCode::from_u16(100).unwrap().as_u16(), 100);
    assert_eq!(StatusCode::from_u16(999).unwrap().as_u16(), 999);
    assert!(!StatusCode::from_u16(199).unwrap().is_success());
    assert!(StatusCode::from_u16(299).unwrap().is_success());
    assert_eq!(StatusCode::from_u16(429).unwrap().text(), "429 Too Many Requests");
    assert!(StatusCode::from_u16(429).unwrap() == StatusCode::from_u16(429).unwrap());
}
