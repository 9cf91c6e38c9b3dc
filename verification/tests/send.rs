use bytes::Bytes;
use governor::clock::{Clock, FakeRelativeClock};
use governor::middleware::NoOpMiddleware;
use governor::state::{InMemoryState, NotKeyed};
use governor::RateLimiter;
use http::header::RETRY_AFTER;
use http::HeaderMap;
use rustopus::{
    Action, Arm, ArmBuilder, Backoff, Brain, Decision, Error, Event, Flight, HttpStatusError,
    Outcome, Phase, Policy, Quota, ReqwestTransport, StatusCode, StatusPolicy, TransportError,
    SpanFields, TransportErrorKind, Turn,
};
use std::collections::VecDeque;
use std::num::NonZeroU32;
use std::time::Duration;

fn resp(status: u16) -> Result<Outcome, TransportError> {
    Ok(Outcome {
        status: StatusCode::from_u16(status).unwrap(),
        headers: HeaderMap::new(),
        body: Bytes::from_static(b"{}"),
    })
}

fn resp_retry_after(status: u16, secs: u64) -> Result<Outcome, TransportError> {
    let mut o = resp(status).unwrap();
    o.headers.insert(RETRY_AFTER, secs.to_string().parse().unwrap());
    Ok(o)
}

fn resp_body(status: u16, body: &'static [u8]) -> Result<Outcome, TransportError> {
    let mut o = resp(status).unwrap();
    o.body = Bytes::from_static(body);
    Ok(o)
}

fn request() -> reqwest::Request {
    reqwest::Client::new().get("http://example.invalid/x").build().unwrap()
}

fn fast() -> Backoff {
    Backoff::constant(Duration::from_millis(1))
}

fn builder() -> ArmBuilder<StatusPolicy> {
    Arm::builder().backoff(fast())
}

fn millis(n: u64) -> u128 {
    Duration::from_millis(n).as_nanos()
}

type Limiter = RateLimiter<
    NotKeyed,
    InMemoryState,
    FakeRelativeClock,
    NoOpMiddleware<<FakeRelativeClock as Clock>::Instant>,
>;

/// What a request waits for.
enum Pending {
    Event(Event),
    Token,
}

/// One request in the simulation.
struct Sent<'a, P: Policy, T> {
    flight: Flight<'a, P, T>,
    deadline: Option<u128>,
    pending: Option<(u128, Pending)>,
    holds_slot: bool,
    finished: Option<(u128, Result<Outcome, Error<P::Error>>)>,
}

/// Replays scripted results in call order against a simulated clock.
struct World<'a, P: Policy, T> {
    now: u128,
    brain: Brain,
    free: usize,
    queue: VecDeque<usize>,
    script: VecDeque<Result<Outcome, TransportError>>,
    latency: u128,
    calls: usize,
    sent_at: Vec<u128>,
    asked: usize,
    in_flight: usize,
    peak: usize,
    clock: FakeRelativeClock,
    limiter: Option<Limiter>,
    sent: Vec<Sent<'a, P, T>>,
}

impl<'a, P: Policy, T> World<'a, P, T> {
    fn new(arm: &'a Arm<P, T>, script: Vec<Result<Outcome, TransportError>>) -> Self {
        let clock = FakeRelativeClock::default();
        World {
            now: 0,
            brain: Brain::new(),
            free: arm.suckers(),
            queue: VecDeque::new(),
            script: script.into(),
            latency: 0,
            calls: 0,
            sent_at: Vec::new(),
            asked: 0,
            in_flight: 0,
            peak: 0,
            limiter: arm.quota().map(|q| RateLimiter::direct_with_clock(q, clock.clone())),
            clock,
            sent: Vec::new(),
        }
    }

    fn send_at(&mut self, arm: &'a Arm<P, T>, at: u128) {
        self.sent.push(Sent {
            flight: arm.send(request()),
            deadline: arm.total_timeout().map(|d| at + d.as_nanos()),
            pending: Some((at, Pending::Event(Event::Start))),
            holds_slot: false,
            finished: None,
        });
    }

    fn release(&mut self, i: usize) {
        if self.sent[i].holds_slot {
            self.sent[i].holds_slot = false;
            self.free += 1;
        }
        while self.free > 0 {
            match self.queue.pop_front() {
                Some(j) if self.sent[j].finished.is_none() => self.grant(j),
                Some(_) => {}
                None => return,
            }
        }
    }

    fn grant(&mut self, i: usize) {
        self.free -= 1;
        self.sent[i].holds_slot = true;
        self.sent[i].pending = Some((self.now, Pending::Event(Event::SlotAcquired)));
    }

    fn try_token(&mut self, i: usize) {
        let wait = match self.limiter.as_ref().unwrap().check() {
            Ok(_) => None,
            Err(not_until) => Some(not_until.wait_time_from(self.clock.now())),
        };
        self.sent[i].pending = Some(match wait {
            None => (self.now, Pending::Event(Event::TokenTaken)),
            Some(wait) => (self.now + wait.as_nanos().max(1), Pending::Token),
        });
    }

    fn happen(&mut self, i: usize, mut event: Event) {
        if matches!(event, Event::Answered(_)) {
            self.in_flight -= 1;
            self.release(i);
        }
        loop {
            let action = self.sent[i].flight.step(event);
            let (at, next) = match action {
                Action::AcquireSlot => {
                    if self.free > 0 {
                        self.grant(i);
                    } else {
                        self.queue.push_back(i);
                    }
                    return;
                }
                Action::ReadClock => {
                    event = Event::Clock { now: self.now, brain: self.brain };
                    continue;
                }
                Action::SleepUntil(t) => {
                    assert!(self.sent[i].holds_slot);
                    (t, Event::Woke)
                }
                Action::TakeToken => {
                    assert!(self.sent[i].holds_slot);
                    self.asked += 1;
                    return self.try_token(i);
                }
                Action::Transmit(copy) => {
                    assert!(self.sent[i].holds_slot);
                    assert_eq!(copy.url().as_str(), "http://example.invalid/x");
                    self.calls += 1;
                    self.sent_at.push(self.now);
                    self.in_flight += 1;
                    self.peak = self.peak.max(self.in_flight);
                    let result = self.script.pop_front().expect("script exhausted");
                    (self.now + self.latency, Event::Answered(result))
                }
                Action::PauseArm(d) => {
                    assert!(!self.sent[i].holds_slot);
                    self.brain.pause_for(self.now, d);
                    event = Event::ArmPaused;
                    continue;
                }
                Action::Sleep(d) => {
                    assert!(!self.sent[i].holds_slot);
                    (self.now + d.as_nanos(), Event::Rested)
                }
                Action::Finish(result) => {
                    self.release(i);
                    self.sent[i].finished = Some((self.now, result));
                    return;
                }
                Action::PauseAndFinish(d, result) => {
                    assert!(!self.sent[i].holds_slot);
                    self.brain.pause_for(self.now, d);
                    self.sent[i].finished = Some((self.now, result));
                    return;
                }
                Action::Ignored => panic!("ignored"),
            };
            self.sent[i].pending = Some((at, Pending::Event(next)));
            return;
        }
    }

    /// Runs until every request is finished.
    fn run(&mut self) {
        loop {
            let mut first: Option<(u128, usize, bool)> = None;
            for (i, s) in self.sent.iter().enumerate() {
                if s.finished.is_some() {
                    continue;
                }
                if let Some((at, _)) = &s.pending {
                    if first.is_none_or(|f| *at < f.0) {
                        first = Some((*at, i, false));
                    }
                }
                if let Some(at) = s.deadline {
                    if first.is_none_or(|f| at < f.0) {
                        first = Some((at, i, true));
                    }
                }
            }
            let (at, i, expired) = match first {
                Some(f) => f,
                None => return,
            };
            self.clock.advance(Duration::from_nanos((at - self.now) as u64));
            self.now = at;
            if expired {
                self.happen(i, Event::DeadlineElapsed);
            } else {
                match self.sent[i].pending.take().unwrap().1 {
                    Pending::Event(event) => self.happen(i, event),
                    Pending::Token => self.try_token(i),
                }
            }
        }
    }

    fn result(&mut self, i: usize) -> Result<Outcome, Error<P::Error>> {
        self.sent[i].finished.take().unwrap().1
    }
}

#[test]
fn retries_429_429_then_succeeds() {
    let arm = builder().build_with(());
    let mut w = World::new(&arm, vec![resp(429), resp(429), resp(200)]);
    w.send_at(&arm, 0);
    w.run();
    assert_eq!(w.result(0).unwrap().status.as_u16(), 200);
    assert_eq!(w.calls, 3);
    assert_eq!(w.now, millis(2));
}

#[test]
fn client_error_fails_without_retrying() {
    let arm = builder().build_with(());
    let mut w = World::new(&arm, vec![resp(400)]);
    w.send_at(&arm, 0);
    w.run();
    match w.result(0) {
        Err(Error::Policy(e)) => assert_eq!(e.status.as_u16(), 400),
        other => panic!("{other:?}"),
    }
    assert_eq!(w.calls, 1);
}

#[test]
fn gives_up_after_max_attempts() {
    let arm = builder().max_attempts(3).build_with(());
    let mut w = World::new(&arm, vec![resp(503), resp(503), resp(503)]);
    w.send_at(&arm, 0);
    w.run();
    match w.result(0) {
        Err(Error::Exhausted { attempts, last }) => {
            assert_eq!(attempts, 3);
            assert_eq!(last.as_ref().as_ref().unwrap().status.as_u16(), 503);
        }
        other => panic!("{other:?}"),
    }
    assert_eq!(w.calls, 3);
}

#[test]
fn retries_transient_transport_errors() {
    let timeout = Err(TransportError::new(TransportErrorKind::Timeout, "slow"));
    let arm = builder().build_with(());
    let mut w = World::new(&arm, vec![timeout, resp(200)]);
    w.send_at(&arm, 0);
    w.run();
    assert_eq!(w.result(0).unwrap().status.as_u16(), 200);
    assert_eq!(w.calls, 2);
}

#[test]
fn non_retryable_transport_error_surfaces_as_transport() {
    let bad = Err(TransportError::new(TransportErrorKind::Request, "malformed"));
    let arm = builder().build_with(());
    let mut w = World::new(&arm, vec![bad]);
    w.send_at(&arm, 0);
    w.run();
    assert!(matches!(w.result(0), Err(Error::Transport(_))));
    assert_eq!(w.calls, 1);
}

/// A custom policy: this API answers 200 with `{"error": ...}` in the body.
struct BodyErrorPolicy;
impl Policy for BodyErrorPolicy {
    type Error = String;
    fn decide(&self, _a: u32, r: &Result<Outcome, TransportError>) -> Decision<String> {
        match r {
            Ok(o) if o.text_lossy().contains("rate_limited") => Decision::Retry { after: None },
            Ok(o) if o.text_lossy().contains("error") => Decision::Fail(o.text_lossy()),
            _ => Decision::Accept,
        }
    }
}

#[test]
fn custom_policy_can_read_the_body() {
    let limited = resp_body(200, br#"{"error":"rate_limited"}"#);
    let broken = resp_body(200, br#"{"error":"bad series"}"#);
    let arm = Arm::builder().policy(BodyErrorPolicy).backoff(fast()).build_with(());
    let mut w = World::new(&arm, vec![limited, broken]);
    w.send_at(&arm, 0);
    w.run();
    match w.result(0) {
        Err(Error::Policy(msg)) => assert!(msg.contains("bad series")),
        other => panic!("{other:?}"),
    }
    assert_eq!(w.calls, 2);
}

#[test]
fn suckers_cap_concurrency() {
    let arm = builder().suckers(4).build_with(());
    let mut w = World::new(&arm, (0..20).map(|_| resp(200)).collect());
    w.latency = millis(50);
    for _ in 0..20 {
        w.send_at(&arm, 0);
    }
    w.run();
    for i in 0..20 {
        assert_eq!(w.result(i).unwrap().status.as_u16(), 200);
    }
    assert_eq!(w.peak, 4);
    assert_eq!(w.now, millis(250));
}

#[test]
fn retry_after_pauses_the_whole_arm() {
    // Request A gets a 429 (Retry-After: 5). Request B starts 100ms later and
    // must also wait for the pause, even though B itself never saw a 429.
    let arm = builder().build_with(());
    let mut w = World::new(&arm, vec![resp_retry_after(429, 5), resp(200), resp(200)]);
    w.send_at(&arm, 0);
    w.send_at(&arm, millis(100));
    w.run();
    let second = w.sent[1].finished.take().unwrap();
    assert_eq!(second.1.unwrap().status.as_u16(), 200);
    assert!(second.0 >= millis(4900), "B ran during the pause: {:?}", second.0);
    assert_eq!(w.result(0).unwrap().status.as_u16(), 200);
    assert_eq!(w.calls, 3);
    assert_eq!(w.now, millis(5000));
}

#[test]
fn total_timeout_covers_all_attempts() {
    let arm = builder().total_timeout(Duration::from_secs(2)).build_with(());
    let mut w = World::new(&arm, vec![resp_retry_after(429, 30), resp(200)]);
    w.send_at(&arm, 0);
    w.run();
    assert!(matches!(w.result(0), Err(Error::Deadline)));
    assert_eq!(w.now, millis(2000));
}

#[test]
fn honours_retry_after_header() {
    let arm = Arm::builder().build_with(());
    let mut w = World::new(&arm, vec![resp_retry_after(429, 1), resp_body(200, br#"{"ok":true}"#)]);
    w.send_at(&arm, 0);
    w.run();
    let out = w.result(0).unwrap();
    assert_eq!(out.status.as_u16(), 200);
    assert_eq!(out.text_lossy(), r#"{"ok":true}"#);
    assert!(w.now >= millis(950), "did not wait: {:?}", w.now);
}

#[test]
fn non_retryable_status_carries_the_body() {
    let arm = Arm::builder().build_with(());
    let mut w = World::new(&arm, vec![resp_body(400, b"bad series id")]);
    w.send_at(&arm, 0);
    w.run();
    match w.result(0) {
        Err(Error::Policy(e)) => {
            assert_eq!(e.status.as_u16(), 400);
            assert_eq!(&e.body[..], b"bad series id");
        }
        other => panic!("{other:?}"),
    }
    assert_eq!(w.calls, 1);
}

#[test]
fn rate_limit_spaces_requests_out() {
    // 2/sec with no burst allowance beyond 1: 5 requests need >= ~2s.
    let quota = Quota::per_second(NonZeroU32::new(2).unwrap()).allow_burst(NonZeroU32::new(1).unwrap());
    let arm = Arm::builder()
        .rate(quota)
        .suckers(10)
        .backoff(Backoff::constant(Duration::from_millis(1)))
        .build_with(());
    let mut w = World::new(&arm, (0..5).map(|_| resp(200)).collect());
    for _ in 0..5 {
        w.send_at(&arm, 0);
    }
    w.run();
    for i in 0..5 {
        assert_eq!(w.result(i).unwrap().status.as_u16(), 200);
    }
    assert!(w.now >= millis(1900), "too fast: {}", w.now);
    assert!(w.now < millis(4000), "too slow: {}", w.now);
}

#[test]
fn a_streaming_body_is_not_cloneable() {
    let arm = builder().build_with(());
    let mut r = request();
    *r.body_mut() = Some(reqwest::Body::wrap("stream".to_string()));
    let mut f = arm.send(r);
    assert!(matches!(f.step(Event::Start), Action::Finish(Err(Error::NotCloneable))));
    assert_eq!(f.phase(), Phase::Done);
    assert!(matches!(f.step(Event::Start), Action::Ignored));
}

#[test]
fn every_attempt_sends_the_same_request() {
    let arm = builder().max_attempts(2).build_with(());
    let client = reqwest::Client::new();
    let r = client.post("http://example.invalid/y").header("x-id", "7").body("hello").build().unwrap();
    let mut f = arm.send(r);
    for attempt in 1..=2 {
        let begin = if attempt == 1 { Event::Start } else { Event::Rested };
        assert!(matches!(f.step(begin), Action::AcquireSlot));
        assert!(matches!(f.step(Event::SlotAcquired), Action::ReadClock));
        match f.step(Event::Clock { now: 0, brain: Brain::new() }) {
            Action::Transmit(copy) => {
                assert_eq!(copy.method(), "POST");
                assert_eq!(copy.url().as_str(), "http://example.invalid/y");
                assert_eq!(copy.headers().get("x-id").unwrap(), "7");
                assert_eq!(copy.body().unwrap().as_bytes().unwrap(), b"hello");
            }
            other => panic!("{other:?}"),
        }
        assert_eq!(f.attempt(), attempt);
        let action = f.step(Event::Answered(resp(500)));
        if attempt == 1 {
            assert!(matches!(action, Action::Sleep(d) if d == Duration::from_millis(1)));
        } else {
            assert!(matches!(action, Action::Finish(Err(Error::Exhausted { attempts: 2, .. }))));
        }
    }
}

#[test]
fn events_that_do_not_fit_change_nothing() {
    let arm = builder().per_second(1).build_with(());
    let mut f = arm.send(request());
    for event in [Event::SlotAcquired, Event::Woke, Event::TokenTaken, Event::ArmPaused, Event::Rested] {
        assert!(matches!(f.step(event), Action::Ignored));
        assert_eq!(f.phase(), Phase::Fresh);
    }
    // No total deadline was set.
    assert!(matches!(f.step(Event::DeadlineElapsed), Action::Ignored));
    assert!(matches!(f.step(Event::Start), Action::AcquireSlot));
    assert!(matches!(f.step(Event::Answered(resp(200))), Action::Ignored));
    assert_eq!(f.phase(), Phase::Queued);
}

#[test]
fn the_deadline_ends_a_request_wherever_it_stands() {
    let arm = builder().per_second(1).total_timeout(Duration::from_secs(1)).build_with(());
    let path = |f: &mut Flight<StatusPolicy, ()>, n: usize| {
        let mut brain = Brain::new();
        brain.pause_for(0, Duration::from_nanos(5));
        for event in [
            Event::Start,
            Event::SlotAcquired,
            Event::Clock { now: 4, brain },
            Event::Woke,
            Event::Clock { now: 5, brain },
            Event::TokenTaken,
            Event::Clock { now: 5, brain },
            Event::Answered(resp(503)),
            Event::Rested,
        ]
        .into_iter()
        .take(n)
        {
            assert!(!matches!(f.step(event), Action::Ignored | Action::Finish(_)));
        }
    };
    for n in 0..=9 {
        let mut f = arm.send(request());
        path(&mut f, n);
        assert!(matches!(f.step(Event::DeadlineElapsed), Action::Finish(Err(Error::Deadline))), "{n}");
        assert_eq!(f.phase(), Phase::Done);
    }
}

#[test]
fn policy_decisions_are_carried_out() {
    let arm = builder().max_attempts(2).build_with(());
    let fly = || {
        let mut f = arm.send(request());
        f.step(Event::Start);
        f.step(Event::SlotAcquired);
        assert!(matches!(f.step(Event::Clock { now: 0, brain: Brain::new() }), Action::Transmit(_)));
        f
    };
    let pause = Decision::Retry { after: Some(Duration::from_secs(9)) };
    assert!(matches!(fly().settle(resp(200), pause), Action::PauseArm(d) if d == Duration::from_secs(9)));
    assert!(matches!(fly().settle(resp(500), Decision::Accept), Action::Finish(Ok(o)) if o.status.as_u16() == 500));
    let e = HttpStatusError { status: StatusCode::from_u16(418).unwrap(), body: Bytes::new() };
    match fly().settle(resp(200), Decision::Fail(e)) {
        Action::Finish(Err(Error::Policy(e))) => assert_eq!(e.status.as_u16(), 418),
        other => panic!("{other:?}"),
    }
}

#[test]
fn pauses_only_extend() {
    let mut b = Brain::new();
    assert_eq!(b.wait_for_turn(0, false), Turn::Go);
    assert_eq!(b.wait_for_turn(0, true), Turn::TakeToken);
    b.pause_for(10, Duration::from_nanos(90));
    b.pause_for(20, Duration::from_nanos(5));
    assert_eq!(b.wait_out_pause(99), Some(100));
    assert_eq!(b.wait_out_pause(100), None);
    b.pause_for(30, Duration::from_nanos(200));
    assert_eq!(b.wait_for_turn(100, true), Turn::SleepUntil(230));
    assert_eq!(b.wait_for_turn(230, true), Turn::TakeToken);
}

#[test]
fn builder_defaults_and_settings() {
    let arm = Arm::builder().build(reqwest::Client::new());
    assert_eq!(arm.name(), "arm");
    assert_eq!(arm.suckers(), 8);
    assert_eq!(arm.max_attempts(), 4);
    assert_eq!(arm.total_timeout(), None);
    assert!(arm.quota().is_none());
    assert_eq!(arm.backoff().clone().jitter(false).delay(2), Duration::from_secs(1));
    assert!(matches!(arm.policy().decide(1, &resp(200)), Decision::Accept));
    let _: &ReqwestTransport = arm.transport();

    let arm = Arm::builder()
        .name("fred")
        .per_second(3)
        .suckers(0)
        .max_attempts(0)
        .total_timeout(Duration::from_secs(9))
        .backoff(fast())
        .policy(BodyErrorPolicy)
        .build_with(7u8);
    assert_eq!(arm.name(), "fred");
    assert_eq!(arm.suckers(), 1);
    assert_eq!(arm.max_attempts(), 1);
    assert_eq!(arm.total_timeout(), Some(Duration::from_secs(9)));
    let quota = arm.quota().unwrap();
    assert_eq!(quota.burst_size().get(), 3);
    assert_eq!(quota.replenish_interval(), Duration::from_nanos(333_333_333));
    assert_eq!(arm.backoff().delay(5), Duration::from_millis(1));
    assert_eq!(*arm.transport(), 7);
}

#[test]
fn a_cloned_transport_uses_the_same_client() {
    let client = reqwest::Client::builder().user_agent("octopus").build().unwrap();
    let transport = ReqwestTransport::new(client.clone());
    assert_eq!(format!("{:?}", transport.clone().client()), format!("{client:?}"));
    assert!(format!("{:?}", transport.clone().client()).contains("octopus"));
}

#[test]
fn the_last_attempt_pauses_the_arm_too() {
    let arm = builder().max_attempts(1).build_with(());
    let mut w = World::new(&arm, vec![resp_retry_after(429, 5), resp(200)]);
    w.send_at(&arm, 0);
    w.send_at(&arm, millis(1));
    w.run();
    match w.result(0) {
        Err(Error::Exhausted { attempts: 1, last }) => {
            assert_eq!(last.unwrap().status.as_u16(), 429);
        }
        other => panic!("{other:?}"),
    }
    assert!(w.result(1).is_ok());
    assert_eq!(w.sent_at, [0, millis(5000)]);
}

#[test]
fn giving_up_without_retry_after_pauses_nobody() {
    let arm = builder().max_attempts(1).build_with(());
    let mut w = World::new(&arm, vec![resp(503), resp(200)]);
    w.send_at(&arm, 0);
    w.send_at(&arm, millis(1));
    w.run();
    assert!(matches!(w.result(0), Err(Error::Exhausted { attempts: 1, .. })));
    assert_eq!(w.sent_at, [0, millis(1)]);
    assert_eq!(w.asked, 0);
}

#[test]
fn a_pause_stops_requests_that_wait_for_a_token() {
    let arm = builder().per_second(1).suckers(2).build_with(());
    let mut w = World::new(&arm, vec![resp_retry_after(429, 3), resp(200), resp(200)]);
    w.latency = millis(500);
    w.send_at(&arm, 0);
    w.send_at(&arm, 0);
    w.run();
    assert!(w.result(0).is_ok() && w.result(1).is_ok());
    assert_eq!(w.asked, 3);
    // The second request gets its token at 1s, amid a pause from 0.5s to 3.5s.
    assert_eq!(w.sent_at, [0, millis(3500), millis(3500)]);
}

#[test]
fn a_token_is_kept_through_a_pause() {
    let arm = builder().per_second(1).build_with(());
    let mut f = arm.send(request());
    let mut brain = Brain::new();
    f.step(Event::Start);
    f.step(Event::SlotAcquired);
    assert!(matches!(f.step(Event::Clock { now: 0, brain }), Action::TakeToken));
    assert!(matches!(f.step(Event::TokenTaken), Action::ReadClock));
    assert_eq!(f.phase(), Phase::Cleared);
    brain.pause_for(3, Duration::from_nanos(4));
    assert!(matches!(f.step(Event::Clock { now: 3, brain }), Action::SleepUntil(7)));
    brain.pause_for(5, Duration::from_nanos(4));
    assert!(matches!(f.step(Event::Woke), Action::ReadClock));
    assert!(matches!(f.step(Event::Clock { now: 7, brain }), Action::SleepUntil(9)));
    assert!(matches!(f.step(Event::Woke), Action::ReadClock));
    assert!(matches!(f.step(Event::TokenTaken), Action::Ignored));
    assert!(matches!(f.step(Event::Clock { now: 9, brain }), Action::Transmit(_)));
}

#[test]
fn retry_after_pauses_whatever_the_attempt() {
    let nine = Duration::from_secs(9);
    let arm = builder().max_attempts(2).build_with(());
    let mut f = arm.send(request());
    for attempt in 1..=2 {
        f.step(if attempt == 1 { Event::Start } else { Event::ArmPaused });
        f.step(Event::SlotAcquired);
        f.step(Event::Clock { now: 0, brain: Brain::new() });
        assert_eq!(f.attempt(), attempt);
        match f.settle(resp(429), Decision::Retry { after: Some(nine) }) {
            Action::PauseArm(d) if attempt == 1 => assert_eq!(d, nine),
            Action::PauseAndFinish(d, Err(Error::Exhausted { attempts: 2, .. })) => {
                assert_eq!((d, attempt), (nine, 2));
            }
            other => panic!("{other:?}"),
        }
    }
    assert_eq!(f.phase(), Phase::Done);
}

#[test]
fn spans_show_host_and_path_only() {
    let arm = builder().name("fred").build_with(());
    let client = reqwest::Client::new();
    let shown = |url: &str| {
        let f = arm.span_fields(&client.post(url).build().unwrap());
        (f.name, f.method, f.host, f.path)
    };
    let expected =
        ("fred".to_string(), "POST".to_string(), "example.com".to_string(), "/a/b".to_string());
    assert_eq!(shown("https://user:pw@example.com:8443/a/b?api_key=k#f"), expected);
    assert_eq!(shown("https://example.com/a/b?api_key=other"), expected);
    assert_eq!(SpanFields::new("n", "GET", None, "/").host, "");
}
