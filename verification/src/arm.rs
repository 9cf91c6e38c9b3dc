//! One arm per API: its limits and its policy.
use crate::backoff::{Backoff, BackoffView, FactorView};
use crate::duration::NANOS_PER_SEC;
use crate::policy::{Policy, StatusPolicy};
use crate::transport::ReqwestTransport;
use governor::Quota;
use std::time::Duration;
use vstd::prelude::*;

verus! {

/// `governor::Quota`, how many requests a rate limiter lets through.
#[verifier::external_type_specification]
#[verifier::external_body]
pub struct ExQuota(governor::Quota);

/// How many requests a quota allows at once: the burst that it is made with.
pub uninterp spec fn burst_size(q: Quota) -> nat;

/// The nanoseconds until a used-up quota allows one more request: the interval
/// that it is made with.
pub uninterp spec fn replenish_nanos(q: Quota) -> nat;

/// `governor::Quota::per_second` allows bursts of `n` and replenishes one
/// request every `n`th of a second, in whole nanoseconds.
#[verifier::external_body]
fn quota_per_second(n: u32) -> (q: Quota)
    requires
        n > 0,
    ensures
        burst_size(q) == n,
        replenish_nanos(q) == NANOS_PER_SEC as nat / n as nat,
{
    let n = std::num::NonZeroU32::new(n).expect("per_second(0) would never send anything");
    Quota::per_second(n)
}

/// How an arm is set up.
pub struct Settings<P> {
    pub name: Seq<char>,
    pub quota: Option<Quota>,
    pub suckers: nat,
    pub backoff: BackoffView,
    pub max_attempts: nat,
    pub total_timeout: Option<Duration>,
    pub policy: P,
}

/// At least one.
pub open spec fn at_least_one(n: nat) -> nat {
    if n == 0 {
        1
    } else {
        n
    }
}

/// A limit that is set to any number but zero is that number, and one that is
/// set to zero is one. So no limit is zero, and different limits stay different.
pub proof fn law_limits_are_kept(n: nat, m: nat)
    ensures
        n >= 1 ==> at_least_one(n) == n,
        at_least_one(0) == 1,
        at_least_one(n) >= 1,
        n >= 1 && m >= 1 && n != m ==> at_least_one(n) != at_least_one(m),
{
}

/// One arm per API: its own rate limit, its own suckers (concurrency slots),
/// its own [`Policy`].
pub struct Arm<P, T = ReqwestTransport> {
    name: String,
    transport: T,
    policy: P,
    suckers: usize,
    quota: Option<Quota>,
    backoff: Backoff,
    max_attempts: u32,
    total_timeout: Option<Duration>,
}

impl<P, T> View for Arm<P, T> {
    type V = Settings<P>;

    closed spec fn view(&self) -> Settings<P> {
        Settings {
            name: self.name@,
            quota: self.quota,
            suckers: self.suckers as nat,
            backoff: self.backoff@,
            max_attempts: self.max_attempts as nat,
            total_timeout: self.total_timeout,
            policy: self.policy,
        }
    }
}

impl Arm<StatusPolicy, ReqwestTransport> {
    /// Start building an arm. Defaults: [`StatusPolicy`], 8 suckers, no rate
    /// limit, 4 attempts, default [`Backoff`], no total deadline.
    pub fn builder() -> (b: ArmBuilder<StatusPolicy>)
        ensures
            b@.name == "arm"@,
            b@.quota is None,
            b@.suckers == 8,
            b@.backoff == (BackoffView {
                base: 500_000_000,
                factor: FactorView::whole(2),
                cap: 30 * NANOS_PER_SEC as nat,
                jitter: true,
            }),
            b@.max_attempts == 4,
            b@.total_timeout is None,
            b@.policy@ == 60 * NANOS_PER_SEC,
    {
        ArmBuilder {
            name: "arm".to_owned(),
            quota: None,
            suckers: 8,
            backoff: Backoff::default(),
            max_attempts: 4,
            total_timeout: None,
            policy: StatusPolicy::new(),
        }
    }
}

/// Builder for [`Arm`]. See [`Arm::builder`].
pub struct ArmBuilder<P> {
    name: String,
    quota: Option<Quota>,
    suckers: usize,
    backoff: Backoff,
    max_attempts: u32,
    total_timeout: Option<Duration>,
    policy: P,
}

impl<P> View for ArmBuilder<P> {
    type V = Settings<P>;

    closed spec fn view(&self) -> Settings<P> {
        Settings {
            name: self.name@,
            quota: self.quota,
            suckers: self.suckers as nat,
            backoff: self.backoff@,
            max_attempts: self.max_attempts as nat,
            total_timeout: self.total_timeout,
            policy: self.policy,
        }
    }
}

impl<P> ArmBuilder<P> {
    #[verifier::type_invariant]
    spec fn usable(self) -> bool {
        self.suckers >= 1 && self.max_attempts >= 1
    }

    /// Label used in tracing spans.
    pub fn name(self, name: &str) -> (b: ArmBuilder<P>)
        ensures
            b@ == (Settings { name: name@, ..self@ }),
    {
        proof {
            use_type_invariant(&self);
        }
        let mut b = self;
        b.name = name.to_owned();
        b
    }

    /// Full control over the rate limit, e.g.
    /// `Quota::per_second(n).allow_burst(m)`.
    pub fn rate(self, quota: Quota) -> (b: ArmBuilder<P>)
        ensures
            b@ == (Settings { quota: Some(quota), ..self@ }),
    {
        proof {
            use_type_invariant(&self);
        }
        let mut b = self;
        b.quota = Some(quota);
        b
    }

    /// Sugar for `rate(Quota::per_second(n))`. Note that governor allows a
    /// burst of `n` up front; use [`rate`](Self::rate) with `allow_burst` to
    /// smooth it out. `n` must not be 0: such an arm would never send anything.
    pub fn per_second(self, n: u32) -> (b: ArmBuilder<P>)
        requires
            n > 0,
        ensures
            b@.quota is Some,
            burst_size(b@.quota->0) == n,
            replenish_nanos(b@.quota->0) == NANOS_PER_SEC as nat / n as nat,
            b@ == (Settings { quota: b@.quota, ..self@ }),
    {
        self.rate(quota_per_second(n))
    }

    /// How many requests may be in flight at once on this arm (min 1).
    pub fn suckers(self, n: usize) -> (b: ArmBuilder<P>)
        ensures
            b@ == (Settings { suckers: at_least_one(n as nat), ..self@ }),
            n >= 1 ==> b@.suckers == n,
            n == 0 ==> b@.suckers == 1,
    {
        proof {
            use_type_invariant(&self);
        }
        let mut b = self;
        b.suckers = if n == 0 { 1 } else { n };
        b
    }

    /// Delay strategy between retries when the server didn't say.
    pub fn backoff(self, backoff: Backoff) -> (b: ArmBuilder<P>)
        ensures
            b@ == (Settings { backoff: backoff@, ..self@ }),
    {
        proof {
            use_type_invariant(&self);
        }
        let mut b = self;
        b.backoff = backoff;
        b
    }

    /// Maximum attempts per request, including the first (min 1).
    pub fn max_attempts(self, n: u32) -> (b: ArmBuilder<P>)
        ensures
            b@ == (Settings { max_attempts: at_least_one(n as nat), ..self@ }),
            n >= 1 ==> b@.max_attempts == n,
            n == 0 ==> b@.max_attempts == 1,
    {
        proof {
            use_type_invariant(&self);
        }
        let mut b = self;
        b.max_attempts = if n == 0 { 1 } else { n };
        b
    }

    /// Deadline for one send, covering *all* attempts, waiting and backoff.
    pub fn total_timeout(self, d: Duration) -> (b: ArmBuilder<P>)
        ensures
            b@ == (Settings { total_timeout: Some(d), ..self@ }),
    {
        proof {
            use_type_invariant(&self);
        }
        let mut b = self;
        b.total_timeout = Some(d);
        b
    }

    /// Swap in this API's own policy.
    pub fn policy<Q: Policy>(self, policy: Q) -> (b: ArmBuilder<Q>)
        ensures
            b@ == (Settings {
                name: self@.name,
                quota: self@.quota,
                suckers: self@.suckers,
                backoff: self@.backoff,
                max_attempts: self@.max_attempts,
                total_timeout: self@.total_timeout,
                policy,
            }),
    {
        proof {
            use_type_invariant(&self);
        }
        ArmBuilder {
            name: self.name,
            quota: self.quota,
            suckers: self.suckers,
            backoff: self.backoff,
            max_attempts: self.max_attempts,
            total_timeout: self.total_timeout,
            policy,
        }
    }

    /// Build an arm that talks to the network through `client`.
    pub fn build(self, client: reqwest::Client) -> (arm: Arm<P, ReqwestTransport>)
        ensures
            arm@ == self@,
            arm@.suckers >= 1,
            arm@.max_attempts >= 1,
            arm.transport_view()@ == client,
    {
        self.build_with(ReqwestTransport::new(client))
    }

    /// Build an arm over any transport (mainly for tests).
    pub fn build_with<T>(self, transport: T) -> (arm: Arm<P, T>)
        ensures
            arm@ == self@,
            arm@.suckers >= 1,
            arm@.max_attempts >= 1,
            arm.transport_view() == transport,
    {
        proof {
            use_type_invariant(&self);
        }
        Arm {
            name: self.name,
            transport,
            policy: self.policy,
            suckers: self.suckers,
            quota: self.quota,
            backoff: self.backoff,
            max_attempts: self.max_attempts,
            total_timeout: self.total_timeout,
        }
    }
}

impl<P, T> Arm<P, T> {
    #[verifier::type_invariant]
    spec fn usable(self) -> bool {
        self.suckers >= 1 && self.max_attempts >= 1
    }

    /// What requests are sent through.
    pub closed spec fn transport_view(&self) -> T {
        self.transport
    }

    /// Label used in tracing spans.
    pub fn name(&self) -> (name: &str)
        ensures
            name@ == self@.name,
    {
        self.name.as_str()
    }

    /// What requests are sent through.
    pub fn transport(&self) -> (transport: &T)
        ensures
            *transport == self.transport_view(),
    {
        &self.transport
    }

    /// This API's own policy.
    pub fn policy(&self) -> (policy: &P)
        ensures
            *policy == self@.policy,
    {
        &self.policy
    }

    /// How many requests may be in flight at once on this arm.
    pub fn suckers(&self) -> (n: usize)
        ensures
            n == self@.suckers,
            n >= 1,
    {
        proof {
            use_type_invariant(self);
        }
        self.suckers
    }

    /// The rate limit, if there is one.
    pub fn quota(&self) -> (quota: Option<Quota>)
        ensures
            quota == self@.quota,
    {
        self.quota
    }

    /// Delay strategy between retries when the server didn't say.
    pub fn backoff(&self) -> (backoff: &Backoff)
        ensures
            backoff@ == self@.backoff,
    {
        &self.backoff
    }

    /// Maximum attempts per request, including the first.
    pub fn max_attempts(&self) -> (n: u32)
        ensures
            n == self@.max_attempts,
            n >= 1,
    {
        proof {
            use_type_invariant(self);
        }
        self.max_attempts
    }

    /// Deadline for one send, if there is one.
    pub fn total_timeout(&self) -> (d: Option<Duration>)
        ensures
            d == self@.total_timeout,
    {
        self.total_timeout
    }
}

} // verus!
