//! One request on its way through an arm: every decision between handing it
//! in and getting the result, with the waiting and sending left to the caller.
use crate::arm::Arm;
use crate::backoff::{BackoffView, DRAWS};
use crate::brain::{pause_left, turn_at, Brain, Turn};
use crate::duration::nanos;
use crate::error::{Error, TransportError};
use crate::outcome::Outcome;
use crate::policy::{Decision, Policy};
use crate::text::{decimal, decimal_digits};
use crate::transport::copy_of;
use std::time::Duration;
use vstd::prelude::*;
use vstd::string::StringExecFns;

verus! {

/// Where a request stands.
#[derive(Debug, Clone, Copy, PartialEq, Eq, Structural)]
pub enum Phase {
    /// Not started.
    Fresh,
    /// Waiting for a slot.
    Queued,
    /// Holding a slot, waiting out the lane-wide pause.
    Pausing,
    /// Holding a slot, waiting for the rate limiter.
    Throttled,
    /// Holding a slot and a token, waiting out a pause that came up meanwhile.
    Cleared,
    /// Holding a slot, being sent.
    InFlight,
    /// About to pause the whole arm.
    Halting,
    /// Sleeping before the next attempt.
    Resting,
    /// Finished.
    Done,
}

/// What happened.
#[derive(Debug)]
pub enum Event {
    /// The send begins.
    Start,
    /// A slot was acquired.
    SlotAcquired,
    /// The clock shows `now`, and the arm's shared state is `brain`.
    Clock { now: u128, brain: Brain },
    /// The sleep until the end of a pause is over.
    Woke,
    /// The rate limiter gave a token.
    TokenTaken,
    /// The attempt is over and its slot is released.
    Answered(Result<Outcome, TransportError>),
    /// The whole arm was paused.
    ArmPaused,
    /// The backoff sleep is over.
    Rested,
    /// The total deadline elapsed.
    DeadlineElapsed,
}

/// What to do next.
#[derive(Debug)]
pub enum Action<E> {
    /// Acquire a slot.
    AcquireSlot,
    /// Read the clock and the arm's shared state.
    ReadClock,
    /// Sleep until that moment.
    SleepUntil(u128),
    /// Wait for a token of the rate limiter.
    TakeToken,
    /// Send the request, then release the slot.
    Transmit(reqwest::Request),
    /// Pause the whole arm for that long.
    PauseArm(Duration),
    /// Sleep that long.
    Sleep(Duration),
    /// Hand the result back.
    Finish(Result<Outcome, Error<E>>),
    /// Pause the whole arm for that long, then hand the result back.
    PauseAndFinish(Duration, Result<Outcome, Error<E>>),
    /// Nothing: the event does not fit.
    Ignored,
}

impl<E> Action<E> {
    /// How long the whole arm is to pause, if it is.
    pub open spec fn pause(self) -> Option<Duration> {
        match self {
            Action::PauseArm(d) => Some(d),
            Action::PauseAndFinish(d, _) => Some(d),
            _ => None,
        }
    }

    /// The result that is handed back, if one is.
    pub open spec fn result(self) -> Option<Result<Outcome, Error<E>>> {
        match self {
            Action::Finish(r) => Some(r),
            Action::PauseAndFinish(_, r) => Some(r),
            _ => None,
        }
    }
}

/// What the end of one attempt leads to.
#[derive(Debug)]
pub enum Verdict<E> {
    /// Hand the result back.
    Finish(Result<Outcome, Error<E>>),
    /// Pause the whole arm, then hand the result back.
    PauseAndFinish(Duration, Result<Outcome, Error<E>>),
    /// Pause the whole arm, then try again.
    PauseArm(Duration),
    /// Sleep per the arm's backoff, then try again.
    BackOff,
}

/// What an attempt leads to, where the policy decided so.
pub open spec fn verdict_of<E>(
    attempt: u32,
    max_attempts: u32,
    result: Result<Outcome, TransportError>,
    decision: Decision<E>,
) -> Verdict<E> {
    match decision {
        Decision::Accept => Verdict::Finish(
            match result {
                Ok(o) => Ok(o),
                Err(e) => Err(Error::Transport(e)),
            },
        ),
        Decision::Fail(e) => Verdict::Finish(Err(Error::Policy(e))),
        Decision::Retry { after } => if attempt >= max_attempts {
            let given_up = Err(Error::Exhausted { attempts: attempt, last: Box::new(result) });
            match after {
                Some(d) => Verdict::PauseAndFinish(d, given_up),
                None => Verdict::Finish(given_up),
            }
        } else {
            match after {
                Some(d) => Verdict::PauseArm(d),
                None => Verdict::BackOff,
            }
        },
    }
}

/// What attempt number `attempt` of at most `max_attempts` leads to, where the
/// policy decided so on its `result`.
pub fn conclude<E>(
    attempt: u32,
    max_attempts: u32,
    result: Result<Outcome, TransportError>,
    decision: Decision<E>,
) -> (v: Verdict<E>)
    ensures
        v == verdict_of(attempt, max_attempts, result, decision),
        decision matches Decision::Fail(e) ==> v == Verdict::<E>::Finish(Err(Error::Policy(e))),
        decision is Accept ==> (result matches Ok(o) ==> v == Verdict::<E>::Finish(Ok(o))),
        decision is Accept ==> (result matches Err(e) ==> v == Verdict::<E>::Finish(
            Err(Error::Transport(e)),
        )),
        attempt < max_attempts ==> (decision matches Decision::Retry { after } ==> v == (
        match after {
            Some(d) => Verdict::<E>::PauseArm(d),
            None => Verdict::<E>::BackOff,
        })),
{
    match decision {
        Decision::Accept => match result {
            Ok(o) => Verdict::Finish(Ok(o)),
            Err(e) => Verdict::Finish(Err(Error::Transport(e))),
        },
        Decision::Fail(e) => Verdict::Finish(Err(Error::Policy(e))),
        Decision::Retry { after } => {
            if attempt >= max_attempts {
                let given_up = Err(Error::Exhausted { attempts: attempt, last: Box::new(result) });
                match after {
                    Some(d) => Verdict::PauseAndFinish(d, given_up),
                    None => Verdict::Finish(given_up),
                }
            } else {
                match after {
                    Some(d) => Verdict::PauseArm(d),
                    None => Verdict::BackOff,
                }
            }
        },
    }
}

/// A result in a few words, for the log.
pub open spec fn described(result: Result<Outcome, TransportError>) -> Seq<char> {
    match result {
        Ok(o) => "status "@ + decimal_digits(o.status@ as nat),
        Err(e) => "transport error "@ + e@.kind.label(),
    }
}

/// A result in a few words, for the log.
pub fn describe(result: &Result<Outcome, TransportError>) -> (s: String)
    ensures
        s@ == described(*result),
        *result matches Ok(o) ==> s@ == "status "@ + decimal_digits(o.status@ as nat),
        *result matches Err(e) ==> s@ == "transport error "@ + e@.kind.label(),
{
    match result {
        Ok(o) => {
            let mut s = "status ".to_owned();
            s.append(decimal(o.status.as_u16() as u32).as_str());
            s
        },
        Err(e) => {
            let mut s = "transport error ".to_owned();
            s.append(e.kind().name());
            s
        },
    }
}

/// What a [`Flight`] stands for.
pub struct FlightView {
    /// How many attempts were begun.
    pub attempt: u32,
    pub phase: Phase,
}

impl FlightView {
    /// Whether the request holds one of the arm's slots.
    pub open spec fn holds_slot(self) -> bool {
        ||| self.phase is Pausing
        ||| self.phase is Throttled
        ||| self.phase is Cleared
        ||| self.phase is InFlight
    }

    /// Whether a request that may make `max_attempts` attempts can stand so.
    pub open spec fn within(self, max_attempts: nat) -> bool {
        &&& self.attempt <= max_attempts
        &&& self.phase is Fresh ==> self.attempt == 0
        &&& !(self.phase is Fresh || self.phase is Done) ==> self.attempt >= 1
        &&& self.phase is Halting || self.phase is Resting ==> self.attempt < max_attempts
    }
}

/// The event changes nothing.
pub open spec fn ignores<E>(pre: FlightView, post: FlightView, action: Action<E>) -> bool {
    post == pre && action == Action::<E>::Ignored
}

/// The next attempt begins: it waits for a slot if the request can be copied,
/// and fails if not.
pub open spec fn begins<E>(
    request: reqwest::Request,
    pre: FlightView,
    post: FlightView,
    action: Action<E>,
) -> bool {
    &&& post.attempt == pre.attempt + 1
    &&& if copy_of(request) is Some {
        post.phase is Queued && action == Action::<E>::AcquireSlot
    } else {
        post.phase is Done && action == Action::<E>::Finish(Err(Error::NotCloneable))
    }
}

/// The request is sent.
pub open spec fn transmits<E>(
    request: reqwest::Request,
    pre: FlightView,
    post: FlightView,
    action: Action<E>,
) -> bool {
    &&& post == FlightView { phase: Phase::InFlight, ..pre }
    &&& copy_of(request) is Some
    &&& action == Action::<E>::Transmit(copy_of(request)->0)
}

/// The request sleeps as `backoff` has it after attempt number `attempt`.
pub open spec fn backs_off<E>(backoff: BackoffView, attempt: nat, action: Action<E>) -> bool {
    &&& action matches Action::Sleep(d)
    &&& exists|draw: nat| draw < DRAWS && nanos(d) == #[trigger] backoff.delay(attempt, draw)
    &&& !backoff.jitter ==> nanos(d) == backoff.full_delay(attempt)
}

/// The attempt ends with `result`, on which the policy made its decision.
pub open spec fn settles<P: Policy, T>(
    arm: Arm<P, T>,
    pre: FlightView,
    result: Result<Outcome, TransportError>,
    decision: Decision<P::Error>,
    post: FlightView,
    action: Action<P::Error>,
) -> bool {
    match verdict_of(pre.attempt, arm@.max_attempts as u32, result, decision) {
        Verdict::Finish(r) => {
            &&& post == FlightView { phase: Phase::Done, ..pre }
            &&& action == Action::<P::Error>::Finish(r)
        },
        Verdict::PauseAndFinish(d, r) => {
            &&& post == FlightView { phase: Phase::Done, ..pre }
            &&& action == Action::<P::Error>::PauseAndFinish(d, r)
        },
        Verdict::PauseArm(d) => {
            &&& post == FlightView { phase: Phase::Halting, ..pre }
            &&& action == Action::<P::Error>::PauseArm(d)
        },
        Verdict::BackOff => {
            &&& post == FlightView { phase: Phase::Resting, ..pre }
            &&& backs_off(arm@.backoff, pre.attempt as nat, action)
        },
    }
}

/// What may follow when `event` happens to a request that stands at `pre`.
pub open spec fn steps<P: Policy, T>(
    arm: Arm<P, T>,
    request: reqwest::Request,
    pre: FlightView,
    event: Event,
    post: FlightView,
    action: Action<P::Error>,
) -> bool {
    match (pre.phase, event) {
        (Phase::Done, _) => ignores(pre, post, action),
        (_, Event::DeadlineElapsed) => if arm@.total_timeout is Some {
            &&& post == FlightView { phase: Phase::Done, ..pre }
            &&& action == Action::<P::Error>::Finish(Err(Error::Deadline))
        } else {
            ignores(pre, post, action)
        },
        (Phase::Fresh, Event::Start) => begins(request, pre, post, action),
        (Phase::Queued, Event::SlotAcquired) => {
            &&& post == FlightView { phase: Phase::Pausing, ..pre }
            &&& action == Action::<P::Error>::ReadClock
        },
        (Phase::Pausing, Event::Clock { now, brain }) => match turn_at(
            brain@,
            now,
            arm@.quota is Some,
        ) {
            Turn::SleepUntil(t) => post == pre && action == Action::<P::Error>::SleepUntil(t),
            Turn::TakeToken => {
                &&& post == FlightView { phase: Phase::Throttled, ..pre }
                &&& action == Action::<P::Error>::TakeToken
            },
            Turn::Go => transmits(request, pre, post, action),
        },
        (Phase::Pausing, Event::Woke) => post == pre && action == Action::<P::Error>::ReadClock,
        (Phase::Throttled, Event::TokenTaken) => {
            &&& post == FlightView { phase: Phase::Cleared, ..pre }
            &&& action == Action::<P::Error>::ReadClock
        },
        (Phase::Cleared, Event::Clock { now, brain }) => match pause_left(brain@, now) {
            Some(t) => post == pre && action == Action::<P::Error>::SleepUntil(t),
            None => transmits(request, pre, post, action),
        },
        (Phase::Cleared, Event::Woke) => post == pre && action == Action::<P::Error>::ReadClock,
        (Phase::InFlight, Event::Answered(result)) => exists|decision: Decision<P::Error>|
            {
                &&& call_ensures(P::decide, (&arm@.policy, pre.attempt, &result), decision)
                &&& #[trigger] settles(arm, pre, result, decision, post, action)
            },
        (Phase::Halting, Event::ArmPaused) => begins(request, pre, post, action),
        (Phase::Resting, Event::Rested) => begins(request, pre, post, action),
        _ => ignores(pre, post, action),
    }
}

/// One request on its way through an arm.
///
/// It starts with [`Event::Start`]. Each [`Action`] is to be carried out, and
/// the event that it ends in to be handed to [`step`](Flight::step), until the
/// action is [`Action::Finish`] or [`Action::PauseAndFinish`].
pub struct Flight<'a, P, T> {
    arm: &'a Arm<P, T>,
    request: reqwest::Request,
    copy: Option<reqwest::Request>,
    max_attempts: u32,
    attempt: u32,
    phase: Phase,
}

impl<'a, P, T> View for Flight<'a, P, T> {
    type V = FlightView;

    closed spec fn view(&self) -> FlightView {
        FlightView { attempt: self.attempt, phase: self.phase }
    }
}

impl<'a, P, T> Flight<'a, P, T> {
    /// The arm that the request goes through.
    pub closed spec fn arm(&self) -> Arm<P, T> {
        *self.arm
    }

    /// The request.
    pub closed spec fn request(&self) -> reqwest::Request {
        self.request
    }

    /// The request stands where it can stand, and its copy is ready while it
    /// waits to be sent.
    pub closed spec fn wf(&self) -> bool {
        &&& 1 <= self.max_attempts == self.arm@.max_attempts
        &&& self@.within(self.arm@.max_attempts)
        &&& (self.phase is Queued || self.phase is Pausing || self.phase is Throttled
            || self.phase is Cleared) ==> {
            &&& self.copy is Some
            &&& self.copy == copy_of(self.request)
        }
    }
}

/// Calls `decide`.
fn ask<P: Policy, F: Fn(&P, u32, &Result<Outcome, TransportError>) -> Decision<P::Error>>(
    decide: F,
    policy: &P,
    attempt: u32,
    result: &Result<Outcome, TransportError>,
) -> (d: Decision<P::Error>)
    requires
        decide.requires((policy, attempt, result)),
    ensures
        decide.ensures((policy, attempt, result), d),
{
    decide(policy, attempt, result)
}

impl<P: Policy, T> Arm<P, T> {
    /// Send `request`, retrying per the policy while respecting this arm's limits.
    ///
    /// The request must be cloneable (any normal GET is), because each attempt
    /// sends a fresh clone.
    pub fn send(&self, request: reqwest::Request) -> (f: Flight<'_, P, T>)
        ensures
            f.wf(),
            f.arm() == *self,
            f.request() == request,
            f@ == (FlightView { attempt: 0, phase: Phase::Fresh }),
    {
        Flight {
            arm: self,
            request,
            copy: None,
            max_attempts: self.max_attempts(),
            attempt: 0,
            phase: Phase::Fresh,
        }
    }
}

impl<'a, P: Policy, T> Flight<'a, P, T> {
    /// How many attempts were begun.
    pub fn attempt(&self) -> (n: u32)
        ensures
            n == self@.attempt,
    {
        self.attempt
    }

    /// Where the request stands.
    pub fn phase(&self) -> (phase: Phase)
        ensures
            phase == self@.phase,
    {
        self.phase
    }

    /// Begins the next attempt.
    fn begin(&mut self) -> (action: Action<P::Error>)
        requires
            old(self).wf(),
            old(self)@.attempt < old(self).arm()@.max_attempts,
        ensures
            final(self).wf(),
            final(self).arm() == old(self).arm(),
            final(self).request() == old(self).request(),
            begins(old(self).request(), old(self)@, final(self)@, action),
    {
        self.attempt = self.attempt + 1;
        match self.request.try_clone() {
            Some(copy) => {
                self.copy = Some(copy);
                self.phase = Phase::Queued;
                Action::AcquireSlot
            },
            None => {
                self.phase = Phase::Done;
                Action::Finish(Err(Error::NotCloneable))
            },
        }
    }

    /// Hands out the copy to be sent.
    fn transmit(&mut self) -> (action: Action<P::Error>)
        requires
            old(self).wf(),
            old(self)@.phase is Pausing || old(self)@.phase is Cleared,
        ensures
            final(self).wf(),
            final(self).arm() == old(self).arm(),
            final(self).request() == old(self).request(),
            transmits(old(self).request(), old(self)@, final(self)@, action),
    {
        self.phase = Phase::InFlight;
        match self.copy.take() {
            Some(copy) => Action::Transmit(copy),
            None => Action::Ignored,
        }
    }

    /// Ends the attempt in flight with `result`, on which the policy made its
    /// `decision`.
    pub fn settle(
        &mut self,
        result: Result<Outcome, TransportError>,
        decision: Decision<P::Error>,
    ) -> (action: Action<P::Error>)
        requires
            old(self).wf(),
            old(self)@.phase is InFlight,
        ensures
            final(self).wf(),
            final(self).arm() == old(self).arm(),
            final(self).request() == old(self).request(),
            settles(old(self).arm(), old(self)@, result, decision, final(self)@, action),
    {
        match conclude(self.attempt, self.max_attempts, result, decision) {
            Verdict::Finish(r) => {
                self.phase = Phase::Done;
                Action::Finish(r)
            },
            Verdict::PauseAndFinish(d, r) => {
                self.phase = Phase::Done;
                Action::PauseAndFinish(d, r)
            },
            Verdict::PauseArm(d) => {
                self.phase = Phase::Halting;
                Action::PauseArm(d)
            },
            Verdict::BackOff => {
                self.phase = Phase::Resting;
                Action::Sleep(self.arm.backoff().delay(self.attempt))
            },
        }
    }

    /// Takes in what happened and says what to do next. An event that does not
    /// fit changes nothing.
    pub fn step(&mut self, event: Event) -> (action: Action<P::Error>)
        requires
            old(self).wf(),
        ensures
            final(self).wf(),
            final(self).arm() == old(self).arm(),
            final(self).request() == old(self).request(),
            steps(
                old(self).arm(),
                old(self).request(),
                old(self)@,
                event,
                final(self)@,
                action,
            ),
    {
        match (self.phase, event) {
            (Phase::Done, _) => Action::Ignored,
            (_, Event::DeadlineElapsed) => {
                if self.arm.total_timeout().is_some() {
                    self.phase = Phase::Done;
                    Action::Finish(Err(Error::Deadline))
                } else {
                    Action::Ignored
                }
            },
            (Phase::Fresh, Event::Start) => self.begin(),
            (Phase::Queued, Event::SlotAcquired) => {
                self.phase = Phase::Pausing;
                Action::ReadClock
            },
            (Phase::Pausing, Event::Clock { now, brain }) => {
                match brain.wait_for_turn(now, self.arm.quota().is_some()) {
                    Turn::SleepUntil(t) => Action::SleepUntil(t),
                    Turn::TakeToken => {
                        self.phase = Phase::Throttled;
                        Action::TakeToken
                    },
                    Turn::Go => self.transmit(),
                }
            },
            (Phase::Pausing, Event::Woke) => Action::ReadClock,
            (Phase::Throttled, Event::TokenTaken) => {
                self.phase = Phase::Cleared;
                Action::ReadClock
            },
            (Phase::Cleared, Event::Clock { now, brain }) => {
                match brain.wait_out_pause(now) {
                    Some(t) => Action::SleepUntil(t),
                    None => self.transmit(),
                }
            },
            (Phase::Cleared, Event::Woke) => Action::ReadClock,
            (Phase::InFlight, Event::Answered(result)) => {
                let decision = ask(P::decide, self.arm.policy(), self.attempt, &result);
                self.settle(result, decision)
            },
            (Phase::Halting, Event::ArmPaused) => self.begin(),
            (Phase::Resting, Event::Rested) => self.begin(),
            _ => Action::Ignored,
        }
    }
}

} // verus!
