//! What the requests of an arm share: the lane-wide pause.
use crate::duration::{nanos, MAX_NANOS};
use std::time::Duration;
use vstd::prelude::*;

verus! {

/// What a request that holds a slot does next.
#[derive(Debug, Clone, Copy, PartialEq, Eq, Structural)]
pub enum Turn {
    /// Sleep until that moment, then look again.
    SleepUntil(u128),
    /// Wait for the rate limiter.
    TakeToken,
    /// Go ahead.
    Go,
}

/// The arm's shared state: the lane-wide pause. Moments are nanoseconds since
/// one fixed moment.
///
/// The pause ("penalty box") is what makes one 429 with `Retry-After`
/// stop *every* request on the arm, not just the one that saw it.
#[derive(Debug, Clone, Copy)]
pub struct Brain {
    pause_until: Option<u128>,
}

impl View for Brain {
    type V = Option<u128>;

    /// The moment until which the arm is paused, if it ever was.
    closed spec fn view(&self) -> Option<u128> {
        self.pause_until
    }
}

/// The end of the pause, where the arm is paused at the moment `now`.
pub open spec fn pause_left(until: Option<u128>, now: u128) -> Option<u128> {
    match until {
        Some(t) => if t > now {
            Some(t)
        } else {
            None
        },
        None => None,
    }
}

/// What a request that holds a slot does at the moment `now`.
pub open spec fn turn_at(until: Option<u128>, now: u128, limited: bool) -> Turn {
    match pause_left(until, now) {
        Some(t) => Turn::SleepUntil(t),
        None => if limited {
            Turn::TakeToken
        } else {
            Turn::Go
        },
    }
}

/// The end of the pause after a pause of `d` nanoseconds from `now` on was
/// asked for.
pub open spec fn paused(until: Option<u128>, now: u128, d: nat) -> Option<u128> {
    match until {
        Some(t) => if now + d > t {
            Some((now + d) as u128)
        } else {
            until
        },
        None => Some((now + d) as u128),
    }
}

/// A pause lasts exactly until its end. Before it, a request is told to sleep
/// until that very moment, which is still to come. From it on, as without any
/// pause, the request goes on: to the rate limiter where the arm has one, and
/// else straight to being sent.
pub proof fn law_pause_ends(until: Option<u128>, now: u128, limited: bool)
    ensures
        until matches Some(t) && t > now ==> pause_left(until, now) == until && turn_at(
            until,
            now,
            limited,
        ) == Turn::SleepUntil(until->0),
        (until matches Some(t) ==> t <= now) ==> pause_left(until, now) is None,
        (until matches Some(t) ==> t <= now) && limited ==> turn_at(until, now, limited)
            == Turn::TakeToken,
        (until matches Some(t) ==> t <= now) && !limited ==> turn_at(until, now, limited)
            == Turn::Go,
{
}

/// After the sleep that it was told, a request goes on, unless another pause
/// has come up meanwhile.
pub proof fn law_one_sleep_is_enough(until: Option<u128>, now: u128, later: u128, limited: bool)
    requires
        turn_at(until, now, limited) matches Turn::SleepUntil(t) && later >= t,
    ensures
        turn_at(until, later, limited) == (if limited {
            Turn::TakeToken
        } else {
            Turn::Go
        }),
{
}

impl Brain {
    /// No pause.
    pub fn new() -> (b: Brain)
        ensures
            b@ is None,
    {
        Brain { pause_until: None }
    }

    /// Pause the whole arm for `d` (never shortens an existing pause).
    pub fn pause_for(&mut self, now: u128, d: Duration)
        requires
            now <= u128::MAX - MAX_NANOS,
        ensures
            now + nanos(d) <= u128::MAX,
            final(self)@ == paused(old(self)@, now, nanos(d)),
    {
        let until: u128 = now + d.as_nanos();
        let later = match self.pause_until {
            Some(current) => until > current,
            None => true,
        };
        if later {
            self.pause_until = Some(until);
        }
    }

    /// The moment to sleep until, where the arm is paused at the moment `now`.
    pub fn wait_out_pause(&self, now: u128) -> (r: Option<u128>)
        ensures
            r == pause_left(self@, now),
            r matches Some(t) ==> t > now && self@ == Some(t),
            r is None ==> (self@ matches Some(t) ==> t <= now),
    {
        match self.pause_until {
            Some(t) => if t > now {
                Some(t)
            } else {
                None
            },
            None => None,
        }
    }

    /// Wait out any lane-wide pause, then take a rate-limit token where the
    /// arm is `limited`.
    pub fn wait_for_turn(&self, now: u128, limited: bool) -> (r: Turn)
        ensures
            r == turn_at(self@, now, limited),
            r matches Turn::SleepUntil(t) ==> t > now && self@ == Some(t),
            (self@ matches Some(t) ==> t <= now) ==> r == (if limited {
                Turn::TakeToken
            } else {
                Turn::Go
            }),
    {
        match self.wait_out_pause(now) {
            Some(t) => Turn::SleepUntil(t),
            None => if limited {
                Turn::TakeToken
            } else {
                Turn::Go
            },
        }
    }
}

} // verus!
