//! What holds of every request, whatever happens to it.
use crate::arm::Arm;
use crate::backoff::{BackoffView, DRAWS};
use crate::backoff_laws::{law_delay_at_most_cap, law_jitter_keeps_upper_half};
use crate::brain::{pause_left, paused, turn_at, Brain, Turn};
use crate::duration::nanos;
use crate::error;
use crate::error::{
    law_kind_follows_the_first_trait, Error, Source, TransportError, TransportErrorKind,
    TransportErrorView,
};
use crate::flight::{backs_off, settles, steps, Action, Event, FlightView, Phase};
use crate::outcome::{content, Outcome};
use crate::policy::{retry_nanos, status_decision, Decision, HttpStatusError, Policy, StatusPolicy};
use crate::transport::copy_of;
use reqwest::Error as ClientError;
use vstd::prelude::*;

verus! {

/// One step of a request: the event, where the request stands then, and the
/// action that follows.
pub struct Moment<E> {
    pub event: Event,
    pub after: FlightView,
    pub action: Action<E>,
}

/// Where a request stands before step `i` of its history.
pub open spec fn standing<E>(history: Seq<Moment<E>>, i: int) -> FlightView {
    if i <= 0 {
        FlightView { attempt: 0, phase: Phase::Fresh }
    } else {
        history[i - 1].after
    }
}

/// Whether step `i` of `history` is one that `request` can make on `arm`.
pub open spec fn step_at<P: Policy, T>(
    arm: Arm<P, T>,
    request: reqwest::Request,
    history: Seq<Moment<P::Error>>,
    i: int,
) -> bool {
    steps(
        arm,
        request,
        standing(history, i),
        history[i].event,
        history[i].after,
        history[i].action,
    )
}

/// Whether `history` can be the history of `request` on `arm`, from the very
/// beginning.
pub open spec fn is_history<P: Policy, T>(
    arm: Arm<P, T>,
    request: reqwest::Request,
    history: Seq<Moment<P::Error>>,
) -> bool {
    forall|i: int|
        0 <= i < history.len() ==> #[trigger] step_at(arm, request, history, i)
}

/// How often a history sends the request.
pub open spec fn transmissions<E>(history: Seq<Moment<E>>) -> nat
    decreases history.len(),
{
    if history.len() == 0 {
        0
    } else {
        transmissions(history.drop_last()) + if history.last().action is Transmit {
            1nat
        } else {
            0nat
        }
    }
}

/// Whether the attempt that was begun is still to be sent.
pub open spec fn unsent(v: FlightView) -> bool {
    v.phase is Queued || v.phase is Pausing || v.phase is Throttled || v.phase is Cleared
}

/// What one step can do to the attempt number, the phase and the action.
proof fn lemma_step<P: Policy, T>(
    arm: Arm<P, T>,
    request: reqwest::Request,
    pre: FlightView,
    event: Event,
    post: FlightView,
    action: Action<P::Error>,
)
    requires
        1 <= arm@.max_attempts <= u32::MAX,
        pre.within(arm@.max_attempts),
        steps(arm, request, pre, event, post, action),
    ensures
        post.within(arm@.max_attempts),
        pre.phase is Done ==> post == pre && action is Ignored,
        action is Transmit <==> post.phase is InFlight && !(pre.phase is InFlight),
        action is Transmit ==> unsent(pre) && post.attempt == pre.attempt,
        unsent(post) ==> if unsent(pre) {
            post.attempt == pre.attempt
        } else {
            post.attempt == pre.attempt + 1
        },
        !unsent(post) && !(post.phase is Done) ==> post.attempt == pre.attempt,
        !unsent(post) && !(post.phase is Done) && unsent(pre) ==> action is Transmit,
        post.phase is Fresh ==> pre.phase is Fresh,
{
}

/// Every request stands where it can stand, and has been sent once for every
/// attempt that was begun, the one still waiting to be sent left aside.
proof fn lemma_tally<P: Policy, T>(
    arm: Arm<P, T>,
    request: reqwest::Request,
    history: Seq<Moment<P::Error>>,
)
    requires
        1 <= arm@.max_attempts <= u32::MAX,
        is_history(arm, request, history),
    ensures
        standing(history, history.len() as int).within(arm@.max_attempts),
        transmissions(history) <= standing(history, history.len() as int).attempt,
        !(standing(history, history.len() as int).phase is Done) ==> transmissions(history) == (
        if unsent(standing(history, history.len() as int)) {
            standing(history, history.len() as int).attempt - 1
        } else {
            standing(history, history.len() as int).attempt as int
        }),
    decreases history.len(),
{
    if history.len() > 0 {
        let n = history.len() - 1;
        let before = history.take(n);
        assert(history.drop_last() =~= before);
        lemma_prefix(arm, request, history, n);
        lemma_tally(arm, request, before);
        let last = history[n];
        assert(step_at(arm, request, history, n));
        lemma_step(arm, request, standing(history, n), last.event, last.after, last.action);
    }
}

/// A part of a history, from the beginning, is a history.
proof fn lemma_prefix<P: Policy, T>(
    arm: Arm<P, T>,
    request: reqwest::Request,
    history: Seq<Moment<P::Error>>,
    n: int,
)
    requires
        is_history(arm, request, history),
        0 <= n <= history.len(),
    ensures
        is_history(arm, request, history.take(n)),
        standing(history.take(n), n) == standing(history, n),
{
    let part = history.take(n);
    assert(standing(part, n) == standing(history, n));
    assert forall|i: int| 0 <= i < part.len() implies #[trigger] step_at(arm, request, part, i) by {
        assert(step_at(arm, request, history, i));
        assert(part[i] == history[i]);
        assert(standing(part, i) == standing(history, i));
    }
}

/// No request is sent more often than `max_attempts` allows, whatever happens.
pub proof fn law_at_most_max_attempts<P: Policy, T>(
    arm: Arm<P, T>,
    request: reqwest::Request,
    history: Seq<Moment<P::Error>>,
)
    requires
        1 <= arm@.max_attempts <= u32::MAX,
        is_history(arm, request, history),
    ensures
        transmissions(history) <= arm@.max_attempts,
{
    lemma_tally(arm, request, history);
}

/// A request is given up only once it has been sent as often as
/// `max_attempts` allows, and the error says how often that was.
pub proof fn law_gives_up_after_max_attempts<P: Policy, T>(
    arm: Arm<P, T>,
    request: reqwest::Request,
    history: Seq<Moment<P::Error>>,
    i: int,
)
    requires
        1 <= arm@.max_attempts <= u32::MAX,
        is_history(arm, request, history),
        0 <= i < history.len(),
        history[i].action.result() matches Some(Err(Error::Exhausted { .. })),
    ensures
        history[i].action.result() matches Some(Err(Error::Exhausted { attempts, last })) && {
            &&& attempts == arm@.max_attempts
            &&& transmissions(history.take(i)) == arm@.max_attempts
            &&& history[i].event == Event::Answered(*last)
        },
{
    let before = history.take(i);
    lemma_prefix(arm, request, history, i);
    lemma_tally(arm, request, before);
    assert(before.len() == i);
    assert(step_at(arm, request, history, i));
}

/// A finished request stays finished, and nothing more is asked for.
pub proof fn law_finished_for_good<P: Policy, T>(
    arm: Arm<P, T>,
    request: reqwest::Request,
    history: Seq<Moment<P::Error>>,
    i: int,
    j: int,
)
    requires
        is_history(arm, request, history),
        0 <= i < j < history.len(),
        history[i].action.result() is Some,
    ensures
        history[j].action is Ignored,
        history[j].after == history[i].after,
    decreases j - i,
{
    assert(step_at(arm, request, history, i));
    assert(step_at(arm, request, history, j));
    if j > i + 1 {
        law_finished_for_good(arm, request, history, i, j - 1);
    }
}

/// A slot is held exactly while the request waits out a pause, waits for a
/// token or is being sent: it is taken before either wait and released before
/// any backoff sleep, arm-wide pause or result.
pub proof fn law_slot_only_around_sending<P: Policy, T>(
    arm: Arm<P, T>,
    request: reqwest::Request,
    pre: FlightView,
    event: Event,
    post: FlightView,
    action: Action<P::Error>,
)
    requires
        steps(arm, request, pre, event, post, action),
    ensures
        action is ReadClock || action is SleepUntil || action is TakeToken || action is Transmit
            ==> post.holds_slot(),
        action is AcquireSlot || action is Sleep || action.pause() is Some || action.result() is Some
            ==> !post.holds_slot(),
        post.holds_slot() && !pre.holds_slot() ==> event is SlotAcquired,
{
}

/// Whether at step `j` the rate limiter gave the request a token.
pub open spec fn token_given<E>(history: Seq<Moment<E>>, j: int) -> bool {
    history[j].event is TokenTaken && standing(history, j).phase is Throttled
}

/// A request that has a token was given it in the attempt that it is in.
proof fn lemma_cleared_has_token<P: Policy, T>(
    arm: Arm<P, T>,
    request: reqwest::Request,
    history: Seq<Moment<P::Error>>,
    i: int,
) -> (j: int)
    requires
        is_history(arm, request, history),
        0 <= i <= history.len(),
        standing(history, i).phase is Cleared,
    ensures
        0 <= j < i,
        token_given(history, j),
        history[j].after.attempt == standing(history, i).attempt,
    decreases i,
{
    assert(step_at(arm, request, history, i - 1));
    if standing(history, i - 1).phase is Cleared {
        lemma_cleared_has_token(arm, request, history, i - 1)
    } else {
        i - 1
    }
}

/// On an arm with a rate limit every sending follows a token that was given in
/// the same attempt, and on an arm without one no token is asked for. Tokens
/// are asked for by a request that holds a slot, never by one that waits for it.
pub proof fn law_token_before_sending<P: Policy, T>(
    arm: Arm<P, T>,
    request: reqwest::Request,
    history: Seq<Moment<P::Error>>,
    i: int,
)
    requires
        is_history(arm, request, history),
        0 <= i < history.len(),
    ensures
        history[i].action is Transmit && arm@.quota is Some ==> exists|j: int|
            0 <= j < i && #[trigger] token_given(history, j) && history[j].after.attempt
                == history[i].after.attempt,
        history[i].action is TakeToken ==> arm@.quota is Some && standing(history, i).holds_slot(),
{
    assert(step_at(arm, request, history, i));
    if history[i].action is Transmit && arm@.quota is Some {
        let j = lemma_cleared_has_token(arm, request, history, i);
        assert(token_given(history, j));
    }
}

/// How often a history asks the rate limiter for a token.
pub open spec fn tokens_asked<E>(history: Seq<Moment<E>>) -> nat
    decreases history.len(),
{
    if history.len() == 0 {
        0
    } else {
        tokens_asked(history.drop_last()) + if history.last().action is TakeToken {
            1nat
        } else {
            0nat
        }
    }
}

/// On an arm with a rate limit a request asks for exactly one token for every
/// time that it is sent, and has asked for one more while it waits for it or
/// holds it. One that is finished has asked for at most that one more. On an
/// arm without a rate limit no request asks for any.
pub proof fn law_one_token_per_sending<P: Policy, T>(
    arm: Arm<P, T>,
    request: reqwest::Request,
    history: Seq<Moment<P::Error>>,
)
    requires
        is_history(arm, request, history),
    ensures
        ({
            let now = standing(history, history.len() as int);
            if arm@.quota is None {
                &&& tokens_asked(history) == 0
                &&& !(now.phase is Throttled || now.phase is Cleared)
            } else if now.phase is Done {
                transmissions(history) <= tokens_asked(history) <= transmissions(history) + 1
            } else if now.phase is Throttled || now.phase is Cleared {
                tokens_asked(history) == transmissions(history) + 1
            } else {
                tokens_asked(history) == transmissions(history)
            }
        }),
    decreases history.len(),
{
    if history.len() > 0 {
        let n = history.len() - 1;
        let before = history.take(n);
        assert(history.drop_last() =~= before);
        lemma_prefix(arm, request, history, n);
        law_one_token_per_sending(arm, request, before);
        assert(step_at(arm, request, history, n));
    }
}

/// Whether at step `j` the clock was read and the arm was found unpaused.
pub open spec fn lane_open<E>(history: Seq<Moment<E>>, j: int) -> bool {
    history[j].event matches Event::Clock { now, brain } && pause_left(brain@, now) is None
}

/// A request is sent only at a look at the clock that finds the arm unpaused,
/// also where it had to wait for a token before.
pub proof fn law_no_sending_into_a_pause<P: Policy, T>(
    arm: Arm<P, T>,
    request: reqwest::Request,
    history: Seq<Moment<P::Error>>,
    i: int,
)
    requires
        is_history(arm, request, history),
        0 <= i < history.len(),
    ensures
        history[i].action is Transmit ==> lane_open(history, i),
{
    assert(step_at(arm, request, history, i));
}

/// Whatever the attempt number, the last one included: where the policy decides
/// to retry after `d`, the whole arm is paused for exactly `d`, and on no other
/// decision is it paused.
pub proof fn law_retry_after_pauses_the_arm<P: Policy, T>(
    arm: Arm<P, T>,
    pre: FlightView,
    result: Result<Outcome, TransportError>,
    decision: Decision<P::Error>,
    post: FlightView,
    action: Action<P::Error>,
)
    requires
        settles(arm, pre, result, decision, post, action),
    ensures
        action.pause() == (match decision {
            Decision::Retry { after } => after,
            _ => None,
        }),
{
}

/// The attempt number that the policy is asked about is how often the request
/// has been sent.
pub proof fn law_attempt_counts_sendings<P: Policy, T>(
    arm: Arm<P, T>,
    request: reqwest::Request,
    history: Seq<Moment<P::Error>>,
    i: int,
)
    requires
        1 <= arm@.max_attempts <= u32::MAX,
        is_history(arm, request, history),
        0 <= i <= history.len(),
        standing(history, i).phase is InFlight,
    ensures
        transmissions(history.take(i)) == standing(history, i).attempt,
{
    lemma_prefix(arm, request, history, i);
    lemma_tally(arm, request, history.take(i));
}

/// The deadline ends an unfinished request wherever it stands, on an arm that
/// has one; on an arm without it, and by anything but the deadline, no request
/// ends so.
pub proof fn law_deadline_covers_everything<P: Policy, T>(
    arm: Arm<P, T>,
    request: reqwest::Request,
    pre: FlightView,
    event: Event,
    post: FlightView,
    action: Action<P::Error>,
)
    requires
        steps(arm, request, pre, event, post, action),
    ensures
        event is DeadlineElapsed && arm@.total_timeout is Some && !(pre.phase is Done) ==> action
            == Action::<P::Error>::Finish(Err(Error::Deadline)) && post.phase is Done,
        action.result() == Some(Err::<Outcome, Error<P::Error>>(Error::Deadline))
            ==> event is DeadlineElapsed && arm@.total_timeout is Some,
{
}

/// What is sent is always a copy of the request, each time anew. A request
/// that cannot be copied fails at once and is never sent, and no other fails so.
pub proof fn law_sends_fresh_copies<P: Policy, T>(
    arm: Arm<P, T>,
    request: reqwest::Request,
    history: Seq<Moment<P::Error>>,
    i: int,
)
    requires
        is_history(arm, request, history),
        0 <= i < history.len(),
    ensures
        history[i].action matches Action::Transmit(sent) ==> copy_of(request) == Some(sent),
        history[i].action == Action::<P::Error>::Finish(Err(Error::NotCloneable)) ==> copy_of(
            request,
        ) is None,
        copy_of(request) is None && standing(history, i).phase is Fresh && history[i].event is Start
            ==> history[i].action == Action::<P::Error>::Finish(Err(Error::NotCloneable)),
{
    assert(step_at(arm, request, history, i));
}

/// A response or a transport failure that a request finishes with is the one
/// that its last attempt came back with, and the policy, whichever it is,
/// accepted it. An error of the policy is one that it decided on then.
pub proof fn law_results_are_what_came_back<P: Policy, T>(
    arm: Arm<P, T>,
    request: reqwest::Request,
    pre: FlightView,
    event: Event,
    post: FlightView,
    action: Action<P::Error>,
)
    requires
        steps(arm, request, pre, event, post, action),
    ensures
        action matches Action::Finish(Ok(o)) ==> event == Event::Answered(Ok(o)) && call_ensures(
            P::decide,
            (&arm@.policy, pre.attempt, &Ok(o)),
            Decision::Accept,
        ),
        action matches Action::Finish(Err(Error::Transport(e))) ==> event == Event::Answered(Err(e))
            && call_ensures(
            P::decide,
            (&arm@.policy, pre.attempt, &Err(e)),
            Decision::Accept,
        ),
        action matches Action::Finish(Err(Error::Policy(e))) ==> event matches Event::Answered(r)
            && call_ensures(P::decide, (&arm@.policy, pre.attempt, &r), Decision::Fail(e)),
{
}

/// What an arm with the default policy does about the result of an attempt.
///
/// * 2xx: the response is the result.
/// * Any other status that is not worth a retry: the error carries that status
///   and the body.
/// * A transport failure that does not pass by itself: it is the error.
/// * Otherwise, with attempts left: a pause of the whole arm as long as
///   `Retry-After` asks for, or else a backoff sleep of this request.
/// * Otherwise, with none left: the error carries the number of attempts and
///   that last result, and the whole arm is paused all the same if
///   `Retry-After` asks for it.
pub proof fn law_default_policy_answers<T>(
    arm: Arm<StatusPolicy, T>,
    request: reqwest::Request,
    pre: FlightView,
    result: Result<Outcome, TransportError>,
    post: FlightView,
    action: Action<HttpStatusError>,
)
    requires
        1 <= arm@.max_attempts <= u32::MAX,
        pre.phase is InFlight,
        steps(arm, request, pre, Event::Answered(result), post, action),
    ensures
        match result {
            Ok(o) => if 200 <= o.status@ <= 299 {
                action == Action::<HttpStatusError>::Finish(Ok(o))
            } else if !(o.status@ == 408 || o.status@ == 429 || o.status@ == 500 || o.status@ == 502
                || o.status@ == 503 || o.status@ == 504) {
                action matches Action::Finish(Err(Error::Policy(e))) && e.status == o.status
                    && content(e.body) == content(o.body)
            } else if pre.attempt < arm@.max_attempts {
                match retry_nanos(o.headers, arm@.policy@) {
                    Some(n) => action matches Action::PauseArm(d) && nanos(d) == n,
                    None => backs_off(arm@.backoff, pre.attempt as nat, action),
                }
            } else {
                let given_up = Err(
                    Error::Exhausted { attempts: pre.attempt, last: Box::new(result) },
                );
                match retry_nanos(o.headers, arm@.policy@) {
                    Some(n) => action matches Action::PauseAndFinish(d, r) && nanos(d) == n && r
                        == given_up,
                    None => action == Action::<HttpStatusError>::Finish(given_up),
                }
            },
            Err(e) => if !(e@.kind is Timeout || e@.kind is Connect || e@.kind is Body) {
                action == Action::<HttpStatusError>::Finish(Err(Error::Transport(e)))
            } else if pre.attempt < arm@.max_attempts {
                backs_off(arm@.backoff, pre.attempt as nat, action)
            } else {
                action == Action::<HttpStatusError>::Finish(
                    Err(Error::Exhausted { attempts: pre.attempt, last: Box::new(result) }),
                )
            },
        },
{
    let decision = choose|decision: Decision<HttpStatusError>|
        {
            &&& call_ensures(
                <StatusPolicy as Policy>::decide,
                (&arm@.policy, pre.attempt, &result),
                decision,
            )
            &&& #[trigger] settles(arm, pre, result, decision, post, action)
        };
    assert(status_decision(arm@.policy@, result, decision));
}

/// What the default policy does about a failure of the HTTP client, as long as
/// attempts are left: whatever timed out, failed to connect or broke off in the
/// body is tried again after a backoff sleep. Anything else, unless it also
/// timed out or failed to connect, is handed back at once.
pub proof fn law_transient_client_failures_are_retried<T>(
    arm: Arm<StatusPolicy, T>,
    request: reqwest::Request,
    e: ClientError,
    failure: TransportError,
    pre: FlightView,
    post: FlightView,
    action: Action<HttpStatusError>,
)
    requires
        1 <= pre.attempt < arm@.max_attempts <= u32::MAX,
        pre.phase is InFlight,
        failure@ == (TransportErrorView {
            kind: TransportErrorKind::of_error(e),
            source: Source::Reqwest(e),
        }),
        steps(arm, request, pre, Event::Answered(Err(failure)), post, action),
    ensures
        error::is_timeout(e) || error::is_connect(e) || error::is_body(e) || error::is_decode(e) ==> backs_off(
            arm@.backoff,
            pre.attempt as nat,
            action,
        ),
        !error::is_timeout(e) && !error::is_connect(e) && !error::is_body(e) && !error::is_decode(e) ==> action
            == Action::<HttpStatusError>::Finish(Err(Error::Transport(failure))),
{
    law_kind_follows_the_first_trait(e);
    law_default_policy_answers(arm, request, pre, Err(failure), post, action);
}

/// Every decision of a policy, whichever policy it is, is carried out.
///
/// * Accepted: the result is handed back as it is.
/// * Failed: the policy's own error is handed back, and never another, whatever
///   the attempt number and whatever the answer was.
/// * To be retried, with attempts left: the arm pauses for as long as the policy
///   said, or else this request sleeps as the backoff has it.
/// * To be retried, with none left: the request is given up with the number of
///   attempts and the last result. It is given up in no other case.
pub proof fn law_policy_is_obeyed<P: Policy, T>(
    arm: Arm<P, T>,
    pre: FlightView,
    result: Result<Outcome, TransportError>,
    decision: Decision<P::Error>,
    post: FlightView,
    action: Action<P::Error>,
)
    requires
        1 <= arm@.max_attempts <= u32::MAX,
        settles(arm, pre, result, decision, post, action),
    ensures
        decision is Accept ==> (result matches Ok(o) ==> action == Action::<P::Error>::Finish(
            Ok(o),
        )),
        decision is Accept ==> (result matches Err(e) ==> action == Action::<P::Error>::Finish(
            Err(Error::Transport(e)),
        )),
        decision matches Decision::Fail(e) ==> action == Action::<P::Error>::Finish(
            Err(Error::Policy(e)),
        ),
        decision is Retry && pre.attempt < arm@.max_attempts ==> action.result() is None,
        pre.attempt < arm@.max_attempts ==> (decision matches Decision::Retry { after } ==> (
        after matches Some(d) ==> action == Action::<P::Error>::PauseArm(d))),
        pre.attempt < arm@.max_attempts ==> (decision matches Decision::Retry { after } ==> (
        after is None ==> backs_off(arm@.backoff, pre.attempt as nat, action))),
        decision is Retry && pre.attempt >= arm@.max_attempts ==> action.result() == Some(
            Err::<Outcome, Error<P::Error>>(
                Error::Exhausted { attempts: pre.attempt, last: Box::new(result) },
            ),
        ),
        action.result() matches Some(Err(Error::Exhausted { .. })) ==> decision is Retry
            && pre.attempt >= arm@.max_attempts,
        action.result() is Some <==> post.phase is Done,
        post.attempt == pre.attempt,
{
}

/// Where a policy can decide only one thing about an answer, that is what
/// happens when the answer comes in.
pub proof fn law_answer_leads_to_the_decision<P: Policy, T>(
    arm: Arm<P, T>,
    request: reqwest::Request,
    pre: FlightView,
    result: Result<Outcome, TransportError>,
    decision: Decision<P::Error>,
    post: FlightView,
    action: Action<P::Error>,
)
    requires
        1 <= arm@.max_attempts <= u32::MAX,
        pre.phase is InFlight,
        steps(arm, request, pre, Event::Answered(result), post, action),
        forall|d: Decision<P::Error>|
            #[trigger] call_ensures(P::decide, (&arm@.policy, pre.attempt, &result), d) ==> d
                == decision,
    ensures
        decision is Accept ==> (result matches Ok(o) ==> action == Action::<P::Error>::Finish(
            Ok(o),
        )),
        decision is Accept ==> (result matches Err(e) ==> action == Action::<P::Error>::Finish(
            Err(Error::Transport(e)),
        )),
        decision matches Decision::Fail(e) ==> action == Action::<P::Error>::Finish(
            Err(Error::Policy(e)),
        ),
        decision is Retry ==> (action.result() is Some <==> pre.attempt >= arm@.max_attempts),
        action.result() matches Some(Err(Error::Exhausted { .. })) ==> decision is Retry
            && pre.attempt >= arm@.max_attempts,
{
}

/// A backoff sleep is as long as the delay of that attempt, or with jitter
/// between half and all of it.
pub proof fn law_backoff_sleeps_the_delay<E>(
    backoff: BackoffView,
    attempt: nat,
    action: Action<E>,
)
    requires
        backs_off(backoff, attempt, action),
    ensures
        action matches Action::Sleep(d) && {
            &&& !backoff.jitter ==> nanos(d) == backoff.full_delay(attempt)
            &&& backoff.full_delay(attempt) / 2 <= nanos(d) <= backoff.full_delay(attempt)
            &&& nanos(d) <= backoff.cap
        },
{
    let d = action->Sleep_0;
    let draw = choose|draw: nat|
        draw < DRAWS && nanos(d) == #[trigger] backoff.delay(attempt, draw);
    law_delay_at_most_cap(backoff, attempt, draw);
    if backoff.jitter {
        law_jitter_keeps_upper_half(backoff, attempt, draw);
    }
}

/// An event that a request does not wait for changes nothing and asks for
/// nothing, and one that asks for nothing changes nothing.
pub proof fn law_unfit_events_change_nothing<P: Policy, T>(
    arm: Arm<P, T>,
    request: reqwest::Request,
    pre: FlightView,
    event: Event,
    post: FlightView,
    action: Action<P::Error>,
)
    requires
        steps(arm, request, pre, event, post, action),
    ensures
        action is Ignored ==> post == pre,
        ({
            ||| event is Start && !(pre.phase is Fresh)
            ||| event is SlotAcquired && !(pre.phase is Queued)
            ||| event is Clock && !(pre.phase is Pausing || pre.phase is Cleared)
            ||| event is Woke && !(pre.phase is Pausing || pre.phase is Cleared)
            ||| event is TokenTaken && !(pre.phase is Throttled)
            ||| event is Answered && !(pre.phase is InFlight)
            ||| event is ArmPaused && !(pre.phase is Halting)
            ||| event is Rested && !(pre.phase is Resting)
            ||| event is DeadlineElapsed && (pre.phase is Done || arm@.total_timeout is None)
        }) ==> action is Ignored && post == pre,
{
}

/// What a request asks for tells where it stands.
pub proof fn law_action_tells_the_phase<P: Policy, T>(
    arm: Arm<P, T>,
    request: reqwest::Request,
    pre: FlightView,
    event: Event,
    post: FlightView,
    action: Action<P::Error>,
)
    requires
        steps(arm, request, pre, event, post, action),
    ensures
        action is AcquireSlot ==> post.phase is Queued,
        action is ReadClock || action is SleepUntil ==> post.phase is Pausing
            || post.phase is Cleared,
        action is TakeToken ==> post.phase is Throttled,
        action is Transmit ==> post.phase is InFlight,
        action is PauseArm ==> post.phase is Halting,
        action is Sleep ==> post.phase is Resting,
        action.result() is Some ==> post.phase is Done,
{
}

/// A look at the clock: while a pause is still to end, the request sleeps until
/// exactly its end, and stands where it stood. As soon as no pause is left, it
/// asks for a token, if the arm has a rate limit and has not given it one, and
/// is sent otherwise.
pub proof fn law_look_at_the_clock<P: Policy, T>(
    arm: Arm<P, T>,
    request: reqwest::Request,
    pre: FlightView,
    now: u128,
    brain: Brain,
    post: FlightView,
    action: Action<P::Error>,
)
    requires
        pre.phase is Pausing || pre.phase is Cleared,
        steps(arm, request, pre, Event::Clock { now, brain }, post, action),
    ensures
        brain@ is Some && brain@->0 > now ==> post == pre && action
            == Action::<P::Error>::SleepUntil(brain@->0),
        brain@ is None || brain@->0 <= now ==> if arm@.quota is Some && pre.phase is Pausing {
            action is TakeToken
        } else {
            copy_of(request) is Some && action == Action::<P::Error>::Transmit(
                copy_of(request)->0,
            )
        },
        action matches Action::SleepUntil(t) ==> t > now,
{
}

/// A request that was begun can be copied.
proof fn lemma_begun_can_be_copied<P: Policy, T>(
    arm: Arm<P, T>,
    request: reqwest::Request,
    history: Seq<Moment<P::Error>>,
    i: int,
)
    requires
        is_history(arm, request, history),
        0 <= i <= history.len(),
        !(standing(history, i).phase is Fresh || standing(history, i).phase is Done),
    ensures
        copy_of(request) is Some,
    decreases i,
{
    if i > 0 {
        assert(step_at(arm, request, history, i - 1));
        if !(standing(history, i - 1).phase is Fresh) {
            lemma_begun_can_be_copied(arm, request, history, i - 1);
        }
    }
}

/// Each action, once carried out, leads on. The slot leads to a look at the
/// clock. Such a look leads to a sleep exactly until the end of a pause that is
/// still to come, and without one to the rate limiter or to being sent: to being
/// sent at once where there is no rate limit or its token has been given. A
/// sleep or a token leads to another look at the clock. A pause of the arm or a
/// backoff sleep leads to the next attempt.
pub proof fn law_actions_lead_on<P: Policy, T>(
    arm: Arm<P, T>,
    request: reqwest::Request,
    history: Seq<Moment<P::Error>>,
    i: int,
)
    requires
        is_history(arm, request, history),
        0 <= i < history.len(),
    ensures
        ({
            let e = history[i].event;
            let b = history[i].action;
            let a = history[i - 1].action;
            &&& i == 0 && e is Start && copy_of(request) is Some ==> b is AcquireSlot
            &&& i > 0 && a is AcquireSlot && e is SlotAcquired ==> b is ReadClock
            &&& i > 0 && a is ReadClock ==> (e matches Event::Clock { now, brain } ==> {
                let waits = brain@ is Some && brain@->0 > now;
                &&& waits ==> b == Action::<P::Error>::SleepUntil(brain@->0)
                &&& !waits ==> b is TakeToken || b is Transmit
                &&& !waits && arm@.quota is None ==> b is Transmit
                &&& !waits && standing(history, i).phase is Cleared ==> b is Transmit
                &&& !waits && arm@.quota is Some && standing(history, i).phase is Pausing
                    ==> b is TakeToken
            })
            &&& i > 0 && a is SleepUntil && e is Woke ==> b is ReadClock
            &&& i > 0 && a is TakeToken && e is TokenTaken ==> b is ReadClock
            &&& i > 0 && a is Transmit && e is Answered ==> b is Sleep || b.pause() is Some
                || b.result() is Some
            &&& i > 0 && a is PauseArm && e is ArmPaused ==> b is AcquireSlot
            &&& i > 0 && a is Sleep && e is Rested ==> b is AcquireSlot
            &&& b is AcquireSlot ==> history[i].after.attempt == standing(history, i).attempt + 1
            &&& b is TakeToken || b is Transmit || b is ReadClock || b is SleepUntil
                ==> history[i].after.attempt == standing(history, i).attempt
        }),
{
    assert(step_at(arm, request, history, i));
    if i > 0 {
        assert(step_at(arm, request, history, i - 1));
        if !(standing(history, i).phase is Fresh || standing(history, i).phase is Done) {
            lemma_begun_can_be_copied(arm, request, history, i);
        }
    }
}

/// How many of `requests` hold a slot.
pub open spec fn slots_held(requests: Seq<FlightView>) -> nat
    decreases requests.len(),
{
    if requests.len() == 0 {
        0
    } else {
        slots_held(requests.drop_last()) + if requests.last().holds_slot() {
            1nat
        } else {
            0nat
        }
    }
}

/// How many of `requests` are being sent.
pub open spec fn being_sent(requests: Seq<FlightView>) -> nat
    decreases requests.len(),
{
    if requests.len() == 0 {
        0
    } else {
        being_sent(requests.drop_last()) + if requests.last().phase is InFlight {
            1nat
        } else {
            0nat
        }
    }
}

/// One step of one of the requests that share an arm.
pub struct LaneMoment<E> {
    /// Which of the requests it is.
    pub who: int,
    /// The moment at which it happens.
    pub now: u128,
    pub event: Event,
    /// Where all the requests stand then.
    pub after: Seq<FlightView>,
    pub action: Action<E>,
    /// The end of the lane-wide pause then.
    pub until: Option<u128>,
}

/// Where the requests that share an arm stand before step `i`: all `n` of them
/// fresh at the beginning.
pub open spec fn lane_standing<E>(n: nat, history: Seq<LaneMoment<E>>, i: int) -> Seq<FlightView> {
    if i <= 0 {
        Seq::new(n, |k: int| FlightView { attempt: 0, phase: Phase::Fresh })
    } else {
        history[i - 1].after
    }
}

/// The end of the lane-wide pause before step `i`: none at the beginning.
pub open spec fn lane_until<E>(history: Seq<LaneMoment<E>>, i: int) -> Option<u128> {
    if i <= 0 {
        None
    } else {
        history[i - 1].until
    }
}

/// Whether step `i` of `history` is one that one of `requests` can make on
/// `arm`, the others standing still. A slot is acquired only while fewer are
/// held than the arm has. The clock shows the moment and the pause that all
/// share, and a pause that is asked for begins at that moment.
pub open spec fn lane_step_at<P: Policy, T>(
    arm: Arm<P, T>,
    requests: Seq<reqwest::Request>,
    history: Seq<LaneMoment<P::Error>>,
    i: int,
) -> bool {
    let pre = lane_standing(requests.len(), history, i);
    let m = history[i];
    &&& 0 <= m.who < pre.len()
    &&& m.after == pre.update(m.who, m.after[m.who])
    &&& steps(arm, requests[m.who], pre[m.who], m.event, m.after[m.who], m.action)
    &&& m.event is SlotAcquired ==> slots_held(pre) < arm@.suckers
    &&& m.event matches Event::Clock { now, brain } ==> now == m.now && brain@ == lane_until(
        history,
        i,
    )
    &&& match m.action.pause() {
        Some(d) => {
            &&& m.now + nanos(d) <= u128::MAX
            &&& m.until == paused(lane_until(history, i), m.now, nanos(d))
        },
        None => m.until == lane_until(history, i),
    }
}

/// Whether `history` can be the history of `requests` that share `arm`, in any
/// order of their steps.
pub open spec fn is_lane_history<P: Policy, T>(
    arm: Arm<P, T>,
    requests: Seq<reqwest::Request>,
    history: Seq<LaneMoment<P::Error>>,
) -> bool {
    forall|i: int|
        0 <= i < history.len() ==> #[trigger] lane_step_at(arm, requests, history, i)
}

/// At no moment are more requests of an arm in flight than it has suckers,
/// however many there are and however their steps interleave.
pub proof fn law_suckers_cap_concurrency<P: Policy, T>(
    arm: Arm<P, T>,
    requests: Seq<reqwest::Request>,
    history: Seq<LaneMoment<P::Error>>,
    i: int,
)
    requires
        is_lane_history(arm, requests, history),
        0 <= i <= history.len(),
    ensures
        slots_held(lane_standing(requests.len(), history, i)) <= arm@.suckers,
        being_sent(lane_standing(requests.len(), history, i)) <= arm@.suckers,
    decreases i,
{
    let now = lane_standing(requests.len(), history, i);
    lemma_sent_hold_slots(now);
    if i <= 0 {
        lemma_fresh_hold_none(now);
    } else {
        law_suckers_cap_concurrency(arm, requests, history, i - 1);
        let pre = lane_standing(requests.len(), history, i - 1);
        let m = history[i - 1];
        assert(lane_step_at(arm, requests, history, i - 1));
        lemma_one_slot_changes(pre, m.who, m.after[m.who]);
        law_slot_only_around_sending(
            arm,
            requests[m.who],
            pre[m.who],
            m.event,
            m.after[m.who],
            m.action,
        );
    }
}

/// A pause that was asked for at step `i` is not over at any later step before
/// its end.
proof fn lemma_pause_lasts<P: Policy, T>(
    arm: Arm<P, T>,
    requests: Seq<reqwest::Request>,
    history: Seq<LaneMoment<P::Error>>,
    i: int,
    j: int,
)
    requires
        is_lane_history(arm, requests, history),
        0 <= i < j <= history.len(),
        history[i].action.pause() is Some,
    ensures
        lane_until(history, j) matches Some(t) && t >= history[i].now + nanos(
            history[i].action.pause()->0,
        ),
    decreases j,
{
    assert(lane_step_at(arm, requests, history, j - 1));
    if j - 1 > i {
        lemma_pause_lasts(arm, requests, history, i, j - 1);
    }
}

/// Once one request of an arm was told to retry after a while, no request of
/// that arm is sent before that while is over, whichever it is, wherever it
/// stood then, and whatever other pauses come up.
pub proof fn law_pause_stops_the_lane<P: Policy, T>(
    arm: Arm<P, T>,
    requests: Seq<reqwest::Request>,
    history: Seq<LaneMoment<P::Error>>,
    i: int,
    j: int,
)
    requires
        is_lane_history(arm, requests, history),
        0 <= i < j < history.len(),
        history[i].action.pause() is Some,
        history[j].action is Transmit,
    ensures
        history[j].now >= history[i].now + nanos(history[i].action.pause()->0),
{
    lemma_pause_lasts(arm, requests, history, i, j);
    assert(lane_step_at(arm, requests, history, j));
}

proof fn lemma_fresh_hold_none(requests: Seq<FlightView>)
    requires
        forall|k: int| 0 <= k < requests.len() ==> (#[trigger] requests[k]).phase is Fresh,
    ensures
        slots_held(requests) == 0,
    decreases requests.len(),
{
    if requests.len() > 0 {
        lemma_fresh_hold_none(requests.drop_last());
    }
}

/// A step of one request changes the number of slots held by that request's.
proof fn lemma_one_slot_changes(requests: Seq<FlightView>, k: int, v: FlightView)
    requires
        0 <= k < requests.len(),
    ensures
        slots_held(requests.update(k, v)) == slots_held(requests) + (if v.holds_slot() {
            1int
        } else {
            0
        }) - (if requests[k].holds_slot() {
            1int
        } else {
            0
        }),
    decreases requests.len(),
{
    let changed = requests.update(k, v);
    if k == requests.len() - 1 {
        assert(changed.drop_last() =~= requests.drop_last());
    } else {
        assert(changed.drop_last() =~= requests.drop_last().update(k, v));
        lemma_one_slot_changes(requests.drop_last(), k, v);
    }
}

proof fn lemma_sent_hold_slots(requests: Seq<FlightView>)
    ensures
        being_sent(requests) <= slots_held(requests),
    decreases requests.len(),
{
    if requests.len() > 0 {
        lemma_sent_hold_slots(requests.drop_last());
    }
}

/// A pause is never shortened by another one.
pub proof fn law_pause_never_shortened(until: Option<u128>, now: u128, d: nat)
    requires
        now + d <= u128::MAX,
    ensures
        paused(until, now, d) matches Some(t) && {
            &&& t >= now + d
            &&& until matches Some(before) ==> t >= before
            &&& t == now + d || until == Some(t)
        },
{
}

/// The end of the pause after the pauses `asked` for, one after the other, as
/// pairs of a moment and a length.
pub open spec fn paused_by(until: Option<u128>, asked: Seq<(u128, nat)>) -> Option<u128>
    decreases asked.len(),
{
    if asked.len() == 0 {
        until
    } else {
        paused(paused_by(until, asked.drop_last()), asked.last().0, asked.last().1)
    }
}

/// Once a pause was asked for, every request of the arm that looks before its
/// end is told to sleep at least until then, whatever other pauses were asked
/// for before or after.
pub proof fn law_pause_holds_everyone(
    until: Option<u128>,
    asked: Seq<(u128, nat)>,
    i: int,
    now: u128,
    limited: bool,
)
    requires
        0 <= i < asked.len(),
        forall|j: int| 0 <= j < asked.len() ==> (#[trigger] asked[j]).0 + asked[j].1 <= u128::MAX,
        now < asked[i].0 + asked[i].1,
    ensures
        turn_at(paused_by(until, asked), now, limited) matches Turn::SleepUntil(t) && t >= asked[i].0
            + asked[i].1,
    decreases asked.len(),
{
    let before = asked.drop_last();
    assert(asked.last() == asked[asked.len() - 1]);
    law_pause_never_shortened(paused_by(until, before), asked.last().0, asked.last().1);
    if i < before.len() {
        assert forall|j: int| 0 <= j < before.len() implies (#[trigger] before[j]).0 + before[j].1
            <= u128::MAX by {
            assert(before[j] == asked[j]);
        }
        law_pause_holds_everyone(until, before, i, now, limited);
    }
}

} // verus!
