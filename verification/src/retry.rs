//! Sending a request again when it fails, with a restart of the backend in between.

use crate::backend::{BackendInstance, BackendState, BackendView};
use crate::error::ProxyError;
use crate::jsonrpc::JsonRpcResponse;
use vstd::prelude::*;

verus! {

/// How far the attempts to send a request have come.
#[derive(Debug, Clone, Copy, PartialEq, Eq, Structural)]
pub struct RetryLoop {
    /// The attempt under way; the first is 0.
    pub attempt: u32,
    /// How many attempts may follow the first.
    pub max_retries: u32,
}

impl RetryLoop {
    /// The attempt under way is one of those allowed.
    pub open spec fn well_formed(self) -> bool {
        self.attempt <= self.max_retries
    }

    /// The first of up to `max_retries + 1` attempts.
    pub fn new(max_retries: u32) -> (res: RetryLoop)
        ensures
            res.attempt == 0,
            res.max_retries == max_retries,
            res.well_formed(),
    {
        RetryLoop { attempt: 0, max_retries }
    }
}

/// What happened while a request is attempted.
pub enum RetryEvent<P> {
    /// The first attempt begins.
    Start,
    /// The backend was restarted, or could not be.
    Restarted(Result<(), ProxyError>),
    /// The request was answered, or failed.
    Answered(Result<JsonRpcResponse<P>, ProxyError>),
}

/// What to do next.
pub enum RetryStep<P> {
    /// Restart the backend.
    Restart(RetryLoop),
    /// Send the request.
    Send(RetryLoop),
    /// Return this.
    Finish(Result<JsonRpcResponse<P>, ProxyError>),
}

/// How an attempt begins: with a restart where the backend is dead, except for the first.
pub open spec fn attempt_begins<P>(dead: bool, retry: RetryLoop) -> RetryStep<P> {
    if dead && retry.attempt > 0 {
        RetryStep::Restart(retry)
    } else {
        RetryStep::Send(retry)
    }
}

/// The attempt behind `retry`.
pub open spec fn next_attempt(retry: RetryLoop) -> RetryLoop {
    RetryLoop { attempt: (retry.attempt + 1) as u32, ..retry }
}

/// What to do once `event` happened in the attempt `retry` on a backend in `state`.
pub open spec fn retry_step<P>(
    state: BackendState,
    retry: RetryLoop,
    event: RetryEvent<P>,
) -> RetryStep<P> {
    let dead = state == BackendState::Dead;
    match event {
        RetryEvent::Start => attempt_begins(dead, retry),
        RetryEvent::Restarted(Ok(_)) => RetryStep::Send(retry),
        RetryEvent::Restarted(Err(e)) => if retry.attempt < retry.max_retries {
            attempt_begins(dead, next_attempt(retry))
        } else {
            RetryStep::Finish(Err(e))
        },
        RetryEvent::Answered(Ok(response)) => RetryStep::Finish(Ok(response)),
        RetryEvent::Answered(Err(e)) => if retry.attempt < retry.max_retries {
            RetryStep::Restart(next_attempt(retry))
        } else {
            RetryStep::Finish(Err(e))
        },
    }
}

/// The state of the backend once `event` happened: a request that failed and is tried again marks
/// it as dead, so that it is restarted first.
pub open spec fn state_after<P>(
    state: BackendState,
    retry: RetryLoop,
    event: RetryEvent<P>,
) -> BackendState {
    match event {
        RetryEvent::Answered(Err(_)) => if retry.attempt < retry.max_retries {
            BackendState::Dead
        } else {
            state
        },
        _ => state,
    }
}

impl<T> BackendInstance<T> {
    fn begin_attempt<P>(&self, retry: RetryLoop) -> (res: RetryStep<P>)
        ensures
            res == attempt_begins::<P>(self@.state == BackendState::Dead, retry),
    {
        if self.is_dead() && retry.attempt > 0 {
            RetryStep::Restart(retry)
        } else {
            RetryStep::Send(retry)
        }
    }

    /// Decides what to do about a request that may be sent again when it fails: the first step
    /// comes from [`RetryEvent::Start`], and each further one from what came of the step before.
    pub fn send_request_with_retry<P>(&mut self, retry: RetryLoop, event: RetryEvent<P>) -> (res:
        RetryStep<P>)
        requires
            retry.well_formed(),
        ensures
            old(self)@.well_formed() ==> final(self)@.well_formed(),
            res == retry_step(old(self)@.state, retry, event),
            final(self)@ == (BackendView {
                state: state_after(old(self)@.state, retry, event),
                ..old(self)@
            }),
    {
        match event {
            RetryEvent::Start => self.begin_attempt(retry),
            RetryEvent::Restarted(Ok(_)) => RetryStep::Send(retry),
            RetryEvent::Restarted(Err(e)) => {
                if retry.attempt < retry.max_retries {
                    let next = RetryLoop {
                        attempt: retry.attempt + 1,
                        max_retries: retry.max_retries,
                    };
                    self.begin_attempt(next)
                } else {
                    RetryStep::Finish(Err(e))
                }
            },
            RetryEvent::Answered(Ok(response)) => RetryStep::Finish(Ok(response)),
            RetryEvent::Answered(Err(e)) => {
                if retry.attempt < retry.max_retries {
                    let next = RetryLoop {
                        attempt: retry.attempt + 1,
                        max_retries: retry.max_retries,
                    };
                    self.state = BackendState::Dead;
                    self.begin_attempt(next)
                } else {
                    RetryStep::Finish(Err(e))
                }
            },
        }
    }
}

/// The attempt that `step` belongs to.
pub open spec fn step_loop<P>(step: RetryStep<P>) -> RetryLoop
    recommends
        !(step is Finish),
{
    match step {
        RetryStep::Restart(retry) => retry,
        RetryStep::Send(retry) => retry,
        RetryStep::Finish(_) => arbitrary(),
    }
}

/// Whether `event` can come of `step`.
pub open spec fn comes_of<P>(event: RetryEvent<P>, step: RetryStep<P>) -> bool {
    match step {
        RetryStep::Restart(_) => event is Restarted,
        RetryStep::Send(_) => event is Answered,
        RetryStep::Finish(_) => false,
    }
}

/// `steps` is a course of attempts at one request: it starts with the first, and each step comes
/// of what happened in the one before, whatever the state of the backend was by then.
pub open spec fn is_course<P>(
    max_retries: u32,
    states: Seq<BackendState>,
    events: Seq<RetryEvent<P>>,
    steps: Seq<RetryStep<P>>,
) -> bool {
    &&& steps.len() > 0
    &&& states.len() == steps.len()
    &&& events.len() == steps.len()
    &&& events[0] is Start
    &&& steps[0] == retry_step(
        states[0],
        RetryLoop { attempt: 0, max_retries },
        events[0],
    )
    &&& forall|i: int|
        0 < i < steps.len() ==> comes_of(events[i], steps[i - 1]) && (#[trigger] steps[i])
            == retry_step(states[i], step_loop(steps[i - 1]), events[i])
}

/// How often `steps` send the request.
pub open spec fn send_count<P>(steps: Seq<RetryStep<P>>) -> nat
    decreases steps.len(),
{
    if steps.len() == 0 {
        0
    } else {
        send_count(steps.drop_last()) + if steps.last() is Send {
            1nat
        } else {
            0nat
        }
    }
}

/// How often `steps` restart the backend.
pub open spec fn restart_count<P>(steps: Seq<RetryStep<P>>) -> nat
    decreases steps.len(),
{
    if steps.len() == 0 {
        0
    } else {
        restart_count(steps.drop_last()) + if steps.last() is Restart {
            1nat
        } else {
            0nat
        }
    }
}

proof fn lemma_course<P>(
    max_retries: u32,
    states: Seq<BackendState>,
    events: Seq<RetryEvent<P>>,
    steps: Seq<RetryStep<P>>,
    n: int,
)
    requires
        is_course(max_retries, states, events, steps),
        0 < n <= steps.len(),
    ensures
        !(steps[n - 1] is Finish) ==> {
            let retry = step_loop(steps[n - 1]);
            &&& retry.well_formed()
            &&& retry.max_retries == max_retries
            &&& n <= 2 * retry.attempt + 1
            &&& restart_count(steps.take(n)) <= retry.attempt
            &&& steps[n - 1] is Send ==> send_count(steps.take(n)) <= retry.attempt + 1
            &&& steps[n - 1] is Restart ==> {
                &&& retry.attempt > 0
                &&& n <= 2 * retry.attempt
                &&& send_count(steps.take(n)) <= retry.attempt
            }
        },
        steps[n - 1] is Finish ==> {
            &&& n <= 2 * max_retries + 2
            &&& restart_count(steps.take(n)) <= max_retries
            &&& send_count(steps.take(n)) <= max_retries + 1
        },
    decreases n,
{
    let upto = steps.take(n);
    assert(upto.last() == steps[n - 1]);
    if n == 1 {
        assert(upto.drop_last() =~= Seq::empty());
        assert(send_count(upto.drop_last()) == 0);
        assert(restart_count(upto.drop_last()) == 0);
    } else {
        lemma_course(max_retries, states, events, steps, n - 1);
        assert(upto.drop_last() =~= steps.take(n - 1));
        assert(comes_of(events[n - 1], steps[n - 2]));
        assert(steps[n - 1] == retry_step(states[n - 1], step_loop(steps[n - 2]), events[n - 1]));
    }
}

/// A request is attempted a bounded number of times: it is sent at most `max_retries + 1` times,
/// the backend is restarted at most `max_retries` times, and then the course is at its end.
pub proof fn attempts_are_bounded<P>(
    max_retries: u32,
    states: Seq<BackendState>,
    events: Seq<RetryEvent<P>>,
    steps: Seq<RetryStep<P>>,
)
    requires
        is_course(max_retries, states, events, steps),
    ensures
        steps.len() <= 2 * max_retries + 2,
        send_count(steps) <= max_retries + 1,
        restart_count(steps) <= max_retries,
{
    let n = steps.len() as int;
    lemma_course(max_retries, states, events, steps, n);
    assert(steps.take(n) =~= steps);
}

/// An answer ends the course, and is what is returned.
pub proof fn answer_ends_the_course<P>(
    state: BackendState,
    retry: RetryLoop,
    response: JsonRpcResponse<P>,
)
    ensures
        retry_step(state, retry, RetryEvent::Answered(Ok(response))) == RetryStep::<P>::Finish(
            Ok(response),
        ),
{
}

/// What is returned in the end is the last answer or the last error, and an error only once no
/// attempt is left.
pub proof fn course_returns_what_came_last<P>(
    max_retries: u32,
    states: Seq<BackendState>,
    events: Seq<RetryEvent<P>>,
    steps: Seq<RetryStep<P>>,
)
    requires
        is_course(max_retries, states, events, steps),
        steps.last() is Finish,
    ensures
        match steps.last()->Finish_0 {
            Ok(response) => events.last() == RetryEvent::<P>::Answered(Ok(response)),
            Err(e) => {
                &&& events.last() == RetryEvent::<P>::Answered(Err(e)) || events.last()
                    == RetryEvent::<P>::Restarted(Err(e))
                &&& steps.len() > 1
                &&& step_loop(steps[steps.len() - 2]).attempt == max_retries
            },
        },
{
    let n = steps.len() as int;
    if n > 1 {
        lemma_course(max_retries, states, events, steps, n - 1);
        assert(comes_of(events[n - 1], steps[n - 2]));
    }
}

/// Every sending but the first attempt's comes of a restart that succeeded, provided that a
/// backend whose restart fails is dead.
pub proof fn request_is_sent_again_only_after_a_restart<P>(
    max_retries: u32,
    states: Seq<BackendState>,
    events: Seq<RetryEvent<P>>,
    steps: Seq<RetryStep<P>>,
    i: int,
)
    requires
        is_course(max_retries, states, events, steps),
        forall|k: int|
            0 < k < steps.len() && (#[trigger] events[k] matches RetryEvent::Restarted(Err(_)))
                ==> states[k] == BackendState::Dead,
        0 < i < steps.len(),
        steps[i] is Send,
    ensures
        steps[i - 1] is Restart,
        events[i] matches RetryEvent::Restarted(Ok(_)),
{
    lemma_course(max_retries, states, events, steps, i);
    assert(comes_of(events[i], steps[i - 1]));
}

/// The first attempt sends the request at once, whatever the state of the backend.
pub proof fn first_attempt_sends<T, P>(
    backend: &mut BackendInstance<T>,
    retry: RetryLoop,
    step: RetryStep<P>,
)
    requires
        retry.attempt == 0,
        call_ensures(
            BackendInstance::<T>::send_request_with_retry::<P>,
            (backend, retry, RetryEvent::Start),
            step,
        ),
    ensures
        step == RetryStep::<P>::Send(retry),
        final(backend)@ == old(backend)@,
{
}

/// Attempts are counted one by one: a request that failed while attempts are left leads to a
/// restart for the attempt with the next number, and marks the backend as dead; the last failure
/// is returned.
pub proof fn failure_leads_to_the_next_attempt<T, P>(
    backend: &mut BackendInstance<T>,
    retry: RetryLoop,
    error: ProxyError,
    step: RetryStep<P>,
)
    requires
        retry.attempt <= retry.max_retries,
        call_ensures(
            BackendInstance::<T>::send_request_with_retry::<P>,
            (backend, retry, RetryEvent::Answered(Err(error))),
            step,
        ),
    ensures
        retry.attempt < retry.max_retries ==> {
            &&& step matches RetryStep::Restart(next) && next.attempt == retry.attempt + 1
                && next.max_retries == retry.max_retries
            &&& final(backend)@ == (BackendView { state: BackendState::Dead, ..old(backend)@ })
        },
        retry.attempt == retry.max_retries ==> {
            &&& step == RetryStep::<P>::Finish(Err(error))
            &&& final(backend)@ == old(backend)@
        },
{
}

/// A restart that succeeded is followed by sending the request in the same attempt. One that
/// failed uses its attempt up: the next one begins, with a restart where the backend is dead, and
/// the last failure is returned. Neither touches the backend.
pub proof fn restart_is_followed_by_sending<T, P>(
    backend: &mut BackendInstance<T>,
    retry: RetryLoop,
    restarted: Result<(), ProxyError>,
    step: RetryStep<P>,
)
    requires
        retry.attempt <= retry.max_retries,
        call_ensures(
            BackendInstance::<T>::send_request_with_retry::<P>,
            (backend, retry, RetryEvent::Restarted(restarted)),
            step,
        ),
    ensures
        final(backend)@ == old(backend)@,
        restarted is Ok ==> step == RetryStep::<P>::Send(retry),
        restarted is Err && retry.attempt == retry.max_retries ==> step == RetryStep::<
            P,
        >::Finish(Err(restarted->Err_0)),
        restarted is Err && retry.attempt < retry.max_retries ==> {
            let next = RetryLoop {
                attempt: (retry.attempt + 1) as u32,
                max_retries: retry.max_retries,
            };
            if old(backend)@.state == BackendState::Dead {
                step == RetryStep::<P>::Restart(next)
            } else {
                step == RetryStep::<P>::Send(next)
            }
        },
{
}

/// An answer is returned as it is, in whichever attempt it comes, and the backend stays as it is.
pub proof fn answer_is_returned<T, P>(
    backend: &mut BackendInstance<T>,
    retry: RetryLoop,
    response: JsonRpcResponse<P>,
    step: RetryStep<P>,
)
    requires
        call_ensures(
            BackendInstance::<T>::send_request_with_retry::<P>,
            (backend, retry, RetryEvent::Answered(Ok(response))),
            step,
        ),
    ensures
        step == RetryStep::<P>::Finish(Ok(response)),
        final(backend)@ == old(backend)@,
{
}

/// How many of `events` are restarts that failed.
pub open spec fn failed_restarts<P>(events: Seq<RetryEvent<P>>) -> nat
    decreases events.len(),
{
    if events.len() == 0 {
        0
    } else {
        failed_restarts(events.drop_last()) + if events.last() matches RetryEvent::Restarted(
            Err(_),
        ) {
            1nat
        } else {
            0nat
        }
    }
}

proof fn lemma_attempts_used<P>(
    max_retries: u32,
    states: Seq<BackendState>,
    events: Seq<RetryEvent<P>>,
    steps: Seq<RetryStep<P>>,
    n: int,
)
    requires
        is_course(max_retries, states, events, steps),
        0 < n <= steps.len(),
    ensures
        ({
            let used = send_count(steps.take(n)) + failed_restarts(events.take(n));
            &&& steps[n - 1] is Send ==> used == step_loop(steps[n - 1]).attempt + 1
            &&& steps[n - 1] is Restart ==> used == step_loop(steps[n - 1]).attempt
            &&& steps[n - 1] matches RetryStep::Finish(Err(_)) ==> used == max_retries + 1
        }),
    decreases n,
{
    let upto = steps.take(n);
    let seen = events.take(n);
    assert(upto.last() == steps[n - 1]);
    assert(seen.last() == events[n - 1]);
    if n == 1 {
        assert(upto.drop_last() =~= Seq::empty());
        assert(seen.drop_last() =~= Seq::empty());
        assert(send_count(upto.drop_last()) == 0);
        assert(failed_restarts(seen.drop_last()) == 0);
    } else {
        lemma_attempts_used(max_retries, states, events, steps, n - 1);
        lemma_course(max_retries, states, events, steps, n - 1);
        assert(upto.drop_last() =~= steps.take(n - 1));
        assert(seen.drop_last() =~= events.take(n - 1));
        assert(comes_of(events[n - 1], steps[n - 2]));
        assert(steps[n - 1] == retry_step(states[n - 1], step_loop(steps[n - 2]), events[n - 1]));
    }
}

proof fn lemma_no_failed_restarts<P>(events: Seq<RetryEvent<P>>)
    requires
        forall|i: int|
            0 <= i < events.len() ==> !(#[trigger] events[i] matches RetryEvent::Restarted(Err(_))),
    ensures
        failed_restarts(events) == 0,
    decreases events.len(),
{
    if events.len() > 0 {
        lemma_no_failed_restarts(events.drop_last());
    }
}

/// No attempt is skipped: a course that ends in an error has used all `max_retries + 1` attempts,
/// each up with a request that was sent or with a restart that failed.
pub proof fn failing_course_uses_every_attempt<P>(
    max_retries: u32,
    states: Seq<BackendState>,
    events: Seq<RetryEvent<P>>,
    steps: Seq<RetryStep<P>>,
)
    requires
        is_course(max_retries, states, events, steps),
        steps.last() matches RetryStep::Finish(Err(_)),
    ensures
        send_count(steps) + failed_restarts(events) == max_retries + 1,
{
    let n = steps.len() as int;
    lemma_attempts_used(max_retries, states, events, steps, n);
    assert(steps.take(n) =~= steps);
    assert(events.take(n) =~= events);
}

/// A course whose restarts all succeed and that ends in an error has sent the request exactly
/// `max_retries + 1` times.
pub proof fn request_is_sent_in_every_attempt<P>(
    max_retries: u32,
    states: Seq<BackendState>,
    events: Seq<RetryEvent<P>>,
    steps: Seq<RetryStep<P>>,
)
    requires
        is_course(max_retries, states, events, steps),
        steps.last() matches RetryStep::Finish(Err(_)),
        forall|i: int|
            0 <= i < events.len() ==> !(#[trigger] events[i] matches RetryEvent::Restarted(Err(_))),
    ensures
        send_count(steps) == max_retries + 1,
{
    failing_course_uses_every_attempt(max_retries, states, events, steps);
    lemma_no_failed_restarts(events);
}

/// In a course every step belongs to the attempt of the step before, or to the one behind it.
pub proof fn no_attempt_is_skipped<P>(
    max_retries: u32,
    states: Seq<BackendState>,
    events: Seq<RetryEvent<P>>,
    steps: Seq<RetryStep<P>>,
    i: int,
)
    requires
        is_course(max_retries, states, events, steps),
        0 < i < steps.len(),
        !(steps[i] is Finish),
    ensures
        ({
            let before = step_loop(steps[i - 1]);
            let now = step_loop(steps[i]);
            &&& now.max_retries == max_retries
            &&& if events[i] matches RetryEvent::Restarted(Ok(_)) {
                now.attempt == before.attempt
            } else {
                now.attempt == before.attempt + 1
            }
        }),
{
    lemma_course(max_retries, states, events, steps, i);
    lemma_course(max_retries, states, events, steps, i + 1);
    assert(comes_of(events[i], steps[i - 1]));
}

/// A request is allowed as many further attempts as are asked for, and begins with the first.
pub proof fn attempts_begin_with_the_first(max_retries: u32, retry: RetryLoop)
    requires
        call_ensures(RetryLoop::new, (max_retries,), retry),
    ensures
        retry.attempt == 0,
        retry.max_retries == max_retries,
{
}

} // verus!
