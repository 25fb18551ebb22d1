//! The rules of one gated call to the translation provider: when it needs a
//! permit, when it is tried again and after what delay, and how it ends.
//!
//! The caller holds the permits, the clock and the provider. It asks here
//! what to do next and reports what happened.

use crate::error::{ErrorView, TranslationError};
use crate::text::{
    append_chars, blank, chars_of, concatenated, is_blank, string_of, trim, trimmed,
};
use vstd::prelude::*;

verus! {

/// How often the provider is tried, how long to wait between tries, and how
/// long all tries together may take.
#[derive(Debug)]
pub struct RetryPolicy {
    max_retries: u32,
    retry_delay_ms: u64,
    timeout_seconds: u64,
}

/// What the caller does next.
#[derive(Debug)]
pub enum GateStep {
    /// Wait for a permit, then report `admitted`.
    Acquire,
    /// Wait `delay_ms` milliseconds, then call the provider. `attempt` is the
    /// number of this call, from one.
    Call { attempt: u32, delay_ms: u64 },
    /// The call is over, with the translation or an error.
    Done(Result<String, TranslationError>),
}

/// What happened to a call of the provider.
#[derive(Debug, Clone)]
pub enum ProviderEvent {
    /// The provider answered with this text.
    Reply(String),
    /// The provider, or the connection to it, failed with this description.
    Failure(String),
    /// The time for all attempts together is over.
    DeadlinePassed,
}

/// A step as a mathematical value.
pub enum StepView {
    Acquire,
    Call { attempt: nat, delay_ms: nat },
    Done(Result<Seq<char>, ErrorView>),
}

/// An event as a mathematical value.
pub enum EventView {
    Reply(Seq<char>),
    Failure(Seq<char>),
    DeadlinePassed,
}

impl View for GateStep {
    type V = StepView;

    open spec fn view(&self) -> StepView {
        match self {
            GateStep::Acquire => StepView::Acquire,
            GateStep::Call { attempt, delay_ms } => StepView::Call {
                attempt: *attempt as nat,
                delay_ms: *delay_ms as nat,
            },
            GateStep::Done(Ok(text)) => StepView::Done(Ok(text@)),
            GateStep::Done(Err(error)) => StepView::Done(Err(error@)),
        }
    }
}

impl View for ProviderEvent {
    type V = EventView;

    open spec fn view(&self) -> EventView {
        match self {
            ProviderEvent::Reply(text) => EventView::Reply(text@),
            ProviderEvent::Failure(error) => EventView::Failure(error@),
            ProviderEvent::DeadlinePassed => EventView::DeadlinePassed,
        }
    }
}

/// The texts of the pieces as mathematical values.
pub open spec fn piece_texts(pieces: Seq<String>) -> Seq<Seq<char>> {
    pieces.map_values(|piece: String| piece@)
}

/// The provider's answer from the pieces it came in: the pieces in their
/// order, one behind the other, without the white space at both ends.
pub fn reassemble(pieces: &Vec<String>) -> (reply: String)
    ensures
        reply@ == trimmed(concatenated(piece_texts(pieces@))),
{
    let mut whole: Vec<char> = Vec::new();
    let mut i: usize = 0;
    let ghost texts = piece_texts(pieces@);
    while i < pieces.len()
        invariant
            i <= pieces.len(),
            texts == piece_texts(pieces@),
            whole@ == concatenated(texts.take(i as int)),
        decreases pieces.len() - i,
    {
        append_chars(&mut whole, &chars_of(pieces[i].as_str()));
        i = i + 1;
        proof {
            let upto = texts.take(i as int);
            assert(upto.drop_last() == texts.take(i - 1));
            assert(upto.last() == pieces@[i - 1]@);
        }
    }
    assert(texts.take(pieces.len() as int) == texts);
    string_of(&trim(&whole))
}

impl RetryPolicy {
    #[verifier::type_invariant]
    spec fn delays_fit(self) -> bool {
        self.max_retries * self.retry_delay_ms <= u64::MAX
    }

    /// The number of attempts at most.
    pub closed spec fn attempts(&self) -> nat {
        self.max_retries as nat
    }

    /// The base delay in milliseconds.
    pub closed spec fn base_delay_ms(&self) -> nat {
        self.retry_delay_ms as nat
    }

    /// The time for all attempts together, in seconds.
    pub closed spec fn deadline_seconds(&self) -> nat {
        self.timeout_seconds as nat
    }

    /// A policy, unless the longest delay, `max_retries` times
    /// `retry_delay_ms`, is beyond `u64`.
    pub fn new(max_retries: u32, retry_delay_ms: u64, timeout_seconds: u64) -> (r: Option<
        RetryPolicy,
    >)
        ensures
            r is Some <==> max_retries * retry_delay_ms <= u64::MAX,
            r matches Some(policy) ==> {
                &&& policy.attempts() == max_retries
                &&& policy.base_delay_ms() == retry_delay_ms
                &&& policy.deadline_seconds() == timeout_seconds
            },
    {
        assert(max_retries * retry_delay_ms <= 0xffff_ffff * 0xffff_ffff_ffff_ffff)
            by (nonlinear_arith)
            requires
                max_retries <= 0xffff_ffff,
                retry_delay_ms <= 0xffff_ffff_ffff_ffff,
        ;
        let longest: u128 = (max_retries as u128) * (retry_delay_ms as u128);
        if longest <= u64::MAX as u128 {
            Some(RetryPolicy { max_retries, retry_delay_ms, timeout_seconds })
        } else {
            None
        }
    }

    /// The number of attempts at most.
    pub fn max_retries(&self) -> (n: u32)
        ensures
            n == self.attempts(),
    {
        self.max_retries
    }

    /// The time for all attempts together, in seconds.
    pub fn timeout_seconds(&self) -> (n: u64)
        ensures
            n == self.deadline_seconds(),
    {
        self.timeout_seconds
    }

    /// The delay before attempt `attempt`: none before the first, then the
    /// attempt's number times the base delay.
    pub open spec fn delay_before(&self, attempt: nat) -> nat {
        if attempt <= 1 {
            0
        } else {
            attempt * self.base_delay_ms()
        }
    }

    /// What an event says went wrong with an attempt: a failure says so
    /// itself, and an empty reply counts as a failure, described as the empty
    /// response is. A reply with text and the deadline are no failed attempt.
    pub open spec fn failure_of(event: EventView) -> Option<Seq<char>> {
        match event {
            EventView::Failure(error) => Some(error),
            EventView::Reply(text) => if text.len() == 0 {
                Some(TranslationError::EmptyResponse.message_text())
            } else {
                None
            },
            EventView::DeadlinePassed => None,
        }
    }

    /// The step that follows `event`, which happened to attempt `attempt`.
    ///
    /// A reply with text ends the call with that text. A failed attempt, be
    /// it a failure or an empty reply, uses up one attempt: while attempts
    /// are left the next one follows after its delay, and after the last the
    /// call ends with `RetryFailed`, which carries the number of attempts
    /// and the description of the last failure. The deadline ends the call
    /// with `Timeout`, whichever attempt it interrupts.
    pub open spec fn step_after(&self, attempt: nat, event: EventView) -> StepView {
        match event {
            EventView::DeadlinePassed => StepView::Done(
                Err(ErrorView::Timeout(self.deadline_seconds())),
            ),
            _ => match Self::failure_of(event) {
                Some(error) => if attempt < self.attempts() {
                    StepView::Call { attempt: attempt + 1, delay_ms: self.delay_before(attempt + 1) }
                } else {
                    StepView::Done(
                        Err(ErrorView::RetryFailed { attempts: self.attempts(), error }),
                    )
                },
                None => StepView::Done(Ok(event->Reply_0)),
            },
        }
    }

    /// The first step for `text`: text that is empty or all white space is
    /// returned as it is, with no permit taken and no call made; any other
    /// text needs a permit.
    pub fn first_step(&self, text: &str) -> (step: GateStep)
        ensures
            is_blank(text@) ==> (step matches GateStep::Done(Ok(same)) && same@ == text@),
            !is_blank(text@) ==> step is Acquire,
    {
        let chars = chars_of(text);
        if blank(&chars) {
            GateStep::Done(Ok(string_of(&chars)))
        } else {
            GateStep::Acquire
        }
    }

    /// The step once the permit is held: the first attempt, without delay.
    /// A policy of no attempts fails at once.
    pub fn admitted(&self) -> (step: GateStep)
        ensures
            self.attempts() >= 1 ==> step == (GateStep::Call { attempt: 1, delay_ms: 0 }),
            self.attempts() == 0 ==> (step matches GateStep::Done(
                Err(TranslationError::RetryFailed { attempts, error }),
            ) && attempts == 0 && error@ == "Unknown error"@),
    {
        if self.max_retries >= 1 {
            GateStep::Call { attempt: 1, delay_ms: 0 }
        } else {
            GateStep::Done(
                Err(
                    TranslationError::RetryFailed {
                        attempts: 0,
                        error: string_of(&chars_of("Unknown error")),
                    },
                ),
            )
        }
    }

    /// The step that follows `event`, which happened to attempt `attempt`.
    pub fn next_step(&self, attempt: u32, event: ProviderEvent) -> (step: GateStep)
        ensures
            step@ == self.step_after(attempt as nat, event@),
    {
        proof {
            use_type_invariant(self);
        }
        let error = match event {
            ProviderEvent::DeadlinePassed => {
                return GateStep::Done(Err(TranslationError::Timeout(self.timeout_seconds)));
            },
            ProviderEvent::Reply(text) => {
                if !text.as_str().is_empty() {
                    return GateStep::Done(Ok(text));
                }
                TranslationError::EmptyResponse.message()
            },
            ProviderEvent::Failure(error) => error,
        };
        if attempt < self.max_retries {
            let next: u32 = attempt + 1;
            assert(next * self.retry_delay_ms <= self.max_retries * self.retry_delay_ms)
                by (nonlinear_arith)
                requires
                    next <= self.max_retries,
            ;
            let delay_ms: u64 = if next <= 1 {
                0
            } else {
                (next as u64) * self.retry_delay_ms
            };
            GateStep::Call { attempt: next, delay_ms }
        } else {
            GateStep::Done(Err(TranslationError::RetryFailed { attempts: self.max_retries, error }))
        }
    }

    /// Where the call stands after the events `events`, one after the other,
    /// the first of them of attempt `attempt`.
    pub open spec fn after_events(&self, attempt: nat, events: Seq<EventView>) -> StepView
        decreases events.len(),
    {
        if events.len() == 0 {
            StepView::Call { attempt, delay_ms: self.delay_before(attempt) }
        } else {
            match self.step_after(attempt, events[0]) {
                StepView::Call { attempt: next, .. } => self.after_events(next, events.skip(1)),
                done => done,
            }
        }
    }

    /// Whether each of the events is a failed attempt.
    pub open spec fn all_fail(events: Seq<EventView>) -> bool {
        forall|i: int| 0 <= i < events.len() ==> Self::failure_of(#[trigger] events[i]) is Some
    }

    /// After fewer failed attempts than the policy has attempts the next
    /// attempt is due, with its number times the base delay as its delay.
    /// After as many failed attempts as the policy has attempts the call has
    /// failed for good, with that number of attempts and the description of
    /// the last failure.
    pub proof fn lemma_failures_use_up_attempts(&self, attempt: nat, events: Seq<EventView>)
        requires
            1 <= attempt,
            attempt + events.len() <= self.attempts() + 1,
            Self::all_fail(events),
        ensures
            attempt + events.len() <= self.attempts() ==> self.after_events(attempt, events) == (
            StepView::Call {
                attempt: attempt + events.len(),
                delay_ms: self.delay_before(attempt + events.len()),
            }),
            events.len() > 0 && attempt + events.len() == self.attempts() + 1 ==> self.after_events(
                attempt,
                events,
            ) == StepView::Done(
                Err(
                    ErrorView::RetryFailed {
                        attempts: self.attempts(),
                        error: Self::failure_of(events.last())->0,
                    },
                ),
            ),
        decreases events.len(),
    {
        if events.len() > 0 {
            let rest = events.skip(1);
            assert(Self::failure_of(events[0]) is Some);
            assert forall|i: int| 0 <= i < rest.len() implies Self::failure_of(
                #[trigger] rest[i],
            ) is Some by {
                assert(rest[i] == events[i + 1]);
            }
            if attempt < self.attempts() {
                self.lemma_failures_use_up_attempts(attempt + 1, rest);
                if rest.len() > 0 {
                    assert(rest.last() == events.last());
                }
            } else {
                assert(events.len() == 1);
                assert(events.last() == events[0]);
            }
        }
    }

    /// The deadline ends the call with `Timeout` and the policy's number of
    /// seconds, whichever attempt it interrupts and however many attempts
    /// the policy has.
    pub proof fn lemma_deadline_ends_the_call(&self, attempt: nat)
        ensures
            self.step_after(attempt, EventView::DeadlinePassed) == StepView::Done(
                Err(ErrorView::Timeout(self.deadline_seconds())),
            ),
    {
    }

    /// An empty reply uses up its attempt and no more: before the last
    /// attempt it is followed by the next attempt, after that attempt's
    /// delay, and a reply with text to a later attempt is the outcome.
    pub proof fn lemma_empty_reply_is_tried_again(&self, attempt: nat, reply: Seq<char>)
        requires
            1 <= attempt < self.attempts(),
            reply.len() > 0,
        ensures
            self.step_after(attempt, EventView::Reply(Seq::empty())) == (StepView::Call {
                attempt: attempt + 1,
                delay_ms: (attempt + 1) * self.base_delay_ms(),
            }),
            self.after_events(
                attempt,
                seq![EventView::Reply(Seq::empty()), EventView::Reply(reply)],
            ) == StepView::Done(Ok(reply)),
    {
        let events = seq![EventView::Reply(Seq::<char>::empty()), EventView::Reply(reply)];
        let rest = events.skip(1);
        assert(events[0] == EventView::Reply(Seq::<char>::empty()));
        assert(rest[0] == EventView::Reply(reply));
        assert(self.step_after(attempt + 1, rest[0]) == StepView::Done(Ok(reply)));
        assert(self.after_events(attempt + 1, rest) == StepView::Done(Ok(reply)));
    }

    /// With a provider that fails every time, or answers with nothing, the
    /// call makes exactly as many attempts as the policy has, and then fails
    /// with `RetryFailed`, which carries that number and the description of
    /// the last failure.
    pub proof fn lemma_always_failing_provider(&self, events: Seq<EventView>)
        requires
            self.attempts() >= 1,
            events.len() == self.attempts(),
            Self::all_fail(events),
        ensures
            forall|made: int|
                0 <= made < events.len() ==> #[trigger] self.after_events(
                    1,
                    events.take(made),
                ) is Call,
            self.after_events(1, events) == StepView::Done(
                Err(
                    ErrorView::RetryFailed {
                        attempts: self.attempts(),
                        error: Self::failure_of(events.last())->0,
                    },
                ),
            ),
    {
        self.lemma_failures_use_up_attempts(1, events);
        assert forall|made: int| 0 <= made < events.len() implies #[trigger] self.after_events(
            1,
            events.take(made),
        ) is Call by {
            let part = events.take(made);
            assert forall|i: int| 0 <= i < part.len() implies Self::failure_of(
                #[trigger] part[i],
            ) is Some by {
                assert(part[i] == events[i]);
            }
            self.lemma_failures_use_up_attempts(1, part);
        }
    }
}

} // verus!
