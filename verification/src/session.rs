//! What one connection to the resource server carries between exchanges: the
//! retry policy and how far the current wait has run.
//!
//! A fetcher takes the session when an exchange starts and gives it back when
//! the exchange ends, so a session never has two requests outstanding.

use vstd::prelude::*;

verus! {

/// How long to go on polling a silent peer, and how fast.
#[derive(Clone, Copy, Debug, PartialEq, Eq, Structural)]
pub struct RetryPolicy {
    /// The number of consecutive empty polls at which a wait is given up.
    pub max_attempts: u32,
    /// The delay before the first retry, in milliseconds.
    pub base_delay_ms: u32,
    /// The ceiling on the delay before any retry, in milliseconds.
    pub max_delay_ms: u32,
}

/// What the caller has to do next for a fetcher.
#[derive(Clone, Copy, Debug, PartialEq, Eq)]
pub enum FetchAction {
    /// Write these four bytes to the transport, all of them.
    Send([u8; 4]),
    /// Wait `delay_ms` milliseconds, then read at most `len` bytes.
    Read { len: usize, delay_ms: u32 },
    /// The exchange is over; its outcome can be collected.
    Finished,
}

/// What the transport did with the last action.
#[derive(Clone, Copy, Debug)]
pub enum TransportEvent<'a> {
    /// The bytes of a `Send` were written.
    Sent,
    /// A read returned these bytes; none means nothing has arrived yet.
    Received(&'a [u8]),
    /// The peer closed the stream.
    Closed,
    /// The transport reported a failure.
    Failed,
}

/// The delay before retry number `retry` (counting from zero): the base delay
/// doubled `retry` times, held at the ceiling.
pub open spec fn spec_backoff(policy: RetryPolicy, retry: nat) -> nat
    decreases retry,
{
    if retry == 0 {
        if policy.base_delay_ms <= policy.max_delay_ms {
            policy.base_delay_ms as nat
        } else {
            policy.max_delay_ms as nat
        }
    } else {
        let doubled = 2 * spec_backoff(policy, (retry - 1) as nat);
        if doubled <= policy.max_delay_ms {
            doubled
        } else {
            policy.max_delay_ms as nat
        }
    }
}

/// One connection's retry state. It is neither `Copy` nor `Clone`: whoever
/// holds it holds the connection's one exchange.
#[derive(Debug, PartialEq, Eq, Structural)]
pub struct TransferSession {
    policy: RetryPolicy,
    idle: u32,
    delay_ms: u32,
}

/// A session as contracts see it.
pub struct SessionModel {
    pub policy: RetryPolicy,
    /// Consecutive empty polls in the current wait.
    pub idle: nat,
}

/// The session once data has arrived: the wait starts afresh.
pub open spec fn spec_progress(s: SessionModel) -> SessionModel {
    SessionModel { policy: s.policy, idle: 0 }
}

/// Whether one more empty poll exhausts the retry budget.
pub open spec fn spec_exhausted(s: SessionModel) -> bool {
    s.idle + 1 >= s.policy.max_attempts
}

/// The session after one more empty poll.
pub open spec fn spec_idle(s: SessionModel) -> SessionModel {
    SessionModel { policy: s.policy, idle: s.idle + 1 }
}

/// The delay owed before the read that follows the session's latest empty
/// poll; zero when the wait has just started.
pub open spec fn spec_delay(s: SessionModel) -> nat {
    if s.idle == 0 {
        0
    } else {
        spec_backoff(s.policy, (s.idle - 1) as nat)
    }
}

impl View for TransferSession {
    type V = SessionModel;

    closed spec fn view(&self) -> SessionModel {
        SessionModel { policy: self.policy, idle: self.idle as nat }
    }
}

impl TransferSession {
    /// The representation invariant: the stored delay is the one the policy
    /// gives for the number of empty polls so far.
    pub closed spec fn wf(&self) -> bool {
        &&& self.delay_ms == spec_delay(self@)
        &&& (self.idle == 0 || self.idle < self.policy.max_attempts)
    }

    /// A session that has not waited yet.
    pub fn new(policy: RetryPolicy) -> (session: Self)
        ensures
            session.wf(),
            session@ == (SessionModel { policy, idle: 0 }),
    {
        TransferSession { policy, idle: 0, delay_ms: 0 }
    }

    /// The policy the session was made with.
    pub fn policy(&self) -> (policy: RetryPolicy)
        ensures
            policy == self@.policy,
    {
        self.policy
    }

    /// The number of consecutive empty polls in the current wait.
    pub fn idle_polls(&self) -> (idle: u32)
        ensures
            idle == self@.idle,
    {
        self.idle
    }

    /// Records that data arrived: the wait starts afresh.
    pub fn note_progress(&mut self)
        requires
            old(self).wf(),
        ensures
            final(self).wf(),
            final(self)@ == spec_progress(old(self)@),
    {
        self.idle = 0;
        self.delay_ms = 0;
    }

    /// Records an empty poll. Returns the delay to observe before polling
    /// again, or `None` when the retry budget is spent; the session is then
    /// left as it was.
    pub fn note_idle(&mut self) -> (delay: Option<u32>)
        requires
            old(self).wf(),
        ensures
            final(self).wf(),
            spec_exhausted(old(self)@) ==> delay is None && final(self)@ == old(self)@,
            !spec_exhausted(old(self)@) ==> delay == Some(spec_delay(spec_idle(old(self)@)) as u32)
                && final(self)@ == spec_idle(old(self)@),
            delay is Some ==> delay->0 <= old(self)@.policy.max_delay_ms,
    {
        if self.idle >= self.policy.max_attempts || self.idle + 1 >= self.policy.max_attempts {
            return None;
        }
        proof {
            lemma_backoff_bounded(self.policy, self.idle as nat);
            if self.idle > 0 {
                lemma_backoff_bounded(self.policy, (self.idle - 1) as nat);
            }
        }
        let next: u32 = if self.idle == 0 {
            if self.policy.base_delay_ms <= self.policy.max_delay_ms {
                self.policy.base_delay_ms
            } else {
                self.policy.max_delay_ms
            }
        } else if self.delay_ms <= self.policy.max_delay_ms / 2 {
            self.delay_ms * 2
        } else {
            self.policy.max_delay_ms
        };
        self.idle = self.idle + 1;
        self.delay_ms = next;
        Some(next)
    }
}

/// No retry waits longer than the ceiling.
pub proof fn lemma_backoff_bounded(policy: RetryPolicy, retry: nat)
    ensures
        spec_backoff(policy, retry) <= policy.max_delay_ms,
    decreases retry,
{
    if retry > 0 {
        lemma_backoff_bounded(policy, (retry - 1) as nat);
    }
}

/// Delays never shrink from one retry to the next.
pub proof fn lemma_backoff_monotone(policy: RetryPolicy, retry: nat)
    ensures
        spec_backoff(policy, retry) <= spec_backoff(policy, retry + 1),
    decreases retry,
{
    lemma_backoff_bounded(policy, retry);
}

} // verus!
