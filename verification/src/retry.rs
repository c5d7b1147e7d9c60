//! The retry bookkeeping of the REST fetcher: how many attempts are made
//! and which failure is reported when none succeeds.

use crate::exchanges::FetchStep;
use vstd::prelude::*;

verus! {

/// Why the fetch loop gave up.
#[derive(Clone, Copy, Debug, PartialEq, Eq, Structural)]
pub enum GiveUp {
    /// The last attempt was rate limited.
    RateLimited { retry_after_secs: u64 },
    /// The last attempt got this error status.
    UpstreamStatus { status: u16 },
    /// The last attempt got no response.
    Network,
    /// No attempt was made ("Max retries exceeded").
    RetriesExhausted,
}

/// The bookkeeping of the fetch loop, as plain values: attempts made, the
/// attempts allowed, the last failed attempt's step, and whether an attempt
/// succeeded.
pub struct RetryView {
    pub attempt: u64,
    pub max_retries: u32,
    pub last_failure: Option<FetchStep>,
    pub succeeded: bool,
}

/// Why the loop gives up, after `last_failure`.
pub open spec fn give_up_reason(last_failure: Option<FetchStep>) -> GiveUp {
    match last_failure {
        Some(FetchStep::RateLimited { retry_after_secs }) => GiveUp::RateLimited { retry_after_secs },
        Some(FetchStep::UpstreamError { status, .. }) => GiveUp::UpstreamStatus { status },
        Some(FetchStep::NetworkError { .. }) => GiveUp::Network,
        _ => GiveUp::RetriesExhausted,
    }
}

/// The fetch loop's bookkeeping: a first attempt and then at most
/// `max_retries` retries, stopping at the first success; when none
/// succeeds, the last failure decides the error returned.
pub struct FetchRetry {
    attempt: u64,
    max_retries: u32,
    last_failure: Option<FetchStep>,
    succeeded: bool,
}

impl View for FetchRetry {
    type V = RetryView;

    closed spec fn view(&self) -> RetryView {
        RetryView {
            attempt: self.attempt,
            max_retries: self.max_retries,
            last_failure: self.last_failure,
            succeeded: self.succeeded,
        }
    }
}

impl FetchRetry {
    /// No attempt made yet; `max_retries` retries allowed after the first
    /// attempt.
    pub fn new(max_retries: u32) -> (r: FetchRetry)
        ensures
            r@ == (RetryView { attempt: 0, max_retries, last_failure: None, succeeded: false }),
    {
        FetchRetry { attempt: 0, max_retries, last_failure: None, succeeded: false }
    }

    /// The number (from zero) of the next attempt to make, or `None` when
    /// an attempt succeeded or the first attempt and all `max_retries`
    /// retries were made.
    pub fn next_attempt(&self) -> (r: Option<u32>)
        ensures
            r == (if !self@.succeeded && self@.attempt <= self@.max_retries {
                Some(self@.attempt as u32)
            } else {
                None
            }),
    {
        if !self.succeeded && self.attempt <= self.max_retries as u64 {
            Some(self.attempt as u32)
        } else {
            None
        }
    }

    /// Records how the current attempt ended.
    pub fn record(&mut self, step: FetchStep)
        requires
            !old(self)@.succeeded,
            old(self)@.attempt <= old(self)@.max_retries,
        ensures
            final(self)@ == (RetryView {
                attempt: (old(self)@.attempt + 1) as u64,
                max_retries: old(self)@.max_retries,
                last_failure: if step == FetchStep::Success { old(self)@.last_failure } else { Some(step) },
                succeeded: step == FetchStep::Success,
            }),
    {
        self.attempt = self.attempt + 1;
        match step {
            FetchStep::Success => {
                self.succeeded = true;
            },
            _ => {
                self.last_failure = Some(step);
            },
        }
    }

    /// Why the loop gave up: the last failure, or no attempt at all.
    pub fn give_up(&self) -> (r: GiveUp)
        ensures
            r == give_up_reason(self@.last_failure),
    {
        match self.last_failure {
            Some(FetchStep::RateLimited { retry_after_secs }) => GiveUp::RateLimited { retry_after_secs },
            Some(FetchStep::UpstreamError { status, .. }) => GiveUp::UpstreamStatus { status },
            Some(FetchStep::NetworkError { .. }) => GiveUp::Network,
            _ => GiveUp::RetriesExhausted,
        }
    }
}

} // verus!
