//! The decisions of a load-generating worker: when to stop, and how each
//! request's outcome is counted.
use vstd::prelude::*;
use crate::config::TestMode;
use crate::stats::{count_of, records_latency, WorkerStats};

verus! {

/// What became of one request.
#[derive(Debug, Clone, Copy, PartialEq, Eq, Structural)]
pub enum RequestOutcome {
    /// A response with this status arrived and its body of `bytes` bytes was
    /// read, `latency_us` microseconds after the request started.
    Response { latency_us: u64, status: u16, bytes: u64 },
    /// Sending or reading failed after `latency_us` microseconds.
    Failed { latency_us: u64 },
}

/// Whether a worker stops before its next request. In duration mode it stops
/// once the group is cancelled. In count mode each worker first takes a
/// ticket from the group's shared counter (`ticket` is the counter's value
/// before the worker's increment) and stops when the ticket is not below the
/// request count; without a counter it never stops.
pub open spec fn spec_should_stop(mode: TestMode, cancelled: bool, ticket: Option<u64>) -> bool {
    match mode {
        TestMode::Duration(_) => cancelled,
        TestMode::RequestCount(max) => match ticket {
            Some(prev) => prev >= max,
            None => false,
        },
    }
}

/// Whether a worker stops before its next request.
pub fn should_stop(mode: &TestMode, cancelled: bool, ticket: Option<u64>) -> (b: bool)
    ensures
        b == spec_should_stop(*mode, cancelled, ticket),
{
    match mode {
        TestMode::Duration(_) => cancelled,
        TestMode::RequestCount(max) => match ticket {
            Some(prev) => prev >= *max,
            None => false,
        },
    }
}

/// Among the tickets `0..k` of a group's counter, how many let a request go.
pub open spec fn tickets_sent(max: u64, k: nat) -> nat
    decreases k,
{
    if k == 0 {
        0
    } else {
        tickets_sent(max, (k - 1) as nat) + if spec_should_stop(
            TestMode::RequestCount(max),
            false,
            Some((k - 1) as u64),
        ) {
            0nat
        } else {
            1nat
        }
    }
}

/// In count mode with `-n max`, however many tickets the workers take from
/// the shared counter, exactly `max` of them (or all, when fewer are taken)
/// send a request: the group sends exactly the requested number.
pub proof fn law_count_mode_sends_exactly(max: u64, k: nat)
    requires
        k <= u64::MAX + 1,
    ensures
        tickets_sent(max, k) == if k < max {
            k
        } else {
            max as nat
        },
    decreases k,
{
    if k > 0 {
        law_count_mode_sends_exactly(max, (k - 1) as nat);
    }
}

impl WorkerStats {
    /// Counts the outcome of one request: a response under its status code
    /// with its body bytes, a failure as an error; its latency in both cases.
    pub fn record_outcome(&mut self, outcome: RequestOutcome)
        requires
            old(self).wf(),
            old(self).total_requests < u64::MAX,
            outcome matches RequestOutcome::Response { bytes, .. } ==> old(self).total_bytes
                + bytes <= u64::MAX,
        ensures
            final(self).wf(),
            final(self).total_requests == old(self).total_requests + 1,
            match outcome {
                RequestOutcome::Response { latency_us, status, bytes } => {
                    &&& final(self).total_bytes == old(self).total_bytes + bytes
                    &&& final(self).errors == old(self).errors
                    &&& final(self).status_codes@ == old(self).status_codes@.insert(
                        status,
                        (count_of(old(self).status_codes@, status as int) + 1) as u64,
                    )
                    &&& records_latency(old(self).histogram, final(self).histogram, latency_us)
                },
                RequestOutcome::Failed { latency_us } => {
                    &&& final(self).total_bytes == old(self).total_bytes
                    &&& final(self).errors == old(self).errors + 1
                    &&& final(self).status_codes@ == old(self).status_codes@
                    &&& records_latency(old(self).histogram, final(self).histogram, latency_us)
                },
            },
    {
        match outcome {
            RequestOutcome::Response { latency_us, status, bytes } => {
                self.record_success(latency_us, status, bytes);
            },
            RequestOutcome::Failed { latency_us } => {
                self.record_error(latency_us);
            },
        }
    }
}

} // verus!
