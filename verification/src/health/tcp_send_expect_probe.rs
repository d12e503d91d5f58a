use std::time::Instant;

use vstd::prelude::*;

use crate::config::{ConfigKindMismatch, HealthCheckStrategyConfig};
use crate::health::{elapsed_since, failure_step};
use crate::time::TimeSpan;

verus! {

/// A health check that, every `interval`, connects to the target, sends `send` and expects
/// `expect` back, giving up on each exchange after `timeout`: after `failure_count_threshold`
/// failures in a row the target is unhealthy until an exchange succeeds.
#[derive(Debug)]
pub struct TcpSendExpectProbe {
    // How many failures in a row mark the target unhealthy.
    failure_count_threshold: u32,
    timeout: TimeSpan,
    interval: TimeSpan,
    send: String,
    expect: String,
    consecutive_failures: u32,
    last_probe_at: Option<Instant>,
}

impl TcpSendExpectProbe {
    pub closed spec fn failure_count_threshold(self) -> u32 {
        self.failure_count_threshold
    }

    pub closed spec fn spec_timeout(self) -> TimeSpan {
        self.timeout
    }

    pub closed spec fn interval(self) -> TimeSpan {
        self.interval
    }

    pub closed spec fn spec_send(self) -> Seq<char> {
        self.send@
    }

    pub closed spec fn spec_expect(self) -> Seq<char> {
        self.expect@
    }

    pub closed spec fn consecutive_failures(self) -> u32 {
        self.consecutive_failures
    }

    pub closed spec fn last_probe_at(self) -> Option<Instant> {
        self.last_probe_at
    }

    /// What holds of every probe: the failures never pass the threshold.
    pub open spec fn valid(self) -> bool {
        self.consecutive_failures() <= self.failure_count_threshold()
    }

    #[verifier::type_invariant]
    spec fn type_inv(self) -> bool {
        self.valid()
    }

    /// `next` keeps the configuration of this probe.
    pub open spec fn same_settings(self, next: TcpSendExpectProbe) -> bool {
        &&& next.failure_count_threshold() == self.failure_count_threshold()
        &&& next.spec_timeout() == self.spec_timeout()
        &&& next.interval() == self.interval()
        &&& next.spec_send() == self.spec_send()
        &&& next.spec_expect() == self.spec_expect()
    }

    /// `next` is this probe after one more failure.
    pub open spec fn after_failure(self, next: TcpSendExpectProbe) -> bool {
        &&& self.same_settings(next)
        &&& next.consecutive_failures() == failure_step(
            self.consecutive_failures(),
            self.failure_count_threshold(),
        )
        &&& next.last_probe_at() == self.last_probe_at()
        &&& next.valid()
    }

    /// `next` is this probe after a success.
    pub open spec fn after_success(self, next: TcpSendExpectProbe) -> bool {
        &&& self.same_settings(next)
        &&& next.consecutive_failures() == 0
        &&& next.last_probe_at() == self.last_probe_at()
        &&& next.valid()
    }

    /// `next` is this probe after a probe that started at `instant`.
    pub open spec fn after_probe(self, next: TcpSendExpectProbe, instant: Instant) -> bool {
        &&& self.same_settings(next)
        &&& next.consecutive_failures() == self.consecutive_failures()
        &&& next.last_probe_at() == Some(instant)
        &&& next.valid()
    }

    /// Whether a probe is due when `elapsed` has passed since the last one.
    pub open spec fn probe_due_after(self, elapsed: TimeSpan) -> bool {
        self.last_probe_at() is None || elapsed.spec_at_least(self.interval())
    }

    /// The target is healthy while the failures stay below the threshold.
    pub fn is_healthy(&self) -> (r: bool)
        ensures
            r == (self.consecutive_failures() < self.failure_count_threshold()),
    {
        self.consecutive_failures < self.failure_count_threshold
    }

    /// Whether a probe is due now: when none was made yet, or when the interval has passed
    /// since the last one.
    pub fn needs_probe(&self) -> (r: bool)
        ensures
            self.last_probe_at() is None ==> r,
            exists|elapsed: TimeSpan|
                elapsed.nanos < 1_000_000_000 && r == self.probe_due_after(elapsed),
    {
        match self.last_probe_at {
            Some(last_probe_at) => {
                let elapsed = elapsed_since(&last_probe_at);
                self.needs_probe_after(elapsed)
            },
            None => {
                assert(self.probe_due_after(TimeSpan { secs: 0, nanos: 0 }));
                true
            },
        }
    }

    /// Whether a probe is due when `elapsed` has passed since the last one.
    pub fn needs_probe_after(&self, elapsed: TimeSpan) -> (r: bool)
        ensures
            r == self.probe_due_after(elapsed),
    {
        match self.last_probe_at {
            Some(_) => elapsed.at_least(&self.interval),
            None => true,
        }
    }

    /// Records that the target acted unavailable: one more failure, up to the threshold.
    pub fn record_failure(&mut self)
        ensures
            old(self).after_failure(*final(self)),
    {
        proof {
            use_type_invariant(&*self);
        }
        if self.consecutive_failures == self.failure_count_threshold {
            return;
        }
        self.consecutive_failures = self.consecutive_failures + 1;
    }

    /// Records that the target acted available: no failures.
    pub fn record_success(&mut self)
        ensures
            old(self).after_success(*final(self)),
    {
        self.consecutive_failures = 0;
    }

    /// Records that a probe started at `instant`.
    pub fn record_probe(&mut self, instant: Instant)
        ensures
            old(self).after_probe(*final(self), instant),
    {
        proof {
            use_type_invariant(&*self);
        }
        self.last_probe_at = Some(instant);
    }

    /// How long a connection attempt may take.
    pub fn timeout(&self) -> (r: TimeSpan)
        ensures
            r == self.spec_timeout(),
    {
        self.timeout
    }

    /// The message sent to the target.
    pub fn send(&self) -> (r: &String)
        ensures
            r@ == self.spec_send(),
    {
        &self.send
    }

    /// The answer expected from the target.
    pub fn expect(&self) -> (r: &String)
        ensures
            r@ == self.spec_expect(),
    {
        &self.expect
    }

    /// Whether the target's answer is the expected one.
    pub fn accepts_answer(&self, answer: &String) -> (r: bool)
        ensures
            r == (answer@ == self.spec_expect()),
    {
        *answer == self.expect
    }

    /// A healthy, never probed probe with the given settings.
    pub fn new(
        timeout: TimeSpan,
        interval: TimeSpan,
        failure_count_threshold: u32,
        send: String,
        expect: String,
    ) -> (r: TcpSendExpectProbe)
        ensures
            r.spec_timeout() == timeout,
            r.interval() == interval,
            r.failure_count_threshold() == failure_count_threshold,
            r.spec_send() == send@,
            r.spec_expect() == expect@,
            r.consecutive_failures() == 0,
            r.last_probe_at() is None,
    {
        TcpSendExpectProbe {
            timeout,
            interval,
            failure_count_threshold,
            send,
            expect,
            consecutive_failures: 0,
            last_probe_at: None,
        }
    }

    /// Builds a healthy, never probed probe from a send-expect configuration only.
    pub fn try_from(config: &HealthCheckStrategyConfig) -> (r: Result<
        TcpSendExpectProbe,
        ConfigKindMismatch,
    >)
        ensures
            r is Ok <==> config is TcpSendExpect,
            r matches Ok(p) ==> {
                &&& config matches HealthCheckStrategyConfig::TcpSendExpect {
                    timeout,
                    interval,
                    failure_count_threshold,
                    send,
                    expect,
                } && p.failure_count_threshold() == failure_count_threshold && p.spec_timeout()
                    == timeout && p.interval() == interval && p.spec_send() == send@ && p.spec_expect()
                    == expect@
                &&& p.consecutive_failures() == 0
                &&& p.last_probe_at() is None
                &&& p.valid()
            },
    {
        match config {
            HealthCheckStrategyConfig::TcpSendExpect {
                timeout,
                interval,
                failure_count_threshold,
                send,
                expect,
            } => Ok(
                TcpSendExpectProbe::new(
                    *timeout,
                    *interval,
                    *failure_count_threshold,
                    send.clone(),
                    expect.clone(),
                ),
            ),
            _ => Err(ConfigKindMismatch),
        }
    }
}

} // verus!
