use std::time::Instant;

use vstd::prelude::*;

use crate::config::{ConfigKindMismatch, HealthCheckStrategyConfig};
use crate::health::{elapsed_since, failure_step};
use crate::time::TimeSpan;

verus! {

/// A health check that only watches how client connections to the target fare: after
/// `failure_count_threshold` failures in a row the target is unhealthy, until
/// `recovery_timeout` has passed since the last of them, when it gets another chance.
#[derive(Debug)]
pub struct PassiveProbe {
    // How many failures in a row mark the target unhealthy.
    failure_count_threshold: u32,
    // How long an unhealthy target waits before it is given another chance.
    recovery_timeout: TimeSpan,
    consecutive_failures: u32,
    // When `consecutive_failures` last reached `failure_count_threshold`.
    marked_unhealthy_at: Option<Instant>,
}

impl PassiveProbe {
    pub closed spec fn failure_count_threshold(self) -> u32 {
        self.failure_count_threshold
    }

    pub closed spec fn recovery_timeout(self) -> TimeSpan {
        self.recovery_timeout
    }

    pub closed spec fn consecutive_failures(self) -> u32 {
        self.consecutive_failures
    }

    pub closed spec fn marked_unhealthy_at(self) -> Option<Instant> {
        self.marked_unhealthy_at
    }

    /// What holds of every passive probe: a positive threshold that the failures never
    /// pass, and a mark exactly when the failures reached it.
    pub open spec fn valid(self) -> bool {
        &&& 0 < self.failure_count_threshold()
        &&& self.consecutive_failures() <= self.failure_count_threshold()
        &&& (self.marked_unhealthy_at() is Some <==> self.consecutive_failures()
            == self.failure_count_threshold())
    }

    #[verifier::type_invariant]
    spec fn type_inv(self) -> bool {
        self.valid()
    }

    /// Whether the target counts as healthy when `elapsed` has passed since it was marked
    /// unhealthy.
    pub open spec fn healthy_after(self, elapsed: TimeSpan) -> bool {
        self.consecutive_failures() < self.failure_count_threshold() || elapsed.spec_at_least(
            self.recovery_timeout(),
        )
    }

    /// `next` is this probe after one more failure, seen at `now`: the count steps up to the
    /// threshold, and a failure that leaves the count at the threshold marks the target
    /// unhealthy at `now`, also when it already stood there.
    pub open spec fn after_failure(self, next: PassiveProbe, now: Instant) -> bool {
        &&& next.failure_count_threshold() == self.failure_count_threshold()
        &&& next.recovery_timeout() == self.recovery_timeout()
        &&& next.consecutive_failures() == failure_step(
            self.consecutive_failures(),
            self.failure_count_threshold(),
        )
        &&& next.consecutive_failures() < next.failure_count_threshold()
            ==> next.marked_unhealthy_at() == self.marked_unhealthy_at()
        &&& next.consecutive_failures() == next.failure_count_threshold()
            ==> next.marked_unhealthy_at() == Some(now)
        &&& next.valid()
    }

    /// `next` is this probe after a success.
    pub open spec fn after_success(self, next: PassiveProbe) -> bool {
        &&& next.failure_count_threshold() == self.failure_count_threshold()
        &&& next.recovery_timeout() == self.recovery_timeout()
        &&& next.consecutive_failures() == 0
        &&& next.marked_unhealthy_at() is None
        &&& next.valid()
    }

    /// Whether the target is healthy now: it is while the failures stay below the threshold,
    /// and once they reach it, when the recovery timeout has passed since they did.
    pub fn is_healthy(&self) -> (r: bool)
        ensures
            self.consecutive_failures() < self.failure_count_threshold() ==> r,
            exists|elapsed: TimeSpan|
                elapsed.nanos < 1_000_000_000 && r == self.healthy_after(elapsed),
    {
        proof {
            use_type_invariant(self);
        }
        if self.consecutive_failures < self.failure_count_threshold {
            assert(self.healthy_after(TimeSpan { secs: 0, nanos: 0 }));
            return true;
        }
        let marked = self.marked_unhealthy_at.unwrap();
        let elapsed = elapsed_since(&marked);
        self.is_healthy_after(elapsed)
    }

    /// Whether the target is healthy when `elapsed` has passed since it was marked unhealthy.
    pub fn is_healthy_after(&self, elapsed: TimeSpan) -> (r: bool)
        ensures
            r == self.healthy_after(elapsed),
    {
        self.consecutive_failures < self.failure_count_threshold || elapsed.at_least(
            &self.recovery_timeout,
        )
    }

    /// A passive probe never asks for an active probe.
    pub fn needs_probe(&self) -> (r: bool)
        ensures
            !r,
    {
        false
    }

    /// Records that the target acted unavailable, reading the clock for the mark: see
    /// [`PassiveProbe::record_failure_at`].
    pub fn record_failure(&mut self)
        ensures
            exists|now: Instant| old(self).after_failure(*final(self), now),
    {
        let now = crate::health::instant_now();
        self.record_failure_at(now);
    }

    /// Records that the target acted unavailable at `now`: one more failure, up to the
    /// threshold, and a mark at `now` whenever the count is left at the threshold.
    pub fn record_failure_at(&mut self, now: Instant)
        ensures
            old(self).after_failure(*final(self), now),
    {
        proof {
            use_type_invariant(&*self);
        }
        let mut failures = self.consecutive_failures;
        if failures < self.failure_count_threshold {
            failures = failures + 1;
        }
        let mut marked = self.marked_unhealthy_at;
        if failures == self.failure_count_threshold {
            marked = Some(now);
        }
        *self = PassiveProbe {
            failure_count_threshold: self.failure_count_threshold,
            recovery_timeout: self.recovery_timeout,
            consecutive_failures: failures,
            marked_unhealthy_at: marked,
        };
    }

    /// Records that the target acted available: no failures, no mark.
    pub fn record_success(&mut self)
        ensures
            old(self).after_success(*final(self)),
    {
        proof {
            use_type_invariant(&*self);
        }
        *self = PassiveProbe {
            failure_count_threshold: self.failure_count_threshold,
            recovery_timeout: self.recovery_timeout,
            consecutive_failures: 0,
            marked_unhealthy_at: None,
        };
    }

    /// A passive probe ignores the results of active probes.
    pub fn record_probe(&mut self, _instant: Instant)
        ensures
            *final(self) == *old(self),
    {
    }

    /// A healthy probe with the given settings.
    pub fn new(failure_count_threshold: u32, recovery_timeout: TimeSpan) -> (r: PassiveProbe)
        requires
            failure_count_threshold > 0,
        ensures
            r.failure_count_threshold() == failure_count_threshold,
            r.recovery_timeout() == recovery_timeout,
            r.consecutive_failures() == 0,
            r.valid(),
    {
        PassiveProbe {
            failure_count_threshold,
            recovery_timeout,
            consecutive_failures: 0,
            marked_unhealthy_at: None,
        }
    }

    /// Builds a healthy probe from a passive configuration only.
    pub fn try_from(config: &HealthCheckStrategyConfig) -> (r: Result<
        PassiveProbe,
        ConfigKindMismatch,
    >)
        requires
            config matches HealthCheckStrategyConfig::Passive { failure_count_threshold, .. }
                ==> failure_count_threshold > 0,
        ensures
            r is Ok <==> config is Passive,
            r matches Ok(p) ==> {
                &&& config matches HealthCheckStrategyConfig::Passive {
                    failure_count_threshold,
                    recovery_timeout,
                } && p.failure_count_threshold() == failure_count_threshold
                    && p.recovery_timeout() == recovery_timeout
                &&& p.consecutive_failures() == 0
                &&& p.valid()
            },
    {
        match config {
            HealthCheckStrategyConfig::Passive { failure_count_threshold, recovery_timeout } => Ok(
                PassiveProbe::new(*failure_count_threshold, *recovery_timeout),
            ),
            _ => Err(ConfigKindMismatch),
        }
    }
}

/// A failure that leaves the count at the threshold, seen at `now`, makes the target unhealthy
/// until `recovery_timeout` has passed since `now`: measured from the mark, which is `now`,
/// the target is healthy exactly when the elapsed time reaches the recovery timeout. This
/// holds also when the count already stood at the threshold and the target had recovered.
pub proof fn lemma_failure_marks_unhealthy(probe: PassiveProbe, next: PassiveProbe, now: Instant)
    requires
        probe.valid(),
        probe.after_failure(next, now),
        next.consecutive_failures() == next.failure_count_threshold(),
    ensures
        next.marked_unhealthy_at() == Some(now),
        forall|elapsed: TimeSpan|
            #[trigger] next.healthy_after(elapsed) == elapsed.spec_at_least(next.recovery_timeout()),
{
}

/// `k` failures seen at `times[0], ..., times[k - 1]` on a passive probe leave
/// `min(failures + k, threshold)` failures in a row; once the threshold is reached, the mark
/// is the moment of the last of these failures.
pub proof fn lemma_passive_failure_run(run: Seq<PassiveProbe>, times: Seq<Instant>)
    requires
        run.len() > 0,
        times.len() == run.len() - 1,
        run[0].valid(),
        forall|i: int|
            0 <= i < run.len() - 1 ==> #[trigger] run[i].after_failure(run[i + 1], times[i]),
    ensures
        run.last().failure_count_threshold() == run[0].failure_count_threshold(),
        run.last().recovery_timeout() == run[0].recovery_timeout(),
        run.last().consecutive_failures() == crate::health::failures_after(
            run[0].consecutive_failures(),
            run[0].failure_count_threshold(),
            (run.len() - 1) as nat,
        ),
        run.last().valid(),
        run.len() > 1 && run.last().consecutive_failures() == run.last().failure_count_threshold()
            ==> run.last().marked_unhealthy_at() == Some(times.last()),
    decreases run.len(),
{
    if run.len() > 1 {
        let shorter = run.drop_last();
        assert forall|i: int| 0 <= i < shorter.len() - 1 implies #[trigger] shorter[i].after_failure(
            shorter[i + 1],
            times.drop_last()[i],
        ) by {
            assert(run[i].after_failure(run[i + 1], times[i]));
        }
        lemma_passive_failure_run(shorter, times.drop_last());
        let i = run.len() - 2;
        assert(run[i].after_failure(run[i + 1], times[i]));
        assert(shorter.last() == run[i]);
    }
}

} // verus!
