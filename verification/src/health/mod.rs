pub mod passive_probe;
pub mod tcp_connect_probe;
pub mod tcp_send_expect_probe;

use std::time::Instant;

use vstd::prelude::*;

use crate::config::{AppConfig, Config, ConfigKindMismatch, HealthCheckStrategyConfig};
use crate::domain::{distinct_keys, find_entry, lemma_lookup_entry_found, lookup_entry, Target};
use crate::time::TimeSpan;
use passive_probe::PassiveProbe;
use tcp_connect_probe::TcpConnectProbe;
use tcp_send_expect_probe::TcpSendExpectProbe;

verus! {

#[verifier::external_type_specification]
#[verifier::external_body]
pub struct ExInstant(std::time::Instant);

/// Reads the monotonic clock with `std::time::Instant::now`. The reading depends on the
/// moment of the call, so nothing is stated of it.
#[verifier::external_body]
pub(crate) fn instant_now() -> Instant {
    Instant::now()
}

/// Measures with `std::time::Instant::elapsed` the time since `earlier`, split into seconds
/// and nanoseconds by `Duration::as_secs` and `Duration::subsec_nanos`. The reading depends on
/// the moment of the call, so only what `subsec_nanos` documents is stated: the nanoseconds
/// stay below one second.
#[verifier::external_body]
pub(crate) fn elapsed_since(earlier: &Instant) -> (r: TimeSpan)
    ensures
        r.nanos < 1_000_000_000,
{
    let elapsed = earlier.elapsed();
    TimeSpan { secs: elapsed.as_secs(), nanos: elapsed.subsec_nanos() }
}

/// The count of failures in a row after one more failure, capped at `threshold`.
pub open spec fn failure_step(failures: u32, threshold: u32) -> u32 {
    if failures < threshold {
        (failures + 1) as u32
    } else {
        failures
    }
}

/// The count of failures in a row after `k` more failures from `failures`.
pub open spec fn failures_after(failures: u32, threshold: u32, k: nat) -> u32
    decreases k,
{
    if k == 0 {
        failures
    } else {
        failure_step(failures_after(failures, threshold, (k - 1) as nat), threshold)
    }
}

/// One of the calls that move a health check, for laws over runs of calls.
#[derive(Clone, Copy, Debug, PartialEq, Eq, Structural)]
pub enum ProbeCall {
    Failure,
    Success,
    Probe,
}

/// How many failures come after the last success in `calls` (all of them when there is no
/// success).
pub open spec fn trailing_failures(calls: Seq<ProbeCall>) -> nat
    decreases calls.len(),
{
    if calls.len() == 0 {
        0
    } else {
        match calls.last() {
            ProbeCall::Failure => trailing_failures(calls.drop_last()) + 1,
            ProbeCall::Success => 0,
            ProbeCall::Probe => trailing_failures(calls.drop_last()),
        }
    }
}

/// The health check of one target.
#[derive(Debug)]
pub enum HealthCheck {
    Passive(PassiveProbe),
    TcpConnect(TcpConnectProbe),
    TcpSendExpect(TcpSendExpectProbe),
}

/// How probes are judged: a passive check never succeeds a probe and a failed probe never
/// succeeds; a connect check succeeds exactly on an opened connection; a send-expect check
/// succeeds exactly on the expected answer, so it accepts one answer text and no other.
pub proof fn lemma_probe_judgement(
    check: HealthCheck,
    outcome: ProbeOutcome,
    answer: String,
    other: String,
)
    ensures
        check is Passive ==> !check.probe_succeeded(outcome),
        outcome is Failed ==> !check.probe_succeeded(outcome),
        check is TcpConnect ==> (check.probe_succeeded(outcome) <==> outcome is Connected),
        check matches HealthCheck::TcpSendExpect(p) ==> (check.probe_succeeded(outcome) <==> (
        outcome matches ProbeOutcome::Answered(answer) && answer@ == p.spec_expect())),
        check.probe_succeeded(ProbeOutcome::Answered(answer)) && check.probe_succeeded(
            ProbeOutcome::Answered(other),
        ) ==> answer@ == other@,
{
}

/// The outcome of an active probe, with the moment the probe started.
#[derive(Debug)]
pub enum ProbeResult {
    Success(Instant),
    Failure(Instant),
}

/// What an active probe observed: a connection that opened, the answer read back after
/// sending the probe's message, or an error on the way (including a timeout).
#[derive(Debug)]
pub enum ProbeOutcome {
    Connected,
    Answered(String),
    Failed,
}

/// A configuration a health check can be built from: a passive one needs a positive failure
/// threshold.
pub open spec fn buildable(config: HealthCheckStrategyConfig) -> bool {
    config matches HealthCheckStrategyConfig::Passive { failure_count_threshold, .. }
        ==> failure_count_threshold > 0
}

/// `check` is the fresh health check that `config` describes: its kind and settings, no
/// failures, never probed.
pub open spec fn built_from(check: HealthCheck, config: HealthCheckStrategyConfig) -> bool {
    match config {
        HealthCheckStrategyConfig::Passive { failure_count_threshold, recovery_timeout } => {
            &&& check matches HealthCheck::Passive(p)
            &&& p.failure_count_threshold() == failure_count_threshold
            &&& p.recovery_timeout() == recovery_timeout
            &&& p.consecutive_failures() == 0
            &&& p.valid()
        },
        HealthCheckStrategyConfig::TcpConnect { timeout, interval, failure_count_threshold } => {
            &&& check matches HealthCheck::TcpConnect(p)
            &&& p.failure_count_threshold() == failure_count_threshold
            &&& p.spec_timeout() == timeout
            &&& p.interval() == interval
            &&& p.consecutive_failures() == 0
            &&& p.last_probe_at() is None
        },
        HealthCheckStrategyConfig::TcpSendExpect {
            timeout,
            interval,
            failure_count_threshold,
            send,
            expect,
        } => {
            &&& check matches HealthCheck::TcpSendExpect(p)
            &&& p.failure_count_threshold() == failure_count_threshold
            &&& p.spec_timeout() == timeout
            &&& p.interval() == interval
            &&& p.spec_send() == send@
            &&& p.spec_expect() == expect@
            &&& p.consecutive_failures() == 0
            &&& p.last_probe_at() is None
        },
    }
}

/// `next` is `check` after one more failure, seen at `now` (which only a passive check
/// keeps, as its mark).
pub open spec fn after_failure(check: HealthCheck, next: HealthCheck, now: Instant) -> bool {
    match (check, next) {
        (HealthCheck::Passive(a), HealthCheck::Passive(b)) => a.after_failure(b, now),
        (HealthCheck::TcpConnect(a), HealthCheck::TcpConnect(b)) => a.after_failure(b),
        (HealthCheck::TcpSendExpect(a), HealthCheck::TcpSendExpect(b)) => a.after_failure(b),
        _ => false,
    }
}

/// `next` is `check` after a success.
pub open spec fn after_success(check: HealthCheck, next: HealthCheck) -> bool {
    match (check, next) {
        (HealthCheck::Passive(a), HealthCheck::Passive(b)) => a.after_success(b),
        (HealthCheck::TcpConnect(a), HealthCheck::TcpConnect(b)) => a.after_success(b),
        (HealthCheck::TcpSendExpect(a), HealthCheck::TcpSendExpect(b)) => a.after_success(b),
        _ => false,
    }
}

/// `next` is `check` after a probe that started at `instant`.
pub open spec fn after_probe(check: HealthCheck, next: HealthCheck, instant: Instant) -> bool {
    match (check, next) {
        (HealthCheck::Passive(a), HealthCheck::Passive(b)) => a == b,
        (HealthCheck::TcpConnect(a), HealthCheck::TcpConnect(b)) => a.after_probe(b, instant),
        (HealthCheck::TcpSendExpect(a), HealthCheck::TcpSendExpect(b)) => a.after_probe(b, instant),
        _ => false,
    }
}

impl HealthCheck {
    pub open spec fn failures(self) -> u32 {
        match self {
            HealthCheck::Passive(p) => p.consecutive_failures(),
            HealthCheck::TcpConnect(p) => p.consecutive_failures(),
            HealthCheck::TcpSendExpect(p) => p.consecutive_failures(),
        }
    }

    pub open spec fn threshold(self) -> u32 {
        match self {
            HealthCheck::Passive(p) => p.failure_count_threshold(),
            HealthCheck::TcpConnect(p) => p.failure_count_threshold(),
            HealthCheck::TcpSendExpect(p) => p.failure_count_threshold(),
        }
    }

    pub open spec fn below_threshold(self) -> bool {
        self.failures() < self.threshold()
    }

    /// What holds of every health check.
    pub open spec fn valid(self) -> bool {
        match self {
            HealthCheck::Passive(p) => p.valid(),
            HealthCheck::TcpConnect(p) => p.valid(),
            HealthCheck::TcpSendExpect(p) => p.valid(),
        }
    }

    /// Whether the target is healthy. Below the failure threshold it always is; at the
    /// threshold an active check says no, and a passive one says yes only once its recovery
    /// timeout has passed.
    pub fn is_healthy(&self) -> (r: bool)
        ensures
            self.below_threshold() ==> r,
            !(self is Passive) ==> r == self.below_threshold(),
            self matches HealthCheck::Passive(p) ==> exists|elapsed: TimeSpan|
                elapsed.nanos < 1_000_000_000 && r == p.healthy_after(elapsed),
    {
        match self {
            HealthCheck::Passive(probe) => probe.is_healthy(),
            HealthCheck::TcpConnect(probe) => probe.is_healthy(),
            HealthCheck::TcpSendExpect(probe) => probe.is_healthy(),
        }
    }

    /// Whether an active probe is due: never for a passive check, always for an active check
    /// that was never probed.
    pub fn needs_probe(&self) -> (r: bool)
        ensures
            self is Passive ==> !r,
            self matches HealthCheck::TcpConnect(p) && p.last_probe_at() is None ==> r,
            self matches HealthCheck::TcpSendExpect(p) && p.last_probe_at() is None ==> r,
            self matches HealthCheck::TcpConnect(p) ==> exists|elapsed: TimeSpan|
                elapsed.nanos < 1_000_000_000 && r == p.probe_due_after(elapsed),
            self matches HealthCheck::TcpSendExpect(p) ==> exists|elapsed: TimeSpan|
                elapsed.nanos < 1_000_000_000 && r == p.probe_due_after(elapsed),
    {
        match self {
            HealthCheck::Passive(probe) => probe.needs_probe(),
            HealthCheck::TcpConnect(probe) => probe.needs_probe(),
            HealthCheck::TcpSendExpect(probe) => probe.needs_probe(),
        }
    }

    /// Records that the target acted unavailable, reading the clock for a passive check's
    /// mark: see [`HealthCheck::record_failure_at`].
    pub fn record_failure(&mut self)
        ensures
            exists|now: Instant| after_failure(*old(self), *final(self), now),
    {
        let now = instant_now();
        self.record_failure_at(now);
    }

    /// Records that the target acted unavailable at `now`.
    pub fn record_failure_at(&mut self, now: Instant)
        ensures
            after_failure(*old(self), *final(self), now),
    {
        match self {
            HealthCheck::Passive(probe) => probe.record_failure_at(now),
            HealthCheck::TcpConnect(probe) => probe.record_failure(),
            HealthCheck::TcpSendExpect(probe) => probe.record_failure(),
        }
    }

    /// Records that the target acted available.
    pub fn record_success(&mut self)
        ensures
            after_success(*old(self), *final(self)),
    {
        match self {
            HealthCheck::Passive(probe) => probe.record_success(),
            HealthCheck::TcpConnect(probe) => probe.record_success(),
            HealthCheck::TcpSendExpect(probe) => probe.record_success(),
        }
    }

    /// Records that an active probe started at `instant`.
    pub fn record_probe(&mut self, instant: Instant)
        ensures
            after_probe(*old(self), *final(self), instant),
    {
        match self {
            HealthCheck::Passive(probe) => probe.record_probe(instant),
            HealthCheck::TcpConnect(probe) => probe.record_probe(instant),
            HealthCheck::TcpSendExpect(probe) => probe.record_probe(instant),
        }
    }

    /// Whether `outcome` counts as a successful probe: an opened connection for a connect
    /// check, the expected answer for a send-expect check.
    pub open spec fn probe_succeeded(self, outcome: ProbeOutcome) -> bool {
        match outcome {
            ProbeOutcome::Connected => self is TcpConnect,
            ProbeOutcome::Answered(answer) => self matches HealthCheck::TcpSendExpect(p)
                && answer@ == p.spec_expect(),
            ProbeOutcome::Failed => false,
        }
    }

    /// Judges what a probe that started at `started` observed.
    pub fn probe_result(&self, outcome: &ProbeOutcome, started: Instant) -> (r: ProbeResult)
        ensures
            r == if self.probe_succeeded(*outcome) {
                ProbeResult::Success(started)
            } else {
                ProbeResult::Failure(started)
            },
            r == ProbeResult::Success(started) || r == ProbeResult::Failure(started),
            (r is Success) == match (*self, *outcome) {
                (HealthCheck::TcpConnect(_), ProbeOutcome::Connected) => true,
                (HealthCheck::TcpSendExpect(p), ProbeOutcome::Answered(answer)) => answer@
                    == p.spec_expect(),
                _ => false,
            },
    {
        let succeeded = match outcome {
            ProbeOutcome::Connected => match self {
                HealthCheck::TcpConnect(_) => true,
                _ => false,
            },
            ProbeOutcome::Answered(answer) => match self {
                HealthCheck::TcpSendExpect(probe) => probe.accepts_answer(answer),
                _ => false,
            },
            ProbeOutcome::Failed => false,
        };
        if succeeded {
            ProbeResult::Success(started)
        } else {
            ProbeResult::Failure(started)
        }
    }

    /// Records the outcome of an active probe: a success or a failure, then the probe itself.
    pub fn record_probe_result(&mut self, result: ProbeResult)
        ensures
            match result {
                ProbeResult::Success(instant) => exists|mid: HealthCheck|
                    after_success(*old(self), mid) && after_probe(mid, *final(self), instant),
                ProbeResult::Failure(instant) => exists|mid: HealthCheck, now: Instant|
                    after_failure(*old(self), mid, now) && after_probe(mid, *final(self), instant),
            },
    {
        match result {
            ProbeResult::Success(instant) => {
                self.record_success();
                let ghost mid = *self;
                self.record_probe(instant);
                assert(after_success(*old(self), mid) && after_probe(mid, *self, instant));
            },
            ProbeResult::Failure(instant) => {
                let now = instant_now();
                self.record_failure_at(now);
                let ghost mid = *self;
                self.record_probe(instant);
                assert(after_failure(*old(self), mid, now) && after_probe(mid, *self, instant));
            },
        }
    }

    /// Builds the health check that `config` describes.
    pub fn try_from(config: &HealthCheckStrategyConfig) -> (r: Result<
        HealthCheck,
        ConfigKindMismatch,
    >)
        requires
            buildable(*config),
        ensures
            r matches Ok(check) && built_from(check, *config),
    {
        Ok(HealthCheck::from_config(config))
    }

    /// The health check that `config` describes.
    pub fn from_config(config: &HealthCheckStrategyConfig) -> (r: HealthCheck)
        requires
            buildable(*config),
        ensures
            built_from(r, *config),
    {
        match config {
            HealthCheckStrategyConfig::Passive { failure_count_threshold, recovery_timeout } => {
                HealthCheck::Passive(PassiveProbe::new(*failure_count_threshold, *recovery_timeout))
            },
            HealthCheckStrategyConfig::TcpConnect { timeout, interval, failure_count_threshold } => {
                HealthCheck::TcpConnect(
                    TcpConnectProbe::new(*timeout, *interval, *failure_count_threshold),
                )
            },
            HealthCheckStrategyConfig::TcpSendExpect {
                timeout,
                interval,
                failure_count_threshold,
                send,
                expect,
            } => HealthCheck::TcpSendExpect(
                TcpSendExpectProbe::new(
                    *timeout,
                    *interval,
                    *failure_count_threshold,
                    send.clone(),
                    expect.clone(),
                ),
            ),
        }
    }
}

/// `check` is the fresh health check of the target named `target`: the one configured for
/// it, or else a passive one that gives up at the first failure for ten seconds.
pub open spec fn configured_check(config: Config, target: Seq<char>, check: HealthCheck) -> bool {
    match lookup_entry(config.targets@, target) {
        Some(t) => built_from(check, t.health_check),
        None => check matches HealthCheck::Passive(p) && p.failure_count_threshold() == 1
            && p.recovery_timeout() == (TimeSpan { secs: 10, nanos: 0 })
            && p.consecutive_failures() == 0 && p.valid(),
    }
}

/// Every health check configured for a target can be built.
pub open spec fn all_buildable(config: Config) -> bool {
    forall|k: int|
        0 <= k < config.targets@.len() ==> #[trigger] buildable(config.targets@[k].1.health_check)
}

/// The health check of `target`: the one configured for it, or the default passive one.
pub fn health_check_for(config: &Config, target: &Target) -> (r: HealthCheck)
    requires
        distinct_keys(config.targets@),
        lookup_entry(config.targets@, target@) matches Some(t) ==> buildable(t.health_check),
    ensures
        configured_check(*config, target@, r),
{
    match find_entry(&config.targets, target) {
        Some(i) => HealthCheck::from_config(&config.targets[i].1.health_check),
        None => HealthCheck::from_config(&<HealthCheckStrategyConfig as Default>::default()),
    }
}

fn contains_target(entries: &Vec<(Target, HealthCheck)>, target: &Target) -> (r: bool)
    ensures
        r == exists|k: int| 0 <= k < entries@.len() && #[trigger] entries@[k].0@ == target@,
{
    let n = entries.len();
    let mut k: usize = 0;
    while k < n
        invariant
            k <= n,
            n == entries@.len(),
            forall|j: int| 0 <= j < k ==> #[trigger] entries@[j].0@ != target@,
        decreases n - k,
    {
        if entries[k].0.same_as(target) {
            return true;
        }
        k = k + 1;
    }
    false
}

/// The target at position `t` of the app at position `a` has an entry among `checks`.
pub open spec fn target_has_check(
    apps: Seq<AppConfig>,
    checks: Seq<(Target, HealthCheck)>,
    a: int,
    t: int,
) -> bool {
    exists|k: int| 0 <= k < checks.len() && #[trigger] checks[k].0@ == apps[a].targets@[t]@
}

/// The entry at position `k` of `checks` is for a target of some app.
pub open spec fn check_has_target(
    apps: Seq<AppConfig>,
    checks: Seq<(Target, HealthCheck)>,
    k: int,
) -> bool {
    exists|a: int, t: int|
        0 <= a < apps.len() && 0 <= t < apps[a].targets@.len() && #[trigger] apps[a].targets@[t]@
            == checks[k].0@
}

/// One fresh health check per distinct target of the apps: the one configured for it, or the
/// default one.
pub fn initial_health_checks(config: &Config) -> (r: Vec<(Target, HealthCheck)>)
    requires
        distinct_keys(config.targets@),
        all_buildable(*config),
    ensures
        forall|i: int, j: int|
            0 <= i < j < r@.len() ==> #[trigger] r@[i].0@ != #[trigger] r@[j].0@,
        forall|k: int|
            0 <= k < r@.len() ==> #[trigger] check_has_target(config.apps@, r@, k),
        forall|a: int, t: int|
            0 <= a < config.apps@.len() && 0 <= t < config.apps@[a].targets@.len()
                ==> #[trigger] target_has_check(config.apps@, r@, a, t),
        forall|k: int| 0 <= k < r@.len() ==> #[trigger] configured_check(*config, r@[k].0@, r@[k].1),
{
    let apps = &config.apps;
    let n = apps.len();
    let mut checks: Vec<(Target, HealthCheck)> = Vec::new();
    let mut i: usize = 0;
    while i < n
        invariant
            i <= n,
            n == apps@.len(),
            apps@ == config.apps@,
            all_buildable(*config),
            distinct_keys(config.targets@),
            forall|x: int, y: int|
                0 <= x < y < checks@.len() ==> #[trigger] checks@[x].0@ != #[trigger] checks@[y].0@,
            forall|k: int|
                0 <= k < checks@.len() ==> #[trigger] check_has_target(apps@, checks@, k),
            forall|a: int, t: int|
                0 <= a < i && 0 <= t < apps@[a].targets@.len() ==> #[trigger] target_has_check(
                    apps@,
                    checks@,
                    a,
                    t,
                ),
            forall|k: int|
                0 <= k < checks@.len() ==> #[trigger] configured_check(
                    *config,
                    checks@[k].0@,
                    checks@[k].1,
                ),
        decreases n - i,
    {
        let targets = &apps[i].targets;
        let m = targets.len();
        let mut j: usize = 0;
        while j < m
            invariant
                i < n,
                j <= m,
                n == apps@.len(),
                apps@ == config.apps@,
                distinct_keys(config.targets@),
                targets@ == apps@[i as int].targets@,
                m == targets@.len(),
                all_buildable(*config),
                forall|x: int, y: int|
                    0 <= x < y < checks@.len() ==> #[trigger] checks@[x].0@
                        != #[trigger] checks@[y].0@,
                forall|k: int|
                    0 <= k < checks@.len() ==> #[trigger] check_has_target(apps@, checks@, k),
                forall|a: int, t: int|
                    ((0 <= a < i && 0 <= t < apps@[a].targets@.len()) || (a == i && 0 <= t < j))
                        ==> #[trigger] target_has_check(apps@, checks@, a, t),
                forall|k: int|
                    0 <= k < checks@.len() ==> #[trigger] configured_check(
                        *config,
                        checks@[k].0@,
                        checks@[k].1,
                    ),
            decreases m - j,
        {
            let target = &targets[j];
            let ghost before = checks@;
            if !contains_target(&checks, target) {
                proof {
                    if lookup_entry(config.targets@, target@) is Some {
                        lemma_lookup_entry_found(config.targets@, target@);
                    }
                }
                let check = health_check_for(config, target);
                checks.push((target.clone(), check));
                proof {
                    let last = before.len() as int;
                    assert(checks@[last].0@ == target@);
                    assert forall|k: int| 0 <= k < checks@.len() implies #[trigger] check_has_target(
                        apps@,
                        checks@,
                        k,
                    ) by {
                        if k < last {
                            assert(check_has_target(apps@, before, k));
                            let (a, t) = choose|a: int, t: int|
                                0 <= a < apps@.len() && 0 <= t < apps@[a].targets@.len()
                                    && #[trigger] apps@[a].targets@[t]@ == before[k].0@;
                            assert(checks@[k] == before[k]);
                            assert(apps@[a].targets@[t]@ == checks@[k].0@);
                        } else {
                            assert(apps@[i as int].targets@[j as int]@ == checks@[k].0@);
                        }
                    }
                    assert forall|a: int, t: int|
                        ((0 <= a < i && 0 <= t < apps@[a].targets@.len()) || (a == i && 0 <= t < j
                            + 1)) implies #[trigger] target_has_check(apps@, checks@, a, t) by {
                        if a == i && t == j {
                            assert(checks@[last].0@ == apps@[a].targets@[t]@);
                        } else {
                            assert(target_has_check(apps@, before, a, t));
                            let k = choose|k: int|
                                0 <= k < before.len() && #[trigger] before[k].0@
                                    == apps@[a].targets@[t]@;
                            assert(checks@[k] == before[k]);
                            assert(checks@[k].0@ == apps@[a].targets@[t]@);
                        }
                    }
                    assert forall|k: int| 0 <= k < checks@.len() implies #[trigger] configured_check(
                        *config,
                        checks@[k].0@,
                        checks@[k].1,
                    ) by {
                        if k < last {
                            assert(checks@[k] == before[k]);
                        }
                    }
                    assert forall|x: int, y: int| 0 <= x < y < checks@.len() implies #[trigger] checks@[x].0@
                        != #[trigger] checks@[y].0@ by {
                        if y < last {
                            assert(checks@[x] == before[x] && checks@[y] == before[y]);
                        } else {
                            assert(checks@[x] == before[x]);
                        }
                    }
                }
            } else {
                proof {
                    let k = choose|k: int|
                        0 <= k < checks@.len() && #[trigger] checks@[k].0@ == target@;
                    assert(checks@[k].0@ == apps@[i as int].targets@[j as int]@);
                    assert(target_has_check(apps@, checks@, i as int, j as int));
                }
            }
            j = j + 1;
        }
        i = i + 1;
    }
    checks
}

/// Failures in a row saturate at the threshold: after `k` more failures from `failures`,
/// the count is `failures + k`, capped at `threshold`.
pub proof fn lemma_failures_saturate(failures: u32, threshold: u32, k: nat)
    requires
        failures <= threshold,
    ensures
        failures_after(failures, threshold, k) == if failures + k < threshold {
            failures + k
        } else {
            threshold as int
        },
    decreases k,
{
    if k > 0 {
        lemma_failures_saturate(failures, threshold, (k - 1) as nat);
    }
}

/// A run of failures recorded one after the other on a health check takes its count of
/// failures in a row to `failures + k`, capped at the threshold; once `k` reaches the
/// threshold, an active check reports the target unhealthy and a passive one has marked it.
pub proof fn lemma_failure_run(run: Seq<HealthCheck>, times: Seq<Instant>)
    requires
        run.len() > 0,
        times.len() == run.len() - 1,
        run[0].valid(),
        forall|i: int|
            0 <= i < run.len() - 1 ==> #[trigger] after_failure(run[i], run[i + 1], times[i]),
    ensures
        run.last().threshold() == run[0].threshold(),
        run.last().failures() == failures_after(
            run[0].failures(),
            run[0].threshold(),
            (run.len() - 1) as nat,
        ),
        run.last().valid(),
        run.len() - 1 >= run[0].threshold() ==> !run.last().below_threshold(),
        run.len() - 1 >= run[0].threshold() ==> (run.last() matches HealthCheck::Passive(p)
            ==> p.marked_unhealthy_at() is Some),
        run.len() > 1 && !run.last().below_threshold() ==> (run.last() matches HealthCheck::Passive(
            p,
        ) ==> p.marked_unhealthy_at() == Some(times.last())),
    decreases run.len(),
{
    if run.len() > 1 {
        let shorter = run.drop_last();
        assert forall|i: int| 0 <= i < shorter.len() - 1 implies #[trigger] after_failure(
            shorter[i],
            shorter[i + 1],
            times.drop_last()[i],
        ) by {
            assert(after_failure(run[i], run[i + 1], times[i]));
        }
        lemma_failure_run(shorter, times.drop_last());
        let i = run.len() - 2;
        assert(after_failure(run[i], run[i + 1], times[i]));
        assert(shorter.last() == run[i]);
    }
    lemma_failures_saturate(run[0].failures(), run[0].threshold(), (run.len() - 1) as nat);
}

/// A success makes a health check with a positive threshold report the target healthy.
pub proof fn lemma_success_restores_health(check: HealthCheck, next: HealthCheck)
    requires
        after_success(check, next),
        check.threshold() > 0,
    ensures
        next.below_threshold(),
        next.valid(),
{
}

/// A failure followed by a success leaves the same count of failures as a success alone:
/// none.
pub proof fn lemma_success_clears_failures(
    check: HealthCheck,
    failed: HealthCheck,
    next: HealthCheck,
    now: Instant,
)
    requires
        after_failure(check, failed, now),
        after_success(failed, next),
    ensures
        next.failures() == 0,
        next.threshold() == check.threshold(),
{
}

} // verus!
