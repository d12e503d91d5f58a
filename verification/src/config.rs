use vstd::prelude::*;

use crate::domain::{AppName, AppTargetMeta, Target};
use crate::time::TimeSpan;

verus! {

/// How an app spreads its connections over its targets.
#[derive(Clone, Copy, Debug, PartialEq, Eq, Structural)]
pub enum LoadBalancerStrategyConfig {
    RoundRobin,
    Weighted { default_weight: u16 },
}

impl Default for LoadBalancerStrategyConfig {
    fn default() -> (r: LoadBalancerStrategyConfig)
        ensures
            r == LoadBalancerStrategyConfig::RoundRobin,
    {
        LoadBalancerStrategyConfig::RoundRobin
    }
}

/// How the health of a target is judged.
#[derive(Debug)]
pub enum HealthCheckStrategyConfig {
    /// Judged from the outcome of client connections only.
    Passive { failure_count_threshold: u32, recovery_timeout: TimeSpan },
    /// Judged from periodic connection attempts.
    TcpConnect { timeout: TimeSpan, interval: TimeSpan, failure_count_threshold: u32 },
    /// Judged from periodic exchanges: send a message, expect an answer.
    TcpSendExpect {
        timeout: TimeSpan,
        interval: TimeSpan,
        failure_count_threshold: u32,
        send: String,
        expect: String,
    },
}

impl Default for HealthCheckStrategyConfig {
    /// A passive check that gives up on a target at its first failure and gives it another
    /// chance after ten seconds.
    fn default() -> (r: HealthCheckStrategyConfig)
        ensures
            r matches HealthCheckStrategyConfig::Passive { failure_count_threshold, recovery_timeout }
                && failure_count_threshold == 1 && recovery_timeout == (TimeSpan {
                secs: 10,
                nanos: 0,
            }),
    {
        HealthCheckStrategyConfig::Passive {
            failure_count_threshold: 1,
            recovery_timeout: TimeSpan::from_secs(10),
        }
    }
}

/// What is configured for a target, whichever apps use it.
#[derive(Debug)]
pub struct TargetConfig {
    pub health_check: HealthCheckStrategyConfig,
}

/// One app: a name, the ports it listens on, the targets it forwards to.
#[derive(Debug)]
pub struct AppConfig {
    pub name: AppName,
    pub ports: Vec<u16>,
    pub targets: Vec<Target>,
    pub meta: Vec<(Target, AppTargetMeta)>,
    pub load_balancer_strategy: LoadBalancerStrategyConfig,
}

/// The whole configuration: the apps, and what is configured per target.
#[derive(Debug)]
pub struct Config {
    pub apps: Vec<AppConfig>,
    pub targets: Vec<(Target, TargetConfig)>,
}

/// A strategy or a probe was asked to be built from the configuration of another kind.
#[derive(Clone, Copy, Debug, PartialEq, Eq, Structural)]
pub struct ConfigKindMismatch;

/// What is wrong with a single app.
#[derive(Clone, Copy, Debug, PartialEq, Eq, Structural)]
pub enum AppIssue {
    NoPorts,
    NoTargets,
}

/// What is wrong with a health check.
#[derive(Clone, Copy, Debug, PartialEq, Eq, Structural)]
pub enum HealthCheckIssue {
    ZeroFailureThreshold,
    ZeroRecoveryTimeout,
    ZeroTimeout,
    ZeroInterval,
    EmptySend,
    EmptyExpect,
}

/// Why a configuration is refused.
#[derive(Debug)]
pub enum ConfigError {
    NoApps,
    /// The app at this position in `apps` is malformed.
    InvalidApp { app: usize, app_issue: AppIssue },
    /// These ports are claimed by more than one app.
    SharedPorts { ports: Vec<u16> },
    /// These names are given to more than one app.
    DuplicateAppNames { names: Vec<String> },
    /// The health check configured for the entry at this position in `targets` is malformed.
    InvalidHealthCheck { target: usize, check_issue: HealthCheckIssue },
}

pub open spec fn app_issue(app: AppConfig) -> Option<AppIssue> {
    if app.ports@.len() == 0 {
        Some(AppIssue::NoPorts)
    } else if app.targets@.len() == 0 {
        Some(AppIssue::NoTargets)
    } else {
        None
    }
}

pub open spec fn apps_well_shaped(apps: Seq<AppConfig>) -> bool {
    forall|i: int| 0 <= i < apps.len() ==> #[trigger] app_issue(apps[i]) is None
}

/// The app at `i` is the first malformed one.
pub open spec fn first_app_issue_at(apps: Seq<AppConfig>, i: int) -> bool {
    &&& 0 <= i < apps.len()
    &&& app_issue(apps[i]) is Some
    &&& forall|j: int| 0 <= j < i ==> #[trigger] app_issue(apps[j]) is None
}

/// Port `p` is listed by two different apps.
pub open spec fn port_shared(apps: Seq<AppConfig>, p: u16) -> bool {
    exists|i: int, j: int|
        #![trigger apps[i].ports@.contains(p), apps[j].ports@.contains(p)]
        0 <= i < apps.len() && 0 <= j < apps.len() && i != j && apps[i].ports@.contains(p)
            && apps[j].ports@.contains(p)
}

pub open spec fn no_shared_ports(apps: Seq<AppConfig>) -> bool {
    forall|p: u16| !#[trigger] port_shared(apps, p)
}

/// Name `n` is given to two different apps.
pub open spec fn name_duplicated(apps: Seq<AppConfig>, n: Seq<char>) -> bool {
    exists|i: int, j: int|
        #![trigger apps[i].name@, apps[j].name@]
        0 <= i < apps.len() && 0 <= j < apps.len() && i != j && apps[i].name@ == n
            && apps[j].name@ == n
}

pub open spec fn unique_app_names(apps: Seq<AppConfig>) -> bool {
    forall|i: int, j: int|
        #![trigger apps[i].name@, apps[j].name@]
        0 <= i < apps.len() && 0 <= j < apps.len() && i != j ==> apps[i].name@ != apps[j].name@
}

pub open spec fn apps_valid(apps: Seq<AppConfig>) -> bool {
    &&& apps.len() > 0
    &&& apps_well_shaped(apps)
    &&& no_shared_ports(apps)
    &&& unique_app_names(apps)
}

/// The first thing wrong with a health check, in the order in which it is checked.
pub open spec fn health_check_issue(c: HealthCheckStrategyConfig) -> Option<HealthCheckIssue> {
    match c {
        HealthCheckStrategyConfig::Passive { failure_count_threshold, recovery_timeout } => {
            if failure_count_threshold == 0 {
                Some(HealthCheckIssue::ZeroFailureThreshold)
            } else if recovery_timeout.spec_is_zero() {
                Some(HealthCheckIssue::ZeroRecoveryTimeout)
            } else {
                None
            }
        },
        HealthCheckStrategyConfig::TcpConnect { timeout, interval, failure_count_threshold } => {
            if failure_count_threshold == 0 {
                Some(HealthCheckIssue::ZeroFailureThreshold)
            } else if timeout.spec_is_zero() {
                Some(HealthCheckIssue::ZeroTimeout)
            } else if interval.spec_is_zero() {
                Some(HealthCheckIssue::ZeroInterval)
            } else {
                None
            }
        },
        HealthCheckStrategyConfig::TcpSendExpect {
            timeout,
            interval,
            failure_count_threshold,
            send,
            expect,
        } => {
            if failure_count_threshold == 0 {
                Some(HealthCheckIssue::ZeroFailureThreshold)
            } else if timeout.spec_is_zero() {
                Some(HealthCheckIssue::ZeroTimeout)
            } else if interval.spec_is_zero() {
                Some(HealthCheckIssue::ZeroInterval)
            } else if send@.len() == 0 {
                Some(HealthCheckIssue::EmptySend)
            } else if expect@.len() == 0 {
                Some(HealthCheckIssue::EmptyExpect)
            } else {
                None
            }
        },
    }
}

pub open spec fn health_checks_valid(targets: Seq<(Target, TargetConfig)>) -> bool {
    forall|k: int|
        0 <= k < targets.len() ==> #[trigger] health_check_issue(targets[k].1.health_check) is None
}

/// The entry at `k` holds the first malformed health check.
pub open spec fn first_health_check_issue_at(targets: Seq<(Target, TargetConfig)>, k: int) -> bool {
    &&& 0 <= k < targets.len()
    &&& health_check_issue(targets[k].1.health_check) is Some
    &&& forall|j: int|
        0 <= j < k ==> #[trigger] health_check_issue(targets[j].1.health_check) is None
}

pub open spec fn config_is_valid(config: Config) -> bool {
    apps_valid(config.apps@) && health_checks_valid(config.targets@)
}

pub open spec fn names_view(names: Seq<String>) -> Seq<Seq<char>> {
    names.map_values(|s: String| s@)
}

/// Two apps that validation cannot tell apart: same name, same ports, as many targets. Their
/// metas and strategies may differ.
pub open spec fn same_shape(a: AppConfig, b: AppConfig) -> bool {
    &&& a.name@ == b.name@
    &&& a.ports@ == b.ports@
    &&& a.targets@.len() == b.targets@.len()
}

/// `perm` and `inv` are inverse permutations of the positions below `n`.
pub open spec fn inverse_permutations(perm: Seq<int>, inv: Seq<int>, n: int) -> bool {
    &&& perm.len() == n
    &&& inv.len() == n
    &&& forall|i: int|
        0 <= i < n ==> 0 <= #[trigger] perm[i] < n && 0 <= inv[i] < n && inv[perm[i]] == i
            && perm[inv[i]] == i
}

proof fn lemma_validity_carries_over(c1: Config, c2: Config, perm: Seq<int>, inv: Seq<int>)
    requires
        c1.targets@ == c2.targets@,
        c1.apps@.len() == c2.apps@.len(),
        inverse_permutations(perm, inv, c1.apps@.len() as int),
        forall|i: int|
            0 <= i < c2.apps@.len() ==> #[trigger] same_shape(c2.apps@[i], c1.apps@[perm[i]]),
        config_is_valid(c1),
    ensures
        config_is_valid(c2),
{
    let a1 = c1.apps@;
    let a2 = c2.apps@;
    assert forall|i: int| 0 <= i < a2.len() implies #[trigger] app_issue(a2[i]) is None by {
        assert(same_shape(a2[i], a1[perm[i]]));
        assert(app_issue(a1[perm[i]]) is None);
    }
    assert forall|p: u16| !#[trigger] port_shared(a2, p) by {
        if port_shared(a2, p) {
            let (i, j) = choose|i: int, j: int|
                #![trigger a2[i].ports@.contains(p), a2[j].ports@.contains(p)]
                0 <= i < a2.len() && 0 <= j < a2.len() && i != j && a2[i].ports@.contains(p)
                    && a2[j].ports@.contains(p);
            assert(same_shape(a2[i], a1[perm[i]]));
            assert(same_shape(a2[j], a1[perm[j]]));
            assert(perm[i] != perm[j]);
            assert(a1[perm[i]].ports@.contains(p) && a1[perm[j]].ports@.contains(p));
            assert(port_shared(a1, p));
        }
    }
    assert forall|i: int, j: int|
        #![trigger a2[i].name@, a2[j].name@]
        0 <= i < a2.len() && 0 <= j < a2.len() && i != j implies a2[i].name@ != a2[j].name@ by {
        assert(same_shape(a2[i], a1[perm[i]]));
        assert(same_shape(a2[j], a1[perm[j]]));
        assert(perm[i] != perm[j]);
        assert(a1[perm[i]].name@ != a1[perm[j]].name@);
    }
}

/// Validation ignores the order of the apps, their metas and their strategies: a
/// configuration whose apps are those of another, reordered and with any metas and
/// strategies, with the same targets section, is valid exactly when the other is.
pub proof fn lemma_validity_ignores_order_and_strategy(
    c1: Config,
    c2: Config,
    perm: Seq<int>,
    inv: Seq<int>,
)
    requires
        c1.targets@ == c2.targets@,
        c1.apps@.len() == c2.apps@.len(),
        inverse_permutations(perm, inv, c1.apps@.len() as int),
        forall|i: int|
            0 <= i < c2.apps@.len() ==> #[trigger] same_shape(c2.apps@[i], c1.apps@[perm[i]]),
    ensures
        config_is_valid(c1) == config_is_valid(c2),
{
    let n = c1.apps@.len() as int;
    assert forall|j: int| 0 <= j < n implies #[trigger] same_shape(c1.apps@[j], c2.apps@[inv[j]]) by {
        assert(0 <= perm[j] < n);
        let i = inv[j];
        assert(0 <= i < n);
        assert(same_shape(c2.apps@[i], c1.apps@[perm[i]]));
        assert(perm[i] == j);
    }
    assert forall|i: int| 0 <= i < n implies 0 <= #[trigger] inv[i] < n && 0 <= perm[i] < n
        && perm[inv[i]] == i && inv[perm[i]] == i by {
        assert(0 <= perm[i] < n);
    }
    if config_is_valid(c1) {
        lemma_validity_carries_over(c1, c2, perm, inv);
    }
    if config_is_valid(c2) {
        lemma_validity_carries_over(c2, c1, inv, perm);
    }
}

/// Checks a single app: it listens on at least one port and has at least one target.
pub fn validate_app_config(app: &AppConfig) -> (r: Result<(), AppIssue>)
    ensures
        r == match app_issue(*app) {
            Some(issue) => Err::<(), AppIssue>(issue),
            None => Ok(()),
        },
{
    if app.ports.len() == 0 {
        return Err(AppIssue::NoPorts);
    }
    if app.targets.len() == 0 {
        return Err(AppIssue::NoTargets);
    }
    Ok(())
}

/// The failure threshold of a health check, whatever its kind.
pub open spec fn failure_threshold_of(c: HealthCheckStrategyConfig) -> u32 {
    match c {
        HealthCheckStrategyConfig::Passive { failure_count_threshold, .. } => failure_count_threshold,
        HealthCheckStrategyConfig::TcpConnect { failure_count_threshold, .. } => failure_count_threshold,
        HealthCheckStrategyConfig::TcpSendExpect { failure_count_threshold, .. } => failure_count_threshold,
    }
}

/// A span of more than no time.
pub open spec fn span_nonzero(t: TimeSpan) -> bool {
    t.secs > 0 || t.nanos > 0
}

/// A health check whose fields are all acceptable: a positive threshold, spans of more than no
/// time, and non-empty messages.
pub open spec fn health_check_fields_ok(c: HealthCheckStrategyConfig) -> bool {
    match c {
        HealthCheckStrategyConfig::Passive { failure_count_threshold, recovery_timeout } => {
            failure_count_threshold > 0 && span_nonzero(recovery_timeout)
        },
        HealthCheckStrategyConfig::TcpConnect { timeout, interval, failure_count_threshold } => {
            failure_count_threshold > 0 && span_nonzero(timeout) && span_nonzero(interval)
        },
        HealthCheckStrategyConfig::TcpSendExpect {
            timeout,
            interval,
            failure_count_threshold,
            send,
            expect,
        } => {
            &&& failure_count_threshold > 0
            &&& span_nonzero(timeout)
            &&& span_nonzero(interval)
            &&& send@.len() > 0
            &&& expect@.len() > 0
        },
    }
}

/// A configuration whose fields are all acceptable: at least one app; every app with a port
/// and a target; no port listed by two apps; no name given to two apps; every configured
/// health check with acceptable fields.
pub open spec fn config_fields_ok(c: Config) -> bool {
    let apps = c.apps@;
    &&& apps.len() > 0
    &&& forall|i: int|
        0 <= i < apps.len() ==> #[trigger] apps[i].ports@.len() > 0 && apps[i].targets@.len() > 0
    &&& forall|i: int, j: int, p: u16|
        0 <= i < apps.len() && 0 <= j < apps.len() && i != j && #[trigger] apps[i].ports@.contains(p)
            ==> !#[trigger] apps[j].ports@.contains(p)
    &&& forall|i: int, j: int|
        0 <= i < apps.len() && 0 <= j < apps.len() && i != j ==> #[trigger] apps[i].name@
            != #[trigger] apps[j].name@
    &&& forall|k: int|
        0 <= k < c.targets@.len() ==> #[trigger] health_check_fields_ok(c.targets@[k].1.health_check)
}

/// A health check is refused exactly when one of its fields is unacceptable, and a zero
/// failure threshold is always what is reported first, whatever the kind.
pub proof fn lemma_health_check_issue_by_fields(c: HealthCheckStrategyConfig)
    ensures
        health_check_issue(c) is None <==> health_check_fields_ok(c),
        failure_threshold_of(c) == 0 ==> health_check_issue(c) == Some(
            HealthCheckIssue::ZeroFailureThreshold,
        ),
{
}

/// A configuration is valid exactly when its fields are all acceptable (see
/// [`config_fields_ok`]).
pub proof fn lemma_validity_by_fields(c: Config)
    ensures
        config_is_valid(c) == config_fields_ok(c),
{
    let apps = c.apps@;
    assert forall|i: int| 0 <= i < apps.len() implies (#[trigger] app_issue(apps[i]) is None) == (
    apps[i].ports@.len() > 0 && apps[i].targets@.len() > 0) by {}
    assert forall|k: int| 0 <= k < c.targets@.len() implies (#[trigger] health_check_issue(
        c.targets@[k].1.health_check,
    ) is None) == health_check_fields_ok(c.targets@[k].1.health_check) by {
        lemma_health_check_issue_by_fields(c.targets@[k].1.health_check);
    }
    if no_shared_ports(apps) {
        assert forall|i: int, j: int, p: u16|
            0 <= i < apps.len() && 0 <= j < apps.len() && i != j && #[trigger] apps[i].ports@.contains(
                p,
            ) implies !#[trigger] apps[j].ports@.contains(p) by {
            if apps[j].ports@.contains(p) {
                assert(port_shared(apps, p));
            }
        }
    }
    if config_fields_ok(c) {
        assert forall|p: u16| !#[trigger] port_shared(apps, p) by {
            if port_shared(apps, p) {
                let (i, j) = choose|i: int, j: int|
                    #![trigger apps[i].ports@.contains(p), apps[j].ports@.contains(p)]
                    0 <= i < apps.len() && 0 <= j < apps.len() && i != j && apps[i].ports@.contains(p)
                        && apps[j].ports@.contains(p);
                assert(apps[i].ports@.contains(p));
            }
        }
        assert(apps_well_shaped(apps));
        assert(unique_app_names(apps));
        assert(health_checks_valid(c.targets@));
    }
    if config_is_valid(c) {
        assert(forall|k: int|
            0 <= k < c.targets@.len() ==> #[trigger] health_check_fields_ok(c.targets@[k].1.health_check)) by {
            assert forall|k: int| 0 <= k < c.targets@.len() implies #[trigger] health_check_fields_ok(
                c.targets@[k].1.health_check,
            ) by {
                assert(health_check_issue(c.targets@[k].1.health_check) is None);
            }
        }
        assert forall|i: int| 0 <= i < apps.len() implies #[trigger] apps[i].ports@.len() > 0
            && apps[i].targets@.len() > 0 by {
            assert(app_issue(apps[i]) is None);
        }
    }
}

/// Checks a health check: a positive failure threshold, and no zero span or empty message.
pub fn validate_health_check(health_check: &HealthCheckStrategyConfig) -> (r: Result<
    (),
    HealthCheckIssue,
>)
    ensures
        r == match health_check_issue(*health_check) {
            Some(issue) => Err::<(), HealthCheckIssue>(issue),
            None => Ok(()),
        },
        r is Ok <==> health_check_fields_ok(*health_check),
        failure_threshold_of(*health_check) == 0 ==> r == Err::<(), HealthCheckIssue>(
            HealthCheckIssue::ZeroFailureThreshold,
        ),
{
    proof {
        lemma_health_check_issue_by_fields(*health_check);
    }
    match health_check {
        HealthCheckStrategyConfig::Passive { failure_count_threshold, recovery_timeout } => {
            if *failure_count_threshold == 0 {
                return Err(HealthCheckIssue::ZeroFailureThreshold);
            }
            if recovery_timeout.is_zero() {
                return Err(HealthCheckIssue::ZeroRecoveryTimeout);
            }
        },
        HealthCheckStrategyConfig::TcpConnect { timeout, interval, failure_count_threshold } => {
            if *failure_count_threshold == 0 {
                return Err(HealthCheckIssue::ZeroFailureThreshold);
            }
            if timeout.is_zero() {
                return Err(HealthCheckIssue::ZeroTimeout);
            }
            if interval.is_zero() {
                return Err(HealthCheckIssue::ZeroInterval);
            }
        },
        HealthCheckStrategyConfig::TcpSendExpect {
            timeout,
            interval,
            failure_count_threshold,
            send,
            expect,
        } => {
            if *failure_count_threshold == 0 {
                return Err(HealthCheckIssue::ZeroFailureThreshold);
            }
            if timeout.is_zero() {
                return Err(HealthCheckIssue::ZeroTimeout);
            }
            if interval.is_zero() {
                return Err(HealthCheckIssue::ZeroInterval);
            }
            if send.as_str().is_empty() {
                return Err(HealthCheckIssue::EmptySend);
            }
            if expect.as_str().is_empty() {
                return Err(HealthCheckIssue::EmptyExpect);
            }
        },
    }
    Ok(())
}

fn contains_port(ports: &Vec<u16>, port: u16) -> (r: bool)
    ensures
        r == ports@.contains(port),
{
    let n = ports.len();
    let mut i: usize = 0;
    while i < n
        invariant
            i <= n,
            n == ports@.len(),
            forall|k: int| 0 <= k < i ==> ports@[k] != port,
        decreases n - i,
    {
        if ports[i] == port {
            return true;
        }
        i = i + 1;
    }
    false
}

/// Whether an app other than the one at `skip` lists `port`.
fn port_used_by_other_app(apps: &Vec<AppConfig>, skip: usize, port: u16) -> (r: bool)
    ensures
        r == exists|j: int|
            0 <= j < apps@.len() && j != skip && #[trigger] apps@[j].ports@.contains(port),
{
    let n = apps.len();
    let mut j: usize = 0;
    while j < n
        invariant
            j <= n,
            n == apps@.len(),
            forall|k: int| 0 <= k < j && k != skip ==> !#[trigger] apps@[k].ports@.contains(port),
        decreases n - j,
    {
        if j != skip && contains_port(&apps[j].ports, port) {
            return true;
        }
        j = j + 1;
    }
    false
}

/// The ports that more than one app lists, each once.
pub fn shared_ports(apps: &Vec<AppConfig>) -> (r: Vec<u16>)
    ensures
        r@.no_duplicates(),
        forall|p: u16| r@.contains(p) <==> port_shared(apps@, p),
{
    let n = apps.len();
    let mut shared: Vec<u16> = Vec::new();
    let mut i: usize = 0;
    while i < n
        invariant
            i <= n,
            n == apps@.len(),
            shared@.no_duplicates(),
            forall|p: u16|
                #![trigger shared@.contains(p)]
                shared@.contains(p) <==> (port_shared(apps@, p) && exists|a: int|
                    0 <= a < i && #[trigger] apps@[a].ports@.contains(p)),
        decreases n - i,
    {
        let ports = &apps[i].ports;
        let m = ports.len();
        let mut k: usize = 0;
        while k < m
            invariant
                i < n,
                k <= m,
                n == apps@.len(),
                ports@ == apps@[i as int].ports@,
                m == ports@.len(),
                shared@.no_duplicates(),
                forall|p: u16|
                    #![trigger shared@.contains(p)]
                    shared@.contains(p) <==> (port_shared(apps@, p) && ((exists|a: int|
                        0 <= a < i && #[trigger] apps@[a].ports@.contains(p))
                        || ports@.subrange(0, k as int).contains(p))),
            decreases m - k,
        {
            let p = ports[k];
            let already = contains_port(&shared, p);
            let elsewhere = port_used_by_other_app(apps, i, p);
            proof {
                assert(apps@[i as int].ports@.contains(p));
                if elsewhere {
                    let j = choose|j: int|
                        0 <= j < apps@.len() && j != i && #[trigger] apps@[j].ports@.contains(p);
                    assert(apps@[j].ports@.contains(p));
                    assert(port_shared(apps@, p));
                }
                if port_shared(apps@, p) {
                    let (a, b) = choose|a: int, b: int|
                        #![trigger apps@[a].ports@.contains(p), apps@[b].ports@.contains(p)]
                        0 <= a < apps@.len() && 0 <= b < apps@.len() && a != b
                            && apps@[a].ports@.contains(p) && apps@[b].ports@.contains(p);
                    if a != i {
                        assert(apps@[a].ports@.contains(p));
                    } else {
                        assert(apps@[b].ports@.contains(p));
                    }
                    assert(elsewhere);
                }
                assert(ports@.subrange(0, k + 1) =~= ports@.subrange(0, k as int).push(p));
            }
            let ghost before = shared@;
            if !already && elsewhere {
                shared.push(p);
            }
            proof {
                let prefix = ports@.subrange(0, k as int);
                assert forall|q: u16| #![trigger shared@.contains(q)]
                    shared@.contains(q) <==> (port_shared(apps@, q) && ((exists|a: int|
                        0 <= a < i && #[trigger] apps@[a].ports@.contains(q))
                        || prefix.push(p).contains(q))) by {
                    assert(before.contains(q) <==> (port_shared(apps@, q) && ((exists|a: int|
                        0 <= a < i && #[trigger] apps@[a].ports@.contains(q))
                        || prefix.contains(q))));
                    if !already && elsewhere {
                        assert(shared@ =~= before.push(p));
                        assert(shared@[before.len() as int] == p);
                    } else {
                        assert(shared@ =~= before);
                    }
                    if prefix.contains(q) {
                        let w = choose|w: int| 0 <= w < prefix.len() && prefix[w] == q;
                        assert(prefix.push(p)[w] == q);
                    }
                    if prefix.push(p).contains(q) && q != p {
                        let w = choose|w: int| 0 <= w < prefix.len() + 1 && prefix.push(p)[w] == q;
                        assert(prefix[w] == q);
                    }
                    if q == p {
                        assert(prefix.push(p)[k as int] == q);
                    }
                    if !already && elsewhere && shared@.contains(q) && q != p {
                        let w = choose|w: int| 0 <= w < shared@.len() && shared@[w] == q;
                        assert(before[w] == q);
                    }
                    if !already && elsewhere && before.contains(q) {
                        let w = choose|w: int| 0 <= w < before.len() && before[w] == q;
                        assert(shared@[w] == q);
                    }
                }
            }
            k = k + 1;
        }
        proof {
            assert(ports@.subrange(0, m as int) =~= ports@);
            assert forall|p: u16| #![trigger shared@.contains(p)]
                shared@.contains(p) <==> (port_shared(apps@, p) && exists|a: int|
                    0 <= a < i + 1 && #[trigger] apps@[a].ports@.contains(p)) by {
                if ports@.contains(p) {
                    assert(apps@[i as int].ports@.contains(p));
                }
                if exists|a: int| 0 <= a < i + 1 && #[trigger] apps@[a].ports@.contains(p) {
                    let a = choose|a: int| 0 <= a < i + 1 && #[trigger] apps@[a].ports@.contains(p);
                    if a < i {
                        assert(apps@[a].ports@.contains(p));
                    }
                }
            }
        }
        i = i + 1;
    }
    proof {
        assert forall|p: u16| port_shared(apps@, p) implies shared@.contains(p) by {
            let (a, b) = choose|a: int, b: int|
                #![trigger apps@[a].ports@.contains(p), apps@[b].ports@.contains(p)]
                0 <= a < apps@.len() && 0 <= b < apps@.len() && a != b
                    && apps@[a].ports@.contains(p) && apps@[b].ports@.contains(p);
            assert(apps@[a].ports@.contains(p));
        }
    }
    shared
}

fn contains_name(names: &Vec<String>, name: &AppName) -> (r: bool)
    ensures
        r == names_view(names@).contains(name@),
{
    let n = names.len();
    let mut k: usize = 0;
    while k < n
        invariant
            k <= n,
            n == names@.len(),
            forall|j: int| 0 <= j < k ==> names@[j]@ != name@,
        decreases n - k,
    {
        if name.is_text(&names[k]) {
            assert(names_view(names@)[k as int] == name@);
            return true;
        }
        k = k + 1;
    }
    proof {
        if names_view(names@).contains(name@) {
            let w = choose|w: int| 0 <= w < names_view(names@).len() && names_view(names@)[w] == name@;
            assert(names@[w]@ == name@);
        }
    }
    false
}

/// Whether an app other than the one at `skip` is called `name`.
fn name_used_by_other_app(apps: &Vec<AppConfig>, skip: usize, name: &AppName) -> (r: bool)
    ensures
        r == exists|j: int| 0 <= j < apps@.len() && j != skip && #[trigger] apps@[j].name@ == name@,
{
    let n = apps.len();
    let mut j: usize = 0;
    while j < n
        invariant
            j <= n,
            n == apps@.len(),
            forall|k: int| 0 <= k < j && k != skip ==> #[trigger] apps@[k].name@ != name@,
        decreases n - j,
    {
        if j != skip && apps[j].name.same_as(name) {
            return true;
        }
        j = j + 1;
    }
    false
}

/// The names given to more than one app, each once.
pub fn duplicated_app_names(apps: &Vec<AppConfig>) -> (r: Vec<String>)
    ensures
        names_view(r@).no_duplicates(),
        forall|n: Seq<char>| names_view(r@).contains(n) <==> name_duplicated(apps@, n),
{
    let n = apps.len();
    let mut dups: Vec<String> = Vec::new();
    let mut i: usize = 0;
    assert(names_view(dups@) =~= Seq::<Seq<char>>::empty());
    while i < n
        invariant
            i <= n,
            n == apps@.len(),
            names_view(dups@).no_duplicates(),
            forall|m: Seq<char>|
                #![trigger names_view(dups@).contains(m)]
                names_view(dups@).contains(m) <==> (name_duplicated(apps@, m) && exists|a: int|
                    0 <= a < i && #[trigger] apps@[a].name@ == m),
        decreases n - i,
    {
        let name = &apps[i].name;
        let already = contains_name(&dups, name);
        let elsewhere = name_used_by_other_app(apps, i, name);
        proof {
            if elsewhere {
                let j = choose|j: int| 0 <= j < apps@.len() && j != i && #[trigger] apps@[j].name@ == name@;
                assert(apps@[j].name@ == name@ && apps@[i as int].name@ == name@);
                assert(name_duplicated(apps@, name@));
            }
            if name_duplicated(apps@, name@) {
                let (a, b) = choose|a: int, b: int|
                    #![trigger apps@[a].name@, apps@[b].name@]
                    0 <= a < apps@.len() && 0 <= b < apps@.len() && a != b && apps@[a].name@ == name@
                        && apps@[b].name@ == name@;
                if a != i {
                    assert(apps@[a].name@ == name@);
                } else {
                    assert(apps@[b].name@ == name@);
                }
                assert(elsewhere);
            }
        }
        let ghost before = dups@;
        if !already && elsewhere {
            dups.push(name.to_text());
        }
        proof {
            if !already && elsewhere {
                assert(names_view(dups@) =~= names_view(before).push(name@));
                assert(names_view(dups@)[before.len() as int] == name@);
            } else {
                assert(dups@ =~= before);
            }
            assert forall|m: Seq<char>|
                #![trigger names_view(dups@).contains(m)]
                names_view(dups@).contains(m) <==> (name_duplicated(apps@, m) && exists|a: int|
                    0 <= a < i + 1 && #[trigger] apps@[a].name@ == m) by {
                assert(names_view(before).contains(m) <==> (name_duplicated(apps@, m) && exists|a: int|
                    0 <= a < i && #[trigger] apps@[a].name@ == m));
                if exists|a: int| 0 <= a < i + 1 && #[trigger] apps@[a].name@ == m {
                    let a = choose|a: int| 0 <= a < i + 1 && #[trigger] apps@[a].name@ == m;
                    if a < i {
                        assert(apps@[a].name@ == m);
                    }
                }
                if m == name@ {
                    assert(apps@[i as int].name@ == m);
                }
                if !already && elsewhere && names_view(dups@).contains(m) && m != name@ {
                    let w = choose|w: int| 0 <= w < names_view(dups@).len() && names_view(dups@)[w] == m;
                    assert(names_view(before)[w] == m);
                }
                if !already && elsewhere && names_view(before).contains(m) {
                    let w = choose|w: int| 0 <= w < names_view(before).len() && names_view(before)[w] == m;
                    assert(names_view(dups@)[w] == m);
                }
            }
        }
        i = i + 1;
    }
    proof {
        assert forall|m: Seq<char>| name_duplicated(apps@, m) implies names_view(dups@).contains(m) by {
            let (a, b) = choose|a: int, b: int|
                #![trigger apps@[a].name@, apps@[b].name@]
                0 <= a < apps@.len() && 0 <= b < apps@.len() && a != b && apps@[a].name@ == m
                    && apps@[b].name@ == m;
            assert(apps@[a].name@ == m);
        }
    }
    dups
}

/// Checks the apps: there is at least one, each is well shaped, no port is listed by two
/// apps and no name is given to two apps. The first failing check, in that order, decides
/// the error.
pub fn validate_apps_config(apps: &Vec<AppConfig>) -> (r: Result<(), ConfigError>)
    ensures
        r is Ok <==> apps_valid(apps@),
        (r matches Err(ConfigError::NoApps)) <==> apps@.len() == 0,
        r matches Err(ConfigError::InvalidApp { app, app_issue: issue }) ==> first_app_issue_at(
            apps@,
            app as int,
        ) && app_issue(apps@[app as int]) == Some(issue),
        apps@.len() > 0 && !apps_well_shaped(apps@) ==> r matches Err(ConfigError::InvalidApp { .. }),
        r matches Err(ConfigError::SharedPorts { ports }) ==> {
            &&& apps@.len() > 0
            &&& apps_well_shaped(apps@)
            &&& ports@.no_duplicates()
            &&& forall|p: u16| ports@.contains(p) <==> port_shared(apps@, p)
        },
        apps@.len() > 0 && apps_well_shaped(apps@) && !no_shared_ports(apps@) ==> r matches Err(
            ConfigError::SharedPorts { .. },
        ),
        r matches Err(ConfigError::DuplicateAppNames { names }) ==> {
            &&& apps@.len() > 0
            &&& apps_well_shaped(apps@)
            &&& no_shared_ports(apps@)
            &&& names_view(names@).no_duplicates()
            &&& forall|n: Seq<char>| names_view(names@).contains(n) <==> name_duplicated(apps@, n)
        },
        apps@.len() > 0 && apps_well_shaped(apps@) && no_shared_ports(apps@) && !unique_app_names(
            apps@,
        ) ==> r matches Err(ConfigError::DuplicateAppNames { .. }),
        !(r matches Err(ConfigError::InvalidHealthCheck { .. })),
{
    let n = apps.len();
    if n == 0 {
        return Err(ConfigError::NoApps);
    }
    let mut i: usize = 0;
    while i < n
        invariant
            i <= n,
            n == apps@.len(),
            forall|j: int| 0 <= j < i ==> #[trigger] app_issue(apps@[j]) is None,
        decreases n - i,
    {
        match validate_app_config(&apps[i]) {
            Err(issue) => {
                return Err(ConfigError::InvalidApp { app: i, app_issue: issue });
            },
            Ok(()) => {},
        }
        i = i + 1;
    }
    let shared = shared_ports(apps);
    if shared.len() > 0 {
        proof {
            assert(shared@.contains(shared@[0]));
            assert(port_shared(apps@, shared@[0]));
        }
        return Err(ConfigError::SharedPorts { ports: shared });
    }
    proof {
        assert forall|p: u16| !#[trigger] port_shared(apps@, p) by {
            if port_shared(apps@, p) {
                assert(shared@.contains(p));
            }
        }
    }
    let names = duplicated_app_names(apps);
    if names.len() > 0 {
        proof {
            assert(names_view(names@).contains(names_view(names@)[0]));
            assert(name_duplicated(apps@, names_view(names@)[0]));
        }
        return Err(ConfigError::DuplicateAppNames { names });
    }
    proof {
        assert forall|a: int, b: int|
            #![trigger apps@[a].name@, apps@[b].name@]
            0 <= a < apps@.len() && 0 <= b < apps@.len() && a != b implies apps@[a].name@
            != apps@[b].name@ by {
            if apps@[a].name@ == apps@[b].name@ {
                assert(name_duplicated(apps@, apps@[a].name@));
                assert(names_view(names@).contains(apps@[a].name@));
            }
        }
    }
    Ok(())
}

/// Checks the health check configured for each target; the first malformed one, in the
/// order of `targets`, decides the error.
pub fn validate_targets_config(targets: &Vec<(Target, TargetConfig)>) -> (r: Result<(), ConfigError>)
    ensures
        r is Ok <==> health_checks_valid(targets@),
        r is Err ==> r matches Err(ConfigError::InvalidHealthCheck { .. }),
        r matches Err(ConfigError::InvalidHealthCheck { target, check_issue: issue })
            ==> first_health_check_issue_at(targets@, target as int) && health_check_issue(
            targets@[target as int].1.health_check,
        ) == Some(issue),
{
    let n = targets.len();
    let mut k: usize = 0;
    while k < n
        invariant
            k <= n,
            n == targets@.len(),
            forall|j: int|
                0 <= j < k ==> #[trigger] health_check_issue(targets@[j].1.health_check) is None,
        decreases n - k,
    {
        match validate_health_check(&targets[k].1.health_check) {
            Err(issue) => {
                return Err(ConfigError::InvalidHealthCheck { target: k, check_issue: issue });
            },
            Ok(()) => {},
        }
        k = k + 1;
    }
    Ok(())
}

/// Checks a whole configuration: first the apps (see [`validate_apps_config`]), then the
/// health checks of the targets (see [`validate_targets_config`]).
pub fn validate_config(config: &Config) -> (r: Result<(), ConfigError>)
    ensures
        r is Ok <==> config_is_valid(*config),
        (r matches Err(ConfigError::NoApps)) <==> config.apps@.len() == 0,
        r matches Err(ConfigError::InvalidApp { app, app_issue: issue }) ==> first_app_issue_at(
            config.apps@,
            app as int,
        ) && app_issue(config.apps@[app as int]) == Some(issue),
        config.apps@.len() > 0 && !apps_well_shaped(config.apps@) ==> r matches Err(
            ConfigError::InvalidApp { .. },
        ),
        r matches Err(ConfigError::SharedPorts { ports }) ==> {
            &&& config.apps@.len() > 0
            &&& apps_well_shaped(config.apps@)
            &&& ports@.no_duplicates()
            &&& forall|p: u16| ports@.contains(p) <==> port_shared(config.apps@, p)
        },
        config.apps@.len() > 0 && apps_well_shaped(config.apps@) && !no_shared_ports(config.apps@)
            ==> r matches Err(ConfigError::SharedPorts { .. }),
        r matches Err(ConfigError::DuplicateAppNames { names }) ==> {
            &&& config.apps@.len() > 0
            &&& apps_well_shaped(config.apps@)
            &&& no_shared_ports(config.apps@)
            &&& names_view(names@).no_duplicates()
            &&& forall|n: Seq<char>|
                names_view(names@).contains(n) <==> name_duplicated(config.apps@, n)
        },
        config.apps@.len() > 0 && apps_well_shaped(config.apps@) && no_shared_ports(config.apps@)
            && !unique_app_names(config.apps@) ==> r matches Err(
            ConfigError::DuplicateAppNames { .. },
        ),
        r matches Err(ConfigError::InvalidHealthCheck { target, check_issue: issue }) ==> {
            &&& apps_valid(config.apps@)
            &&& first_health_check_issue_at(config.targets@, target as int)
            &&& health_check_issue(config.targets@[target as int].1.health_check) == Some(issue)
        },
        apps_valid(config.apps@) && !health_checks_valid(config.targets@) ==> r matches Err(
            ConfigError::InvalidHealthCheck { .. },
        ),
        r is Ok <==> config_fields_ok(*config),
        forall|k: int|
            0 <= k < config.targets@.len() && failure_threshold_of(
                #[trigger] config.targets@[k].1.health_check,
            ) == 0 ==> r is Err,
{
    proof {
        lemma_validity_by_fields(*config);
        assert forall|k: int|
            0 <= k < config.targets@.len() && failure_threshold_of(
                #[trigger] config.targets@[k].1.health_check,
            ) == 0 implies !health_check_fields_ok(config.targets@[k].1.health_check) by {}
    }
    match validate_apps_config(&config.apps) {
        Err(e) => {
            return Err(e);
        },
        Ok(()) => {},
    }
    validate_targets_config(&config.targets)
}

} // verus!
