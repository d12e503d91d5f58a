use std::time::Instant;

use tcp_proxy::config::{Config, HealthCheckStrategyConfig, TargetConfig};
use tcp_proxy::domain::Target;
use tcp_proxy::health::passive_probe::PassiveProbe;
use tcp_proxy::health::tcp_connect_probe::TcpConnectProbe;
use tcp_proxy::health::tcp_send_expect_probe::TcpSendExpectProbe;
use tcp_proxy::config::{AppConfig, LoadBalancerStrategyConfig};
use tcp_proxy::domain::AppName;
use tcp_proxy::health::{health_check_for, initial_health_checks, HealthCheck, ProbeOutcome, ProbeResult};
use tcp_proxy::time::TimeSpan;

fn wait_a_little() {
    let start = Instant::now();
    while start.elapsed() < std::time::Duration::from_millis(5) {}
}

fn passive(threshold: u32, timeout: TimeSpan) -> HealthCheckStrategyConfig {
    HealthCheckStrategyConfig::Passive { failure_count_threshold: threshold, recovery_timeout: timeout }
}

#[test]
fn passive_probe_marks_after_threshold() {
    let mut p = PassiveProbe::try_from(&passive(2, TimeSpan::from_secs(3600))).unwrap();
    assert!(p.is_healthy());
    assert!(!p.needs_probe());
    p.record_failure();
    assert!(p.is_healthy());
    p.record_failure();
    assert!(!p.is_healthy());
    assert!(!p.is_healthy_after(TimeSpan::from_secs(3599)));
    assert!(p.is_healthy_after(TimeSpan::from_secs(3600)));
    p.record_failure();
    assert!(!p.is_healthy());
    p.record_success();
    assert!(p.is_healthy());
    assert!(p.is_healthy_after(TimeSpan::from_secs(0)));
}

#[test]
fn passive_probe_recovers_after_timeout() {
    let mut p = PassiveProbe::try_from(&passive(1, TimeSpan::from_millis(1))).unwrap();
    p.record_failure();
    wait_a_little();
    assert!(p.is_healthy());
    p.record_probe(Instant::now());
    assert!(p.is_healthy());
}

#[test]
fn passive_probe_only_from_its_config() {
    let connect = HealthCheckStrategyConfig::TcpConnect {
        timeout: TimeSpan::from_secs(1),
        interval: TimeSpan::from_secs(1),
        failure_count_threshold: 1,
    };
    assert!(PassiveProbe::try_from(&connect).is_err());
    assert!(TcpConnectProbe::try_from(&passive(1, TimeSpan::from_secs(1))).is_err());
    assert!(TcpSendExpectProbe::try_from(&connect).is_err());
}

#[test]
fn connect_probe_counts_failures() {
    let config = HealthCheckStrategyConfig::TcpConnect {
        timeout: TimeSpan::from_secs(2),
        interval: TimeSpan::from_secs(5),
        failure_count_threshold: 3,
    };
    let mut p = TcpConnectProbe::try_from(&config).unwrap();
    assert_eq!(p.timeout(), TimeSpan::from_secs(2));
    assert!(p.needs_probe());
    assert!(p.needs_probe_after(TimeSpan::from_secs(0)));
    p.record_probe(Instant::now());
    assert!(!p.needs_probe());
    assert!(!p.needs_probe_after(TimeSpan::from_millis(4999)));
    assert!(p.needs_probe_after(TimeSpan::from_secs(5)));
    for _ in 0..2 {
        p.record_failure();
        assert!(p.is_healthy());
    }
    for _ in 0..5 {
        p.record_failure();
        assert!(!p.is_healthy());
    }
    p.record_success();
    assert!(p.is_healthy());
}

#[test]
fn connect_probe_due_after_short_interval() {
    let config = HealthCheckStrategyConfig::TcpConnect {
        timeout: TimeSpan::from_secs(1),
        interval: TimeSpan::from_millis(1),
        failure_count_threshold: 1,
    };
    let mut p = TcpConnectProbe::try_from(&config).unwrap();
    p.record_probe(Instant::now());
    wait_a_little();
    assert!(p.needs_probe());
}

#[test]
fn send_expect_probe_judges_answers() {
    let config = HealthCheckStrategyConfig::TcpSendExpect {
        timeout: TimeSpan::from_secs(1),
        interval: TimeSpan::from_secs(1),
        failure_count_threshold: 1,
        send: String::from("PING\n"),
        expect: String::from("PONG\n"),
    };
    let mut p = TcpSendExpectProbe::try_from(&config).unwrap();
    assert_eq!(p.send(), "PING\n");
    assert_eq!(p.expect(), "PONG\n");
    assert!(p.accepts_answer(&String::from("PONG\n")));
    assert!(!p.accepts_answer(&String::from("PONG")));
    p.record_failure();
    assert!(!p.is_healthy());
    p.record_failure();
    assert!(!p.is_healthy());
    p.record_success();
    assert!(p.is_healthy());
}

#[test]
fn health_check_records_probe_results() {
    let config = HealthCheckStrategyConfig::TcpSendExpect {
        timeout: TimeSpan::from_secs(1),
        interval: TimeSpan::from_secs(60),
        failure_count_threshold: 1,
        send: String::from("a"),
        expect: String::from("b"),
    };
    let mut check = HealthCheck::try_from(&config).unwrap();
    assert!(check.needs_probe());
    let now = Instant::now();
    let result = check.probe_result(&ProbeOutcome::Answered(String::from("c")), now);
    assert!(matches!(result, ProbeResult::Failure(t) if t == now));
    check.record_probe_result(result);
    assert!(!check.is_healthy());
    assert!(!check.needs_probe());
    let result = check.probe_result(&ProbeOutcome::Answered(String::from("b")), now);
    assert!(matches!(result, ProbeResult::Success(_)));
    check.record_probe_result(result);
    assert!(check.is_healthy());
    assert!(matches!(check.probe_result(&ProbeOutcome::Connected, now), ProbeResult::Failure(_)));
    assert!(matches!(check.probe_result(&ProbeOutcome::Failed, now), ProbeResult::Failure(_)));
}

#[test]
fn connect_check_succeeds_on_connection() {
    let config = HealthCheckStrategyConfig::TcpConnect {
        timeout: TimeSpan::from_secs(1),
        interval: TimeSpan::from_secs(60),
        failure_count_threshold: 2,
    };
    let mut check = HealthCheck::try_from(&config).unwrap();
    let now = Instant::now();
    assert!(matches!(check.probe_result(&ProbeOutcome::Connected, now), ProbeResult::Success(_)));
    check.record_failure();
    assert!(check.is_healthy());
    check.record_failure();
    assert!(!check.is_healthy());
    check.record_success();
    assert!(check.is_healthy());
}

#[test]
fn passive_check_never_needs_probe() {
    let mut check = HealthCheck::try_from(&passive(1, TimeSpan::from_secs(3600))).unwrap();
    assert!(!check.needs_probe());
    check.record_failure();
    assert!(!check.is_healthy());
    check.record_probe(Instant::now());
    assert!(!check.is_healthy());
    check.record_success();
    assert!(check.is_healthy());
}

#[test]
fn health_check_for_targets() {
    let configured = Target::try_new(String::from("a:1")).unwrap();
    let other = Target::try_new(String::from("b:1")).unwrap();
    let config = Config {
        apps: Vec::new(),
        targets: vec![(configured.clone(), TargetConfig {
            health_check: HealthCheckStrategyConfig::TcpConnect {
                timeout: TimeSpan::from_secs(1),
                interval: TimeSpan::from_secs(1),
                failure_count_threshold: 1,
            },
        })],
    };
    assert!(matches!(health_check_for(&config, &configured), HealthCheck::TcpConnect(_)));
    let mut default = health_check_for(&config, &other);
    assert!(matches!(default, HealthCheck::Passive(_)));
    // the default gives up on the first failure for ten seconds
    default.record_failure();
    assert!(!default.is_healthy());
}

#[test]
fn one_health_check_per_distinct_target() {
    let t = |s: &str| Target::try_new(s.to_string()).unwrap();
    let app = |name: &str, targets: Vec<Target>| AppConfig {
        name: AppName::try_new(name.to_string()).unwrap(),
        ports: vec![1],
        targets,
        meta: Vec::new(),
        load_balancer_strategy: LoadBalancerStrategyConfig::RoundRobin,
    };
    let config = Config {
        apps: vec![app("x", vec![t("a:1"), t("b:1")]), app("y", vec![t("b:1"), t("c:1")])],
        targets: vec![(t("c:1"), TargetConfig {
            health_check: HealthCheckStrategyConfig::TcpConnect {
                timeout: TimeSpan::from_secs(1),
                interval: TimeSpan::from_secs(1),
                failure_count_threshold: 1,
            },
        })],
    };
    let checks = initial_health_checks(&config);
    let names: Vec<&str> = checks.iter().map(|(t, _)| t.as_str()).collect();
    assert_eq!(names, vec!["a:1", "b:1", "c:1"]);
    assert!(matches!(checks[0].1, HealthCheck::Passive(_)));
    assert!(matches!(checks[1].1, HealthCheck::Passive(_)));
    assert!(matches!(checks[2].1, HealthCheck::TcpConnect(_)));
}

#[test]
fn failure_at_threshold_marks_at_its_moment() {
    let mut p = PassiveProbe::try_from(&passive(1, TimeSpan::from_secs(30))).unwrap();
    let long_ago = Instant::now().checked_sub(std::time::Duration::from_secs(60)).unwrap();
    p.record_failure_at(long_ago);
    // marked a minute ago, recovery after thirty seconds: another chance already
    assert!(p.is_healthy());
    // a failure now marks it again, from now
    p.record_failure_at(Instant::now());
    assert!(!p.is_healthy());
}

#[test]
fn failure_after_recovery_makes_unhealthy_again() {
    let mut p = PassiveProbe::try_from(&passive(1, TimeSpan::from_millis(200))).unwrap();
    p.record_failure();
    assert!(!p.is_healthy());
    let start = Instant::now();
    while start.elapsed() < std::time::Duration::from_millis(250) {}
    assert!(p.is_healthy());
    p.record_failure();
    assert!(!p.is_healthy());
}

#[test]
fn health_check_failure_at() {
    let mut check = HealthCheck::try_from(&passive(2, TimeSpan::from_secs(30))).unwrap();
    let long_ago = Instant::now().checked_sub(std::time::Duration::from_secs(60)).unwrap();
    check.record_failure_at(long_ago);
    assert!(check.is_healthy());
    check.record_failure_at(long_ago);
    assert!(check.is_healthy());
    check.record_failure_at(Instant::now());
    assert!(!check.is_healthy());
}
