use tcp_proxy::config::{
    validate_config, AppConfig, AppIssue, Config, ConfigError, HealthCheckIssue,
    HealthCheckStrategyConfig, LoadBalancerStrategyConfig, TargetConfig,
};
use tcp_proxy::domain::{AppName, Target};
use tcp_proxy::time::TimeSpan;

fn target(s: &str) -> Target {
    Target::try_new(s.to_string()).unwrap()
}

fn app(name: &str, ports: Vec<u16>, targets: Vec<&str>) -> AppConfig {
    AppConfig {
        name: AppName::try_new(name.to_string()).unwrap(),
        ports,
        targets: targets.into_iter().map(target).collect(),
        meta: Vec::new(),
        load_balancer_strategy: LoadBalancerStrategyConfig::RoundRobin,
    }
}

fn passive(threshold: u32, secs: u64) -> HealthCheckStrategyConfig {
    HealthCheckStrategyConfig::Passive {
        failure_count_threshold: threshold,
        recovery_timeout: TimeSpan::from_secs(secs),
    }
}

#[test]
fn valid_config_passes() {
    let config = Config {
        apps: vec![app("a", vec![80, 81], vec!["t1:1"]), app("b", vec![82], vec!["t1:1", "t2:2"])],
        targets: vec![(target("t1:1"), TargetConfig { health_check: passive(3, 5) })],
    };
    assert!(validate_config(&config).is_ok());
}

#[test]
fn no_apps() {
    let config = Config { apps: vec![], targets: vec![] };
    assert!(matches!(validate_config(&config), Err(ConfigError::NoApps)));
}

#[test]
fn first_malformed_app_is_reported() {
    let config = Config {
        apps: vec![
            app("a", vec![80], vec!["t:1"]),
            app("b", vec![81], vec![]),
            app("c", vec![], vec!["t:1"]),
        ],
        targets: vec![],
    };
    assert!(matches!(
        validate_config(&config),
        Err(ConfigError::InvalidApp { app: 1, app_issue: AppIssue::NoTargets })
    ));
    let config = Config { apps: vec![app("c", vec![], vec![])], targets: vec![] };
    assert!(matches!(
        validate_config(&config),
        Err(ConfigError::InvalidApp { app: 0, app_issue: AppIssue::NoPorts })
    ));
}

#[test]
fn shared_ports_are_reported_once() {
    let config = Config {
        apps: vec![
            app("a", vec![80, 81, 90], vec!["t:1"]),
            app("b", vec![81, 80], vec!["t:1"]),
            app("c", vec![80, 91], vec!["t:1"]),
        ],
        targets: vec![],
    };
    match validate_config(&config) {
        Err(ConfigError::SharedPorts { mut ports }) => {
            ports.sort();
            assert_eq!(ports, vec![80, 81]);
        },
        other => panic!("unexpected {other:?}"),
    }
}

#[test]
fn a_port_listed_twice_by_one_app_is_not_shared() {
    let config = Config { apps: vec![app("a", vec![80, 80], vec!["t:1"])], targets: vec![] };
    assert!(validate_config(&config).is_ok());
}

#[test]
fn duplicate_app_names() {
    let config = Config {
        apps: vec![
            app("a", vec![80], vec!["t:1"]),
            app("b", vec![81], vec!["t:1"]),
            app("a", vec![82], vec!["t:1"]),
            app("a", vec![83], vec!["t:1"]),
        ],
        targets: vec![],
    };
    match validate_config(&config) {
        Err(ConfigError::DuplicateAppNames { names }) => assert_eq!(names, vec![String::from("a")]),
        other => panic!("unexpected {other:?}"),
    }
}

#[test]
fn shared_ports_come_before_duplicate_names() {
    let config = Config {
        apps: vec![app("a", vec![80], vec!["t:1"]), app("a", vec![80], vec!["t:1"])],
        targets: vec![],
    };
    assert!(matches!(validate_config(&config), Err(ConfigError::SharedPorts { .. })));
}

fn with_check(check: HealthCheckStrategyConfig) -> Config {
    Config {
        apps: vec![app("a", vec![80], vec!["t:1"])],
        targets: vec![
            (target("ok:1"), TargetConfig { health_check: passive(1, 1) }),
            (target("t:1"), TargetConfig { health_check: check }),
        ],
    }
}

fn check_issue(check: HealthCheckStrategyConfig) -> Option<(usize, HealthCheckIssue)> {
    match validate_config(&with_check(check)) {
        Ok(()) => None,
        Err(ConfigError::InvalidHealthCheck { target, check_issue }) => Some((target, check_issue)),
        Err(other) => panic!("unexpected {other:?}"),
    }
}

#[test]
fn health_check_issues() {
    let s = TimeSpan::from_secs(1);
    let zero = TimeSpan::from_secs(0);
    assert_eq!(check_issue(passive(0, 1)), Some((1, HealthCheckIssue::ZeroFailureThreshold)));
    assert_eq!(check_issue(passive(1, 0)), Some((1, HealthCheckIssue::ZeroRecoveryTimeout)));
    assert_eq!(
        check_issue(HealthCheckStrategyConfig::Passive {
            failure_count_threshold: 1,
            recovery_timeout: TimeSpan::from_millis(1),
        }),
        None
    );
    let connect = |timeout, interval, threshold| HealthCheckStrategyConfig::TcpConnect {
        timeout,
        interval,
        failure_count_threshold: threshold,
    };
    assert_eq!(check_issue(connect(s, s, 0)), Some((1, HealthCheckIssue::ZeroFailureThreshold)));
    assert_eq!(check_issue(connect(zero, s, 1)), Some((1, HealthCheckIssue::ZeroTimeout)));
    assert_eq!(check_issue(connect(s, zero, 1)), Some((1, HealthCheckIssue::ZeroInterval)));
    assert_eq!(check_issue(connect(s, s, 1)), None);
    let send_expect = |send: &str, expect: &str| HealthCheckStrategyConfig::TcpSendExpect {
        timeout: s,
        interval: s,
        failure_count_threshold: 2,
        send: send.to_string(),
        expect: expect.to_string(),
    };
    assert_eq!(check_issue(send_expect("", "pong")), Some((1, HealthCheckIssue::EmptySend)));
    assert_eq!(check_issue(send_expect("ping", "")), Some((1, HealthCheckIssue::EmptyExpect)));
    assert_eq!(check_issue(send_expect("ping", "pong")), None);
}

#[test]
fn default_strategies() {
    assert_eq!(LoadBalancerStrategyConfig::default(), LoadBalancerStrategyConfig::RoundRobin);
    match HealthCheckStrategyConfig::default() {
        HealthCheckStrategyConfig::Passive { failure_count_threshold, recovery_timeout } => {
            assert_eq!(failure_count_threshold, 1);
            assert_eq!(recovery_timeout, TimeSpan::from_secs(10));
        },
        other => panic!("unexpected {other:?}"),
    }
}

#[test]
fn time_spans() {
    let t = TimeSpan::from_millis(1500);
    assert_eq!(t, TimeSpan { secs: 1, nanos: 500_000_000 });
    assert!(t.at_least(&TimeSpan::from_secs(1)));
    assert!(!TimeSpan::from_secs(1).at_least(&t));
    assert!(TimeSpan::from_secs(0).is_zero());
    assert!(!TimeSpan { secs: 0, nanos: 1 }.is_zero());
}
