use tcp_proxy::domain::Target;
use tcp_proxy::config::HealthCheckStrategyConfig;
use tcp_proxy::health::HealthCheck;
use tcp_proxy::time::TimeSpan;
use tcp_proxy::worker::{attempt_action, settle_attempt, AttemptAction, TargetAttempts};

fn target(s: &str) -> Target {
    Target::try_new(s.to_string()).unwrap()
}

#[test]
fn offers_untried_targets_not_known_unhealthy() {
    let targets = vec![target("a:1"), target("b:1"), target("c:1"), target("d:1")];
    let mut attempts = TargetAttempts::new(targets.len());
    let health = vec![Some(true), Some(false), None, Some(true)];
    let names = |v: Vec<&Target>| v.into_iter().map(|t| t.as_str().to_string()).collect::<Vec<_>>();
    assert_eq!(names(attempts.available(&targets, &health)), vec!["a:1", "c:1", "d:1"]);
    attempts.mark_tried(&targets, &targets[2]);
    assert_eq!(names(attempts.available(&targets, &health)), vec!["a:1", "d:1"]);
    attempts.mark_tried(&targets, &target("a:1"));
    attempts.mark_tried(&targets, &target("d:1"));
    assert!(attempts.available(&targets, &health).is_empty());
}

#[test]
fn settling_attempts() {
    let mut check = HealthCheck::try_from(&HealthCheckStrategyConfig::TcpConnect {
        timeout: TimeSpan::from_secs(1),
        interval: TimeSpan::from_secs(1),
        failure_count_threshold: 1,
    })
    .unwrap();
    assert_eq!(settle_attempt(&mut check, false), AttemptAction::TryNext);
    assert!(!check.is_healthy());
    assert_eq!(settle_attempt(&mut check, true), AttemptAction::Forward);
    assert!(check.is_healthy());
    assert_eq!(attempt_action(true), AttemptAction::Forward);
    assert_eq!(attempt_action(false), AttemptAction::TryNext);
}
