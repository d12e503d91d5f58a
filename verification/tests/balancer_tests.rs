use tcp_proxy::balancer::round_robin::RoundRobinBalancer;
use tcp_proxy::balancer::weighted_random::{pick_by_shift, WeightedBalancer};
use tcp_proxy::balancer::LoadBalancerStrategy;
use tcp_proxy::config::LoadBalancerStrategyConfig;
use tcp_proxy::domain::{AppTargetMeta, LoadBalancerStrategyTargetMeta, Target};

fn target(s: &str) -> Target {
    Target::try_new(s.to_string()).unwrap()
}

#[test]
fn round_robin_visits_targets_in_turn() {
    let targets = vec![target("a:1"), target("b:1"), target("c:1")];
    let meta: Vec<(Target, AppTargetMeta)> = Vec::new();
    let mut rr = RoundRobinBalancer::try_from(&LoadBalancerStrategyConfig::RoundRobin).unwrap();
    let mut picked = Vec::new();
    for _ in 0..7 {
        let active: Vec<&Target> = targets.iter().collect();
        picked.push(rr.route(&meta, active).unwrap().as_str().to_string());
    }
    assert_eq!(picked, vec!["a:1", "b:1", "c:1", "a:1", "b:1", "c:1", "a:1"]);
}

#[test]
fn round_robin_wraps_when_targets_shrink() {
    let targets = vec![target("a:1"), target("b:1"), target("c:1")];
    let meta: Vec<(Target, AppTargetMeta)> = Vec::new();
    let mut rr = RoundRobinBalancer::try_from(&LoadBalancerStrategyConfig::RoundRobin).unwrap();
    let all: Vec<&Target> = targets.iter().collect();
    rr.route(&meta, all.clone());
    rr.route(&meta, all.clone());
    // the counter is now 2; with two active targets it wraps to position 0
    let two: Vec<&Target> = vec![&targets[1], &targets[2]];
    assert_eq!(rr.route(&meta, two.clone()).unwrap().as_str(), "b:1");
    assert_eq!(rr.route(&meta, two).unwrap().as_str(), "c:1");
    assert!(rr.route(&meta, Vec::new()).is_none());
}

#[test]
fn round_robin_only_from_its_config() {
    assert!(RoundRobinBalancer::try_from(&LoadBalancerStrategyConfig::Weighted { default_weight: 1 }).is_err());
    assert!(WeightedBalancer::try_from(&LoadBalancerStrategyConfig::RoundRobin).is_err());
}

#[test]
fn pick_by_shift_follows_slices() {
    let weights = vec![3u32, 0, 2];
    let picks: Vec<usize> = (0..5).map(|s| pick_by_shift(&weights, s)).collect();
    assert_eq!(picks, vec![0, 0, 0, 2, 2]);
    assert_eq!(pick_by_shift(&vec![0, 1], 0), 1);
}

#[test]
fn weights_from_meta() {
    let a = target("a:1");
    let b = target("b:1");
    let c = target("c:1");
    let meta = vec![
        (a.clone(), AppTargetMeta {
            load_balancer_strategy_meta: Some(LoadBalancerStrategyTargetMeta::Weighted { weight: 7 }),
        }),
        (b.clone(), AppTargetMeta {
            load_balancer_strategy_meta: Some(LoadBalancerStrategyTargetMeta::RoundRobin),
        }),
    ];
    let w = WeightedBalancer::try_from(&LoadBalancerStrategyConfig::Weighted { default_weight: 2 }).unwrap();
    assert_eq!(w.weight_of(&meta, &a), 7);
    assert_eq!(w.weight_of(&meta, &b), 2);
    assert_eq!(w.weight_of(&meta, &c), 2);
    assert_eq!(w.active_target_weights(&meta, &vec![&c, &a]), vec![2, 7]);
}

#[test]
fn weighted_never_picks_zero_weight() {
    let a = target("a:1");
    let b = target("b:1");
    let zero = |t: &Target| {
        (t.clone(), AppTargetMeta {
            load_balancer_strategy_meta: Some(LoadBalancerStrategyTargetMeta::Weighted { weight: 0 }),
        })
    };
    let meta = vec![zero(&a)];
    let mut w = WeightedBalancer::try_from(&LoadBalancerStrategyConfig::Weighted { default_weight: 1 }).unwrap();
    for _ in 0..50 {
        assert_eq!(w.route(&meta, vec![&a, &b]).unwrap().as_str(), "b:1");
    }
    let meta = vec![zero(&a), zero(&b)];
    assert!(w.route(&meta, vec![&a, &b]).is_none());
    assert!(w.route(&meta, Vec::new()).is_none());
}

#[test]
fn weighted_picks_every_positive_target() {
    let a = target("a:1");
    let b = target("b:1");
    let meta: Vec<(Target, AppTargetMeta)> = Vec::new();
    let mut w = WeightedBalancer::try_from(&LoadBalancerStrategyConfig::Weighted { default_weight: 1 }).unwrap();
    let mut seen_a = false;
    let mut seen_b = false;
    for _ in 0..500 {
        match w.route(&meta, vec![&a, &b]).unwrap().as_str() {
            "a:1" => seen_a = true,
            "b:1" => seen_b = true,
            other => panic!("unexpected {other}"),
        }
    }
    assert!(seen_a && seen_b);
}

#[test]
fn strategy_dispatch() {
    let a = target("a:1");
    let b = target("b:1");
    let meta: Vec<(Target, AppTargetMeta)> = Vec::new();
    let mut s = LoadBalancerStrategy::try_from(&LoadBalancerStrategyConfig::RoundRobin).unwrap();
    assert!(matches!(s, LoadBalancerStrategy::RoundRobin(_)));
    assert_eq!(s.route(&meta, vec![&a, &b]).unwrap().as_str(), "a:1");
    assert_eq!(s.route(&meta, vec![&a, &b]).unwrap().as_str(), "b:1");
    assert!(s.route(&meta, Vec::new()).is_none());
    let mut s = LoadBalancerStrategy::try_from(&LoadBalancerStrategyConfig::Weighted { default_weight: 0 }).unwrap();
    assert!(matches!(s, LoadBalancerStrategy::Weighted(_)));
    assert!(s.route(&meta, vec![&a, &b]).is_none());
}
