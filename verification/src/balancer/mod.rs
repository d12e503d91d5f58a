pub mod round_robin;
pub mod weighted_random;

use vstd::prelude::*;

use crate::config::{ConfigKindMismatch, LoadBalancerStrategyConfig};
use crate::domain::{distinct_keys, AppTargetMeta, Target};
use round_robin::{round_robin_routes, RoundRobinBalancer};
use weighted_random::{
    active_weights,
    picked_position,
    total_weight,
    weighted_routes,
    WeightedBalancer,
};

verus! {

/// The load-balancing strategy of an app.
#[derive(Debug)]
pub enum LoadBalancerStrategy {
    RoundRobin(RoundRobinBalancer),
    Weighted(WeightedBalancer),
}

/// The total weight that a weighted strategy sees among `active` targets; zero for any other
/// strategy.
pub open spec fn strategy_total_weight(
    strategy: LoadBalancerStrategy,
    meta: Seq<(Target, AppTargetMeta)>,
    active: Seq<&Target>,
) -> int {
    match strategy {
        LoadBalancerStrategy::Weighted(b) => total_weight(
            active_weights(meta, b.default_weight(), active),
        ),
        LoadBalancerStrategy::RoundRobin(_) => 0,
    }
}

/// `next` and `r` are the strategy and the pick after `strategy` routed among `active`: the
/// strategy keeps its kind, and its balancer routes as it does on its own.
pub open spec fn strategy_routes(
    strategy: LoadBalancerStrategy,
    next: LoadBalancerStrategy,
    meta: Seq<(Target, AppTargetMeta)>,
    active: Seq<&Target>,
    r: Option<&Target>,
) -> bool {
    match (strategy, next) {
        (LoadBalancerStrategy::RoundRobin(b), LoadBalancerStrategy::RoundRobin(b2)) => round_robin_routes(
            b,
            b2,
            active,
            r,
        ),
        (LoadBalancerStrategy::Weighted(b), LoadBalancerStrategy::Weighted(b2)) => weighted_routes(
            b,
            b2,
            meta,
            active,
            r,
        ),
        _ => false,
    }
}

impl LoadBalancerStrategy {
    /// Selects a single target among `active_targets`, consulting `app_targets_meta` for
    /// what the app states of each target; with no active target it selects none.
    pub fn route<'a>(
        &mut self,
        app_targets_meta: &Vec<(Target, AppTargetMeta)>,
        active_targets: Vec<&'a Target>,
    ) -> (r: Option<&'a Target>)
        requires
            *old(self) is Weighted ==> distinct_keys(app_targets_meta@),
            strategy_total_weight(*old(self), app_targets_meta@, active_targets@) <= u32::MAX,
        ensures
            strategy_routes(*old(self), *final(self), app_targets_meta@, active_targets@, r),
            r matches Some(t) ==> active_targets@.contains(t),
            active_targets@.len() == 0 ==> r is None && *final(self) == *old(self),
    {
        if active_targets.len() == 0 {
            proof {
                if let LoadBalancerStrategy::Weighted(b) = *old(self) {
                    assert(active_weights(app_targets_meta@, b.default_weight(), active_targets@)
                        =~= Seq::<u32>::empty());
                }
            }
            return None;
        }
        let ghost active = active_targets@;
        let r = match self {
            LoadBalancerStrategy::RoundRobin(balancer) => balancer.route(
                app_targets_meta,
                active_targets,
            ),
            LoadBalancerStrategy::Weighted(balancer) => balancer.route(
                app_targets_meta,
                active_targets,
            ),
        };
        proof {
            if r is Some {
                let t = r->0;
                match *old(self) {
                    LoadBalancerStrategy::RoundRobin(b) => {
                        let i = round_robin::round_robin_pick(b.next_index() as int, active.len() as int);
                        assert(active[i] == t);
                    },
                    LoadBalancerStrategy::Weighted(b) => {
                        let weights = active_weights(app_targets_meta@, b.default_weight(), active);
                        let shift = choose|shift: int|
                            0 <= shift < total_weight(weights) && t == active[picked_position(
                                weights,
                                shift,
                            )];
                        weighted_random::lemma_shift_has_slice(weights, shift);
                        assert(active[picked_position(weights, shift)] == t);
                    },
                }
            }
        }
        r
    }

    /// Builds the strategy that `config` names.
    pub fn try_from(config: &LoadBalancerStrategyConfig) -> (r: Result<
        LoadBalancerStrategy,
        ConfigKindMismatch,
    >)
        ensures
            r is Ok,
            r matches Ok(s) ==> match *config {
                LoadBalancerStrategyConfig::RoundRobin => s matches LoadBalancerStrategy::RoundRobin(
                    b,
                ) && b.next_index() == 0,
                LoadBalancerStrategyConfig::Weighted { default_weight } => s matches LoadBalancerStrategy::Weighted(
                    b,
                ) && b.default_weight() == default_weight,
            },
    {
        match config {
            LoadBalancerStrategyConfig::RoundRobin => match RoundRobinBalancer::try_from(config) {
                Ok(b) => Ok(LoadBalancerStrategy::RoundRobin(b)),
                Err(e) => Err(e),
            },
            LoadBalancerStrategyConfig::Weighted { .. } => match WeightedBalancer::try_from(config) {
                Ok(b) => Ok(LoadBalancerStrategy::Weighted(b)),
                Err(e) => Err(e),
            },
        }
    }
}

} // verus!
