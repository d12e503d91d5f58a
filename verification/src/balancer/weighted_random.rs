use vstd::prelude::*;

use crate::config::{ConfigKindMismatch, LoadBalancerStrategyConfig};
use crate::domain::{
    distinct_keys,
    find_entry,
    lookup_entry,
    AppTargetMeta,
    LoadBalancerStrategyTargetMeta,
    Target,
};

verus! {

/// The weight an app gives `target`: the weight in its meta when that meta is a weighted
/// one, and `default_weight` otherwise or when the app has no meta for it.
pub open spec fn target_weight(
    meta: Seq<(Target, AppTargetMeta)>,
    default_weight: u16,
    target: Seq<char>,
) -> u32 {
    match lookup_entry(meta, target) {
        Some(m) => match m.load_balancer_strategy_meta {
            Some(LoadBalancerStrategyTargetMeta::Weighted { weight }) => weight as u32,
            _ => default_weight as u32,
        },
        None => default_weight as u32,
    }
}

/// The weights of the active targets, position by position.
pub open spec fn active_weights(
    meta: Seq<(Target, AppTargetMeta)>,
    default_weight: u16,
    active: Seq<&Target>,
) -> Seq<u32> {
    Seq::new(active.len(), |i: int| target_weight(meta, default_weight, active[i]@))
}

/// The sum of the first `k` weights.
pub open spec fn prefix_weight(weights: Seq<u32>, k: int) -> int
    decreases k,
{
    if k <= 0 {
        0
    } else {
        prefix_weight(weights, k - 1) + weights[k - 1]
    }
}

pub open spec fn total_weight(weights: Seq<u32>) -> int {
    prefix_weight(weights, weights.len() as int)
}

/// The position whose slice `[prefix_weight(i), prefix_weight(i + 1))` of the line of all
/// weights holds `shift`.
pub open spec fn picked_position(weights: Seq<u32>, shift: int) -> int {
    choose|i: int|
        0 <= i < weights.len() && #[trigger] prefix_weight(weights, i) <= shift < prefix_weight(
            weights,
            i + 1,
        )
}

/// Prefix sums of weights never decrease.
pub proof fn lemma_prefix_weight_monotone(weights: Seq<u32>, a: int, b: int)
    requires
        0 <= a <= b <= weights.len(),
    ensures
        prefix_weight(weights, a) <= prefix_weight(weights, b),
    decreases b - a,
{
    if a < b {
        lemma_prefix_weight_monotone(weights, a, b - 1);
    }
}

/// The slices of two different positions do not overlap, so a shift lies in at most one.
pub proof fn lemma_slices_disjoint(weights: Seq<u32>, i: int, j: int, shift: int)
    requires
        0 <= i < weights.len(),
        0 <= j < weights.len(),
        prefix_weight(weights, i) <= shift < prefix_weight(weights, i + 1),
        prefix_weight(weights, j) <= shift < prefix_weight(weights, j + 1),
    ensures
        i == j,
{
    if i < j {
        lemma_prefix_weight_monotone(weights, i + 1, j);
    } else if j < i {
        lemma_prefix_weight_monotone(weights, j + 1, i);
    }
}

/// Picks the position whose slice of the line of all weights holds `shift`: the first
/// position at which the running sum of weights exceeds `shift`.
pub fn pick_by_shift(weights: &Vec<u32>, shift: u32) -> (r: usize)
    requires
        shift < total_weight(weights@),
        total_weight(weights@) <= u32::MAX,
    ensures
        r < weights@.len(),
        prefix_weight(weights@, r as int) <= shift < prefix_weight(weights@, r + 1),
        r == picked_position(weights@, shift as int),
{
    let n = weights.len();
    let mut cumulative_sum: u32 = 0;
    let mut i: usize = 0;
    while i < n
        invariant
            i <= n,
            n == weights@.len(),
            cumulative_sum == prefix_weight(weights@, i as int),
            cumulative_sum <= shift,
            shift < total_weight(weights@),
            total_weight(weights@) <= u32::MAX,
        decreases n - i,
    {
        proof {
            lemma_prefix_weight_monotone(weights@, i + 1, n as int);
        }
        cumulative_sum = cumulative_sum + weights[i];
        if cumulative_sum > shift {
            proof {
                let p = picked_position(weights@, shift as int);
                lemma_slices_disjoint(weights@, p, i as int, shift as int);
            }
            return i;
        }
        i = i + 1;
    }
    // The running sum reached the total, which exceeds `shift`.
    assert(false);
    0
}

/// `next` and `r` are the balancer and the pick after `balancer` routed among `active`: no
/// change; no pick exactly when the active targets weigh nothing in total; otherwise the
/// target whose slice holds some shift below the total.
pub open spec fn weighted_routes(
    balancer: WeightedBalancer,
    next: WeightedBalancer,
    meta: Seq<(Target, AppTargetMeta)>,
    active: Seq<&Target>,
    r: Option<&Target>,
) -> bool {
    let weights = active_weights(meta, balancer.default_weight(), active);
    &&& next == balancer
    &&& r is None <==> total_weight(weights) == 0
    &&& r matches Some(t) ==> exists|shift: int|
        0 <= shift < total_weight(weights) && t == active[picked_position(weights, shift)]
}

/// The weighted random balancer: picks among the active targets at random, each with a
/// chance proportional to its weight.
#[derive(Debug)]
pub struct WeightedBalancer {
    default_weight: u16,
}

impl WeightedBalancer {
    /// The weight of targets for which the app states none.
    pub closed spec fn default_weight(self) -> u16 {
        self.default_weight
    }

    /// Builds a balancer from a weighted configuration only.
    pub fn try_from(config: &LoadBalancerStrategyConfig) -> (r: Result<
        WeightedBalancer,
        ConfigKindMismatch,
    >)
        ensures
            r is Ok <==> config is Weighted,
            r matches Ok(b) ==> *config == (LoadBalancerStrategyConfig::Weighted {
                default_weight: b.default_weight(),
            }),
    {
        match config {
            LoadBalancerStrategyConfig::Weighted { default_weight } => Ok(
                WeightedBalancer { default_weight: *default_weight },
            ),
            _ => Err(ConfigKindMismatch),
        }
    }

    /// The weight this balancer gives `target`.
    pub fn weight_of(&self, app_targets_meta: &Vec<(Target, AppTargetMeta)>, target: &Target) -> (r:
        u32)
        requires
            distinct_keys(app_targets_meta@),
        ensures
            r == target_weight(app_targets_meta@, self.default_weight(), target@),
    {
        match find_entry(app_targets_meta, target) {
            Some(i) => match app_targets_meta[i].1.load_balancer_strategy_meta {
                Some(LoadBalancerStrategyTargetMeta::Weighted { weight }) => weight as u32,
                _ => self.default_weight as u32,
            },
            None => self.default_weight as u32,
        }
    }

    /// The weights of the active targets, position by position.
    pub fn active_target_weights(
        &self,
        app_targets_meta: &Vec<(Target, AppTargetMeta)>,
        active_targets: &Vec<&Target>,
    ) -> (r: Vec<u32>)
        requires
            distinct_keys(app_targets_meta@),
        ensures
            r@ == active_weights(app_targets_meta@, self.default_weight(), active_targets@),
    {
        let n = active_targets.len();
        let mut weights: Vec<u32> = Vec::new();
        let mut i: usize = 0;
        while i < n
            invariant
                i <= n,
                n == active_targets@.len(),
                distinct_keys(app_targets_meta@),
                weights@ =~= active_weights(
                    app_targets_meta@,
                    self.default_weight(),
                    active_targets@,
                ).subrange(0, i as int),
            decreases n - i,
        {
            let w = self.weight_of(app_targets_meta, active_targets[i]);
            weights.push(w);
            i = i + 1;
        }
        weights
    }

    /// Picks one of the active targets at random, each with a chance proportional to its
    /// weight; targets of weight zero are never picked, and when every active target has
    /// weight zero, none is.
    pub fn route<'a>(
        &mut self,
        app_targets_meta: &Vec<(Target, AppTargetMeta)>,
        active_targets: Vec<&'a Target>,
    ) -> (r: Option<&'a Target>)
        requires
            distinct_keys(app_targets_meta@),
            total_weight(
                active_weights(app_targets_meta@, old(self).default_weight(), active_targets@),
            ) <= u32::MAX,
        ensures
            weighted_routes(*old(self), *final(self), app_targets_meta@, active_targets@, r),
    {
        let weights = self.active_target_weights(app_targets_meta, &active_targets);
        let n = weights.len();
        let mut total: u32 = 0;
        let mut i: usize = 0;
        while i < n
            invariant
                i <= n,
                n == weights@.len(),
                total == prefix_weight(weights@, i as int),
                total_weight(weights@) <= u32::MAX,
            decreases n - i,
        {
            proof {
                lemma_prefix_weight_monotone(weights@, i + 1, n as int);
            }
            total = total + weights[i];
            i = i + 1;
        }
        if total == 0 {
            // the case when every active target has weight zero
            return None;
        }
        let shift = random_below(total);
        let index = pick_by_shift(&weights, shift);
        Some(active_targets[index])
    }
}

/// Draws a number below `bound` with `fastrand::u32` on the range `0..bound`, which panics
/// on an empty range and otherwise returns a number of that range. Which number comes out
/// depends on a generator that each thread seeds, so nothing more is stated of it.
#[verifier::external_body]
fn random_below(bound: u32) -> (r: u32)
    requires
        bound > 0,
    ensures
        r < bound,
{
    fastrand::u32(0..bound)
}

/// Weighted choice is proportional: the shifts in `[0, total)` that pick position `i` are
/// exactly the `weights[i]` shifts of its slice.
pub proof fn lemma_weighted_pick_proportional(weights: Seq<u32>, i: int)
    requires
        0 <= i < weights.len(),
    ensures
        Set::new(
            |shift: int|
                0 <= shift < total_weight(weights) && picked_position(weights, shift) == i,
        ) == vstd::set_lib::set_int_range(prefix_weight(weights, i), prefix_weight(weights, i + 1)),
        vstd::set_lib::set_int_range(prefix_weight(weights, i), prefix_weight(weights, i + 1)).len()
            == weights[i],
{
    let lo = prefix_weight(weights, i);
    let hi = prefix_weight(weights, i + 1);
    let picked = Set::new(
        |shift: int| 0 <= shift < total_weight(weights) && picked_position(weights, shift) == i,
    );
    let range = vstd::set_lib::set_int_range(lo, hi);
    assert forall|shift: int| picked.contains(shift) <==> range.contains(shift) by {
        lemma_prefix_weight_monotone(weights, 0, i);
        lemma_prefix_weight_monotone(weights, i + 1, weights.len() as int);
        if range.contains(shift) {
            let p = picked_position(weights, shift);
            lemma_slices_disjoint(weights, p, i, shift);
        }
        if picked.contains(shift) {
            let p = picked_position(weights, shift);
            lemma_shift_has_slice(weights, shift);
            lemma_slices_disjoint(weights, p, i, shift);
        }
    }
    assert(picked =~= range);
    vstd::set_lib::lemma_int_range(lo, hi);
}

/// Every shift below the total lies in the slice of some position.
pub proof fn lemma_shift_has_slice(weights: Seq<u32>, shift: int)
    requires
        0 <= shift < total_weight(weights),
    ensures
        0 <= picked_position(weights, shift) < weights.len(),
        prefix_weight(weights, picked_position(weights, shift)) <= shift < prefix_weight(
            weights,
            picked_position(weights, shift) + 1,
        ),
{
    lemma_slice_below(weights, shift, weights.len() as int);
}

proof fn lemma_slice_below(weights: Seq<u32>, shift: int, k: int)
    requires
        0 <= k <= weights.len(),
        0 <= shift < prefix_weight(weights, k),
    ensures
        exists|i: int|
            0 <= i < k && #[trigger] prefix_weight(weights, i) <= shift < prefix_weight(weights, i + 1),
    decreases k,
{
    if prefix_weight(weights, k - 1) <= shift {
        assert(prefix_weight(weights, k - 1) <= shift < prefix_weight(weights, k));
    } else {
        lemma_slice_below(weights, shift, k - 1);
    }
}

/// A target of weight zero is never picked.
pub proof fn lemma_zero_weight_never_picked(weights: Seq<u32>, shift: int)
    requires
        0 <= shift < total_weight(weights),
    ensures
        weights[picked_position(weights, shift)] > 0,
{
    lemma_shift_has_slice(weights, shift);
}

} // verus!
