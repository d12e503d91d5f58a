use vstd::prelude::*;

use crate::config::{ConfigKindMismatch, LoadBalancerStrategyConfig};
use crate::domain::{AppTargetMeta, Target};

verus! {

/// The position that a round-robin balancer whose counter reads `next` picks among `n`
/// active targets.
pub open spec fn round_robin_pick(next: int, n: int) -> int {
    next % n
}

/// The counter of a round-robin balancer after it picked among `n` active targets.
pub open spec fn round_robin_advance(next: int, n: int) -> int {
    next % n + 1
}

/// `next` and `r` are the balancer and the pick after `balancer` routed among `active`:
/// nothing and no change when there is no active target, otherwise the target at the counter
/// wrapped around the number of active targets, and the counter moved past it.
pub open spec fn round_robin_routes(
    balancer: RoundRobinBalancer,
    next: RoundRobinBalancer,
    active: Seq<&Target>,
    r: Option<&Target>,
) -> bool {
    if active.len() == 0 {
        r is None && next.next_index() == balancer.next_index()
    } else {
        &&& r == Some(active[round_robin_pick(balancer.next_index() as int, active.len() as int)])
        &&& next.next_index() == round_robin_advance(
            balancer.next_index() as int,
            active.len() as int,
        )
    }
}

/// A simple round robin balancer.
#[derive(Debug)]
pub struct RoundRobinBalancer {
    next_index: usize,
}

impl RoundRobinBalancer {
    /// The counter from which the next pick is taken.
    pub closed spec fn next_index(self) -> usize {
        self.next_index
    }

    /// Builds a balancer that starts at the first target, from a round-robin configuration
    /// only.
    pub fn try_from(config: &LoadBalancerStrategyConfig) -> (r: Result<
        RoundRobinBalancer,
        ConfigKindMismatch,
    >)
        ensures
            r is Ok <==> *config == LoadBalancerStrategyConfig::RoundRobin,
            r matches Ok(b) ==> b.next_index() == 0,
    {
        match config {
            LoadBalancerStrategyConfig::RoundRobin => Ok(RoundRobinBalancer { next_index: 0 }),
            _ => Err(ConfigKindMismatch),
        }
    }

    /// Picks the active target at the counter, wrapped around the number of active targets,
    /// and moves the counter past it. With no active target, nothing is picked and nothing
    /// changes.
    pub fn route<'a>(
        &mut self,
        app_targets_meta: &Vec<(Target, AppTargetMeta)>,
        active_targets: Vec<&'a Target>,
    ) -> (r: Option<&'a Target>)
        ensures
            round_robin_routes(*old(self), *final(self), active_targets@, r),
    {
        let n = active_targets.len();
        if n == 0 {
            return None;
        }
        let ghost start = self.next_index as int;
        while self.next_index >= n
            invariant
                n == active_targets@.len(),
                n > 0,
                self.next_index as int % n as int == start % n as int,
            decreases self.next_index,
        {
            proof {
                vstd::arithmetic::div_mod::lemma_mod_sub_multiples_vanish(
                    self.next_index as int,
                    n as int,
                );
            }
            self.next_index = self.next_index - n;
        }
        proof {
            vstd::arithmetic::div_mod::lemma_small_mod(self.next_index as nat, n as nat);
        }
        let use_index = self.next_index;
        self.next_index = self.next_index + 1;
        Some(active_targets[use_index])
    }
}

/// Over `k` consecutive picks among the same `n` active targets, a round-robin balancer
/// whose counter starts at `next` picks the position `(next + j) % n` at the `j`-th pick.
pub open spec fn round_robin_counter_after(next: int, n: int, k: nat) -> int
    decreases k,
{
    if k == 0 {
        next
    } else {
        round_robin_advance(round_robin_counter_after(next, n, (k - 1) as nat), n)
    }
}

/// Round robin visits the active targets in turn: after `j` picks among the same `n`
/// targets, starting from counter `next`, the next pick is at position `(next + j) % n`.
pub proof fn lemma_round_robin_in_turn(next: int, n: int, j: nat)
    requires
        n > 0,
        next >= 0,
    ensures
        round_robin_pick(round_robin_counter_after(next, n, j), n) == (next + j) % n,
    decreases j,
{
    if j > 0 {
        lemma_round_robin_in_turn(next, n, (j - 1) as nat);
        let c = round_robin_counter_after(next, n, (j - 1) as nat);
        vstd::arithmetic::div_mod::lemma_add_mod_noop(c, 1, n);
        vstd::arithmetic::div_mod::lemma_mod_twice(c, n);
        vstd::arithmetic::div_mod::lemma_add_mod_noop(next + j - 1, 1, n);
        if n == 1 {
        } else {
            vstd::arithmetic::div_mod::lemma_small_mod(1, n as nat);
        }
        assert((c % n + 1) % n == ((c % n) % n + 1int % n) % n);
    }
}

/// Round robin is fair: over `n` consecutive picks among the same `n` active targets,
/// each position is picked exactly once.
pub proof fn lemma_round_robin_fair(next: int, n: int, a: nat, b: nat)
    requires
        n > 0,
        next >= 0,
        a < b < n,
    ensures
        round_robin_pick(round_robin_counter_after(next, n, a), n) != round_robin_pick(
            round_robin_counter_after(next, n, b),
            n,
        ),
{
    lemma_round_robin_in_turn(next, n, a);
    lemma_round_robin_in_turn(next, n, b);
    let x = next + a;
    let y = next + b;
    vstd::arithmetic::div_mod::lemma_fundamental_div_mod(x, n);
    vstd::arithmetic::div_mod::lemma_fundamental_div_mod(y, n);
    if x % n == y % n {
        assert(y - x == n * (y / n) - n * (x / n));
        assert(n * (y / n) - n * (x / n) == n * (y / n - x / n)) by (nonlinear_arith);
        let d = y / n - x / n;
        assert(0 < n * d < n);
        assert(false) by (nonlinear_arith)
            requires
                0 < n * d < n,
                n > 0,
        ;
    }
}

proof fn lemma_round_robin_counter(
    states: Seq<RoundRobinBalancer>,
    results: Seq<Option<&Target>>,
    active: Seq<&Target>,
    i: int,
)
    requires
        active.len() > 0,
        states.len() == results.len() + 1,
        forall|k: int|
            0 <= k < results.len() ==> #[trigger] round_robin_routes(
                states[k],
                states[k + 1],
                active,
                results[k],
            ),
        0 <= i < states.len(),
    ensures
        states[i].next_index() == round_robin_counter_after(
            states[0].next_index() as int,
            active.len() as int,
            i as nat,
        ),
    decreases i,
{
    if i > 0 {
        lemma_round_robin_counter(states, results, active, i - 1);
        let k = i - 1;
        assert(round_robin_routes(states[k], states[k + 1], active, results[k]));
    }
}

/// Consecutive routes among the same `n` active targets take turns: the `i`-th of them, from
/// a balancer whose counter reads `next`, picks the target at position `(next + i) % n`; a
/// fresh balancer thus picks positions `0, 1, ..., n - 1, 0, ...`.
pub proof fn lemma_round_robin_calls(
    states: Seq<RoundRobinBalancer>,
    results: Seq<Option<&Target>>,
    active: Seq<&Target>,
)
    requires
        active.len() > 0,
        states.len() == results.len() + 1,
        forall|k: int|
            0 <= k < results.len() ==> #[trigger] round_robin_routes(
                states[k],
                states[k + 1],
                active,
                results[k],
            ),
    ensures
        forall|i: int|
            0 <= i < results.len() ==> #[trigger] results[i] == Some(
                active[(states[0].next_index() + i) % (active.len() as int)],
            ),
{
    assert forall|i: int| 0 <= i < results.len() implies #[trigger] results[i] == Some(
        active[(states[0].next_index() + i) % (active.len() as int)],
    ) by {
        lemma_round_robin_counter(states, results, active, i);
        lemma_round_robin_in_turn(states[0].next_index() as int, active.len() as int, i as nat);
        assert(round_robin_routes(states[i], states[i + 1], active, results[i]));
    }
}

} // verus!
