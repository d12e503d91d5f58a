use vstd::prelude::*;

use crate::domain::Target;
use crate::health::{after_failure, after_success, HealthCheck};
use std::time::Instant;

verus! {

/// Whether the target at position `i` can be offered to the balancer: not tried yet by this
/// connection, and not known to be unhealthy (a target the registry does not know counts as
/// healthy).
pub open spec fn offered(tried: Seq<bool>, health: Seq<Option<bool>>, i: int) -> bool {
    !tried[i] && health[i] != Some(false)
}

/// The positions of the targets that can be offered, in order.
pub open spec fn offered_positions(tried: Seq<bool>, health: Seq<Option<bool>>, n: int) -> Seq<int>
    decreases n,
{
    if n <= 0 {
        Seq::empty()
    } else {
        let before = offered_positions(tried, health, n - 1);
        if offered(tried, health, n - 1) {
            before.push(n - 1)
        } else {
            before
        }
    }
}

/// How many targets are still untried.
pub open spec fn untried_count(tried: Seq<bool>) -> nat
    decreases tried.len(),
{
    if tried.len() == 0 {
        0
    } else {
        untried_count(tried.drop_last()) + if tried.last() {
            0nat
        } else {
            1nat
        }
    }
}

/// What a connection does after an attempt to reach a target: forward the client's stream
/// to it, or try the next target.
#[derive(Clone, Copy, Debug, PartialEq, Eq, Structural)]
pub enum AttemptAction {
    Forward,
    TryNext,
}

/// Forward after a connection that opened, try the next target otherwise.
pub fn attempt_action(connected: bool) -> (r: AttemptAction)
    ensures
        r == attempt_action_spec(connected),
{
    if connected {
        AttemptAction::Forward
    } else {
        AttemptAction::TryNext
    }
}

/// Records the outcome of an attempt on the target's health check (a success when the
/// connection opened, a failure otherwise) and decides what the connection does next.
pub fn settle_attempt(check: &mut HealthCheck, connected: bool) -> (r: AttemptAction)
    ensures
        r == attempt_action_spec(connected),
        connected ==> after_success(*old(check), *final(check)),
        !connected ==> exists|now: Instant| after_failure(*old(check), *final(check), now),
{
    if connected {
        check.record_success();
    } else {
        check.record_failure();
    }
    attempt_action(connected)
}

pub open spec fn attempt_action_spec(connected: bool) -> AttemptAction {
    if connected {
        AttemptAction::Forward
    } else {
        AttemptAction::TryNext
    }
}

/// Which of an app's targets one client connection has tried so far, position by position.
#[derive(Debug)]
pub struct TargetAttempts {
    tried: Vec<bool>,
}

impl View for TargetAttempts {
    type V = Seq<bool>;

    closed spec fn view(&self) -> Seq<bool> {
        self.tried@
    }
}

impl TargetAttempts {
    /// No target tried yet, among `target_count`.
    pub fn new(target_count: usize) -> (r: TargetAttempts)
        ensures
            r@ == Seq::new(target_count as nat, |i: int| false),
    {
        let mut tried: Vec<bool> = Vec::new();
        let mut i: usize = 0;
        while i < target_count
            invariant
                i <= target_count,
                tried@ =~= Seq::new(i as nat, |k: int| false),
            decreases target_count - i,
        {
            tried.push(false);
            i = i + 1;
        }
        TargetAttempts { tried }
    }

    /// The targets that can be offered to the balancer, in the order of `targets`: those not
    /// tried yet that `health` does not report unhealthy.
    pub fn available<'a>(&self, targets: &'a Vec<Target>, health: &Vec<Option<bool>>) -> (r: Vec<
        &'a Target,
    >)
        requires
            targets@.len() == self@.len(),
            health@.len() == self@.len(),
        ensures
            r@.len() == offered_positions(self@, health@, self@.len() as int).len(),
            forall|k: int|
                0 <= k < r@.len() ==> *r@[k] == targets@[offered_positions(
                    self@,
                    health@,
                    self@.len() as int,
                )[k]],
    {
        let n = targets.len();
        let mut available: Vec<&'a Target> = Vec::new();
        let mut i: usize = 0;
        while i < n
            invariant
                i <= n,
                n == targets@.len(),
                n == self@.len(),
                n == health@.len(),
                available@.len() == offered_positions(self@, health@, i as int).len(),
                forall|k: int|
                    0 <= k < available@.len() ==> *available@[k] == targets@[offered_positions(
                        self@,
                        health@,
                        i as int,
                    )[k]],
            decreases n - i,
        {
            let known_unhealthy = match health[i] {
                Some(healthy) => !healthy,
                None => false,
            };
            if !self.tried[i] && !known_unhealthy {
                available.push(&targets[i]);
            }
            i = i + 1;
        }
        available
    }

    /// Marks as tried every target that names the same endpoint as `chosen`.
    pub fn mark_tried(&mut self, targets: &Vec<Target>, chosen: &Target)
        requires
            targets@.len() == old(self)@.len(),
        ensures
            final(self)@.len() == old(self)@.len(),
            forall|i: int|
                0 <= i < old(self)@.len() ==> final(self)@[i] == (old(self)@[i] || targets@[i]@
                    == chosen@),
    {
        let n = targets.len();
        let mut i: usize = 0;
        while i < n
            invariant
                i <= n,
                n == targets@.len(),
                self.tried@.len() == n,
                forall|k: int|
                    0 <= k < n ==> self.tried@[k] == if k < i {
                        old(self).tried@[k] || targets@[k]@ == chosen@
                    } else {
                        old(self).tried@[k]
                    },
            decreases n - i,
        {
            if targets[i].same_as(chosen) {
                self.tried.set(i, true);
            }
            i = i + 1;
        }
    }
}

proof fn lemma_untried_count_drops(before: Seq<bool>, after: Seq<bool>, j: int)
    requires
        before.len() == after.len(),
        forall|i: int| 0 <= i < before.len() && before[i] ==> after[i],
        0 <= j < before.len(),
        !before[j],
        after[j],
    ensures
        untried_count(after) < untried_count(before),
    decreases before.len(),
{
    let n = before.len() as int;
    if j < n - 1 {
        lemma_untried_count_drops(before.drop_last(), after.drop_last(), j);
    } else {
        lemma_untried_count_no_rise(before.drop_last(), after.drop_last());
    }
}

proof fn lemma_untried_count_no_rise(before: Seq<bool>, after: Seq<bool>)
    requires
        before.len() == after.len(),
        forall|i: int| 0 <= i < before.len() && before[i] ==> after[i],
    ensures
        untried_count(after) <= untried_count(before),
    decreases before.len(),
{
    if before.len() > 0 {
        lemma_untried_count_no_rise(before.drop_last(), after.drop_last());
    }
}

/// Every offered target is untried.
pub proof fn lemma_offered_untried(tried: Seq<bool>, health: Seq<Option<bool>>, n: int, k: int)
    requires
        0 <= n <= tried.len(),
        n <= health.len(),
        0 <= k < offered_positions(tried, health, n).len(),
    ensures
        0 <= offered_positions(tried, health, n)[k] < n,
        offered(tried, health, offered_positions(tried, health, n)[k]),
    decreases n,
{
    let before = offered_positions(tried, health, n - 1);
    if k < before.len() {
        lemma_offered_untried(tried, health, n - 1, k);
    }
}

/// A connection never tries a target twice and so makes at most as many attempts as the app
/// has targets: marking an offered target as tried leaves one untried target fewer, and no
/// longer offers it.
pub proof fn lemma_attempt_progress(
    tried: Seq<bool>,
    health: Seq<Option<bool>>,
    targets: Seq<Target>,
    k: int,
    next: Seq<bool>,
)
    requires
        targets.len() == tried.len(),
        health.len() == tried.len(),
        0 <= k < offered_positions(tried, health, tried.len() as int).len(),
        next.len() == tried.len(),
        forall|i: int|
            0 <= i < tried.len() ==> next[i] == (tried[i] || targets[i]@
                == targets[offered_positions(tried, health, tried.len() as int)[k]]@),
    ensures
        untried_count(next) < untried_count(tried),
        !offered(next, health, offered_positions(tried, health, tried.len() as int)[k]),
{
    let j = offered_positions(tried, health, tried.len() as int)[k];
    lemma_offered_untried(tried, health, tried.len() as int, k);
    assert(next[j]);
    lemma_untried_count_drops(tried, next, j);
}

} // verus!
