//! The data attached to entities: health, cooldowns, teams, movement intents,
//! pickups, ownership and deadlines, with the rules that act on each alone.

use vstd::prelude::*;
use crate::geometry::Point;

verus! {

/// Largest magnitude of a health value or a heal amount.
pub const HEALTH_LIMIT: i64 = 1_000_000_000_000;

/// Largest speed, in sub-units per second.
pub const SPEED_LIMIT: i64 = 1_000_000_000_000;

/// Current and maximum health, in thousandths of a full bar.
#[derive(Clone, Copy, Debug)]
pub struct Health {
    pub current: i64,
    pub max: i64,
}

/// A weapon cooldown: ready once the clock (milliseconds) reaches
/// `start_time + duration`.
#[derive(Clone, Copy, Debug)]
pub struct Cooldown {
    pub start_time: u64,
    pub duration: u64,
}

/// The faction an entity fights for.
#[derive(Clone, Copy, Debug, PartialEq, Eq, Structural)]
pub struct TeamIdx(pub usize);

/// An optional destination to seek.
#[derive(Clone, Copy, Debug)]
pub struct MoveTarget {
    pub target: Option<Point>,
}

/// A fixed direction of travel, of length at most `UNIT`.
#[derive(Clone, Copy, Debug)]
pub struct MoveDirection(pub Point);

/// Speed in sub-units per second.
#[derive(Clone, Copy, Debug)]
pub struct MoveSpeed(pub i64);

/// A heal amount handed to the first health-bearing entity that touches it.
#[derive(Clone, Copy, Debug)]
pub struct HealthPickup(pub i64);

/// The entity that fired a projectile.
#[derive(Clone, Copy, Debug)]
pub struct BulletOwner {
    pub entity: u64,
}

/// The clock time (milliseconds) at which an entity is removed.
#[derive(Clone, Copy, Debug)]
pub struct DespawnAfter {
    pub at: u64,
}

impl Health {
    pub open spec fn wf(self) -> bool {
        0 < self.max <= HEALTH_LIMIT && -HEALTH_LIMIT <= self.current <= self.max
    }

    /// Health after a heal of `amount`: never above the maximum.
    pub open spec fn healed_spec(self, amount: int) -> Health {
        Health {
            current: if self.current + amount < self.max { (self.current + amount) as i64 } else { self.max },
            max: self.max,
        }
    }

    pub fn healed(self, amount: i64) -> (r: Health)
        requires
            self.wf(),
            0 <= amount <= HEALTH_LIMIT,
        ensures
            r == self.healed_spec(amount as int),
            r.wf(),
            r.current <= r.max,
            r.current >= self.current,
    {
        let sum: i64 = self.current + amount;
        Health { current: if sum < self.max { sum } else { self.max }, max: self.max }
    }
}

/// Two capped heals in a row equal one capped heal of their sum, so the
/// pickups an entity takes in one stage bring it to the minimum of its old
/// health plus their amounts and its maximum.
pub proof fn lemma_heals_compose(h: Health, a: int, b: int)
    requires
        h.wf(),
        0 <= a <= HEALTH_LIMIT,
        0 <= b <= HEALTH_LIMIT,
    ensures
        h.healed_spec(a).healed_spec(b) == h.healed_spec(a + b),
{
}

impl Cooldown {
    pub open spec fn ready_at(self) -> int {
        self.start_time + self.duration
    }

    pub open spec fn is_ready_spec(self, now: int) -> bool {
        now >= self.ready_at()
    }

    /// Whether the weapon may fire at clock time `now`.
    pub fn is_ready(&self, now: u64) -> (r: bool)
        ensures
            r == self.is_ready_spec(now as int),
    {
        now >= self.start_time && now - self.start_time >= self.duration
    }

    /// The cooldown re-armed at `now`, keeping its duration.
    pub fn rearmed(&self, now: u64) -> (r: Cooldown)
        ensures
            r.start_time == now,
            r.duration == self.duration,
    {
        Cooldown { start_time: now, duration: self.duration }
    }
}

/// A cooldown is ready at exactly the times at or after `start_time + duration`.
pub proof fn lemma_cooldown_threshold(c: Cooldown, t: int)
    ensures
        t < c.start_time + c.duration ==> !c.is_ready_spec(t),
        t >= c.start_time + c.duration ==> c.is_ready_spec(t),
{
}

/// Once ready, a cooldown stays ready as time goes on.
pub proof fn lemma_cooldown_monotonic(c: Cooldown, t1: int, t2: int)
    requires
        t1 <= t2,
        c.is_ready_spec(t1),
    ensures
        c.is_ready_spec(t2),
{
}

} // verus!
