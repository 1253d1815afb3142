//! Weapon discharge: admission by direction and cooldown, the projectile it
//! spawns, and the re-arming of the shooter's cooldown.

use vstd::prelude::*;
use crate::geometry::Point;
use crate::components::{BulletOwner, Cooldown, DespawnAfter, MoveDirection, MoveSpeed, TeamIdx};
use crate::world::{EntityRecord, EventBulletSpawn, World, WorldModel};

verus! {

/// Projectile speed, in sub-units per second.
pub const BULLET_SPEED: i64 = 400_000;

/// How long a projectile lives, in milliseconds.
pub const BULLET_TTL_MS: u64 = 2000;

/// Why a discharge was refused.
#[derive(Clone, Copy, Debug, PartialEq, Eq, Structural)]
pub enum FireRejected {
    NonZeroDirectionRequired,
    OnCooldown,
}

/// The projectile that a discharge created.
#[derive(Clone, Copy, Debug, PartialEq, Eq, Structural)]
pub struct ProjectileSpawned {
    pub id: u64,
}

/// The outcome of admission for a direction, a cooldown and a clock time.
pub open spec fn fire_check_spec(direction: Point, cooldown: Cooldown, now: int) -> Result<(), FireRejected> {
    if direction.is_zero() {
        Err(FireRejected::NonZeroDirectionRequired)
    } else if !cooldown.is_ready_spec(now) {
        Err(FireRejected::OnCooldown)
    } else {
        Ok(())
    }
}

/// Admits a discharge only along a non-zero direction and off cooldown.
pub fn check_fire(direction: Point, cooldown: &Cooldown, now: u64) -> (r: Result<(), FireRejected>)
    ensures
        r == fire_check_spec(direction, *cooldown, now as int),
{
    if direction.x == 0 && direction.y == 0 {
        Err(FireRejected::NonZeroDirectionRequired)
    } else if !cooldown.is_ready(now) {
        Err(FireRejected::OnCooldown)
    } else {
        Ok(())
    }
}

pub open spec fn expiry_spec(now: int) -> int {
    if now + BULLET_TTL_MS <= u64::MAX { now + BULLET_TTL_MS } else { u64::MAX as int }
}

/// The projectile fired by `owner` from `origin` along `direction` at `now`,
/// before it receives its id.
pub open spec fn projectile_spec(owner: u64, origin: Point, direction: Point, team: TeamIdx, now: int) -> EntityRecord {
    EntityRecord {
        id: 0,
        position: origin,
        move_target: None,
        move_direction: Some(MoveDirection(direction)),
        speed: Some(MoveSpeed(BULLET_SPEED)),
        health: None,
        cooldown: None,
        team: Some(team),
        bullet_owner: Some(BulletOwner { entity: owner }),
        despawn_after: Some(DespawnAfter { at: expiry_spec(now) as u64 }),
        pickup: None,
        player: false,
        ai: false,
        remove_on_respawn: true,
    }
}

/// The entities after `s[index]` fires along `direction` at `now`: its
/// cooldown re-armed, and the projectile added under `id`.
pub open spec fn fired_entities(s: Seq<EntityRecord>, index: int, direction: Point, now: int, id: u64) -> Seq<EntityRecord> {
    let e = s[index];
    s.update(index, EntityRecord {
        cooldown: Some(Cooldown { start_time: now as u64, duration: e.cooldown->0.duration }),
        ..e
    }).push(EntityRecord { id, ..projectile_spec(e.id, e.position, direction, e.team->0, now) })
}

/// Whether `s[index]` may fire along `direction` at `now`.
pub open spec fn fire_admits(s: Seq<EntityRecord>, index: int, direction: Point, now: int) -> bool {
    fire_check_spec(direction, s[index].cooldown->0, now) is Ok
}

/// The store after `m.entities[index]` tries to fire along `direction` at
/// `now`, and the outcome.
pub open spec fn attempt_fire_spec(m: WorldModel, index: int, direction: Point, now: int)
    -> (WorldModel, Result<ProjectileSpawned, FireRejected>)
{
    let e = m.entities[index];
    match fire_check_spec(direction, e.cooldown->0, now) {
        Err(err) => (m, Err(err)),
        Ok(_) => (
            WorldModel {
                entities: fired_entities(m.entities, index, direction, now, m.next_id),
                next_id: (m.next_id + 1) as u64,
                damage_events: m.damage_events,
                bullet_events: m.bullet_events.push(EventBulletSpawn { origin: e.position }),
            },
            Ok(ProjectileSpawned { id: m.next_id }),
        ),
    }
}

/// Two discharges at the same instant: with a cooldown of non-zero duration,
/// once the first is admitted the second is refused, whatever its direction.
pub proof fn lemma_no_double_fire(s: Seq<EntityRecord>, index: int, d1: Point, d2: Point, now: int, id: u64)
    requires
        0 <= index < s.len(),
        s[index].cooldown is Some,
        s[index].cooldown->0.duration > 0,
        0 <= now <= u64::MAX,
        fire_admits(s, index, d1, now),
    ensures
        !fire_admits(fired_entities(s, index, d1, now, id), index, d2, now),
{
    let t = fired_entities(s, index, d1, now, id);
    assert(t[index].cooldown == Some(Cooldown { start_time: now as u64, duration: s[index].cooldown->0.duration }));
}

/// A discharge along the zero direction is refused and changes nothing.
pub proof fn lemma_zero_direction_rejected(m: WorldModel, index: int, now: int)
    ensures
        attempt_fire_spec(m, index, Point { x: 0, y: 0 }, now)
            == (m, Err::<ProjectileSpawned, FireRejected>(FireRejected::NonZeroDirectionRequired)),
{
}

/// Of two discharges by one entity at the same instant, with a cooldown of
/// non-zero duration, at most one succeeds.
pub proof fn lemma_at_most_one_of_two(m: WorldModel, index: int, d1: Point, d2: Point, now: int)
    requires
        0 <= index < m.entities.len(),
        m.entities[index].cooldown is Some,
        m.entities[index].cooldown->0.duration > 0,
        0 <= now <= u64::MAX,
    ensures
        !(attempt_fire_spec(m, index, d1, now).1 is Ok
            && attempt_fire_spec(attempt_fire_spec(m, index, d1, now).0, index, d2, now).1 is Ok),
{
    if attempt_fire_spec(m, index, d1, now).1 is Ok {
        lemma_no_double_fire(m.entities, index, d1, d2, now, m.next_id);
    }
}

impl World {
    /// Spawns a projectile for `from_entity` if the discharge is admitted; the
    /// shooter's cooldown is left as it is.
    pub fn spawn_bullet(
        &mut self,
        from_entity: u64,
        from_position: Point,
        direction: Point,
        team: TeamIdx,
        cooldown: &Cooldown,
        now: u64,
    ) -> (r: Result<u64, FireRejected>)
        requires
            old(self).wf(),
            old(self).has_room(1),
            from_position.in_bounds(),
            direction.is_direction(),
        ensures
            final(self).wf(),
            match fire_check_spec(direction, *cooldown, now as int) {
                Err(e) => r == Err::<u64, FireRejected>(e) && *final(self) == *old(self),
                Ok(_) => {
                    &&& r == Ok::<u64, FireRejected>(old(self).next_id)
                    &&& final(self).next_id == old(self).next_id + 1
                    &&& final(self).entities@ == old(self).entities@.push(EntityRecord {
                        id: old(self).next_id,
                        ..projectile_spec(from_entity, from_position, direction, team, now as int)
                    })
                    &&& final(self).bullet_events@ == old(self).bullet_events@.push(EventBulletSpawn { origin: from_position })
                    &&& final(self).damage_events == old(self).damage_events
                },
            },
    {
        match check_fire(direction, cooldown, now) {
            Err(e) => Err(e),
            Ok(()) => {
                let at: u64 = if now <= u64::MAX - BULLET_TTL_MS { now + BULLET_TTL_MS } else { u64::MAX };
                let mut rec = EntityRecord::bare(from_position);
                rec.move_direction = Some(MoveDirection(direction));
                rec.speed = Some(MoveSpeed(BULLET_SPEED));
                rec.team = Some(team);
                rec.bullet_owner = Some(BulletOwner { entity: from_entity });
                rec.despawn_after = Some(DespawnAfter { at });
                rec.remove_on_respawn = true;
                assert(rec == projectile_spec(from_entity, from_position, direction, team, now as int));
                let id = self.spawn(rec);
                self.bullet_events.push(EventBulletSpawn { origin: from_position });
                Ok(id)
            },
        }
    }

    /// Fires the weapon of `self.entities[index]` along `direction` at `now`:
    /// on admission a projectile is spawned and the cooldown re-armed; on
    /// refusal nothing changes.
    pub fn attempt_fire(&mut self, index: usize, direction: Point, now: u64) -> (r: Result<ProjectileSpawned, FireRejected>)
        requires
            old(self).wf(),
            old(self).has_room(1),
            index < old(self).entities@.len(),
            old(self).entities@[index as int].cooldown is Some,
            old(self).entities@[index as int].team is Some,
            direction.is_direction(),
        ensures
            final(self).damage_events == old(self).damage_events,
            old(self).next_id <= final(self).next_id <= old(self).next_id + 1,
            final(self).wf(),
            final(self)@ =~= attempt_fire_spec(old(self)@, index as int, direction, now as int).0,
            r == attempt_fire_spec(old(self)@, index as int, direction, now as int).1,
            match fire_check_spec(direction, old(self).entities@[index as int].cooldown->0, now as int) {
                Err(e) => r == Err::<ProjectileSpawned, FireRejected>(e) && *final(self) == *old(self),
                Ok(_) => {
                    &&& r == Ok::<ProjectileSpawned, FireRejected>(ProjectileSpawned { id: old(self).next_id })
                    &&& final(self).next_id == old(self).next_id + 1
                    &&& final(self).entities@ == fired_entities(old(self).entities@, index as int, direction, now as int, old(self).next_id)
                    &&& final(self).bullet_events@ == old(self).bullet_events@.push(
                        EventBulletSpawn { origin: old(self).entities@[index as int].position })
                    &&& final(self).damage_events == old(self).damage_events
                },
            },
    {
        let e = self.entities[index];
        assert(e.wf());
        let cooldown = e.cooldown.unwrap();
        let team = e.team.unwrap();
        let res = self.spawn_bullet(e.id, e.position, direction, team, &cooldown, now);
        match res {
            Err(err) => Err(err),
            Ok(id) => {
                let mut owner = e;
                owner.cooldown = Some(cooldown.rearmed(now));
                self.entities.set(index, owner);
                proof {
                    let s = old(self).entities@;
                    assert(self.entities@ =~= fired_entities(s, index as int, direction, now as int, id));
                    let t = self.entities@;
                    assert forall|k: int| 0 <= k < t.len() implies (#[trigger] t[k]).wf() && t[k].id < self.next_id by {
                        if k < s.len() {
                            assert(s[k].wf());
                        }
                    }
                    assert forall|a: int, b: int| 0 <= a < b < t.len() implies t[a].id != t[b].id by {
                        if b < s.len() {
                            assert(s[a].id != s[b].id);
                        } else {
                            assert(s[a].id < old(self).next_id);
                        }
                    }
                }
                Ok(ProjectileSpawned { id })
            },
        }
    }
}

} // verus!
