//! The hostile side: interval timers, spawning of hostiles, periodic
//! retargeting around the player, and the fire admission that lets one ready
//! hostile shoot per cadence tick.

use vstd::prelude::*;
use crate::geometry::{Point, clamp_coord, clamp_wide, normalize_or_zero, normalize_spec};
use crate::components::{Cooldown, Health, MoveSpeed, MoveTarget, TeamIdx};
use crate::bullets::{FireRejected, ProjectileSpawned, attempt_fire_spec, fire_check_spec, fired_entities};
use crate::world::{EntityRecord, EventBulletSpawn, World, WorldModel, first_player, lemma_first_player};

verus! {

/// Milliseconds between two hostile spawns.
pub const SPAWN_INTERVAL_MS: u64 = 5000;

/// Milliseconds between two retargeting waves.
pub const RETARGET_INTERVAL_MS: u64 = 2360;

/// Milliseconds between two fire-admission ticks.
pub const FIRE_INTERVAL_MS: u64 = 1000;

/// Where hostiles appear, on each axis.
pub const AI_SPAWN_AT: i64 = 150_000;

/// Where a new hostile first heads, on each axis.
pub const AI_FIRST_TARGET: i64 = 200_000;

/// Hostile speed, in sub-units per second.
pub const AI_SPEED: i64 = 100_000;

/// Radius, in sub-units, of the circle around the player on which hostiles
/// pick their new targets.
pub const RETARGET_RADIUS: i64 = 200_000;

/// Radius, in sub-units, of the circle of aim jitter around the player.
pub const AIM_JITTER_RADIUS: i64 = 50_000;

/// Milliseconds between two shots of a hostile.
pub const AI_COOLDOWN_MS: u64 = 2000;

/// Full health of a hostile.
pub const AI_HEALTH: i64 = 1000;

/// A timer that finishes once and then waits to be re-armed.
#[derive(Clone, Copy, Debug)]
pub struct OnceTimer {
    pub duration: u64,
    pub elapsed: u64,
}

/// A timer that finishes every `period` milliseconds, carrying the excess.
#[derive(Clone, Copy, Debug)]
pub struct RepeatingTimer {
    pub period: u64,
    pub elapsed: u64,
}

/// A repeating timer after `dt` milliseconds.
pub open spec fn repeating_tick(t: RepeatingTimer, dt: int) -> RepeatingTimer {
    RepeatingTimer { period: t.period, elapsed: ((t.elapsed + dt) % (t.period as int)) as u64 }
}

impl OnceTimer {
    pub open spec fn wf(self) -> bool {
        self.elapsed <= self.duration
    }

    /// Advances by `dt` milliseconds, stopping at the duration, and says
    /// whether the duration is reached.
    pub fn tick(&mut self, dt: u64) -> (finished: bool)
        requires
            old(self).wf(),
        ensures
            final(self).wf(),
            final(self).duration == old(self).duration,
            final(self).elapsed == (if old(self).elapsed + dt < old(self).duration { old(self).elapsed + dt } else { old(self).duration as int }),
            finished == (old(self).elapsed + dt >= old(self).duration),
    {
        if dt < self.duration - self.elapsed {
            self.elapsed = self.elapsed + dt;
            false
        } else {
            self.elapsed = self.duration;
            true
        }
    }
}

impl RepeatingTimer {
    pub open spec fn wf(self) -> bool {
        0 < self.period && self.elapsed < self.period
    }

    /// A timer of the given period, at its start.
    pub fn new(period: u64) -> (r: RepeatingTimer)
        requires
            0 < period,
        ensures
            r.wf(),
            r.period == period,
            r.elapsed == 0,
    {
        RepeatingTimer { period, elapsed: 0 }
    }

    /// Advances by `dt` milliseconds and says whether a period ended.
    pub fn tick(&mut self, dt: u64) -> (just_finished: bool)
        requires
            old(self).wf(),
        ensures
            final(self).wf(),
            final(self).period == old(self).period,
            final(self).elapsed == (old(self).elapsed + dt) % (old(self).period as int),
            just_finished == (old(self).elapsed + dt >= old(self).period),
    {
        let total: u128 = self.elapsed as u128 + dt as u128;
        self.elapsed = (total % (self.period as u128)) as u64;
        total >= self.period as u128
    }
}

/// The per-controller timers of the hostile side.
#[derive(Clone, Copy, Debug)]
pub struct AiTimers {
    pub spawn: OnceTimer,
    pub retarget: RepeatingTimer,
    pub fire: RepeatingTimer,
}

impl AiTimers {
    pub open spec fn wf(self) -> bool {
        self.spawn.wf() && self.retarget.wf() && self.fire.wf()
    }

    /// Fresh timers: the first hostile comes on the first pass.
    pub fn new() -> (r: AiTimers)
        ensures
            r.wf(),
            r.spawn.duration == 0 && r.spawn.elapsed == 0,
            r.retarget.period == RETARGET_INTERVAL_MS && r.retarget.elapsed == 0,
            r.fire.period == FIRE_INTERVAL_MS && r.fire.elapsed == 0,
    {
        AiTimers {
            spawn: OnceTimer { duration: 0, elapsed: 0 },
            retarget: RepeatingTimer::new(RETARGET_INTERVAL_MS),
            fire: RepeatingTimer::new(FIRE_INTERVAL_MS),
        }
    }
}

/// A fresh hostile, before it receives its id.
pub open spec fn ai_spec() -> EntityRecord {
    EntityRecord {
        id: 0,
        position: Point { x: AI_SPAWN_AT, y: AI_SPAWN_AT },
        move_target: Some(MoveTarget { target: Some(Point { x: AI_FIRST_TARGET, y: AI_FIRST_TARGET }) }),
        move_direction: None,
        speed: Some(MoveSpeed(AI_SPEED)),
        health: Some(Health { current: AI_HEALTH, max: AI_HEALTH }),
        cooldown: Some(Cooldown { start_time: 0, duration: AI_COOLDOWN_MS }),
        team: Some(TeamIdx(1)),
        bullet_owner: None,
        despawn_after: None,
        pickup: None,
        player: false,
        ai: true,
        remove_on_respawn: true,
    }
}

/// The store and spawn timer after the spawn stage, and the new hostile's id.
pub open spec fn spawn_ais_spec(m: WorldModel, t: OnceTimer, dt: int) -> (WorldModel, OnceTimer, Option<u64>) {
    if t.elapsed + dt >= t.duration {
        (
            WorldModel {
                entities: m.entities.push(EntityRecord { id: m.next_id, ..ai_spec() }),
                next_id: (m.next_id + 1) as u64,
                ..m
            },
            OnceTimer { duration: SPAWN_INTERVAL_MS, elapsed: 0 },
            Some(m.next_id),
        )
    } else {
        (m, OnceTimer { duration: t.duration, elapsed: (t.elapsed + dt) as u64 }, None)
    }
}

/// Advances the spawn timer; when it finishes, re-arms it with the spawn
/// interval and spawns a hostile, whose id it returns.
pub fn spawn_ais(world: &mut World, timer: &mut OnceTimer, dt: u64) -> (r: Option<u64>)
    requires
        old(world).wf(),
        old(world).has_room(1),
        old(timer).wf(),
    ensures
        final(world).damage_events == old(world).damage_events,
        old(world).next_id <= final(world).next_id <= old(world).next_id + 1,
        final(world).wf(),
        final(timer).wf(),
        final(world)@ =~= spawn_ais_spec(old(world)@, *old(timer), dt as int).0,
        *final(timer) == spawn_ais_spec(old(world)@, *old(timer), dt as int).1,
        r == spawn_ais_spec(old(world)@, *old(timer), dt as int).2,
        (old(timer).elapsed + dt >= old(timer).duration) ==> {
            &&& r == Some(old(world).next_id)
            &&& final(timer).duration == SPAWN_INTERVAL_MS && final(timer).elapsed == 0
            &&& final(world).next_id == old(world).next_id + 1
            &&& final(world).entities@ == old(world).entities@.push(EntityRecord { id: old(world).next_id, ..ai_spec() })
            &&& final(world).damage_events == old(world).damage_events
            &&& final(world).bullet_events == old(world).bullet_events
        },
        (old(timer).elapsed + dt < old(timer).duration) ==> {
            &&& r.is_none()
            &&& *final(world) == *old(world)
            &&& final(timer).duration == old(timer).duration
            &&& final(timer).elapsed == old(timer).elapsed + dt
        },
{
    if !timer.tick(dt) {
        return None;
    }
    timer.duration = SPAWN_INTERVAL_MS;
    timer.elapsed = 0;
    let mut a = EntityRecord::bare(Point::new(AI_SPAWN_AT, AI_SPAWN_AT));
    a.move_target = Some(MoveTarget { target: Some(Point::new(AI_FIRST_TARGET, AI_FIRST_TARGET)) });
    a.speed = Some(MoveSpeed(AI_SPEED));
    a.health = Some(Health { current: AI_HEALTH, max: AI_HEALTH });
    a.cooldown = Some(Cooldown { start_time: 0, duration: AI_COOLDOWN_MS });
    a.team = Some(TeamIdx(1));
    a.ai = true;
    a.remove_on_respawn = true;
    assert(a == ai_spec());
    Some(world.spawn(a))
}

/// `center + offset`, kept inside the arena.
pub open spec fn offset_point(center: Point, offset: Point) -> Point {
    Point { x: clamp_coord(center.x + offset.x) as i64, y: clamp_coord(center.y + offset.y) as i64 }
}

fn offset_point_exec(center: Point, offset: Point) -> (r: Point)
    ensures
        r == offset_point(center, offset),
        r.in_bounds(),
{
    Point {
        x: clamp_wide(center.x as i128 + offset.x as i128),
        y: clamp_wide(center.y as i128 + offset.y as i128),
    }
}

/// A hostile with a target after a retargeting wave around `center`.
pub open spec fn retarget_record(e: EntityRecord, center: Point, offset: Point) -> EntityRecord {
    if e.ai && e.move_target is Some {
        EntityRecord { move_target: Some(MoveTarget { target: Some(offset_point(center, offset)) }), ..e }
    } else {
        e
    }
}

/// The store and timer after the retarget stage, and whether it retargeted.
pub open spec fn ai_move_spec(m: WorldModel, t: RepeatingTimer, dt: int, offsets: Seq<Point>) -> (WorldModel, RepeatingTimer, bool) {
    if t.elapsed + dt >= t.period && World::has_player_spec(m.entities) {
        let center = m.entities[first_player(m.entities)].position;
        (
            WorldModel { entities: Seq::new(m.entities.len(), |i: int| retarget_record(m.entities[i], center, offsets[i])), ..m },
            repeating_tick(t, dt),
            true,
        )
    } else {
        (m, repeating_tick(t, dt), false)
    }
}

/// Advances the retarget timer; when a period ends and a player lives, gives
/// every hostile with a target the player's position shifted by its own
/// offset (`offsets[i]` for `world.entities[i]`). Says whether it retargeted.
pub fn ai_move(world: &mut World, timer: &mut RepeatingTimer, dt: u64, offsets: &Vec<Point>) -> (r: bool)
    requires
        old(world).wf(),
        old(timer).wf(),
        offsets@.len() >= old(world).entities@.len(),
    ensures
        final(world).wf(),
        final(world)@ =~= ai_move_spec(old(world)@, *old(timer), dt as int, offsets@).0,
        *final(timer) == ai_move_spec(old(world)@, *old(timer), dt as int, offsets@).1,
        r == ai_move_spec(old(world)@, *old(timer), dt as int, offsets@).2,
        final(timer).wf(),
        final(timer).period == old(timer).period,
        final(timer).elapsed == (old(timer).elapsed + dt) % (old(timer).period as int),
        r == (old(timer).elapsed + dt >= old(timer).period && World::has_player_spec(old(world).entities@)),
        !r ==> *final(world) == *old(world),
        r ==> exists|p: int| 0 <= p < old(world).entities@.len() && old(world).entities@[p].player && {
            let center = old(world).entities@[p].position;
            &&& final(world).entities@.len() == old(world).entities@.len()
            &&& forall|i: int| 0 <= i < old(world).entities@.len() ==>
                #[trigger] final(world).entities@[i] == retarget_record(old(world).entities@[i], center, offsets@[i])
        },
        final(world).next_id == old(world).next_id,
        final(world).damage_events == old(world).damage_events,
        final(world).bullet_events == old(world).bullet_events,
{
    if !timer.tick(dt) {
        return false;
    }
    let pi = match world.player_index() {
        None => return false,
        Some(pi) => pi,
    };
    let center = world.entities[pi].position;
    let ghost s = old(world).entities@;
    proof {
        lemma_first_player(s, pi as int);
    }
    let n = world.entities.len();
    let mut i: usize = 0;
    while i < n
        invariant
            n == s.len(),
            offsets@.len() >= n,
            world.entities@.len() == n,
            i <= n,
            old(world).wf(),
            pi < n && s[pi as int].player && center == s[pi as int].position,
            forall|k: int| 0 <= k < i ==> #[trigger] world.entities@[k] == retarget_record(s[k], center, offsets@[k]),
            forall|k: int| i <= k < n ==> #[trigger] world.entities@[k] == s[k],
            world.next_id == old(world).next_id,
            world.damage_events == old(world).damage_events,
            world.bullet_events == old(world).bullet_events,
        decreases n - i,
    {
        let mut e = world.entities[i];
        if e.ai && e.move_target.is_some() {
            e.move_target = Some(MoveTarget { target: Some(offset_point_exec(center, offsets[i])) });
        }
        world.entities.set(i, e);
        i += 1;
    }
    proof {
        let t = world.entities@;
        assert forall|k: int| 0 <= k < n implies (#[trigger] t[k]).wf() && t[k].id < world.next_id by {
            assert(s[k].wf());
        }
        assert forall|a: int, b: int| 0 <= a < b < n implies t[a].id != t[b].id by {
            assert(t[a].id == s[a].id && t[b].id == s[b].id);
        }
    }
    true
}

/// Whether `e` is a hostile that may fire at `now`.
pub open spec fn is_fire_candidate(e: EntityRecord, now: int) -> bool {
    &&& e.ai
    &&& e.move_target is Some
    &&& e.team is Some
    &&& e.cooldown is Some
    &&& e.cooldown->0.is_ready_spec(now)
}

/// The candidate that an admission tick admits.
pub fn admit_first(order: &Vec<usize>) -> (r: Option<usize>)
    ensures
        r == if order@.len() == 0 { None } else { Some(order@[0]) },
{
    if order.len() == 0 { None } else { Some(order[0]) }
}

/// The indices among the first `n` entities of hostiles that may fire at
/// `now`, in increasing order.
pub open spec fn candidates_upto(s: Seq<EntityRecord>, now: int, n: int) -> Seq<usize>
    decreases n,
{
    if n <= 0 {
        Seq::empty()
    } else {
        let prev = candidates_upto(s, now, n - 1);
        if is_fire_candidate(s[n - 1], now) { prev.push((n - 1) as usize) } else { prev }
    }
}

/// The indices of the hostiles that may fire at `now`, in increasing order.
pub open spec fn fire_candidates_spec(s: Seq<EntityRecord>, now: int) -> Seq<usize> {
    candidates_upto(s, now, s.len() as int)
}

/// The indices of the hostiles that may fire at `now`, in order.
pub fn fire_candidates(world: &World, now: u64) -> (r: Vec<usize>)
    ensures
        r@ == fire_candidates_spec(world.entities@, now as int),
        forall|k: int| 0 <= k < r@.len() ==> #[trigger] r@[k] < world.entities@.len()
            && is_fire_candidate(world.entities@[r@[k] as int], now as int),
        forall|i: int| 0 <= i < world.entities@.len() && is_fire_candidate(world.entities@[i], now as int)
            ==> r@.contains(i as usize),
{
    let mut r: Vec<usize> = Vec::new();
    let n = world.entities.len();
    let mut i: usize = 0;
    while i < n
        invariant
            n == world.entities@.len(),
            i <= n,
            r@ == candidates_upto(world.entities@, now as int, i as int),
            forall|k: int| 0 <= k < r@.len() ==> #[trigger] r@[k] < i
                && is_fire_candidate(world.entities@[r@[k] as int], now as int),
            forall|j: int| 0 <= j < i && is_fire_candidate(world.entities@[j], now as int)
                ==> r@.contains(j as usize),
        decreases n - i,
    {
        let e = world.entities[i];
        let ready = match e.cooldown {
            Some(c) => c.is_ready(now),
            None => false,
        };
        let ghost r0 = r@;
        if e.ai && e.move_target.is_some() && e.team.is_some() && ready {
            r.push(i);
            assert(r@[r@.len() - 1] == i);
        }
        assert forall|j: int| 0 <= j < i + 1 && is_fire_candidate(world.entities@[j], now as int)
            implies r@.contains(j as usize) by {
            if j < i {
                assert(r0.contains(j as usize));
                let w = choose|w: int| 0 <= w < r0.len() && r0[w] == j as usize;
                assert(r@[w] == j as usize);
            } else {
                assert(r@[r@.len() - 1] == i);
            }
        }
        i += 1;
    }
    r
}

/// The order that a seeded shuffle gives to `v`.
pub uninterp spec fn shuffled(v: Seq<usize>, seed: u64) -> Seq<usize>;

/// Relies on rand's `SliceRandom::shuffle`, driven by `StdRng::seed_from_u64(seed)`:
/// it only swaps items of the slice, and its outcome depends on the items and
/// the seed alone.
#[verifier::external_body]
fn shuffle_indices(v: &mut Vec<usize>, seed: u64)
    ensures
        final(v)@ == shuffled(old(v)@, seed),
        final(v)@.len() == old(v)@.len(),
        final(v)@.to_multiset() == old(v)@.to_multiset(),
{
    let mut rng = <rand::rngs::StdRng as rand::SeedableRng>::seed_from_u64(seed);
    rand::seq::SliceRandom::shuffle(v.as_mut_slice(), &mut rng);
}

/// The direction from `from` toward the point `aim_at + jitter`.
pub open spec fn aim_spec(from: Point, aim_at: Point, jitter: Point) -> Point {
    let p = offset_point(aim_at, jitter);
    normalize_spec(p.x - from.x, p.y - from.y)
}

/// The store after the first candidate of `order` tries to fire toward
/// `aim_at + jitter`, with the candidate and the outcome.
pub open spec fn ai_fire_ordered_spec(m: WorldModel, order: Seq<usize>, aim_at: Point, jitter: Point, now: int)
    -> (WorldModel, Option<(usize, Result<ProjectileSpawned, FireRejected>)>)
{
    if order.len() == 0 {
        (m, None)
    } else {
        let i = order[0];
        let dir = aim_spec(m.entities[i as int].position, aim_at, jitter);
        let fired = attempt_fire_spec(m, i as int, dir, now);
        (fired.0, Some((i, fired.1)))
    }
}

/// The store and timer after the fire-admission stage, and the admitted
/// hostile with its outcome: on a tick with a living player, the ready
/// hostiles in increasing order are shuffled with `seed`, and the first of
/// them fires at the first player's position shifted by `jitter`.
pub open spec fn ai_fire_spec(m: WorldModel, t: RepeatingTimer, dt: int, now: int, jitter: Point, seed: u64)
    -> (WorldModel, RepeatingTimer, Option<(usize, Result<ProjectileSpawned, FireRejected>)>)
{
    if t.elapsed + dt >= t.period && World::has_player_spec(m.entities) {
        let target = m.entities[first_player(m.entities)].position;
        let order = shuffled(fire_candidates_spec(m.entities, now), seed);
        let fired = ai_fire_ordered_spec(m, order, target, jitter, now);
        (fired.0, repeating_tick(t, dt), fired.1)
    } else {
        (m, repeating_tick(t, dt), None)
    }
}

/// Lets the first candidate of `order` fire toward `aim_at + jitter`, and
/// returns it with the outcome of the discharge.
pub fn ai_fire_ordered(world: &mut World, order: &Vec<usize>, aim_at: Point, jitter: Point, now: u64)
    -> (r: Option<(usize, Result<ProjectileSpawned, FireRejected>)>)
    requires
        old(world).wf(),
        old(world).has_room(1),
        aim_at.in_bounds(),
        forall|k: int| 0 <= k < order@.len() ==> #[trigger] order@[k] < old(world).entities@.len()
            && old(world).entities@[order@[k] as int].cooldown is Some
            && old(world).entities@[order@[k] as int].team is Some,
    ensures
        final(world).damage_events == old(world).damage_events,
        old(world).next_id <= final(world).next_id <= old(world).next_id + 1,
        final(world).wf(),
        final(world)@ =~= ai_fire_ordered_spec(old(world)@, order@, aim_at, jitter, now as int).0,
        r == ai_fire_ordered_spec(old(world)@, order@, aim_at, jitter, now as int).1,
        order@.len() == 0 ==> r.is_none() && *final(world) == *old(world),
        order@.len() > 0 ==> {
            let i = order@[0] as int;
            let e = old(world).entities@[i];
            let dir = aim_spec(e.position, aim_at, jitter);
            &&& r matches Some((a, res)) && a == order@[0]
            &&& match fire_check_spec(dir, e.cooldown->0, now as int) {
                Err(err) => r == Some((order@[0], Err::<ProjectileSpawned, FireRejected>(err))) && *final(world) == *old(world),
                Ok(_) => {
                    &&& r == Some((order@[0], Ok::<ProjectileSpawned, FireRejected>(ProjectileSpawned { id: old(world).next_id })))
                    &&& final(world).next_id == old(world).next_id + 1
                    &&& final(world).entities@ == fired_entities(old(world).entities@, i, dir, now as int, old(world).next_id)
                    &&& final(world).bullet_events@ == old(world).bullet_events@.push(EventBulletSpawn { origin: e.position })
                    &&& final(world).damage_events == old(world).damage_events
                },
            }
        },
{
    match admit_first(order) {
        None => None,
        Some(i) => {
            assert(order@[0] == i);
            let e = world.entities[i];
            assert(e.wf());
            let p = offset_point_exec(aim_at, jitter);
            let dir = normalize_or_zero(p.x - e.position.x, p.y - e.position.y);
            let res = world.attempt_fire(i, dir, now);
            Some((i, res))
        },
    }
}

/// Whatever the order of `n` ready candidates, one admission tick admits
/// exactly one of them (none when `n` is zero): only that one may fire, the
/// store gains at most one entity, and every other entity keeps its record.
pub proof fn lemma_one_admission(m: WorldModel, order: Seq<usize>, aim_at: Point, jitter: Point, now: int)
    requires
        forall|k: int| 0 <= k < order.len() ==> #[trigger] order[k] < m.entities.len()
            && is_fire_candidate(m.entities[order[k] as int], now),
    ensures
        ({
            let r = ai_fire_ordered_spec(m, order, aim_at, jitter, now);
            &&& (r.1 is Some <==> order.len() > 0)
            &&& r.1 matches Some((i, _)) ==> i == order[0] && is_fire_candidate(m.entities[i as int], now)
            &&& m.entities.len() <= r.0.entities.len() <= m.entities.len() + 1
            &&& forall|j: int| 0 <= j < m.entities.len() && (order.len() == 0 || j != order[0])
                ==> r.0.entities[j] == m.entities[j]
        }),
{
    if order.len() > 0 {
        assert(order[0] < m.entities.len());
    }
}

/// Advances the fire cadence timer; on a tick with a living player, gathers
/// the hostiles ready to fire, shuffles them with `seed`, and lets the first
/// fire at the first player's position shifted by `jitter`. Exactly one
/// hostile is admitted when any is ready, and none otherwise.
pub fn ai_fire(world: &mut World, timer: &mut RepeatingTimer, dt: u64, now: u64, jitter: Point, seed: u64)
    -> (r: Option<(usize, Result<ProjectileSpawned, FireRejected>)>)
    requires
        old(world).wf(),
        old(world).has_room(1),
        old(timer).wf(),
    ensures
        final(world).damage_events == old(world).damage_events,
        old(world).next_id <= final(world).next_id <= old(world).next_id + 1,
        final(world).wf(),
        final(timer).wf(),
        final(timer).period == old(timer).period,
        final(timer).elapsed == (old(timer).elapsed + dt) % (old(timer).period as int),
        final(world)@ =~= ai_fire_spec(old(world)@, *old(timer), dt as int, now as int, jitter, seed).0,
        *final(timer) == ai_fire_spec(old(world)@, *old(timer), dt as int, now as int, jitter, seed).1,
        r == ai_fire_spec(old(world)@, *old(timer), dt as int, now as int, jitter, seed).2,
        !(old(timer).elapsed + dt >= old(timer).period && World::has_player_spec(old(world).entities@))
            ==> r.is_none() && *final(world) == *old(world),
        (old(timer).elapsed + dt >= old(timer).period && World::has_player_spec(old(world).entities@)) ==> {
            &&& (r is Some <==> exists|i: int| 0 <= i < old(world).entities@.len()
                && is_fire_candidate(old(world).entities@[i], now as int))
            &&& r matches Some((i, _)) ==> i < old(world).entities@.len()
                && is_fire_candidate(old(world).entities@[i as int], now as int)
            &&& r is None ==> *final(world) == *old(world)
            &&& final(world).entities@.len() <= old(world).entities@.len() + 1
        },
{
    if !timer.tick(dt) {
        return None;
    }
    let pi = match world.player_index() {
        None => return None,
        Some(pi) => pi,
    };
    let target = world.entities[pi].position;
    assert(world.entities@[pi as int].wf());
    proof {
        lemma_first_player(old(world).entities@, pi as int);
    }
    let mut order = fire_candidates(world, now);
    let ghost before = order@;
    shuffle_indices(&mut order, seed);
    proof {
        assert forall|k: int| 0 <= k < order@.len() implies #[trigger] order@[k] < world.entities@.len()
            && is_fire_candidate(world.entities@[order@[k] as int], now as int) by {
            vstd::seq_lib::to_multiset_contains(order@, order@[k]);
            vstd::seq_lib::to_multiset_contains(before, order@[k]);
            assert(order@.contains(order@[k]));
            let w = choose|w: int| 0 <= w < before.len() && before[w] == order@[k];
        }
        if exists|i: int| 0 <= i < world.entities@.len() && is_fire_candidate(world.entities@[i], now as int) {
            let i = choose|i: int| 0 <= i < world.entities@.len() && is_fire_candidate(world.entities@[i], now as int);
            assert(before.contains(i as usize));
            vstd::seq_lib::to_multiset_contains(before, i as usize);
            vstd::seq_lib::to_multiset_contains(order@, i as usize);
        }
    }
    let r = ai_fire_ordered(world, &order, target, jitter, now);
    r
}

} // verus!
