//! The movement stages: seeking a target point at a bounded speed, and
//! travelling along a fixed direction.

use vstd::prelude::*;
use crate::geometry::{
    Point, COORD_LIMIT, UNIT, clamp_coord, clamp_wide, dist_sq, dist_sq_spec, move_towards,
    move_towards_spec, normalize_or_zero, normalize_spec, scale_toward_zero,
    lemma_seek_stays_on_segment,
};
use crate::components::{MoveTarget, SPEED_LIMIT};
use crate::world::{EntityRecord, World, WorldModel};

verus! {

/// Squared distance (sub-units squared) within which a target counts as reached.
pub const ARRIVAL_SQ: u128 = 100_000;

/// Longest step taken in one pass: longer than any distance in the arena.
pub const STEP_LIMIT: i64 = 4 * COORD_LIMIT;

/// Milliseconds per second.
pub const MS_PER_S: i64 = 1000;

/// The distance covered at `speed` in `dt` milliseconds, capped at `STEP_LIMIT`.
pub open spec fn step_spec(speed: int, dt: int) -> int {
    if speed * dt / (MS_PER_S as int) < STEP_LIMIT { speed * dt / (MS_PER_S as int) } else { STEP_LIMIT as int }
}

/// An entity after one seek pass of `dt` milliseconds.
pub open spec fn seek_record(e: EntityRecord, dt: int) -> EntityRecord {
    match (e.move_target, e.speed) {
        (Some(mt), Some(sp)) => match mt.target {
            Some(t) => {
                let p = move_towards_spec(e.position, t, step_spec(sp.0 as int, dt));
                EntityRecord {
                    position: p,
                    move_target: Some(MoveTarget {
                        target: if dist_sq_spec(p, t) <= ARRIVAL_SQ { None } else { Some(t) },
                    }),
                    ..e
                }
            },
            None => e,
        },
        _ => e,
    }
}

/// An entity after one ballistic pass of `dt` milliseconds.
pub open spec fn ballistic_record(e: EntityRecord, dt: int) -> EntityRecord {
    match (e.move_direction, e.speed) {
        (Some(d), Some(sp)) => {
            let m = sp.0 * dt;
            let q = (UNIT * MS_PER_S) as int;
            EntityRecord {
                position: Point {
                    x: clamp_coord(e.position.x + scale_toward_zero(d.0.x as int, m, q)) as i64,
                    y: clamp_coord(e.position.y + scale_toward_zero(d.0.y as int, m, q)) as i64,
                },
                ..e
            }
        },
        _ => e,
    }
}

/// The store after the seek stage.
pub open spec fn move_targets_spec(m: WorldModel, dt: int) -> WorldModel {
    WorldModel { entities: Seq::new(m.entities.len(), |i: int| seek_record(m.entities[i], dt)), ..m }
}

/// The store after the ballistic stage.
pub open spec fn move_direction_spec(m: WorldModel, dt: int) -> WorldModel {
    WorldModel { entities: Seq::new(m.entities.len(), |i: int| ballistic_record(m.entities[i], dt)), ..m }
}

/// A record after the keyboard intent `dir`.
pub open spec fn keys_record(e: EntityRecord, dir: Point) -> EntityRecord {
    if e.player && e.move_direction is Some && e.speed is Some {
        EntityRecord { move_direction: Some(crate::components::MoveDirection(dir)), ..e }
    } else {
        e
    }
}

/// The store after the keyboard intent, and whether any key moved it.
pub open spec fn wasd_spec(m: WorldModel, up: bool, down: bool, left: bool, right: bool) -> (WorldModel, bool) {
    let dir = keys_direction(up, down, left, right);
    (WorldModel { entities: Seq::new(m.entities.len(), |i: int| keys_record(m.entities[i], dir)), ..m }, !dir.is_zero())
}

/// Arrival clears a target exactly when the step ends within the arrival
/// distance of it, and a target that is cleared was reached.
pub proof fn lemma_arrival_clears_exactly(e: EntityRecord, dt: int)
    requires
        e.wf(),
        0 <= dt,
        e.move_target is Some,
        e.move_target->0.target is Some,
        e.speed is Some,
    ensures
        ({
            let t = e.move_target->0.target->0;
            let after = seek_record(e, dt);
            &&& after.move_target is Some
            &&& (after.move_target->0.target is None <==> dist_sq_spec(after.position, t) <= ARRIVAL_SQ)
            &&& after.move_target->0.target is Some ==> after.move_target->0.target->0 == t
        }),
{
}

fn step_for(speed: i64, dt: u64) -> (r: i64)
    requires
        0 <= speed <= SPEED_LIMIT,
    ensures
        r == step_spec(speed as int, dt as int),
        0 <= r,
{
    assert(0 <= speed * dt <= 1_000_000_000_000 * 0xffff_ffff_ffff_ffff) by (nonlinear_arith)
        requires 0 <= speed <= 1_000_000_000_000, 0 <= dt <= 0xffff_ffff_ffff_ffff;
    let p: i128 = speed as i128 * dt as i128;
    let q: i128 = p / (MS_PER_S as i128);
    if q < STEP_LIMIT as i128 { q as i64 } else { STEP_LIMIT }
}

/// Moves every entity that has a target and a speed toward its target, and
/// clears the target of each that arrives.
pub fn move_targets(world: &mut World, dt: u64)
    requires
        old(world).wf(),
    ensures
        final(world).wf(),
        final(world)@ =~= move_targets_spec(old(world)@, dt as int),
        final(world).entities@.len() == old(world).entities@.len(),
        forall|i: int| 0 <= i < old(world).entities@.len() ==>
            #[trigger] final(world).entities@[i] == seek_record(old(world).entities@[i], dt as int),
        final(world).next_id == old(world).next_id,
        final(world).damage_events == old(world).damage_events,
        final(world).bullet_events == old(world).bullet_events,
{
    let n = world.entities.len();
    let mut i: usize = 0;
    while i < n
        invariant
            n == old(world).entities@.len(),
            world.entities@.len() == n,
            i <= n,
            old(world).wf(),
            forall|k: int| 0 <= k < i ==> #[trigger] world.entities@[k] == seek_record(old(world).entities@[k], dt as int),
            forall|k: int| i <= k < n ==> #[trigger] world.entities@[k] == old(world).entities@[k],
            world.next_id == old(world).next_id,
            world.damage_events == old(world).damage_events,
            world.bullet_events == old(world).bullet_events,
        decreases n - i,
    {
        let mut e = world.entities[i];
        assert(e.wf());
        if let (Some(mt), Some(sp)) = (e.move_target, e.speed) {
            if let Some(t) = mt.target {
                let step = step_for(sp.0, dt);
                let p = move_towards(e.position, t, step);
                e.position = p;
                let arrived = dist_sq(p, t) <= ARRIVAL_SQ;
                e.move_target = Some(MoveTarget { target: if arrived { None } else { Some(t) } });
            }
        }
        world.entities.set(i, e);
        i += 1;
    }
    proof {
        assert forall|k: int| 0 <= k < n implies (#[trigger] world.entities@[k]).wf()
            && world.entities@[k].id < world.next_id by {
            let e = old(world).entities@[k];
            assert(e.wf());
            if let (Some(mt), Some(sp)) = (e.move_target, e.speed) {
                if let Some(t) = mt.target {
                    lemma_seek_stays_on_segment(e.position, t, step_spec(sp.0 as int, dt as int));
                }
            }
        }
        assert(World::ids_distinct(world.entities@)) by {
            assert forall|a: int, b: int| 0 <= a < b < n implies world.entities@[a].id != world.entities@[b].id by {
                assert(world.entities@[a].id == old(world).entities@[a].id);
                assert(world.entities@[b].id == old(world).entities@[b].id);
            }
        }
    }
}

fn ballistic_offset(a: i64, m: i128) -> (r: i128)
    requires
        -UNIT <= a <= UNIT,
        0 <= m <= 1_000_000_000_000 * 0xffff_ffff_ffff_ffff,
    ensures
        r == scale_toward_zero(a as int, m as int, (UNIT * MS_PER_S) as int),
        -0x1_0000_0000_0000_0000_0000_0000_0000 <= r <= 0x1_0000_0000_0000_0000_0000_0000_0000,
{
    let b: i128 = if a >= 0 { a as i128 } else { -(a as i128) };
    assert(0 <= b * m <= 1000 * (1_000_000_000_000 * 0xffff_ffff_ffff_ffff)) by (nonlinear_arith)
        requires 0 <= b <= 1000, 0 <= m <= 1_000_000_000_000 * 0xffff_ffff_ffff_ffff;
    let q: i128 = b * m / ((UNIT * MS_PER_S) as i128);
    if a >= 0 { q } else { -q }
}

/// Moves every entity that has a direction and a speed along its direction;
/// positions stop at the arena's edge.
pub fn move_direction(world: &mut World, dt: u64)
    requires
        old(world).wf(),
    ensures
        final(world).wf(),
        final(world)@ =~= move_direction_spec(old(world)@, dt as int),
        final(world).entities@.len() == old(world).entities@.len(),
        forall|i: int| 0 <= i < old(world).entities@.len() ==>
            #[trigger] final(world).entities@[i] == ballistic_record(old(world).entities@[i], dt as int),
        final(world).next_id == old(world).next_id,
        final(world).damage_events == old(world).damage_events,
        final(world).bullet_events == old(world).bullet_events,
{
    let n = world.entities.len();
    let mut i: usize = 0;
    while i < n
        invariant
            n == old(world).entities@.len(),
            world.entities@.len() == n,
            i <= n,
            old(world).wf(),
            forall|k: int| 0 <= k < i ==> #[trigger] world.entities@[k] == ballistic_record(old(world).entities@[k], dt as int),
            forall|k: int| i <= k < n ==> #[trigger] world.entities@[k] == old(world).entities@[k],
            world.next_id == old(world).next_id,
            world.damage_events == old(world).damage_events,
            world.bullet_events == old(world).bullet_events,
        decreases n - i,
    {
        let mut e = world.entities[i];
        assert(e.wf());
        if let (Some(d), Some(sp)) = (e.move_direction, e.speed) {
            let s: i64 = sp.0;
            assert(0 <= s * dt <= 1_000_000_000_000 * 0xffff_ffff_ffff_ffff) by (nonlinear_arith)
                requires 0 <= s <= 1_000_000_000_000, 0 <= dt <= 0xffff_ffff_ffff_ffff;
            let m: i128 = s as i128 * dt as i128;
            let ox = ballistic_offset(d.0.x, m);
            let oy = ballistic_offset(d.0.y, m);
            e.position = Point {
                x: clamp_wide(e.position.x as i128 + ox),
                y: clamp_wide(e.position.y as i128 + oy),
            };
        }
        world.entities.set(i, e);
        i += 1;
    }
    proof {
        assert(World::ids_distinct(world.entities@)) by {
            assert forall|a: int, b: int| 0 <= a < b < n implies world.entities@[a].id != world.entities@[b].id by {
                assert(world.entities@[a].id == old(world).entities@[a].id);
                assert(world.entities@[b].id == old(world).entities@[b].id);
            }
        }
    }
}

/// The direction of travel that the pressed keys ask for: up, down, left and
/// right add up as vectors of length `UNIT`, and the sum is scaled to
/// length `UNIT`.
pub open spec fn keys_direction(up: bool, down: bool, left: bool, right: bool) -> Point {
    let x = (if right { UNIT as int } else { 0int }) - (if left { UNIT as int } else { 0int });
    let y = (if up { UNIT as int } else { 0int }) - (if down { UNIT as int } else { 0int });
    normalize_spec(x, y)
}

/// Sets the direction of every player that has one from the pressed keys,
/// and says whether any key moved it.
pub fn wasd_movement(world: &mut World, up: bool, down: bool, left: bool, right: bool) -> (active: bool)
    requires
        old(world).wf(),
    ensures
        final(world).wf(),
        final(world)@ =~= wasd_spec(old(world)@, up, down, left, right).0,
        active == wasd_spec(old(world)@, up, down, left, right).1,
        active == !keys_direction(up, down, left, right).is_zero(),
        final(world).entities@.len() == old(world).entities@.len(),
        forall|i: int| 0 <= i < old(world).entities@.len() ==> {
            let e = #[trigger] old(world).entities@[i];
            final(world).entities@[i] == if e.player && e.move_direction is Some && e.speed is Some {
                EntityRecord { move_direction: Some(crate::components::MoveDirection(keys_direction(up, down, left, right))), ..e }
            } else {
                e
            }
        },
        final(world).next_id == old(world).next_id,
        final(world).damage_events == old(world).damage_events,
        final(world).bullet_events == old(world).bullet_events,
{
    let x: i64 = (if right { UNIT } else { 0i64 }) - (if left { UNIT } else { 0i64 });
    let y: i64 = (if up { UNIT } else { 0i64 }) - (if down { UNIT } else { 0i64 });
    let dir = normalize_or_zero(x, y);
    let n = world.entities.len();
    let mut i: usize = 0;
    while i < n
        invariant
            n == old(world).entities@.len(),
            world.entities@.len() == n,
            i <= n,
            old(world).wf(),
            dir == keys_direction(up, down, left, right),
            dir.is_direction(),
            forall|k: int| 0 <= k < i ==> {
                let e = #[trigger] old(world).entities@[k];
                world.entities@[k] == if e.player && e.move_direction is Some && e.speed is Some {
                    EntityRecord { move_direction: Some(crate::components::MoveDirection(dir)), ..e }
                } else {
                    e
                }
            },
            forall|k: int| i <= k < n ==> #[trigger] world.entities@[k] == old(world).entities@[k],
            world.next_id == old(world).next_id,
            world.damage_events == old(world).damage_events,
            world.bullet_events == old(world).bullet_events,
        decreases n - i,
    {
        let mut e = world.entities[i];
        if e.player && e.move_direction.is_some() && e.speed.is_some() {
            e.move_direction = Some(crate::components::MoveDirection(dir));
        }
        world.entities.set(i, e);
        i += 1;
    }
    proof {
        assert forall|k: int| 0 <= k < n implies (#[trigger] world.entities@[k]).wf()
            && world.entities@[k].id < world.next_id by {
            assert(old(world).entities@[k].wf());
        }
        assert(World::ids_distinct(world.entities@)) by {
            assert forall|a: int, b: int| 0 <= a < b < n implies world.entities@[a].id != world.entities@[b].id by {
                assert(world.entities@[a].id == old(world).entities@[a].id);
                assert(world.entities@[b].id == old(world).entities@[b].id);
            }
        }
    }
    !(dir.x == 0 && dir.y == 0)
}

} // verus!
