//! The player's intents, already resolved to world coordinates: seek the
//! cursor while the button is held, fire toward it when the button is
//! released.

use vstd::prelude::*;
use crate::geometry::{Point, normalize_or_zero, normalize_spec};
use crate::components::MoveTarget;
use crate::bullets::{FireRejected, ProjectileSpawned, attempt_fire_spec};
use crate::world::{EntityRecord, World, WorldModel, first_player, lemma_first_player};

verus! {

/// A player's record after the mouse intent of one pass.
pub open spec fn mouse_record(e: EntityRecord, pressed: bool, cursor: Option<Point>) -> EntityRecord {
    if e.player && e.move_target is Some {
        if pressed {
            match cursor {
                Some(p) => EntityRecord { move_target: Some(MoveTarget { target: Some(p) }), ..e },
                None => e,
            }
        } else {
            EntityRecord { move_target: Some(MoveTarget { target: None }), ..e }
        }
    } else {
        e
    }
}

/// The store after the mouse intent.
pub open spec fn mouse_spec(m: WorldModel, pressed: bool, cursor: Option<Point>) -> WorldModel {
    WorldModel { entities: Seq::new(m.entities.len(), |i: int| mouse_record(m.entities[i], pressed, cursor)), ..m }
}

/// While the button is held, every player seeks the cursor (when it is over
/// the arena); once released, players stop seeking.
pub fn handle_mouse_to_move(world: &mut World, pressed: bool, cursor: Option<Point>)
    requires
        old(world).wf(),
        cursor matches Some(p) ==> p.in_bounds(),
    ensures
        final(world).wf(),
        final(world)@ =~= mouse_spec(old(world)@, pressed, cursor),
        final(world).entities@.len() == old(world).entities@.len(),
        forall|i: int| 0 <= i < old(world).entities@.len() ==>
            #[trigger] final(world).entities@[i] == mouse_record(old(world).entities@[i], pressed, cursor),
        final(world).next_id == old(world).next_id,
        final(world).damage_events == old(world).damage_events,
        final(world).bullet_events == old(world).bullet_events,
{
    let ghost s = old(world).entities@;
    let n = world.entities.len();
    let mut i: usize = 0;
    while i < n
        invariant
            n == s.len(),
            world.entities@.len() == n,
            i <= n,
            forall|k: int| 0 <= k < i ==> #[trigger] world.entities@[k] == mouse_record(s[k], pressed, cursor),
            forall|k: int| i <= k < n ==> #[trigger] world.entities@[k] == s[k],
            world.next_id == old(world).next_id,
            world.damage_events == old(world).damage_events,
            world.bullet_events == old(world).bullet_events,
        decreases n - i,
    {
        let mut e = world.entities[i];
        if e.player && e.move_target.is_some() {
            if pressed {
                if let Some(p) = cursor {
                    e.move_target = Some(MoveTarget { target: Some(p) });
                }
            } else {
                e.move_target = Some(MoveTarget { target: None });
            }
        }
        world.entities.set(i, e);
        i += 1;
    }
    proof {
        let t = world.entities@;
        assert forall|k: int| 0 <= k < n implies (#[trigger] t[k]).wf() && t[k].id < world.next_id by {
            assert(s[k].wf());
        }
        assert forall|a: int, b: int| 0 <= a < b < n implies t[a].id != t[b].id by {
            assert(t[a].id == s[a].id && t[b].id == s[b].id);
        }
    }
}

/// Whether `e` is a player able to fire.
pub open spec fn can_shoot(e: EntityRecord) -> bool {
    e.player && e.move_target is Some && e.team is Some && e.cooldown is Some
}

/// The store after a click at `now`, and the outcome of the shot: the first
/// player, if it can shoot, fires toward the cursor.
pub open spec fn clicks_spec(m: WorldModel, released: bool, cursor: Option<Point>, now: int)
    -> (WorldModel, Option<Result<ProjectileSpawned, FireRejected>>)
{
    if released && cursor is Some && World::has_player_spec(m.entities) {
        let i = first_player(m.entities);
        let e = m.entities[i];
        if can_shoot(e) {
            let c = cursor->0;
            let dir = normalize_spec(c.x - e.position.x, c.y - e.position.y);
            let fired = attempt_fire_spec(m, i, dir, now);
            (fired.0, Some(fired.1))
        } else {
            (m, None)
        }
    } else {
        (m, None)
    }
}

/// When the button is released over the arena, the first player fires toward
/// the cursor, gated only by its own cooldown.
pub fn handle_clicks_to_fire(world: &mut World, released: bool, cursor: Option<Point>, now: u64)
    -> (r: Option<Result<ProjectileSpawned, FireRejected>>)
    requires
        old(world).wf(),
        old(world).has_room(1),
        cursor matches Some(p) ==> p.in_bounds(),
    ensures
        final(world).damage_events == old(world).damage_events,
        old(world).next_id <= final(world).next_id <= old(world).next_id + 1,
        final(world).wf(),
        final(world)@ =~= clicks_spec(old(world)@, released, cursor, now as int).0,
        r == clicks_spec(old(world)@, released, cursor, now as int).1,
        r is None ==> *final(world) == *old(world),
{
    if !released {
        return None;
    }
    let c = match cursor {
        None => return None,
        Some(c) => c,
    };
    let i = match world.player_index() {
        None => return None,
        Some(i) => i,
    };
    proof {
        lemma_first_player(old(world).entities@, i as int);
    }
    let e = world.entities[i];
    assert(e.wf());
    if !(e.move_target.is_some() && e.team.is_some() && e.cooldown.is_some()) {
        return None;
    }
    let dir = normalize_or_zero(c.x - e.position.x, c.y - e.position.y);
    let res = world.attempt_fire(i, dir, now);
    Some(res)
}

} // verus!
