//! Entity lifecycle: removal at a deadline, and the player's respawn that
//! wipes the arena between lives.

use vstd::prelude::*;
use crate::geometry::Point;
use crate::components::{Cooldown, Health, MoveSpeed, MoveTarget, TeamIdx};
use crate::world::{EntityRecord, World, WorldModel, kept, lemma_kept_members};

verus! {

/// Whether an entity's deadline has come at `now`.
pub open spec fn expired(e: EntityRecord, now: int) -> bool {
    match e.despawn_after {
        Some(d) => now >= d.at,
        None => false,
    }
}

/// The store after the expiry stage at `now`.
pub open spec fn despawn_spec(m: WorldModel, now: int) -> WorldModel {
    WorldModel { entities: kept(m.entities, Seq::new(m.entities.len(), |i: int| !expired(m.entities[i], now))), ..m }
}

/// Removes every entity whose deadline has come.
pub fn despawn_after(world: &mut World, now: u64)
    requires
        old(world).wf(),
    ensures
        final(world).wf(),
        final(world)@ =~= despawn_spec(old(world)@, now as int),
        final(world).entities@ == kept(
            old(world).entities@,
            Seq::new(old(world).entities@.len(), |i: int| !expired(old(world).entities@[i], now as int)),
        ),
        forall|i: int| 0 <= i < final(world).entities@.len() ==> !expired(#[trigger] final(world).entities@[i], now as int),
        final(world).next_id == old(world).next_id,
        final(world).damage_events == old(world).damage_events,
        final(world).bullet_events == old(world).bullet_events,
{
    let n = world.entities.len();
    let mut keep: Vec<bool> = Vec::new();
    let mut i: usize = 0;
    while i < n
        invariant
            n == world.entities@.len(),
            i <= n,
            keep@.len() == i,
            forall|k: int| 0 <= k < i ==> keep@[k] == !expired(world.entities@[k], now as int),
        decreases n - i,
    {
        let e = world.entities[i];
        let gone = match e.despawn_after {
            Some(d) => now >= d.at,
            None => false,
        };
        keep.push(!gone);
        i += 1;
    }
    let ghost flags = Seq::new(old(world).entities@.len(), |i: int| !expired(old(world).entities@[i], now as int));
    assert(keep@ =~= flags);
    world.retain_flagged(&keep);
    proof {
        lemma_kept_members(old(world).entities@, keep@);
    }
}

/// Player speed, in sub-units per second.
pub const PLAYER_SPEED: i64 = 100_000;

/// Where a new player first heads, on each axis.
pub const PLAYER_FIRST_TARGET: i64 = 200_000;

/// Full health of a new entity.
pub const FULL_HEALTH: i64 = 1000;

/// Milliseconds between two shots of the player.
pub const PLAYER_COOLDOWN_MS: u64 = 500;

/// A fresh player at the origin, before it receives its id.
pub open spec fn player_spec() -> EntityRecord {
    EntityRecord {
        id: 0,
        position: Point { x: 0, y: 0 },
        move_target: Some(MoveTarget { target: Some(Point { x: PLAYER_FIRST_TARGET, y: PLAYER_FIRST_TARGET }) }),
        move_direction: None,
        speed: Some(MoveSpeed(PLAYER_SPEED)),
        health: Some(Health { current: FULL_HEALTH, max: FULL_HEALTH }),
        cooldown: Some(Cooldown { start_time: 0, duration: PLAYER_COOLDOWN_MS }),
        team: Some(TeamIdx(0)),
        bullet_owner: None,
        despawn_after: None,
        pickup: None,
        player: true,
        ai: false,
        remove_on_respawn: false,
    }
}

/// The entities that survive a respawn's wipe.
pub open spec fn survivors(s: Seq<EntityRecord>) -> Seq<EntityRecord> {
    kept(s, Seq::new(s.len(), |i: int| !s[i].remove_on_respawn))
}

/// The store after the respawn stage, and the id of the new player.
pub open spec fn respawn_spec(m: WorldModel) -> (WorldModel, Option<u64>) {
    if World::has_player_spec(m.entities) {
        (m, None)
    } else {
        (
            WorldModel {
                entities: survivors(m.entities).push(EntityRecord { id: m.next_id, ..player_spec() }),
                next_id: (m.next_id + 1) as u64,
                ..m
            },
            Some(m.next_id),
        )
    }
}

/// When no player lives, removes every entity marked for removal on respawn
/// and spawns a fresh player, whose id it returns; otherwise changes nothing.
pub fn player_respawn(world: &mut World) -> (r: Option<u64>)
    requires
        old(world).wf(),
        old(world).has_room(1),
    ensures
        final(world)@ =~= respawn_spec(old(world)@).0,
        r == respawn_spec(old(world)@).1,
        final(world).damage_events == old(world).damage_events,
        old(world).next_id <= final(world).next_id <= old(world).next_id + 1,
        final(world).entities@.len() <= old(world).entities@.len() + 1,
        final(world).wf(),
        World::has_player_spec(old(world).entities@) ==> r.is_none() && *final(world) == *old(world),
        !World::has_player_spec(old(world).entities@) ==> {
            &&& r == Some(old(world).next_id)
            &&& final(world).next_id == old(world).next_id + 1
            &&& final(world).entities@ == survivors(old(world).entities@).push(
                EntityRecord { id: old(world).next_id, ..player_spec() })
            &&& final(world).damage_events == old(world).damage_events
            &&& final(world).bullet_events == old(world).bullet_events
        },
{
    if world.player_index().is_some() {
        return None;
    }
    let n = world.entities.len();
    let mut keep: Vec<bool> = Vec::new();
    let mut i: usize = 0;
    while i < n
        invariant
            n == world.entities@.len(),
            i <= n,
            keep@.len() == i,
            forall|k: int| 0 <= k < i ==> keep@[k] == !world.entities@[k].remove_on_respawn,
        decreases n - i,
    {
        keep.push(!world.entities[i].remove_on_respawn);
        i += 1;
    }
    let ghost s = old(world).entities@;
    assert(keep@ =~= Seq::new(s.len(), |i: int| !s[i].remove_on_respawn));
    world.retain_flagged(&keep);
    let mut p = EntityRecord::bare(Point::origin());
    p.move_target = Some(MoveTarget { target: Some(Point::new(PLAYER_FIRST_TARGET, PLAYER_FIRST_TARGET)) });
    p.speed = Some(MoveSpeed(PLAYER_SPEED));
    p.health = Some(Health { current: FULL_HEALTH, max: FULL_HEALTH });
    p.cooldown = Some(Cooldown { start_time: 0, duration: PLAYER_COOLDOWN_MS });
    p.team = Some(TeamIdx(0));
    p.player = true;
    assert(p == player_spec());
    proof {
        lemma_kept_members(s, keep@);
    }
    let id = world.spawn(p);
    Some(id)
}

/// After a respawn from a world without a player, exactly one player lives,
/// and no entity marked for removal on respawn remains.
pub proof fn lemma_respawn_leaves_one_player(s: Seq<EntityRecord>, id: u64)
    requires
        !World::has_player_spec(s),
    ensures
        ({
            let t = survivors(s).push(EntityRecord { id, ..player_spec() });
            &&& t[t.len() - 1].player
            &&& forall|i: int| 0 <= i < t.len() && #[trigger] t[i].player ==> i == t.len() - 1
            &&& forall|i: int| 0 <= i < t.len() ==> !(#[trigger] t[i]).remove_on_respawn
        }),
{
    let flags = Seq::new(s.len(), |i: int| !s[i].remove_on_respawn);
    lemma_kept_members(s, flags);
    let k = survivors(s);
    let t = k.push(EntityRecord { id, ..player_spec() });
    assert forall|i: int| 0 <= i < t.len() implies !(#[trigger] t[i]).remove_on_respawn && (t[i].player ==> i == t.len() - 1) by {
        if i < k.len() {
            assert(t[i] == k[i]);
            let j = choose|j: int| 0 <= j < s.len() && flags[j] && #[trigger] k[i] == s[j];
        }
    }
}

} // verus!
