//! One pass of the simulation: the stages in their fixed order, each reading
//! the store that the previous one left.

use vstd::prelude::*;
use crate::geometry::Point;
use crate::bullets::{FireRejected, ProjectileSpawned};
use crate::world::{World, WorldModel};
use crate::ai::{AiTimers, ai_fire, ai_fire_spec, ai_move, ai_move_spec, spawn_ais, spawn_ais_spec};
use crate::collisions::{
    bullets_spec, collisions_bullet_health, collisions_player_pickups, damages_spec, pickups_spec,
    try_apply_damages,
};
use crate::lifecycle::{despawn_after, despawn_spec, expired, player_respawn, respawn_spec};
use crate::movement::{move_direction, move_direction_spec, move_targets, move_targets_spec, wasd_movement, wasd_spec};
use crate::player::{clicks_spec, handle_clicks_to_fire, handle_mouse_to_move, mouse_spec};

verus! {

/// Entities that one pass may spawn besides the pickups of the dead.
pub const SPAWNS_PER_PASS: u64 = 4;

/// What the outside world hands to one pass: the clock, the resolved player
/// intents, and the random offsets drawn for the hostiles.
#[derive(Clone, Debug)]
pub struct FrameInput {
    /// Clock time in milliseconds.
    pub now: u64,
    /// Milliseconds since the previous pass.
    pub dt: u64,
    pub mouse_held: bool,
    pub mouse_released: bool,
    /// The cursor in world coordinates, when it is over the arena.
    pub cursor: Option<Point>,
    pub up: bool,
    pub down: bool,
    pub left: bool,
    pub right: bool,
    /// One offset around the player per entity slot, for retargeting.
    pub ai_offsets: Vec<Point>,
    /// The offset added to the player's position when a hostile aims.
    pub aim_jitter: Point,
    /// The seed of the shuffle of the hostiles ready to fire.
    pub shuffle_seed: u64,
}

/// What happened in one pass.
#[derive(Clone, Copy, Debug)]
pub struct FrameReport {
    pub respawned: Option<u64>,
    pub spawned_ai: Option<u64>,
    pub player_shot: Option<Result<ProjectileSpawned, FireRejected>>,
    pub ai_shot: Option<(usize, Result<ProjectileSpawned, FireRejected>)>,
    pub retargeted: bool,
    pub keys_active: bool,
}

/// The store, timers and report after one pass. The stages run in this
/// order: respawn; player intents (mouse, keys); hostile retargeting and
/// spawning; seeking and ballistic movement; fire admission (player, then
/// hostiles); damage application; pickup and projectile collisions; expiry.
pub open spec fn frame_spec(m: WorldModel, t: AiTimers, input: FrameInput) -> (WorldModel, AiTimers, FrameReport) {
    let dt = input.dt as int;
    let now = input.now as int;
    let respawn = respawn_spec(m);
    let m2 = mouse_spec(respawn.0, input.mouse_held, input.cursor);
    let keys = wasd_spec(m2, input.up, input.down, input.left, input.right);
    let retarget = ai_move_spec(keys.0, t.retarget, dt, input.ai_offsets@);
    let spawn = spawn_ais_spec(retarget.0, t.spawn, dt);
    let m6 = move_direction_spec(move_targets_spec(spawn.0, dt), dt);
    let click = clicks_spec(m6, input.mouse_released, input.cursor, now);
    let fire = ai_fire_spec(click.0, t.fire, dt, now, input.aim_jitter, input.shuffle_seed);
    let m13 = despawn_spec(bullets_spec(pickups_spec(damages_spec(fire.0))), now);
    (
        m13,
        AiTimers { spawn: spawn.1, retarget: retarget.1, fire: fire.1 },
        FrameReport {
            respawned: respawn.1,
            spawned_ai: spawn.2,
            player_shot: click.1,
            ai_shot: fire.2,
            retargeted: retarget.2,
            keys_active: keys.1,
        },
    )
}

/// The arena and the hostile side's timers.
#[derive(Debug)]
pub struct Game {
    pub world: World,
    pub timers: AiTimers,
}

impl Game {
    pub open spec fn wf(&self) -> bool {
        self.world.wf() && self.timers.wf()
    }

    /// An empty arena with fresh timers.
    pub fn new() -> (r: Game)
        ensures
            r.wf(),
            r.world.entities@.len() == 0,
            r.world.next_id == 0,
    {
        Game { world: World::new(), timers: AiTimers::new() }
    }

    /// Whether a pass may run: ids remain for what it may spawn.
    pub open spec fn can_step(&self) -> bool {
        self.world.next_id + SPAWNS_PER_PASS + self.world.damage_events@.len() <= u64::MAX
    }

    /// Runs one pass: respawn, player intents, hostile spawning and
    /// retargeting, movement, fire admission, damage application, collision
    /// detection, and removal of expired entities.
    pub fn frame(&mut self, input: &FrameInput) -> (r: FrameReport)
        requires
            old(self).wf(),
            old(self).can_step(),
            input.ai_offsets@.len() > old(self).world.entities@.len(),
            input.cursor matches Some(p) ==> p.in_bounds(),
        ensures
            final(self).wf(),
            final(self).world@ =~= frame_spec(old(self).world@, old(self).timers, *input).0,
            final(self).timers == frame_spec(old(self).world@, old(self).timers, *input).1,
            r == frame_spec(old(self).world@, old(self).timers, *input).2,
            old(self).world.next_id <= final(self).world.next_id,
            final(self).world.next_id <= old(self).world.next_id + SPAWNS_PER_PASS + old(self).world.damage_events@.len(),
            r.respawned is Some ==> !World::has_player_spec(old(self).world.entities@),
            r.respawned is None ==> World::has_player_spec(old(self).world.entities@),
            forall|i: int| 0 <= i < final(self).world.entities@.len()
                ==> !expired(#[trigger] final(self).world.entities@[i], input.now as int),
    {
        let respawned = player_respawn(&mut self.world);
        handle_mouse_to_move(&mut self.world, input.mouse_held, input.cursor);
        let keys_active = wasd_movement(&mut self.world, input.up, input.down, input.left, input.right);
        let retargeted = ai_move(&mut self.world, &mut self.timers.retarget, input.dt, &input.ai_offsets);
        let spawned_ai = spawn_ais(&mut self.world, &mut self.timers.spawn, input.dt);
        move_targets(&mut self.world, input.dt);
        move_direction(&mut self.world, input.dt);
        let player_shot = handle_clicks_to_fire(&mut self.world, input.mouse_released, input.cursor, input.now);
        let ai_shot = ai_fire(&mut self.world, &mut self.timers.fire, input.dt, input.now, input.aim_jitter, input.shuffle_seed);
        try_apply_damages(&mut self.world);
        collisions_player_pickups(&mut self.world);
        collisions_bullet_health(&mut self.world);
        despawn_after(&mut self.world, input.now);
        FrameReport { respawned, spawned_ai, player_shot, ai_shot, retargeted, keys_active }
    }
}

} // verus!
