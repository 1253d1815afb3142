use arena::ai::{admit_first, ai_fire, ai_fire_ordered, ai_move, fire_candidates, spawn_ais, AiTimers, OnceTimer, RepeatingTimer};
use arena::bullets::{check_fire, FireRejected, ProjectileSpawned, BULLET_SPEED};
use arena::collisions::{collisions_bullet_health, collisions_player_pickups, try_apply_damages, DAMAGE, DEATH_PICKUP};
use arena::components::{BulletOwner, Cooldown, Health, HealthPickup, MoveDirection, MoveSpeed, MoveTarget, TeamIdx};
use arena::game::{FrameInput, Game};
use arena::geometry::{dist_sq, isqrt, move_towards, normalize_or_zero, Point};
use arena::lifecycle::{despawn_after, player_respawn};
use arena::movement::{move_direction, move_targets, wasd_movement};
use arena::player::{handle_clicks_to_fire, handle_mouse_to_move};
use arena::world::{EntityRecord, TryApplyDamages, World};

fn shooter(x: i64, y: i64, team: usize, cooldown: Cooldown) -> EntityRecord {
    let mut e = EntityRecord::bare(Point::new(x, y));
    e.move_target = Some(MoveTarget { target: None });
    e.speed = Some(MoveSpeed(100_000));
    e.health = Some(Health { current: 1000, max: 1000 });
    e.cooldown = Some(cooldown);
    e.team = Some(TeamIdx(team));
    e
}

fn health_at(x: i64, y: i64, current: i64) -> EntityRecord {
    let mut e = EntityRecord::bare(Point::new(x, y));
    e.health = Some(Health { current, max: 1000 });
    e
}

fn bullet_at(x: i64, y: i64, owner: u64) -> EntityRecord {
    let mut e = EntityRecord::bare(Point::new(x, y));
    e.bullet_owner = Some(BulletOwner { entity: owner });
    e.move_direction = Some(MoveDirection(Point::new(1000, 0)));
    e.speed = Some(MoveSpeed(BULLET_SPEED));
    e
}

#[test]
fn seek_step_stays_on_segment() {
    let p = move_towards(Point::new(0, 0), Point::new(10_000, 0), 3000);
    assert_eq!(p, Point::new(3000, 0));
    let q = move_towards(Point::new(0, 0), Point::new(3000, 4000), 1000);
    assert_eq!(q, Point::new(600, 800));
    let r = move_towards(Point::new(0, 0), Point::new(-3000, -4000), 1000);
    assert_eq!(r, Point::new(-600, -800));
    assert!(dist_sq(r, Point::new(-3000, -4000)) <= dist_sq(Point::new(0, 0), Point::new(-3000, -4000)));
}

#[test]
fn seek_never_overshoots() {
    let p = move_towards(Point::new(100, 100), Point::new(400, 500), 1_000_000);
    assert_eq!(p, Point::new(400, 500));
    let q = move_towards(Point::new(100, 100), Point::new(400, 500), 500);
    assert_eq!(q, Point::new(400, 500));
}

#[test]
fn integer_square_roots() {
    assert_eq!(isqrt(0), 0);
    assert_eq!(isqrt(1), 1);
    assert_eq!(isqrt(24), 4);
    assert_eq!(isqrt(25), 5);
    assert_eq!(isqrt(2_000_000), 1414);
    assert_eq!(isqrt(8_000_000_000_000_000_000_000_000), 2_828_427_124_746);
}

#[test]
fn normalized_directions() {
    assert_eq!(normalize_or_zero(0, 0), Point::new(0, 0));
    assert_eq!(normalize_or_zero(5, 0), Point::new(1000, 0));
    assert_eq!(normalize_or_zero(-3000, 4000), Point::new(-600, 800));
    assert_eq!(normalize_or_zero(1, 1), Point::new(1000, 1000));
    assert_eq!(normalize_or_zero(1, 2_000_000_000_000), Point::new(0, 1000));
}

#[test]
fn arrival_clears_target_within_threshold() {
    let mut w = World::new();
    let mut e = EntityRecord::bare(Point::new(0, 0));
    e.speed = Some(MoveSpeed(0));
    e.move_target = Some(MoveTarget { target: Some(Point::new(316, 0)) });
    w.spawn(e);
    let mut f = EntityRecord::bare(Point::new(0, 0));
    f.speed = Some(MoveSpeed(0));
    f.move_target = Some(MoveTarget { target: Some(Point::new(317, 0)) });
    w.spawn(f);
    move_targets(&mut w, 16);
    assert!(w.entities[0].move_target.unwrap().target.is_none());
    assert_eq!(w.entities[1].move_target.unwrap().target, Some(Point::new(317, 0)));
}

#[test]
fn seek_moves_by_speed_and_arrives() {
    let mut w = World::new();
    let mut e = EntityRecord::bare(Point::new(0, 0));
    e.speed = Some(MoveSpeed(100_000));
    e.move_target = Some(MoveTarget { target: Some(Point::new(200_000, 0)) });
    w.spawn(e);
    move_targets(&mut w, 1000);
    assert_eq!(w.entities[0].position, Point::new(100_000, 0));
    assert!(w.entities[0].move_target.unwrap().target.is_some());
    move_targets(&mut w, 1000);
    assert_eq!(w.entities[0].position, Point::new(200_000, 0));
    assert!(w.entities[0].move_target.unwrap().target.is_none());
}

#[test]
fn ballistic_motion_integrates_direction() {
    let mut w = World::new();
    w.spawn(bullet_at(0, 0, 99));
    move_direction(&mut w, 500);
    assert_eq!(w.entities[0].position, Point::new(200_000, 0));
}

#[test]
fn cooldown_threshold_is_exact() {
    let c = Cooldown { start_time: 1000, duration: 500 };
    assert!(!c.is_ready(0));
    assert!(!c.is_ready(1499));
    assert!(c.is_ready(1500));
    assert!(c.is_ready(100_000));
    let z = Cooldown { start_time: 0, duration: 0 };
    assert!(z.is_ready(0));
}

#[test]
fn fire_checks_direction_then_cooldown() {
    let c = Cooldown { start_time: 0, duration: 500 };
    assert_eq!(check_fire(Point::new(0, 0), &c, 100), Err(FireRejected::NonZeroDirectionRequired));
    assert_eq!(check_fire(Point::new(1000, 0), &c, 100), Err(FireRejected::OnCooldown));
    assert_eq!(check_fire(Point::new(1000, 0), &c, 500), Ok(()));
}

#[test]
fn zero_direction_is_rejected_without_change() {
    let mut w = World::new();
    w.spawn(shooter(0, 0, 0, Cooldown { start_time: 0, duration: 500 }));
    let r = w.attempt_fire(0, Point::new(0, 0), 10_000);
    assert_eq!(r, Err(FireRejected::NonZeroDirectionRequired));
    assert_eq!(w.entities.len(), 1);
    assert_eq!(w.entities[0].cooldown.unwrap().start_time, 0);
    assert_eq!(w.bullet_events.len(), 0);
    assert_eq!(w.next_id, 1);
}

#[test]
fn immediate_second_shot_is_refused() {
    let mut w = World::new();
    w.spawn(shooter(0, 0, 0, Cooldown { start_time: 0, duration: 500 }));
    let first = w.attempt_fire(0, Point::new(1000, 0), 10_000);
    assert_eq!(first, Ok(ProjectileSpawned { id: 1 }));
    let second = w.attempt_fire(0, Point::new(0, 1000), 10_000);
    assert_eq!(second, Err(FireRejected::OnCooldown));
    assert_eq!(w.entities.len(), 2);
    let c = w.entities[0].cooldown.unwrap();
    assert_eq!((c.start_time, c.duration), (10_000, 500));
    let b = w.entities[1];
    assert_eq!(b.bullet_owner.unwrap().entity, 0);
    assert_eq!(b.team, Some(TeamIdx(0)));
    assert_eq!(b.despawn_after.unwrap().at, 12_000);
    assert!(b.remove_on_respawn);
    assert_eq!(w.bullet_events.len(), 1);
    assert_eq!(w.bullet_events[0].origin, Point::new(0, 0));
}

#[test]
fn one_candidate_admitted_per_tick() {
    assert_eq!(admit_first(&vec![]), None);
    assert_eq!(admit_first(&vec![4, 2, 7]), Some(4));
    let mut w = World::new();
    for k in 0..3 {
        let mut e = shooter(10_000 * k, 0, 1, Cooldown { start_time: 0, duration: 2000 });
        e.ai = true;
        w.spawn(e);
    }
    let order = vec![2usize, 0, 1];
    let r = ai_fire_ordered(&mut w, &order, Point::new(0, 500_000), Point::new(0, 0), 5000);
    assert_eq!(r, Some((2, Ok(ProjectileSpawned { id: 3 }))));
    assert_eq!(w.entities.len(), 4);
    assert_eq!(w.bullet_events.len(), 1);
    let none = ai_fire_ordered(&mut w, &vec![], Point::new(0, 500_000), Point::new(0, 0), 5000);
    assert_eq!(none, None);
    assert_eq!(w.entities.len(), 4);
}

#[test]
fn ai_fire_admits_exactly_one_ready_hostile() {
    let mut w = World::new();
    let mut p = shooter(0, 0, 0, Cooldown { start_time: 0, duration: 500 });
    p.player = true;
    w.spawn(p);
    for k in 1..6 {
        let mut e = shooter(50_000 * k, 50_000, 1, Cooldown { start_time: 0, duration: 2000 });
        e.ai = true;
        w.spawn(e);
    }
    assert_eq!(fire_candidates(&w, 5000).len(), 5);
    let mut t = RepeatingTimer::new(1000);
    assert!(ai_fire(&mut w, &mut t, 500, 5000, Point::new(0, 0), 7).is_none());
    let r = ai_fire(&mut w, &mut t, 500, 5000, Point::new(0, 0), 7);
    match r {
        Some((i, Ok(_))) => assert!(i >= 1 && i <= 5),
        other => panic!("unexpected {:?}", other),
    }
    assert_eq!(w.entities.len(), 7);
    assert_eq!(fire_candidates(&w, 5000).len(), 4);
}

#[test]
fn seeded_admission_is_repeatable() {
    let build = || {
        let mut w = World::new();
        let mut p = shooter(0, 0, 0, Cooldown { start_time: 0, duration: 500 });
        p.player = true;
        w.spawn(p);
        for k in 1..9 {
            let mut e = shooter(50_000 * k, 50_000, 1, Cooldown { start_time: 0, duration: 2000 });
            e.ai = true;
            w.spawn(e);
        }
        w
    };
    let mut a = build();
    let mut b = build();
    let mut ta = RepeatingTimer::new(1000);
    let mut tb = RepeatingTimer::new(1000);
    let ra = ai_fire(&mut a, &mut ta, 1000, 5000, Point::new(0, 0), 12345);
    let rb = ai_fire(&mut b, &mut tb, 1000, 5000, Point::new(0, 0), 12345);
    assert_eq!(ra, rb);
    assert!(ra.is_some());
    let c = a.entities.iter().filter(|e| e.cooldown.map_or(false, |c| c.start_time == 5000)).count();
    assert_eq!(c, 1);
}

#[test]
fn single_ready_hostile_always_fires() {
    let mut w = World::new();
    let mut p = shooter(0, 0, 0, Cooldown { start_time: 0, duration: 500 });
    p.player = true;
    w.spawn(p);
    let mut busy = shooter(80_000, 0, 1, Cooldown { start_time: 4000, duration: 2000 });
    busy.ai = true;
    w.spawn(busy);
    let mut ready = shooter(0, 80_000, 1, Cooldown { start_time: 0, duration: 2000 });
    ready.ai = true;
    w.spawn(ready);
    let mut t = RepeatingTimer::new(1000);
    let r = ai_fire(&mut w, &mut t, 1000, 5000, Point::new(0, 0), 99);
    assert_eq!(r, Some((2, Ok(ProjectileSpawned { id: 3 }))));
    assert_eq!(w.entities[1].cooldown.unwrap().start_time, 4000);
    assert_eq!(w.entities[2].cooldown.unwrap().start_time, 5000);
    assert_eq!(w.entities[3].move_direction.unwrap().0, Point::new(0, -1000));
}

#[test]
fn pickup_heals_up_to_max_and_is_removed() {
    let mut w = World::new();
    w.spawn(health_at(0, 0, 900));
    let mut pk = EntityRecord::bare(Point::new(1000, 0));
    pk.pickup = Some(HealthPickup(500));
    w.spawn(pk);
    collisions_player_pickups(&mut w);
    assert_eq!(w.entities.len(), 1);
    assert_eq!(w.entities[0].health.unwrap().current, 1000);
    assert_eq!(w.entities[0].health.unwrap().max, 1000);
}

#[test]
fn distant_pickup_is_left_alone() {
    let mut w = World::new();
    w.spawn(health_at(0, 0, 500));
    let mut pk = EntityRecord::bare(Point::new(20_000, 0));
    pk.pickup = Some(HealthPickup(100));
    w.spawn(pk);
    collisions_player_pickups(&mut w);
    assert_eq!(w.entities.len(), 2);
    assert_eq!(w.entities[0].health.unwrap().current, 500);
}

#[test]
fn pickup_heals_every_entity_in_contact() {
    let mut w = World::new();
    w.spawn(health_at(0, 0, 500));
    w.spawn(health_at(0, 1000, 500));
    let mut pk = EntityRecord::bare(Point::new(0, 500));
    pk.pickup = Some(HealthPickup(100));
    w.spawn(pk);
    collisions_player_pickups(&mut w);
    assert_eq!(w.entities.len(), 2);
    assert_eq!(w.entities[0].health.unwrap().current, 600);
    assert_eq!(w.entities[1].health.unwrap().current, 600);
}

#[test]
fn pickups_in_contact_add_up_to_max() {
    let mut w = World::new();
    w.spawn(health_at(0, 0, 500));
    w.spawn(health_at(30_000, 0, 900));
    for (x, amount) in [(1000, 100), (-1000, 150), (30_500, 50), (29_500, 100)] {
        let mut pk = EntityRecord::bare(Point::new(x, 0));
        pk.pickup = Some(HealthPickup(amount));
        w.spawn(pk);
    }
    let mut far = EntityRecord::bare(Point::new(100_000, 0));
    far.pickup = Some(HealthPickup(100));
    w.spawn(far);
    collisions_player_pickups(&mut w);
    assert_eq!(w.entities.len(), 3);
    assert_eq!(w.entities[0].health.unwrap().current, 750);
    assert_eq!(w.entities[1].health.unwrap().current, 1000);
    assert_eq!(w.entities[2].position, Point::new(100_000, 0));
}

#[test]
fn lethal_hit_leaves_one_pickup() {
    let mut w = World::new();
    let id = w.spawn(health_at(7000, -3000, 250));
    w.damage_events.push(TryApplyDamages(id, DAMAGE));
    try_apply_damages(&mut w);
    assert_eq!(w.entities.len(), 1);
    let p = w.entities[0];
    assert_eq!(p.position, Point::new(7000, -3000));
    assert_eq!(p.pickup.unwrap().0, DEATH_PICKUP);
    assert_eq!(DEATH_PICKUP, 100);
    assert!(p.health.is_none());
    assert_eq!(w.damage_events.len(), 0);
}

#[test]
fn non_lethal_hit_reduces_health() {
    let mut w = World::new();
    let id = w.spawn(health_at(0, 0, 1000));
    w.damage_events.push(TryApplyDamages(id, 999));
    try_apply_damages(&mut w);
    assert_eq!(w.entities.len(), 1);
    assert_eq!(w.entities[0].health.unwrap().current, 750);
}

#[test]
fn damage_to_missing_entity_is_dropped() {
    let mut w = World::new();
    let id = w.spawn(health_at(0, 0, 250));
    w.damage_events.push(TryApplyDamages(id, DAMAGE));
    w.damage_events.push(TryApplyDamages(id, DAMAGE));
    w.damage_events.push(TryApplyDamages(42, DAMAGE));
    try_apply_damages(&mut w);
    assert_eq!(w.entities.len(), 1);
    assert!(w.entities[0].pickup.is_some());
    assert_eq!(w.next_id, 2);
}

#[test]
fn respawn_wipes_marked_entities() {
    let mut w = World::new();
    for k in 0..4 {
        let mut e = health_at(1000 * k, 0, 1000);
        e.remove_on_respawn = true;
        w.spawn(e);
    }
    w.spawn(health_at(0, 5000, 1000));
    let r = player_respawn(&mut w);
    assert_eq!(r, Some(5));
    assert_eq!(w.entities.len(), 2);
    assert!(w.entities.iter().all(|e| !e.remove_on_respawn));
    assert_eq!(w.entities.iter().filter(|e| e.player).count(), 1);
    let p = w.entities[1];
    assert_eq!(p.position, Point::new(0, 0));
    assert_eq!(p.health.unwrap().current, 1000);
    assert_eq!(player_respawn(&mut w), None);
    assert_eq!(w.entities.len(), 2);
}

#[test]
fn projectile_never_hits_its_owner() {
    let mut w = World::new();
    let owner = w.spawn(health_at(0, 0, 1000));
    w.spawn(bullet_at(100, 0, owner));
    collisions_bullet_health(&mut w);
    assert_eq!(w.damage_events.len(), 0);
    assert_eq!(w.entities.len(), 2);
}

#[test]
fn projectile_hits_first_other_entity_once() {
    let mut w = World::new();
    let owner = w.spawn(health_at(0, 0, 1000));
    let a = w.spawn(health_at(5000, 0, 1000));
    w.spawn(health_at(6000, 0, 1000));
    w.spawn(bullet_at(5500, 0, owner));
    collisions_bullet_health(&mut w);
    assert_eq!(w.damage_events.len(), 1);
    assert_eq!(w.damage_events[0].0, a);
    assert_eq!(w.damage_events[0].1, DAMAGE);
    assert_eq!(w.entities.len(), 3);
}

#[test]
fn projectile_out_of_reach_misses() {
    let mut w = World::new();
    w.spawn(health_at(0, 0, 1000));
    w.spawn(bullet_at(20_000, 0, 99));
    collisions_bullet_health(&mut w);
    assert_eq!(w.damage_events.len(), 0);
    assert_eq!(w.entities.len(), 2);
}

#[test]
fn expired_entities_are_removed() {
    let mut w = World::new();
    let mut a = bullet_at(0, 0, 9);
    a.despawn_after = Some(arena::components::DespawnAfter { at: 2000 });
    w.spawn(a);
    w.spawn(health_at(0, 0, 1000));
    despawn_after(&mut w, 1999);
    assert_eq!(w.entities.len(), 2);
    despawn_after(&mut w, 2000);
    assert_eq!(w.entities.len(), 1);
    assert!(w.entities[0].health.is_some());
}

#[test]
fn spawn_timer_spawns_at_once_then_every_interval() {
    let mut w = World::new();
    let mut t = OnceTimer { duration: 0, elapsed: 0 };
    assert_eq!(spawn_ais(&mut w, &mut t, 16), Some(0));
    assert_eq!(t.duration, 5000);
    assert_eq!(spawn_ais(&mut w, &mut t, 4999), None);
    assert_eq!(spawn_ais(&mut w, &mut t, 1), Some(1));
    assert_eq!(w.entities.len(), 2);
    let e = w.entities[0];
    assert!(e.ai && e.remove_on_respawn);
    assert_eq!(e.position, Point::new(150_000, 150_000));
    assert_eq!(e.cooldown.unwrap().duration, 2000);
    assert_eq!(e.team, Some(TeamIdx(1)));
}

#[test]
fn repeating_timer_carries_excess() {
    let mut t = RepeatingTimer::new(1000);
    assert!(!t.tick(600));
    assert!(t.tick(600));
    assert_eq!(t.elapsed, 200);
    assert!(t.tick(2800));
    assert_eq!(t.elapsed, 0);
}

#[test]
fn retarget_around_player() {
    let mut w = World::new();
    let mut p = shooter(10_000, 20_000, 0, Cooldown { start_time: 0, duration: 500 });
    p.player = true;
    w.spawn(p);
    let mut e = shooter(0, 0, 1, Cooldown { start_time: 0, duration: 2000 });
    e.ai = true;
    w.spawn(e);
    let offsets = vec![Point::new(0, 0), Point::new(200_000, 0)];
    let mut t = RepeatingTimer::new(2360);
    assert!(!ai_move(&mut w, &mut t, 2000, &offsets));
    assert!(ai_move(&mut w, &mut t, 360, &offsets));
    assert_eq!(w.entities[1].move_target.unwrap().target, Some(Point::new(210_000, 20_000)));
    assert!(w.entities[0].move_target.unwrap().target.is_none());
}

#[test]
fn retarget_skips_without_player() {
    let mut w = World::new();
    let mut e = shooter(0, 0, 1, Cooldown { start_time: 0, duration: 2000 });
    e.ai = true;
    w.spawn(e);
    let mut t = RepeatingTimer::new(1000);
    assert!(!ai_move(&mut w, &mut t, 1000, &vec![Point::new(5, 5)]));
    assert!(w.entities[0].move_target.unwrap().target.is_none());
}

#[test]
fn keys_give_unit_directions() {
    let mut w = World::new();
    let mut p = EntityRecord::bare(Point::new(0, 0));
    p.player = true;
    p.move_direction = Some(MoveDirection(Point::new(0, 0)));
    p.speed = Some(MoveSpeed(100_000));
    w.spawn(p);
    assert!(wasd_movement(&mut w, true, false, false, true));
    assert_eq!(w.entities[0].move_direction.unwrap().0, Point::new(707, 707));
    assert!(wasd_movement(&mut w, false, true, false, false));
    assert_eq!(w.entities[0].move_direction.unwrap().0, Point::new(0, -1000));
    assert!(!wasd_movement(&mut w, true, true, false, false));
    assert_eq!(w.entities[0].move_direction.unwrap().0, Point::new(0, 0));
}

#[test]
fn mouse_sets_and_clears_player_target() {
    let mut w = World::new();
    let mut p = shooter(0, 0, 0, Cooldown { start_time: 0, duration: 500 });
    p.player = true;
    w.spawn(p);
    handle_mouse_to_move(&mut w, true, Some(Point::new(4000, 0)));
    assert_eq!(w.entities[0].move_target.unwrap().target, Some(Point::new(4000, 0)));
    handle_mouse_to_move(&mut w, false, None);
    assert!(w.entities[0].move_target.unwrap().target.is_none());
}

#[test]
fn click_fires_toward_cursor() {
    let mut w = World::new();
    let mut p = shooter(0, 0, 0, Cooldown { start_time: 0, duration: 500 });
    p.player = true;
    w.spawn(p);
    assert_eq!(handle_clicks_to_fire(&mut w, false, Some(Point::new(0, 9000)), 1000), None);
    let r = handle_clicks_to_fire(&mut w, true, Some(Point::new(0, 9000)), 1000);
    assert_eq!(r, Some(Ok(ProjectileSpawned { id: 1 })));
    assert_eq!(w.entities[1].move_direction.unwrap().0, Point::new(0, 1000));
    let again = handle_clicks_to_fire(&mut w, true, Some(Point::new(0, 9000)), 1200);
    assert_eq!(again, Some(Err(FireRejected::OnCooldown)));
    let own = handle_clicks_to_fire(&mut w, true, Some(Point::new(0, 0)), 5000);
    assert_eq!(own, Some(Err(FireRejected::NonZeroDirectionRequired)));
}

#[test]
fn frames_spawn_player_and_hostile() {
    let mut g = Game::new();
    let mut timers = AiTimers::new();
    assert_eq!(timers.spawn.duration, 0);
    timers.spawn.elapsed = 0;
    let input = FrameInput {
        now: 16,
        dt: 16,
        mouse_held: false,
        mouse_released: false,
        cursor: None,
        up: false,
        down: false,
        left: false,
        right: false,
        ai_offsets: vec![Point::new(0, 0); 4],
        aim_jitter: Point::new(0, 0),
        shuffle_seed: 1,
    };
    let r = g.frame(&input);
    assert_eq!(r.respawned, Some(0));
    assert_eq!(r.spawned_ai, Some(1));
    assert_eq!(g.world.entities.len(), 2);
    assert!(g.world.entities[0].player);
    assert!(g.world.entities[1].ai);
    let r2 = g.frame(&FrameInput { now: 32, ..input.clone() });
    assert_eq!(r2.respawned, None);
    assert_eq!(r2.spawned_ai, None);
}
