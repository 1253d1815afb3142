//! Collision detection and damage resolution: projectiles against
//! health-bearing entities, pickups against health-bearing entities, and the
//! damage stage that drains the queued requests.

use vstd::prelude::*;
use crate::geometry::{Point, dist_sq, dist_sq_spec};
use crate::components::{Health, HealthPickup};
use crate::world::{EntityRecord, TryApplyDamages, World, WorldModel, kept, lemma_kept_members};

verus! {

/// Squared contact distance: 20 world units.
pub const HIT_RADIUS_SQ: u128 = 400_000_000;

/// Health removed by one projectile hit.
pub const DAMAGE: i64 = 250;

/// Heal amount of the pickup left by a dead entity.
pub const DEATH_PICKUP: i64 = 100;

/// Whether projectile `s[b]` touches entity `s[j]`, which has health and is
/// not the projectile's owner.
pub open spec fn hits(s: Seq<EntityRecord>, b: int, j: int) -> bool {
    &&& s[j].health is Some
    &&& s[b].bullet_owner->0.entity != s[j].id
    &&& dist_sq_spec(s[b].position, s[j].position) < HIT_RADIUS_SQ
}

/// The first index from `j` on that projectile `s[b]` hits.
pub open spec fn first_hit_from(s: Seq<EntityRecord>, b: int, j: int) -> Option<int>
    decreases s.len() - j,
{
    if j < 0 || j >= s.len() {
        None
    } else if hits(s, b, j) {
        Some(j)
    } else {
        first_hit_from(s, b, j + 1)
    }
}

/// The entity that `s[b]` hits, if `s[b]` is a projectile and hits any.
pub open spec fn bullet_hit(s: Seq<EntityRecord>, b: int) -> Option<int> {
    if s[b].bullet_owner is Some { first_hit_from(s, b, 0) } else { None }
}

/// The damage requests raised by the projectiles among `s[0..n]`, in order.
/// Multiple hits are allowed: several projectiles may hit one entity in one
/// pass, and each raises its own request.
pub open spec fn hit_events(s: Seq<EntityRecord>, n: int) -> Seq<TryApplyDamages>
    decreases n,
{
    if n <= 0 {
        Seq::empty()
    } else {
        let prev = hit_events(s, n - 1);
        match bullet_hit(s, n - 1) {
            Some(j) => prev.push(TryApplyDamages(s[j].id, DAMAGE)),
            None => prev,
        }
    }
}

proof fn lemma_first_hit_in_range(s: Seq<EntityRecord>, b: int, j: int)
    ensures
        match first_hit_from(s, b, j) {
            Some(k) => j <= k < s.len() && hits(s, b, k),
            None => true,
        },
    decreases s.len() - j,
{
    if 0 <= j < s.len() && !hits(s, b, j) {
        lemma_first_hit_in_range(s, b, j + 1);
    }
}

/// A projectile never damages its owner: if every health-bearing entity in
/// contact with it is its owner, it raises no damage request.
pub proof fn lemma_no_self_damage(s: Seq<EntityRecord>, b: int)
    requires
        0 <= b < s.len(),
        s[b].bullet_owner is Some,
        forall|j: int| 0 <= j < s.len() && s[j].health is Some
            && dist_sq_spec(s[b].position, s[j].position) < HIT_RADIUS_SQ
            ==> s[j].id == s[b].bullet_owner->0.entity,
    ensures
        bullet_hit(s, b) is None,
{
    lemma_first_hit_in_range(s, b, 0);
}

fn find_hit(s: &Vec<EntityRecord>, b: usize) -> (r: Option<usize>)
    requires
        b < s@.len(),
        s@[b as int].bullet_owner is Some,
        forall|i: int| 0 <= i < s@.len() ==> (#[trigger] s@[i]).wf(),
    ensures
        r matches Some(j) ==> first_hit_from(s@, b as int, 0) == Some(j as int),
        r is None ==> first_hit_from(s@, b as int, 0) is None,
{
    let owner = s[b].bullet_owner.unwrap().entity;
    let pos = s[b].position;
    assert(s@[b as int].wf());
    let mut j: usize = 0;
    while j < s.len()
        invariant
            j <= s@.len(),
            b < s@.len(),
            owner == s@[b as int].bullet_owner->0.entity,
            pos == s@[b as int].position,
            pos.in_bounds(),
            forall|i: int| 0 <= i < s@.len() ==> (#[trigger] s@[i]).wf(),
            first_hit_from(s@, b as int, 0) == first_hit_from(s@, b as int, j as int),
        decreases s@.len() - j,
    {
        let e = s[j];
        assert(e.wf());
        if e.health.is_some() && owner != e.id && dist_sq(pos, e.position) < HIT_RADIUS_SQ {
            return Some(j);
        }
        j += 1;
    }
    None
}

/// The store after the projectile collision stage.
pub open spec fn bullets_spec(m: WorldModel) -> WorldModel {
    WorldModel {
        entities: kept(m.entities, Seq::new(m.entities.len(), |i: int| bullet_hit(m.entities, i) is None)),
        damage_events: m.damage_events + hit_events(m.entities, m.entities.len() as int),
        ..m
    }
}

/// Despawns every projectile that touches a health-bearing entity other than
/// its owner, and queues one damage request for the first such entity.
pub fn collisions_bullet_health(world: &mut World)
    requires
        old(world).wf(),
    ensures
        final(world).wf(),
        final(world)@ =~= bullets_spec(old(world)@),
        final(world).damage_events@ == old(world).damage_events@ + hit_events(old(world).entities@, old(world).entities@.len() as int),
        final(world).entities@ == kept(
            old(world).entities@,
            Seq::new(old(world).entities@.len(), |i: int| bullet_hit(old(world).entities@, i) is None),
        ),
        final(world).next_id == old(world).next_id,
        final(world).bullet_events == old(world).bullet_events,
{
    let ghost s = old(world).entities@;
    let n = world.entities.len();
    let mut keep: Vec<bool> = Vec::new();
    let mut b: usize = 0;
    while b < n
        invariant
            world.entities@ == s,
            n == s.len(),
            b <= n,
            world.wf(),
            world.next_id == old(world).next_id,
            world.bullet_events == old(world).bullet_events,
            keep@.len() == b,
            forall|k: int| 0 <= k < b ==> keep@[k] == (bullet_hit(s, k) is None),
            world.damage_events@ == old(world).damage_events@ + hit_events(s, b as int),
        decreases n - b,
    {
        let mut hit = false;
        if world.entities[b].bullet_owner.is_some() {
            match find_hit(&world.entities, b) {
                Some(j) => {
                    proof { lemma_first_hit_in_range(s, b as int, 0); }
                    let target = world.entities[j].id;
                    world.damage_events.push(TryApplyDamages(target, DAMAGE));
                    hit = true;
                },
                None => {},
            }
        }
        keep.push(!hit);
        assert(world.damage_events@ =~= old(world).damage_events@ + hit_events(s, b + 1));
        b += 1;
    }
    let ghost flags = Seq::new(s.len(), |i: int| bullet_hit(s, i) is None);
    assert(keep@ =~= flags);
    world.retain_flagged(&keep);
}

/// The pickup that an entity dying at `position` leaves, before it receives
/// its id.
pub open spec fn death_pickup_spec(position: Point) -> EntityRecord {
    EntityRecord {
        id: 0,
        position,
        move_target: None,
        move_direction: None,
        speed: None,
        health: None,
        cooldown: None,
        team: None,
        bullet_owner: None,
        despawn_after: None,
        pickup: Some(HealthPickup(DEATH_PICKUP)),
        player: false,
        ai: false,
        remove_on_respawn: true,
    }
}

/// Whether an entity with the given id lives in `s`.
pub open spec fn lives(s: Seq<EntityRecord>, id: u64) -> bool {
    exists|i: int| 0 <= i < s.len() && s[i].id == id
}

/// The index of the entity with the given id.
pub open spec fn index_of(s: Seq<EntityRecord>, id: u64) -> int {
    choose|i: int| 0 <= i < s.len() && s[i].id == id
}

/// The entities and next id after one damage request: a request for a dead
/// or health-less entity is dropped; otherwise the fixed damage is removed,
/// and an entity brought to zero or below is replaced by a pickup at its
/// position.
pub open spec fn damage_step(s: Seq<EntityRecord>, next: int, ev: TryApplyDamages) -> (Seq<EntityRecord>, int) {
    if lives(s, ev.0) {
        let i = index_of(s, ev.0);
        match s[i].health {
            None => (s, next),
            Some(h) => {
                let c = h.current - DAMAGE;
                if c <= 0 {
                    (s.remove(i).push(EntityRecord { id: next as u64, ..death_pickup_spec(s[i].position) }), next + 1)
                } else {
                    (s.update(i, EntityRecord { health: Some(Health { current: c as i64, max: h.max }), ..s[i] }), next)
                }
            },
        }
    } else {
        (s, next)
    }
}

/// The entities and next id after the requests of `evs`, in order.
pub open spec fn apply_damages(s: Seq<EntityRecord>, next: int, evs: Seq<TryApplyDamages>) -> (Seq<EntityRecord>, int)
    decreases evs.len(),
{
    if evs.len() == 0 {
        (s, next)
    } else {
        let prev = apply_damages(s, next, evs.drop_last());
        damage_step(prev.0, prev.1, evs.last())
    }
}

/// The store after the damage stage.
pub open spec fn damages_spec(m: WorldModel) -> WorldModel {
    let r = apply_damages(m.entities, m.next_id as int, m.damage_events);
    WorldModel { entities: r.0, next_id: r.1 as u64, damage_events: Seq::empty(), bullet_events: m.bullet_events }
}

/// One request that brings an entity to zero or below removes it and leaves
/// exactly one pickup of `DEATH_PICKUP` at its position; a request that does
/// not removes `DAMAGE` from its health and spawns nothing.
pub proof fn lemma_one_hit(s: Seq<EntityRecord>, next: int, i: int, amount: i64)
    requires
        World::ids_distinct(s),
        0 <= i < s.len(),
        s[i].health is Some,
    ensures
        ({
            let h = s[i].health->0;
            let r = damage_step(s, next, TryApplyDamages(s[i].id, amount));
            &&& h.current - DAMAGE <= 0 ==> r == (
                s.remove(i).push(EntityRecord { id: next as u64, ..death_pickup_spec(s[i].position) }), next + 1)
            &&& h.current - DAMAGE > 0 ==> r == (
                s.update(i, EntityRecord { health: Some(Health { current: (h.current - DAMAGE) as i64, max: h.max }), ..s[i] }), next)
        }),
{
    let id = s[i].id;
    assert(lives(s, id));
    let j = index_of(s, id);
    if j != i {
        if i < j { assert(s[i].id != s[j].id); } else { assert(s[j].id != s[i].id); }
    }
}

/// Applies every queued damage request in order and empties the queue. Every
/// hit removes `DAMAGE`: the amount a request carries is informational.
pub fn try_apply_damages(world: &mut World)
    requires
        old(world).wf(),
        old(world).has_room(old(world).damage_events@.len() as int),
    ensures
        final(world).wf(),
        final(world)@ =~= damages_spec(old(world)@),
        (final(world).entities@, final(world).next_id as int)
            == apply_damages(old(world).entities@, old(world).next_id as int, old(world).damage_events@),
        final(world).damage_events@.len() == 0,
        final(world).bullet_events == old(world).bullet_events,
        old(world).next_id <= final(world).next_id <= old(world).next_id + old(world).damage_events@.len(),
{
    let ghost evs = old(world).damage_events@;
    let ghost s0 = old(world).entities@;
    let ghost n0 = old(world).next_id as int;
    let m = world.damage_events.len();
    let mut k: usize = 0;
    while k < m
        invariant
            m == evs.len(),
            k <= m,
            world.damage_events@ == evs,
            world.bullet_events == old(world).bullet_events,
            world.wf(),
            n0 <= world.next_id <= n0 + k,
            n0 + m <= u64::MAX,
            (world.entities@, world.next_id as int) == apply_damages(s0, n0, evs.take(k as int)),
        decreases m - k,
    {
        let ev = world.damage_events[k];
        assert(evs.take(k + 1).drop_last() =~= evs.take(k as int));
        assert(evs.take(k + 1).last() == ev);
        let ghost s = world.entities@;
        let ghost next = world.next_id as int;
        match world.find(ev.0) {
            None => {},
            Some(i) => {
                proof {
                    let j = index_of(s, ev.0);
                    assert(lives(s, ev.0));
                    assert(s[j].id == ev.0);
                    if i != j {
                        if i < j { assert(s[i as int].id != s[j].id); } else { assert(s[j].id != s[i as int].id); }
                    }
                }
                let e = world.entities[i];
                assert(e.wf());
                match e.health {
                    None => {},
                    Some(h) => {
                        let c: i64 = h.current - DAMAGE;
                        if c <= 0 {
                            let _gone = world.entities.remove(i);
                            proof {
                                let t = world.entities@;
                                assert forall|q: int| 0 <= q < t.len() implies (#[trigger] t[q]).wf() && t[q].id < world.next_id by {
                                    if q < i { assert(t[q] == s[q]); } else { assert(t[q] == s[q + 1]); }
                                }
                                assert forall|a: int, b: int| 0 <= a < b < t.len() implies t[a].id != t[b].id by {
                                    let a2 = if a < i { a } else { a + 1 };
                                    let b2 = if b < i { b } else { b + 1 };
                                    assert(t[a] == s[a2] && t[b] == s[b2]);
                                }
                            }
                            let mut p = EntityRecord::bare(e.position);
                            p.pickup = Some(HealthPickup(DEATH_PICKUP));
                            p.remove_on_respawn = true;
                            assert(p == death_pickup_spec(e.position));
                            world.spawn(p);
                        } else {
                            let mut e2 = e;
                            e2.health = Some(Health { current: c, max: h.max });
                            world.entities.set(i, e2);
                            proof {
                                let t = world.entities@;
                                assert forall|a: int, b: int| 0 <= a < b < t.len() implies t[a].id != t[b].id by {
                                    assert(t[a].id == s[a].id && t[b].id == s[b].id);
                                }
                                assert forall|q: int| 0 <= q < t.len() implies (#[trigger] t[q]).wf() && t[q].id < world.next_id by {
                                    if q != i { assert(t[q] == s[q]); }
                                }
                            }
                        }
                    },
                }
            },
        }
        k += 1;
    }
    assert(evs.take(m as int) =~= evs);
    world.damage_events = Vec::new();
}

/// Whether entity `s[h]` takes pickup `s[p]`: it bears health and is no
/// pickup itself, and the two are in contact. Removal waits for the end of
/// the stage, so every entity in contact with a pickup takes it.
pub open spec fn can_heal(s: Seq<EntityRecord>, h: int, p: int) -> bool {
    &&& s[h].health is Some
    &&& s[h].pickup is None
    &&& s[p].pickup is Some
    &&& dist_sq_spec(s[p].position, s[h].position) < HIT_RADIUS_SQ
}

/// The heal amount an entity carries, if it is a pickup.
pub open spec fn pickup_amount(e: EntityRecord) -> int {
    match e.pickup {
        Some(HealthPickup(a)) => a as int,
        None => 0,
    }
}

/// The state after entity `h` meets pickup `p`.
pub open spec fn pickup_step(st: (Seq<EntityRecord>, Seq<bool>), h: int, p: int) -> (Seq<EntityRecord>, Seq<bool>) {
    let s = st.0;
    if can_heal(s, h, p) {
        (
            s.update(h, EntityRecord { health: Some(s[h].health->0.healed_spec(pickup_amount(s[p]))), ..s[h] }),
            st.1.update(p, true),
        )
    } else {
        st
    }
}

/// The entities and the taken pickups once every health-bearing entity before
/// `h` has met every pickup, and entity `h` the pickups before `p`.
pub open spec fn pickup_pass(s0: Seq<EntityRecord>, h: int, p: int) -> (Seq<EntityRecord>, Seq<bool>)
    decreases h, p,
{
    if h <= 0 && p <= 0 {
        (s0, Seq::new(s0.len(), |i: int| false))
    } else if p <= 0 {
        pickup_pass(s0, h - 1, s0.len() as int)
    } else {
        pickup_step(pickup_pass(s0, h, p - 1), h, p - 1)
    }
}

/// The entities after the pickup stage: each health-bearing entity, in order,
/// takes every pickup it touches, healing up to its maximum; a pickup is
/// removed once the stage ends if any health-bearing entity touched it.
pub open spec fn after_pickups(s0: Seq<EntityRecord>) -> Seq<EntityRecord> {
    let st = pickup_pass(s0, s0.len() as int, 0);
    kept(st.0, Seq::new(s0.len(), |i: int| !st.1[i]))
}

/// The store after the pickup stage.
pub open spec fn pickups_spec(m: WorldModel) -> WorldModel {
    WorldModel { entities: after_pickups(m.entities), ..m }
}

/// Health after the pickup stage, against health before: the maximum is
/// kept, and the current value never drops nor passes the maximum.
pub open spec fn healed_no_further(before: Option<Health>, after: Option<Health>) -> bool {
    match (before, after) {
        (Some(b), Some(a)) => a.max == b.max && b.current <= a.current <= a.max,
        (None, None) => true,
        _ => false,
    }
}

/// Lets every health-bearing entity take the pickups it touches.
pub fn collisions_player_pickups(world: &mut World)
    requires
        old(world).wf(),
    ensures
        final(world).wf(),
        final(world)@ =~= pickups_spec(old(world)@),
        forall|j: int| #![trigger final(world).entities@[j]] 0 <= j < final(world).entities@.len() ==> exists|i: int|
            0 <= i < old(world).entities@.len() && old(world).entities@[i].id == final(world).entities@[j].id
            && #[trigger] healed_no_further(old(world).entities@[i].health, final(world).entities@[j].health),
        final(world).entities@ == after_pickups(old(world).entities@),
        final(world).next_id == old(world).next_id,
        final(world).damage_events == old(world).damage_events,
        final(world).bullet_events == old(world).bullet_events,
{
    let ghost s0 = old(world).entities@;
    let n = world.entities.len();
    let mut used: Vec<bool> = Vec::new();
    let mut q: usize = 0;
    while q < n
        invariant
            q <= n,
            used@.len() == q,
            forall|i: int| 0 <= i < q ==> !used@[i],
        decreases n - q,
    {
        used.push(false);
        q += 1;
    }
    assert(used@ =~= Seq::new(s0.len(), |i: int| false));
    let mut h: usize = 0;
    while h < n
        invariant
            n == s0.len(),
            h <= n,
            world.wf(),
            world.entities@.len() == n,
            used@.len() == n,
            world.next_id == old(world).next_id,
            world.damage_events == old(world).damage_events,
            world.bullet_events == old(world).bullet_events,
            forall|i: int| 0 <= i < n ==> (#[trigger] world.entities@[i]).id == s0[i].id
                && world.entities@[i].position == s0[i].position
                && world.entities@[i].pickup == s0[i].pickup
                && healed_no_further(s0[i].health, world.entities@[i].health),
            (world.entities@, used@) == pickup_pass(s0, h as int, 0),
        decreases n - h,
    {
        let mut p: usize = 0;
        while p < n
            invariant
                n == s0.len(),
                h < n,
                p <= n,
                world.wf(),
                world.entities@.len() == n,
                used@.len() == n,
                world.next_id == old(world).next_id,
                world.damage_events == old(world).damage_events,
                world.bullet_events == old(world).bullet_events,
                forall|i: int| 0 <= i < n ==> (#[trigger] world.entities@[i]).id == s0[i].id
                    && world.entities@[i].position == s0[i].position
                    && world.entities@[i].pickup == s0[i].pickup
                    && healed_no_further(s0[i].health, world.entities@[i].health),
                (world.entities@, used@) == pickup_pass(s0, h as int, p as int),
            decreases n - p,
        {
            let ghost st = (world.entities@, used@);
            let eh = world.entities[h];
            let ep = world.entities[p];
            assert(eh.wf() && ep.wf());
            if eh.health.is_some() && eh.pickup.is_none() && ep.pickup.is_some()
                && dist_sq(ep.position, eh.position) < HIT_RADIUS_SQ {
                let mut e2 = eh;
                e2.health = Some(eh.health.unwrap().healed(ep.pickup.unwrap().0));
                world.entities.set(h, e2);
                used.set(p, true);
                proof {
                    let t = world.entities@;
                    assert forall|a: int, b: int| 0 <= a < b < t.len() implies t[a].id != t[b].id by {
                        assert(t[a].id == st.0[a].id && t[b].id == st.0[b].id);
                    }
                    assert forall|i: int| 0 <= i < t.len() implies (#[trigger] t[i]).wf() && t[i].id < world.next_id by {
                        if i != h { assert(t[i] == st.0[i]); }
                    }
                }
            }
            assert((world.entities@, used@) == pickup_step(st, h as int, p as int));
            p += 1;
        }
        h += 1;
    }
    let ghost st = (world.entities@, used@);
    let mut keep: Vec<bool> = Vec::new();
    let mut i: usize = 0;
    while i < n
        invariant
            i <= n,
            used@.len() == n,
            keep@.len() == i,
            forall|k: int| 0 <= k < i ==> keep@[k] == !used@[k],
        decreases n - i,
    {
        keep.push(!used[i]);
        i += 1;
    }
    assert(keep@ =~= Seq::new(s0.len(), |i: int| !st.1[i]));
    world.retain_flagged(&keep);
    proof {
        lemma_kept_members(st.0, keep@);
        let t = world.entities@;
        assert forall|j: int| #![trigger t[j]] 0 <= j < t.len() implies exists|i: int|
            0 <= i < s0.len() && s0[i].id == t[j].id
            && #[trigger] healed_no_further(s0[i].health, t[j].health) by {
            let i = choose|i: int| 0 <= i < st.0.len() && keep@[i] && #[trigger] kept(st.0, keep@)[j] == st.0[i];
            assert(st.0[i].id == s0[i].id);
            assert(healed_no_further(s0[i].health, t[j].health));
        }
    }
}

} // verus!
