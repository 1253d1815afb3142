//! The entity store: records of optional components under stable ids, the
//! event queues, and the operations that spawn, find and remove entities.

use vstd::prelude::*;
use crate::geometry::Point;
use crate::components::{
    BulletOwner, Cooldown, DespawnAfter, Health, HealthPickup, MoveDirection, MoveSpeed,
    MoveTarget, TeamIdx, HEALTH_LIMIT, SPEED_LIMIT,
};

verus! {

/// One entity and the components attached to it.
#[derive(Clone, Copy, Debug)]
pub struct EntityRecord {
    pub id: u64,
    pub position: Point,
    pub move_target: Option<MoveTarget>,
    pub move_direction: Option<MoveDirection>,
    pub speed: Option<MoveSpeed>,
    pub health: Option<Health>,
    pub cooldown: Option<Cooldown>,
    pub team: Option<TeamIdx>,
    pub bullet_owner: Option<BulletOwner>,
    pub despawn_after: Option<DespawnAfter>,
    pub pickup: Option<HealthPickup>,
    pub player: bool,
    pub ai: bool,
    pub remove_on_respawn: bool,
}

/// A request to damage an entity, raised by collision detection and applied
/// by the damage stage of the next pass.
#[derive(Clone, Copy, Debug)]
pub struct TryApplyDamages(pub u64, pub i64);

/// Raised when a projectile is spawned, for presentation and audio.
#[derive(Clone, Copy, Debug)]
pub struct EventBulletSpawn {
    pub origin: Point,
}

/// The arena: every live entity, the id to give the next one, and the
/// pending event queues.
#[derive(Debug)]
pub struct World {
    pub entities: Vec<EntityRecord>,
    pub next_id: u64,
    pub damage_events: Vec<TryApplyDamages>,
    pub bullet_events: Vec<EventBulletSpawn>,
}

/// The mathematical content of a `World`.
#[verifier::ext_equal]
pub struct WorldModel {
    pub entities: Seq<EntityRecord>,
    pub next_id: u64,
    pub damage_events: Seq<TryApplyDamages>,
    pub bullet_events: Seq<EventBulletSpawn>,
}

impl View for World {
    type V = WorldModel;

    open spec fn view(&self) -> WorldModel {
        WorldModel {
            entities: self.entities@,
            next_id: self.next_id,
            damage_events: self.damage_events@,
            bullet_events: self.bullet_events@,
        }
    }
}

/// `p` is the index of the first player of `s`.
pub open spec fn is_first_player(s: Seq<EntityRecord>, p: int) -> bool {
    0 <= p < s.len() && s[p].player && forall|k: int| 0 <= k < p ==> !s[k].player
}

/// The index of the first player of `s` (meaningful when one lives).
pub open spec fn first_player(s: Seq<EntityRecord>) -> int {
    choose|p: int| is_first_player(s, p)
}

pub proof fn lemma_first_player(s: Seq<EntityRecord>, p: int)
    requires
        is_first_player(s, p),
    ensures
        first_player(s) == p,
{
    let q = first_player(s);
    assert(is_first_player(s, q));
    if q < p {
        assert(s[q].player);
    } else if p < q {
        assert(s[p].player);
    }
}

impl EntityRecord {
    pub open spec fn wf(self) -> bool {
        &&& self.position.in_bounds()
        &&& match self.move_target {
            Some(t) => match t.target {
                Some(p) => p.in_bounds(),
                None => true,
            },
            None => true,
        }
        &&& match self.move_direction {
            Some(d) => d.0.is_direction(),
            None => true,
        }
        &&& match self.speed {
            Some(s) => 0 <= s.0 <= SPEED_LIMIT,
            None => true,
        }
        &&& match self.health {
            Some(h) => h.wf(),
            None => true,
        }
        &&& match self.pickup {
            Some(p) => 0 <= p.0 <= HEALTH_LIMIT,
            None => true,
        }
    }

    /// A record with a position and no component at all.
    pub fn bare(position: Point) -> (r: EntityRecord)
        ensures
            r.id == 0,
            r.position == position,
            r.move_target.is_none() && r.move_direction.is_none() && r.speed.is_none(),
            r.health.is_none() && r.cooldown.is_none() && r.team.is_none(),
            r.bullet_owner.is_none() && r.despawn_after.is_none() && r.pickup.is_none(),
            !r.player && !r.ai && !r.remove_on_respawn,
    {
        EntityRecord {
            id: 0,
            position,
            move_target: None,
            move_direction: None,
            speed: None,
            health: None,
            cooldown: None,
            team: None,
            bullet_owner: None,
            despawn_after: None,
            pickup: None,
            player: false,
            ai: false,
            remove_on_respawn: false,
        }
    }
}

/// The records of `s` whose flag in `keep` is set, in their order.
pub open spec fn kept(s: Seq<EntityRecord>, keep: Seq<bool>) -> Seq<EntityRecord>
    decreases s.len(),
{
    if s.len() == 0 || keep.len() != s.len() {
        Seq::empty()
    } else {
        let rest = kept(s.drop_last(), keep.drop_last());
        if keep.last() { rest.push(s.last()) } else { rest }
    }
}

pub proof fn lemma_kept_members(s: Seq<EntityRecord>, keep: Seq<bool>)
    requires
        keep.len() == s.len(),
    ensures
        kept(s, keep).len() <= s.len(),
        forall|j: int| 0 <= j < kept(s, keep).len() ==>
            exists|i: int| 0 <= i < s.len() && keep[i] && #[trigger] kept(s, keep)[j] == s[i],
        forall|i: int| 0 <= i < s.len() && keep[i] ==> kept(s, keep).contains(#[trigger] s[i]),
    decreases s.len(),
{
    if s.len() > 0 {
        let s0 = s.drop_last();
        let k0 = keep.drop_last();
        lemma_kept_members(s0, k0);
        let rest = kept(s0, k0);
        assert forall|j: int| 0 <= j < kept(s, keep).len() implies
            exists|i: int| 0 <= i < s.len() && keep[i] && #[trigger] kept(s, keep)[j] == s[i] by {
            if j < rest.len() {
                assert(kept(s, keep)[j] == rest[j]);
                let i = choose|i: int| 0 <= i < s0.len() && k0[i] && rest[j] == s0[i];
                assert(s[i] == s0[i] && keep[i] == k0[i]);
            } else {
                assert(kept(s, keep)[j] == s[s.len() - 1]);
            }
        }
        assert forall|i: int| 0 <= i < s.len() && keep[i] implies kept(s, keep).contains(#[trigger] s[i]) by {
            if i < s.len() - 1 {
                assert(s0[i] == s[i] && k0[i] == keep[i]);
                let j = choose|j: int| 0 <= j < rest.len() && rest[j] == s0[i];
                assert(kept(s, keep)[j] == rest[j]);
            } else {
                assert(kept(s, keep)[rest.len() as int] == s[i]);
            }
        }
    }
}

/// Keeps the records whose flag is set, in their order.
pub fn compact(v: &Vec<EntityRecord>, keep: &Vec<bool>) -> (r: Vec<EntityRecord>)
    requires
        keep@.len() == v@.len(),
    ensures
        r@ == kept(v@, keep@),
{
    let mut r: Vec<EntityRecord> = Vec::new();
    let mut i: usize = 0;
    while i < v.len()
        invariant
            keep@.len() == v@.len(),
            i <= v@.len(),
            r@ == kept(v@.take(i as int), keep@.take(i as int)),
        decreases v@.len() - i,
    {
        assert(v@.take(i + 1).drop_last() =~= v@.take(i as int));
        assert(keep@.take(i + 1).drop_last() =~= keep@.take(i as int));
        if keep[i] {
            r.push(v[i]);
        }
        i += 1;
    }
    assert(v@.take(v@.len() as int) =~= v@);
    assert(keep@.take(keep@.len() as int) =~= keep@);
    r
}

impl World {
    pub open spec fn ids_distinct(s: Seq<EntityRecord>) -> bool {
        forall|i: int, j: int| 0 <= i < j < s.len() ==> s[i].id != s[j].id
    }

    pub open spec fn wf(&self) -> bool {
        &&& forall|i: int| 0 <= i < self.entities@.len() ==> (#[trigger] self.entities@[i]).wf()
        &&& forall|i: int| 0 <= i < self.entities@.len() ==> (#[trigger] self.entities@[i]).id < self.next_id
        &&& Self::ids_distinct(self.entities@)
    }

    /// Room to hand out `n` more ids.
    pub open spec fn has_room(&self, n: int) -> bool {
        self.next_id + n <= u64::MAX
    }

    pub open spec fn has_player_spec(s: Seq<EntityRecord>) -> bool {
        exists|i: int| 0 <= i < s.len() && s[i].player
    }

    /// An empty arena.
    pub fn new() -> (r: World)
        ensures
            r.wf(),
            r.entities@.len() == 0,
            r.next_id == 0,
            r.damage_events@.len() == 0,
            r.bullet_events@.len() == 0,
    {
        World { entities: Vec::new(), next_id: 0, damage_events: Vec::new(), bullet_events: Vec::new() }
    }

    /// Adds `rec` under a fresh id, which it returns.
    pub fn spawn(&mut self, rec: EntityRecord) -> (id: u64)
        requires
            old(self).wf(),
            old(self).has_room(1),
            rec.wf(),
        ensures
            final(self).wf(),
            id == old(self).next_id,
            final(self).next_id == old(self).next_id + 1,
            final(self).entities@ == old(self).entities@.push(EntityRecord { id, ..rec }),
            final(self).damage_events == old(self).damage_events,
            final(self).bullet_events == old(self).bullet_events,
    {
        let id = self.next_id;
        let mut r = rec;
        r.id = id;
        self.entities.push(r);
        self.next_id = id + 1;
        assert(final(self).entities@.last() == r);
        id
    }

    /// The index of the entity with the given id, if it lives.
    pub fn find(&self, id: u64) -> (r: Option<usize>)
        ensures
            match r {
                Some(i) => i < self.entities@.len() && self.entities@[i as int].id == id,
                None => forall|i: int| 0 <= i < self.entities@.len() ==> self.entities@[i].id != id,
            },
    {
        let mut i: usize = 0;
        while i < self.entities.len()
            invariant
                i <= self.entities@.len(),
                forall|k: int| 0 <= k < i ==> self.entities@[k].id != id,
            decreases self.entities@.len() - i,
        {
            if self.entities[i].id == id {
                return Some(i);
            }
            i += 1;
        }
        None
    }

    /// The index of the first player entity, if any.
    pub fn player_index(&self) -> (r: Option<usize>)
        ensures
            match r {
                Some(i) => i < self.entities@.len() && self.entities@[i as int].player
                    && forall|k: int| 0 <= k < i ==> !self.entities@[k].player,
                None => !Self::has_player_spec(self.entities@),
            },
    {
        let mut i: usize = 0;
        while i < self.entities.len()
            invariant
                i <= self.entities@.len(),
                forall|k: int| 0 <= k < i ==> !self.entities@[k].player,
            decreases self.entities@.len() - i,
        {
            if self.entities[i].player {
                return Some(i);
            }
            i += 1;
        }
        None
    }

    /// Removes the entities whose flag is not set.
    pub fn retain_flagged(&mut self, keep: &Vec<bool>)
        requires
            old(self).wf(),
            keep@.len() == old(self).entities@.len(),
        ensures
            final(self).wf(),
            final(self).entities@ == kept(old(self).entities@, keep@),
            final(self).next_id == old(self).next_id,
            final(self).damage_events == old(self).damage_events,
            final(self).bullet_events == old(self).bullet_events,
    {
        self.entities = compact(&self.entities, keep);
        proof {
            let s = old(self).entities@;
            lemma_kept_members(s, keep@);
            lemma_kept_distinct(s, keep@);
            let t = final(self).entities@;
            assert forall|j: int| 0 <= j < t.len() implies (#[trigger] t[j]).wf() && t[j].id < self.next_id by {
                let i = choose|i: int| 0 <= i < s.len() && keep[i] && t[j] == s[i];
            }
        }
    }
}

/// Keeping some records of a sequence with distinct ids keeps the ids distinct.
pub proof fn lemma_kept_distinct(s: Seq<EntityRecord>, keep: Seq<bool>)
    requires
        keep.len() == s.len(),
        World::ids_distinct(s),
    ensures
        World::ids_distinct(kept(s, keep)),
    decreases s.len(),
{
    lemma_kept_members(s, keep);
    if s.len() > 0 {
        let s0 = s.drop_last();
        let k0 = keep.drop_last();
        assert(World::ids_distinct(s0));
        lemma_kept_distinct(s0, k0);
        lemma_kept_members(s0, k0);
        let rest = kept(s0, k0);
        if keep.last() {
            assert forall|j: int| 0 <= j < rest.len() implies rest[j].id != s.last().id by {
                let i = choose|i: int| 0 <= i < s0.len() && k0[i] && #[trigger] rest[j] == s0[i];
                assert(s[i] == s0[i]);
            }
        }
    }
}

} // verus!
