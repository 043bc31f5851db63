//! The shared entity store of the simulation.
//!
//! Entities live in an arena of slots; a despawned entity leaves a hole and
//! its index is never reused, so a stale handle can only name an empty slot,
//! never a different entity.  Components are independently present or absent
//! on each record.  Spawns requested by the ability engine during a tick are
//! buffered in `pending` and committed at the deferred-apply point at the
//! end of the tick, so no system observes a half-mutated entity set.

use vstd::prelude::*;

verus! {

use crate::components::Ability;
use crate::components::Boss;
use crate::components::BossState;
use crate::components::Collider;
use crate::components::Cooldowns;
use crate::components::Enemy;
use crate::components::Health;
use crate::components::Invulnerability;
use crate::components::Lifetime;
use crate::components::Line;
use crate::components::Player;
use crate::components::PointMarker;
use crate::components::Resettable;
use crate::components::Tile;
use crate::components::Velocity;
use crate::components::AOE_COOLDOWN_MS;
use crate::components::ATTACK_COOLDOWN_MS;
use crate::components::DASH_COOLDOWN_MS;
use crate::components::RANGED_COOLDOWN_MS;
use crate::components::EXT_MAX;
use crate::components::PLAYER_BOX;
use crate::components::PLAYER_HP;
use crate::components::POS_LIMIT;
use crate::components::POS_WF;
use crate::math::Vec2i;

/// One entity: a bag of optional components around a world position.
#[derive(Clone, Copy, PartialEq, Eq, Structural, Debug)]
pub struct EntityRecord {
    pub pos: Vec2i,
    pub vel: Option<Velocity>,
    pub collider: Option<Collider>,
    pub health: Option<Health>,
    pub player: Option<Player>,
    pub enemy: Option<Enemy>,
    pub boss: Option<Boss>,
    pub line: Option<Line>,
    pub point_marker: Option<PointMarker>,
    pub tile: Option<Tile>,
    pub resettable: Option<Resettable>,
    pub invuln: Option<Invulnerability>,
    pub lifetime: Option<Lifetime>,
    pub cooldowns: Option<Cooldowns>,
}

/// An entity record all of whose components are absent, at the origin.
pub open spec fn spec_empty_record() -> EntityRecord {
    EntityRecord {
        pos: Vec2i { x: 0, y: 0 },
        vel: None,
        collider: None,
        health: None,
        player: None,
        enemy: None,
        boss: None,
        line: None,
        point_marker: None,
        tile: None,
        resettable: None,
        invuln: None,
        lifetime: None,
        cooldowns: None,
    }
}

/// Builds the empty record.
pub fn empty_record() -> (e: EntityRecord)
    ensures
        e == spec_empty_record(),
{
    EntityRecord {
        pos: Vec2i { x: 0, y: 0 },
        vel: None,
        collider: None,
        health: None,
        player: None,
        enemy: None,
        boss: None,
        line: None,
        point_marker: None,
        tile: None,
        resettable: None,
        invuln: None,
        lifetime: None,
        cooldowns: None,
    }
}

/// Well-formedness of a single record: coordinates and extents within the
/// engine's bounds, the classification markers mutually exclusive, and a
/// boss's anchor in step with its position.
pub open spec fn rec_wf(e: EntityRecord) -> bool {
    &&& -POS_WF <= e.pos.x <= POS_WF
    &&& -POS_WF <= e.pos.y <= POS_WF
    &&& (e.collider is Some ==> e.collider->0.width <= EXT_MAX && e.collider->0.height
        <= EXT_MAX)
    &&& (e.tile is Some ==> -1_000_000 <= e.tile->0.gx <= 1_000_000 && -1_000_000 <= e.tile->0.gy
        <= 1_000_000)
    &&& (e.player is Some ==> e.enemy is None && e.boss is None && e.tile is None && e.line
        is None && e.point_marker is None)
    &&& (e.boss is Some ==> e.enemy is None && e.tile is None && e.line is None
        && e.point_marker is None && e.boss->0.anchor == e.pos)
    &&& (e.enemy is Some ==> e.tile is None && e.line is None && e.point_marker is None)
    &&& (e.tile is Some ==> e.line is None && e.point_marker is None && e.lifetime is None
        && e.health is None)
    &&& (e.cooldowns is Some ==> e.boss is None && e.enemy is None && e.line is None
        && e.point_marker is None && -POS_LIMIT <= e.pos.x <= POS_LIMIT && -POS_LIMIT <= e.pos.y
        <= POS_LIMIT)
    &&& (e.player is Some ==> -POS_LIMIT <= e.pos.x <= POS_LIMIT && -POS_LIMIT <= e.pos.y
        <= POS_LIMIT)
}

/// Shape of a record the ability engine may buffer for a deferred spawn:
/// a well-formed transient attack hitbox and nothing else.
pub open spec fn cast_spawn_wf(e: EntityRecord) -> bool {
    &&& rec_wf(e)
    &&& e.player is None
    &&& e.enemy is None
    &&& e.boss is None
    &&& e.tile is None
    &&& e.cooldowns is None
    &&& e.health is None
    &&& (e.line is Some || e.point_marker is Some)
    &&& e.lifetime is Some
}

/// A world whose slots match a well-formed world's, and whose buffered
/// spawns are all well-formed transient hitboxes, is well formed; the
/// debug point buffer, the score and the clock never bear on `wf`.
pub(crate) proof fn lemma_wf_store(cur: World, prev: World)
    requires
        prev.wf(),
        cur.slots@ == prev.slots@,
        forall|k: int| 0 <= k < cur.pending@.len() ==> cast_spawn_wf(#[trigger] cur.pending@[k]),
    ensures
        cur.wf(),
{
    assert forall|i: int|
        0 <= i < cur.num_slots() && #[trigger] cur.slots@[i] is Some implies rec_wf(
        cur.slots@[i]->0,
    ) by {
        assert(cur.slots@[i] == prev.slots@[i]);
    }
    assert forall|i: int, j: int| cur.is_player(i) && cur.is_player(j) implies i == j by {
        assert(cur.slots@[i] == prev.slots@[i]);
        assert(cur.slots@[j] == prev.slots@[j]);
        assert(prev.is_player(i) && prev.is_player(j));
    }
    assert forall|i: int, j: int| cur.is_boss(i) && cur.is_boss(j) implies i == j by {
        assert(cur.slots@[i] == prev.slots@[i]);
        assert(cur.slots@[j] == prev.slots@[j]);
        assert(prev.is_boss(i) && prev.is_boss(j));
    }
    assert forall|i: int, j: int|
        cur.is_tile(i) && cur.is_tile(j) && i != j implies !(cur.ent(i).tile->0.gx == cur.ent(
        j,
    ).tile->0.gx && cur.ent(i).tile->0.gy == cur.ent(j).tile->0.gy) by {
        assert(cur.slots@[i] == prev.slots@[i]);
        assert(cur.slots@[j] == prev.slots@[j]);
        assert(prev.is_tile(i) && prev.is_tile(j));
    }
}

/// The shared entity store plus the process-wide resources of the game:
/// the kill counter, the elapsed game time, the deferred-spawn buffer and
/// the last-cast debug point buffer.
pub struct World {
    pub slots: Vec<Option<EntityRecord>>,
    pub pending: Vec<EntityRecord>,
    pub points: Vec<Vec2i>,
    pub score: u64,
    pub elapsed_ms: u64,
}

impl World {
    /// Number of slots in the arena, live or vacated.
    pub open spec fn num_slots(self) -> int {
        self.slots@.len() as int
    }

    /// True when slot `i` holds a live entity.
    pub open spec fn live(self, i: int) -> bool {
        0 <= i < self.num_slots() && self.slots@[i] is Some
    }

    /// The record in slot `i`.
    pub open spec fn ent(self, i: int) -> EntityRecord
        recommends
            self.live(i),
    {
        self.slots@[i]->0
    }

    /// Slot `i` holds the live player.
    pub open spec fn is_player(self, i: int) -> bool {
        self.live(i) && self.ent(i).player is Some
    }

    /// Slot `i` holds a live enemy body.
    pub open spec fn is_enemy(self, i: int) -> bool {
        self.live(i) && self.ent(i).enemy is Some
    }

    /// Slot `i` holds the live boss.
    pub open spec fn is_boss(self, i: int) -> bool {
        self.live(i) && self.ent(i).boss is Some
    }

    /// Slot `i` holds a live streamed tile.
    pub open spec fn is_tile(self, i: int) -> bool {
        self.live(i) && self.ent(i).tile is Some
    }

    /// Slot `i` holds a live attack hitbox (a line or a point marker).
    pub open spec fn is_hitbox(self, i: int) -> bool {
        self.live(i) && (self.ent(i).line is Some || self.ent(i).point_marker is Some)
    }

    /// The entity in slot `i` currently enjoys an invulnerability window.
    pub open spec fn invuln_active(self, i: int) -> bool {
        self.live(i) && self.ent(i).invuln is Some && self.ent(i).invuln->0.remaining_ms > 0
    }

    /// Some live entity is the player.
    pub open spec fn has_player(self) -> bool {
        exists|i: int| self.is_player(i)
    }

    /// The slot of the player (unique under `wf`).
    pub open spec fn player_index(self) -> int {
        choose|i: int| self.is_player(i)
    }

    /// Some live entity is the boss.
    pub open spec fn has_boss(self) -> bool {
        exists|i: int| self.is_boss(i)
    }

    /// The slot of the boss (unique under `wf`).
    pub open spec fn boss_index(self) -> int {
        choose|i: int| self.is_boss(i)
    }

    /// Well-formedness of the whole store: every live record well formed,
    /// the player and the boss singletons, resident tile coordinates
    /// pairwise distinct, and every buffered spawn a transient hitbox.
    pub open spec fn wf(self) -> bool {
        &&& (forall|i: int|
            0 <= i < self.num_slots() && #[trigger] self.slots@[i] is Some ==> rec_wf(
                self.slots@[i]->0,
            ))
        &&& (forall|i: int, j: int| self.is_player(i) && self.is_player(j) ==> i == j)
        &&& (forall|i: int, j: int| self.is_boss(i) && self.is_boss(j) ==> i == j)
        &&& (forall|i: int, j: int|
            self.is_tile(i) && self.is_tile(j) && i != j ==> !(self.ent(i).tile->0.gx == self.ent(
                j,
            ).tile->0.gx && self.ent(i).tile->0.gy == self.ent(j).tile->0.gy))
        &&& (forall|k: int| 0 <= k < self.pending@.len() ==> cast_spawn_wf(#[trigger] self.pending@[k]))
    }

    /// A fresh, empty world.
    pub fn new() -> (w: World)
        ensures
            w.wf(),
            w.num_slots() == 0,
            w.pending@.len() == 0,
            w.points@.len() == 0,
            w.score == 0,
            w.elapsed_ms == 0,
    {
        World { slots: Vec::new(), pending: Vec::new(), points: Vec::new(), score: 0, elapsed_ms: 0 }
    }

    /// Finds the live player's slot, if any.
    pub fn find_player(&self) -> (r: Option<usize>)
        requires
            self.wf(),
        ensures
            match r {
                Some(i) => self.is_player(i as int) && i as int == self.player_index(),
                None => !self.has_player(),
            },
    {
        let n = self.slots.len();
        let mut i: usize = 0;
        while i < n
            invariant
                n == self.num_slots(),
                i <= n,
                self.wf(),
                forall|j: int| 0 <= j < i ==> !self.is_player(j),
            decreases n - i,
        {
            match &self.slots[i] {
                Some(e) => {
                    if e.player.is_some() {
                        return Some(i);
                    }
                },
                None => {},
            }
            i = i + 1;
        }
        None
    }

    /// Finds the live boss's slot, if any.
    pub fn find_boss(&self) -> (r: Option<usize>)
        requires
            self.wf(),
        ensures
            match r {
                Some(i) => self.is_boss(i as int) && i as int == self.boss_index(),
                None => !self.has_boss(),
            },
    {
        let n = self.slots.len();
        let mut i: usize = 0;
        while i < n
            invariant
                n == self.num_slots(),
                i <= n,
                self.wf(),
                forall|j: int| 0 <= j < i ==> !self.is_boss(j),
            decreases n - i,
        {
            match &self.slots[i] {
                Some(e) => {
                    if e.boss.is_some() {
                        return Some(i);
                    }
                },
                None => {},
            }
            i = i + 1;
        }
        None
    }

    /// Spawns the player: full hit points, its collision box, a fresh
    /// cooldown ledger (every ability starts on its full base cooldown),
    /// zero velocity.  If a player already lives, nothing changes and
    /// `None` is returned (the player is a singleton).
    pub fn spawn_player(&mut self, pos: Vec2i) -> (r: Option<usize>)
        requires
            old(self).wf(),
            -POS_LIMIT <= pos.x <= POS_LIMIT,
            -POS_LIMIT <= pos.y <= POS_LIMIT,
        ensures
            final(self).wf(),
            old(self).has_player() ==> r is None && *final(self) == *old(self),
            !old(self).has_player() ==> {
                &&& r == Some(old(self).num_slots() as usize)
                &&& final(self).num_slots() == old(self).num_slots() + 1
                &&& (forall|j: int|
                    0 <= j < old(self).num_slots() ==> final(self).slots@[j] == old(
                        self,
                    ).slots@[j])
                &&& final(self).is_player(old(self).num_slots())
                &&& final(self).ent(old(self).num_slots()) == (EntityRecord {
                    pos,
                    vel: Some(Velocity { x: 0, y: 0 }),
                    collider: Some(Collider { width: PLAYER_BOX, height: PLAYER_BOX }),
                    health: Some(Health { hp: PLAYER_HP }),
                    player: Some(Player),
                    cooldowns: Some(
                        Cooldowns {
                            dash_ms: DASH_COOLDOWN_MS,
                            attack_ms: ATTACK_COOLDOWN_MS,
                            ranged_ms: RANGED_COOLDOWN_MS,
                            aoe_ms: AOE_COOLDOWN_MS,
                        },
                    ),
                    ..spec_empty_record()
                })
                &&& final(self).pending == old(self).pending
                &&& final(self).points == old(self).points
                &&& final(self).score == old(self).score
                &&& final(self).elapsed_ms == old(self).elapsed_ms
            },
    {
        if self.find_player().is_some() {
            return None;
        }
        let idx = self.slots.len();
        let mut e = empty_record();
        e.pos = pos;
        e.vel = Some(Velocity { x: 0, y: 0 });
        e.collider = Some(Collider::new(PLAYER_BOX, PLAYER_BOX));
        e.health = Some(Health { hp: PLAYER_HP });
        e.player = Some(Player);
        e.cooldowns = Some(Cooldowns::new());
        self.slots.push(Some(e));
        proof {
            assert(forall|j: int|
                0 <= j < old(self).num_slots() ==> self.slots@[j] == old(self).slots@[j]);
            assert(self.is_player(idx as int));
            assert forall|i: int, j: int| self.is_player(i) && self.is_player(j) implies i == j by {
                if i != j {
                    if i == idx as int {
                        assert(old(self).is_player(j));
                    } else if j == idx as int {
                        assert(old(self).is_player(i));
                    } else {
                        assert(old(self).is_player(i) && old(self).is_player(j));
                    }
                }
            }
            assert forall|i: int, j: int| self.is_boss(i) && self.is_boss(j) implies i == j by {
                assert(old(self).is_boss(i) && old(self).is_boss(j));
            }
            assert forall|i: int, j: int|
                self.is_tile(i) && self.is_tile(j) && i != j implies !(self.ent(i).tile->0.gx
                == self.ent(j).tile->0.gx && self.ent(i).tile->0.gy == self.ent(j).tile->0.gy) by {
                assert(old(self).is_tile(i) && old(self).is_tile(j));
            }
        }
        Some(idx)
    }

    /// Spawns an enemy body at `pos` with the given collision box; enemies
    /// are cleared on game reset.  Returns the new entity's handle.
    pub fn spawn_enemy(&mut self, pos: Vec2i, width: u64, height: u64) -> (r: usize)
        requires
            old(self).wf(),
            -POS_LIMIT <= pos.x <= POS_LIMIT,
            -POS_LIMIT <= pos.y <= POS_LIMIT,
            width <= EXT_MAX,
            height <= EXT_MAX,
        ensures
            final(self).wf(),
            r == old(self).num_slots(),
            final(self).num_slots() == old(self).num_slots() + 1,
            forall|j: int|
                0 <= j < old(self).num_slots() ==> final(self).slots@[j] == old(self).slots@[j],
            final(self).is_enemy(old(self).num_slots()),
            final(self).ent(old(self).num_slots()) == (EntityRecord {
                pos,
                collider: Some(Collider { width, height }),
                enemy: Some(Enemy),
                resettable: Some(Resettable),
                ..spec_empty_record()
            }),
            final(self).pending == old(self).pending,
            final(self).points == old(self).points,
            final(self).score == old(self).score,
            final(self).elapsed_ms == old(self).elapsed_ms,
    {
        let idx = self.slots.len();
        let mut e = empty_record();
        e.pos = pos;
        e.collider = Some(Collider::new(width, height));
        e.enemy = Some(Enemy);
        e.resettable = Some(Resettable);
        self.slots.push(Some(e));
        proof {
            assert forall|i: int, j: int| self.is_player(i) && self.is_player(j) implies i == j by {
                assert(old(self).is_player(i) && old(self).is_player(j));
            }
            assert forall|i: int, j: int| self.is_boss(i) && self.is_boss(j) implies i == j by {
                assert(old(self).is_boss(i) && old(self).is_boss(j));
            }
            assert forall|i: int, j: int|
                self.is_tile(i) && self.is_tile(j) && i != j implies !(self.ent(i).tile->0.gx
                == self.ent(j).tile->0.gx && self.ent(i).tile->0.gy == self.ent(j).tile->0.gy) by {
                assert(old(self).is_tile(i) && old(self).is_tile(j));
            }
        }
        idx
    }

    /// Moves a live entity to `pos`, as the external movement collaborator
    /// does after integrating velocities.  A stale or empty handle is a
    /// no-op.  Moving the boss carries its strike anchor along.
    pub fn set_transform(&mut self, id: usize, pos: Vec2i)
        requires
            old(self).wf(),
            -POS_LIMIT <= pos.x <= POS_LIMIT,
            -POS_LIMIT <= pos.y <= POS_LIMIT,
        ensures
            final(self).wf(),
            final(self).num_slots() == old(self).num_slots(),
            !old(self).live(id as int) ==> *final(self) == *old(self),
            old(self).live(id as int) ==> {
                &&& (forall|j: int|
                    0 <= j < old(self).num_slots() && j != id as int ==> final(self).slots@[j]
                        == old(self).slots@[j])
                &&& final(self).live(id as int)
                &&& final(self).ent(id as int) == (EntityRecord {
                    pos,
                    boss: if old(self).ent(id as int).boss is Some {
                        Some(Boss { anchor: pos, ..old(self).ent(id as int).boss->0 })
                    } else {
                        None
                    },
                    ..old(self).ent(id as int)
                })
                &&& final(self).pending == old(self).pending
                &&& final(self).points == old(self).points
                &&& final(self).score == old(self).score
                &&& final(self).elapsed_ms == old(self).elapsed_ms
            },
    {
        if id >= self.slots.len() {
            return ;
        }
        let cur: Option<EntityRecord> = self.slots[id];
        match cur {
            Some(e_read) => {
                let mut e = e_read;
                e.pos = pos;
                match e.boss {
                    Some(b) => {
                        e.boss = Some(Boss { anchor: pos, ..b });
                    },
                    None => {},
                }
                self.slots[id] = Some(e);
                proof {
                    self.lemma_single_slot_update(*old(self), id as int);
                }
            },
            None => {},
        }
    }

    /// Sets a live entity's velocity; a stale or empty handle is a no-op.
    pub fn set_velocity(&mut self, id: usize, vel: Velocity)
        requires
            old(self).wf(),
        ensures
            final(self).wf(),
            final(self).num_slots() == old(self).num_slots(),
            !old(self).live(id as int) ==> *final(self) == *old(self),
            old(self).live(id as int) ==> {
                &&& (forall|j: int|
                    0 <= j < old(self).num_slots() && j != id as int ==> final(self).slots@[j]
                        == old(self).slots@[j])
                &&& final(self).live(id as int)
                &&& final(self).ent(id as int) == (EntityRecord {
                    vel: Some(vel),
                    ..old(self).ent(id as int)
                })
                &&& final(self).pending == old(self).pending
                &&& final(self).points == old(self).points
                &&& final(self).score == old(self).score
                &&& final(self).elapsed_ms == old(self).elapsed_ms
            },
    {
        if id >= self.slots.len() {
            return ;
        }
        let cur: Option<EntityRecord> = self.slots[id];
        match cur {
            Some(e_read) => {
                let mut e = e_read;
                e.vel = Some(vel);
                self.slots[id] = Some(e);
                proof {
                    self.lemma_single_slot_update(*old(self), id as int);
                }
            },
            None => {},
        }
    }

    /// A world that differs from a well-formed one in a single slot whose
    /// record keeps its classification markers, its tile coordinate, its
    /// collider bounds, its position bounds and its anchor discipline is
    /// well formed again.
    pub(crate) proof fn lemma_single_slot_update(&self, prev: World, t: int)
        requires
            prev.wf(),
            self.num_slots() == prev.num_slots(),
            self.pending == prev.pending,
            0 <= t < prev.num_slots(),
            forall|j: int| 0 <= j < prev.num_slots() && j != t ==> self.slots@[j] == prev.slots@[j],
            self.slots@[t] is Some ==> prev.slots@[t] is Some && rec_wf(self.ent(t)) && self.ent(
                t,
            ).player == prev.ent(t).player && (self.ent(t).boss is Some <==> prev.ent(t).boss
                is Some) && self.ent(t).enemy == prev.ent(t).enemy && self.ent(t).tile == prev.ent(
                t,
            ).tile,
        ensures
            self.wf(),
    {
        assert forall|i: int, j: int| self.is_player(i) && self.is_player(j) implies i == j by {
            assert(prev.is_player(i) && prev.is_player(j));
        }
        assert forall|i: int, j: int| self.is_boss(i) && self.is_boss(j) implies i == j by {
            assert(prev.is_boss(i) && prev.is_boss(j));
        }
        assert forall|i: int, j: int|
            self.is_tile(i) && self.is_tile(j) && i != j implies !(self.ent(i).tile->0.gx
            == self.ent(j).tile->0.gx && self.ent(i).tile->0.gy == self.ent(j).tile->0.gy) by {
            assert(prev.is_tile(i) && prev.is_tile(j));
            assert(self.ent(i).tile == prev.ent(i).tile);
            assert(self.ent(j).tile == prev.ent(j).tile);
        }
    }

    /// True when `id` names a live entity.
    pub fn is_alive(&self, id: usize) -> (r: bool)
        ensures
            r == self.live(id as int),
    {
        id < self.slots.len() && self.slots[id].is_some()
    }

    /// Position of a live entity.
    pub fn position_of(&self, id: usize) -> (r: Option<Vec2i>)
        ensures
            r == if self.live(id as int) {
                Some(self.ent(id as int).pos)
            } else {
                None::<Vec2i>
            },
    {
        if id < self.slots.len() {
            match &self.slots[id] {
                Some(e) => Some(e.pos),
                None => None,
            }
        } else {
            None
        }
    }

    /// Hit points of a live entity that has a health component.
    pub fn health_of(&self, id: usize) -> (r: Option<i32>)
        ensures
            r == if self.live(id as int) && self.ent(id as int).health is Some {
                Some(self.ent(id as int).health->0.hp)
            } else {
                None::<i32>
            },
    {
        if id < self.slots.len() {
            match &self.slots[id] {
                Some(e) => match &e.health {
                    Some(h) => Some(h.hp),
                    None => None,
                },
                None => None,
            }
        } else {
            None
        }
    }

    /// Remaining invulnerability window of a live entity, if it holds one.
    pub fn invuln_remaining(&self, id: usize) -> (r: Option<u32>)
        ensures
            r == if self.live(id as int) && self.ent(id as int).invuln is Some {
                Some(self.ent(id as int).invuln->0.remaining_ms)
            } else {
                None::<u32>
            },
    {
        if id < self.slots.len() {
            match &self.slots[id] {
                Some(e) => match &e.invuln {
                    Some(v) => Some(v.remaining_ms),
                    None => None,
                },
                None => None,
            }
        } else {
            None
        }
    }

    /// Remaining lifetime of a live transient entity, if it holds one.
    pub fn lifetime_remaining(&self, id: usize) -> (r: Option<u32>)
        ensures
            r == if self.live(id as int) && self.ent(id as int).lifetime is Some {
                Some(self.ent(id as int).lifetime->0.remaining_ms)
            } else {
                None::<u32>
            },
    {
        if id < self.slots.len() {
            match &self.slots[id] {
                Some(e) => match &e.lifetime {
                    Some(l) => Some(l.remaining_ms),
                    None => None,
                },
                None => None,
            }
        } else {
            None
        }
    }

    /// The kill counter.
    pub fn get_score(&self) -> (r: u64)
        ensures
            r == self.score,
    {
        self.score
    }

    /// Total simulated time, in milliseconds.
    pub fn get_elapsed_ms(&self) -> (r: u64)
        ensures
            r == self.elapsed_ms,
    {
        self.elapsed_ms
    }

    /// Number of arena slots (live entities leave despawned holes behind).
    pub fn slot_count(&self) -> (r: usize)
        ensures
            r == self.num_slots(),
    {
        self.slots.len()
    }

    /// The live player's hit points, for the UI layer.
    pub fn player_health(&self) -> (r: Option<i32>)
        requires
            self.wf(),
        ensures
            r == if self.has_player() && self.ent(self.player_index()).health is Some {
                Some(self.ent(self.player_index()).health->0.hp)
            } else {
                None::<i32>
            },
    {
        match self.find_player() {
            Some(p) => self.health_of(p),
            None => None,
        }
    }

    /// The live player's remaining cooldown for one ability, for the UI
    /// layer.
    pub fn player_cooldown(&self, ability: Ability) -> (r: Option<u32>)
        requires
            self.wf(),
        ensures
            r == if self.has_player() && self.ent(self.player_index()).cooldowns is Some {
                Some(
                    crate::components::spec_remaining(
                        self.ent(self.player_index()).cooldowns->0,
                        ability,
                    ),
                )
            } else {
                None::<u32>
            },
    {
        match self.find_player() {
            Some(p) => {
                match &self.slots[p] {
                    Some(e) => match &e.cooldowns {
                        Some(c) => Some(c.get_cooldown(ability)),
                        None => None,
                    },
                    None => None,
                }
            },
            None => None,
        }
    }

    /// The live boss's phase, for the UI layer.
    pub fn boss_state(&self) -> (r: Option<BossState>)
        requires
            self.wf(),
        ensures
            r == if self.has_boss() {
                Some(self.ent(self.boss_index()).boss->0.state)
            } else {
                None::<BossState>
            },
    {
        match self.find_boss() {
            Some(b) => {
                match &self.slots[b] {
                    Some(e) => match &e.boss {
                        Some(bo) => Some(bo.state),
                        None => None,
                    },
                    None => None,
                }
            },
            None => None,
        }
    }

    /// The live boss's remaining hit points, for the UI layer.
    pub fn boss_hp(&self) -> (r: Option<i32>)
        requires
            self.wf(),
        ensures
            r == if self.has_boss() {
                Some(self.ent(self.boss_index()).boss->0.hp)
            } else {
                None::<i32>
            },
    {
        match self.find_boss() {
            Some(b) => {
                match &self.slots[b] {
                    Some(e) => match &e.boss {
                        Some(bo) => Some(bo.hp),
                        None => None,
                    },
                    None => None,
                }
            },
            None => None,
        }
    }

    /// The sample points recorded by the most recent cast, for debugging
    /// and visual layers.
    pub fn last_cast_points(&self) -> (r: &Vec<Vec2i>)
        ensures
            r == &self.points,
    {
        &self.points
    }
}

} // verus!
