//! Timed-component expiry: the generic countdown drivers.
//!
//! Every tick, every cooldown ledger, invulnerability window and transient
//! lifetime is advanced by the tick's delta time, clamped at zero.  An
//! invulnerability window that reaches zero is removed from its entity
//! (the entity survives); a transient lifetime that reaches zero despawns
//! its entity.  These systems run after the combat resolver and the boss
//! machine; nothing later in the tick reads the expiring components, so
//! applying the removals here is indistinguishable from applying them at
//! the deferred-apply point.

use vstd::prelude::*;

verus! {

use crate::components::Cooldowns;
use crate::components::Invulnerability;
use crate::components::Lifetime;
use crate::components::spec_tick_all;
use crate::math::sat_sub_ms;
use crate::math::spec_sat_sub_u32;
use crate::world::rec_wf;
use crate::world::EntityRecord;
use crate::world::World;

/// A record after its cooldown ledger is ticked by `dt_ms`.
pub open spec fn spec_cooldowns_ticked(e: EntityRecord, dt_ms: u32) -> EntityRecord {
    EntityRecord {
        cooldowns: match e.cooldowns {
            Some(c) => Some(spec_tick_all(c, dt_ms as int)),
            None => None,
        },
        ..e
    }
}

/// A record after its invulnerability window is ticked by `dt_ms`: the
/// component counts down and is removed the moment it reaches zero.
pub open spec fn spec_invuln_ticked(e: EntityRecord, dt_ms: u32) -> EntityRecord {
    EntityRecord {
        invuln: match e.invuln {
            Some(v) => if spec_sat_sub_u32(v.remaining_ms, dt_ms) == 0 {
                None
            } else {
                Some(Invulnerability { remaining_ms: spec_sat_sub_u32(v.remaining_ms, dt_ms) })
            },
            None => None,
        },
        ..e
    }
}

/// A slot after its transient lifetime is ticked by `dt_ms`: the entity is
/// despawned the moment the countdown reaches zero.
pub open spec fn spec_lifetime_ticked(o: Option<EntityRecord>, dt_ms: u32) -> Option<
    EntityRecord,
> {
    match o {
        Some(e) => match e.lifetime {
            Some(l) => if spec_sat_sub_u32(l.remaining_ms, dt_ms) == 0 {
                None
            } else {
                Some(
                    EntityRecord {
                        lifetime: Some(
                            Lifetime { remaining_ms: spec_sat_sub_u32(l.remaining_ms, dt_ms) },
                        ),
                        ..e
                    },
                )
            },
            None => Some(e),
        },
        None => None,
    }
}

/// A world whose every slot either emptied, or kept its position, its
/// collision box, its classification markers and its actor bound, stays
/// well formed.
pub(crate) proof fn lemma_timer_update_preserves_wf(cur: World, prev: World)
    requires
        prev.wf(),
        cur.num_slots() == prev.num_slots(),
        cur.pending@ == prev.pending@,
        forall|j: int|
            0 <= j < prev.num_slots() && #[trigger] cur.slots@[j] is Some ==> prev.slots@[j]
                is Some && {
                let a = cur.slots@[j]->0;
                let b = prev.slots@[j]->0;
                {
                    &&& a.pos == b.pos
                    &&& a.collider == b.collider
                    &&& a.player == b.player
                    &&& a.enemy == b.enemy
                    &&& a.boss == b.boss
                    &&& a.tile == b.tile
                    &&& a.line == b.line
                    &&& a.point_marker == b.point_marker
                    &&& (a.cooldowns is Some ==> b.cooldowns is Some)
                    &&& (a.lifetime is Some ==> b.lifetime is Some)
                    &&& (a.health is Some ==> b.health is Some)
                }
            },
    ensures
        cur.wf(),
{
    assert forall|i: int|
        0 <= i < cur.num_slots() && #[trigger] cur.slots@[i] is Some implies rec_wf(
        cur.slots@[i]->0,
    ) by {
        assert(prev.slots@[i] is Some);
        assert(rec_wf(prev.slots@[i]->0));
    }
    assert forall|i: int, j: int| cur.is_player(i) && cur.is_player(j) implies i == j by {
        assert(prev.is_player(i) && prev.is_player(j));
    }
    assert forall|i: int, j: int| cur.is_boss(i) && cur.is_boss(j) implies i == j by {
        assert(prev.is_boss(i) && prev.is_boss(j));
    }
    assert forall|i: int, j: int|
        cur.is_tile(i) && cur.is_tile(j) && i != j implies !(cur.ent(i).tile->0.gx == cur.ent(
        j,
    ).tile->0.gx && cur.ent(i).tile->0.gy == cur.ent(j).tile->0.gy) by {
        assert(prev.is_tile(i) && prev.is_tile(j));
    }
}

/// Advances every entity's cooldown ledger by the tick's delta time,
/// clamping each remaining time at zero.
pub fn update_cooldowns(w: &mut World, dt_ms: u32)
    requires
        old(w).wf(),
    ensures
        final(w).wf(),
        final(w).num_slots() == old(w).num_slots(),
        final(w).pending == old(w).pending,
        final(w).points == old(w).points,
        final(w).score == old(w).score,
        final(w).elapsed_ms == old(w).elapsed_ms,
        forall|i: int|
            0 <= i < old(w).num_slots() ==> #[trigger] final(w).slots@[i] == match old(
                w,
            ).slots@[i] {
                Some(e) => Some(spec_cooldowns_ticked(e, dt_ms)),
                None => None,
            },
{
    let ghost w0 = *w;
    let n = w.slots.len();
    let mut i: usize = 0;
    while i < n
        invariant
            n == w.num_slots(),
            n == w0.num_slots(),
            i <= n,
            w.pending == w0.pending,
            w.points == w0.points,
            w.score == w0.score,
            w.elapsed_ms == w0.elapsed_ms,
            forall|j: int|
                0 <= j < i ==> #[trigger] w.slots@[j] == match w0.slots@[j] {
                    Some(e) => Some(spec_cooldowns_ticked(e, dt_ms)),
                    None => None,
                },
            forall|j: int| i <= j < n ==> #[trigger] w.slots@[j] == w0.slots@[j],
        decreases n - i,
    {
        let cur: Option<EntityRecord> = w.slots[i];
        match cur {
            Some(e_read) => {
                let mut e = e_read;
                match e.cooldowns {
                    Some(c_read) => {
                        let mut c = c_read;
                        c.tick(dt_ms);
                        e.cooldowns = Some(c);
                    },
                    None => {},
                }
                w.slots[i] = Some(e);
            },
            None => {},
        }
        i = i + 1;
    }
    proof {
        lemma_timer_update_preserves_wf(*w, w0);
    }
}

/// Advances every invulnerability window by the tick's delta time and
/// removes the component from any entity whose window has expired; the
/// entity itself survives.
pub fn manage_invulnerability(w: &mut World, dt_ms: u32)
    requires
        old(w).wf(),
    ensures
        final(w).wf(),
        final(w).num_slots() == old(w).num_slots(),
        final(w).pending == old(w).pending,
        final(w).points == old(w).points,
        final(w).score == old(w).score,
        final(w).elapsed_ms == old(w).elapsed_ms,
        forall|i: int|
            0 <= i < old(w).num_slots() ==> #[trigger] final(w).slots@[i] == match old(
                w,
            ).slots@[i] {
                Some(e) => Some(spec_invuln_ticked(e, dt_ms)),
                None => None,
            },
{
    let ghost w0 = *w;
    let n = w.slots.len();
    let mut i: usize = 0;
    while i < n
        invariant
            n == w.num_slots(),
            n == w0.num_slots(),
            i <= n,
            w.pending == w0.pending,
            w.points == w0.points,
            w.score == w0.score,
            w.elapsed_ms == w0.elapsed_ms,
            forall|j: int|
                0 <= j < i ==> #[trigger] w.slots@[j] == match w0.slots@[j] {
                    Some(e) => Some(spec_invuln_ticked(e, dt_ms)),
                    None => None,
                },
            forall|j: int| i <= j < n ==> #[trigger] w.slots@[j] == w0.slots@[j],
        decreases n - i,
    {
        let cur: Option<EntityRecord> = w.slots[i];
        match cur {
            Some(e_read) => {
                let mut e = e_read;
                match e.invuln {
                    Some(v) => {
                        let rem = sat_sub_ms(v.remaining_ms, dt_ms);
                        if rem == 0 {
                            e.invuln = None;
                        } else {
                            e.invuln = Some(Invulnerability { remaining_ms: rem });
                        }
                    },
                    None => {},
                }
                w.slots[i] = Some(e);
            },
            None => {},
        }
        i = i + 1;
    }
    proof {
        lemma_timer_update_preserves_wf(*w, w0);
    }
}

/// Advances every transient lifetime by the tick's delta time and
/// despawns any entity whose lifetime has expired.
pub fn update_lifetime(w: &mut World, dt_ms: u32)
    requires
        old(w).wf(),
    ensures
        final(w).wf(),
        final(w).num_slots() == old(w).num_slots(),
        final(w).pending == old(w).pending,
        final(w).points == old(w).points,
        final(w).score == old(w).score,
        final(w).elapsed_ms == old(w).elapsed_ms,
        forall|i: int|
            0 <= i < old(w).num_slots() ==> #[trigger] final(w).slots@[i] == spec_lifetime_ticked(
                old(w).slots@[i],
                dt_ms,
            ),
{
    let ghost w0 = *w;
    let n = w.slots.len();
    let mut i: usize = 0;
    while i < n
        invariant
            n == w.num_slots(),
            n == w0.num_slots(),
            i <= n,
            w.pending == w0.pending,
            w.points == w0.points,
            w.score == w0.score,
            w.elapsed_ms == w0.elapsed_ms,
            forall|j: int|
                0 <= j < i ==> #[trigger] w.slots@[j] == spec_lifetime_ticked(w0.slots@[j], dt_ms),
            forall|j: int| i <= j < n ==> #[trigger] w.slots@[j] == w0.slots@[j],
        decreases n - i,
    {
        let cur: Option<EntityRecord> = w.slots[i];
        match cur {
            Some(e_read) => {
                let mut e = e_read;
                match e.lifetime {
                    Some(l) => {
                        let rem = sat_sub_ms(l.remaining_ms, dt_ms);
                        if rem == 0 {
                            w.slots[i] = None;
                        } else {
                            e.lifetime = Some(Lifetime { remaining_ms: rem });
                            w.slots[i] = Some(e);
                        }
                    },
                    None => {
                        w.slots[i] = Some(e);
                    },
                }
            },
            None => {},
        }
        i = i + 1;
    }
    proof {
        lemma_timer_update_preserves_wf(*w, w0);
    }
}

} // verus!
