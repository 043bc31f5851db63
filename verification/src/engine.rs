//! The per-tick driver and the game-reset entry point.
//!
//! One call to `advance` runs the fixed pipeline: the cast request from
//! the input snapshot, the combat resolver, the boss phase machine, the
//! three countdown drivers, the deferred-apply point (buffered hitbox
//! spawns committed, dead entities cleaned up), and the streaming
//! controller.  Movement integration is the surrounding application's
//! business: it writes positions through `World::set_transform` between
//! ticks.

use vstd::prelude::*;

verus! {

use crate::abilities::request_cast;
use crate::abilities::spec_cast_spawns;
use crate::abilities::CastOutcome;
use crate::boss::spawn_bigfoot;
use crate::boss::update_bigfoot;
use crate::combat::cap64;
use crate::combat::combat_agrees;
use crate::combat::contact_upto;
use crate::combat::lemma_combat_counts_congruent;
use crate::combat::pair_count;
use crate::combat::resolve_combat;
use crate::combat::spec_player_after;
use crate::combat::spec_resolved_slot;
use crate::components::Ability;
use crate::components::Boss;
use crate::components::BossState;
use crate::components::Collider;
use crate::components::Cooldowns;
use crate::components::BOSS_BOX;
use crate::components::BOSS_HP;
use crate::components::BOSS_INVULN_MS;
use crate::components::POS_LIMIT;
use crate::components::spec_remaining;
use crate::components::spec_reset;
use crate::components::spec_tick_all;
use crate::components::COOLDOWN_REWARD_MS;
use crate::expiry::manage_invulnerability;
use crate::expiry::spec_cooldowns_ticked;
use crate::expiry::spec_invuln_ticked;
use crate::expiry::spec_lifetime_ticked;
use crate::expiry::update_cooldowns;
use crate::expiry::update_lifetime;
use crate::math::spec_sat_add_u64;
use crate::math::spec_sat_sub_u32;
use crate::math::Vec2i;
use crate::math::FP_TAU;
use crate::streaming::check_and_spawn_map;
use crate::streaming::resident_set;
use crate::streaming::spec_nbhd;
use crate::streaming::spec_tile_of;
use crate::world::cast_spawn_wf;
use crate::world::lemma_wf_store;
use crate::world::rec_wf;
use crate::world::spec_empty_record;
use crate::world::EntityRecord;
use crate::world::World;

/// A cast request carried by the tick's input snapshot.
#[derive(Clone, Copy, PartialEq, Eq, Structural, Debug)]
pub struct CastCommand {
    pub actor: usize,
    pub ability: Ability,
    pub aim: Vec2i,
    pub aim_angle: i64,
}

/// Everything the core consumes from the input collaborator in one tick.
#[derive(Clone, Copy, PartialEq, Eq, Structural, Debug)]
pub struct InputSnapshot {
    pub cast: Option<CastCommand>,
}

/// What one tick reports back to the presentation layers.
#[derive(Clone, Copy, PartialEq, Eq, Structural, Debug)]
pub struct TickReport {
    /// Outcome of the snapshot's cast request, if it carried one.
    pub cast: Option<CastOutcome>,
    /// Number of (hitbox, enemy) hits the resolver landed this tick;
    /// the score rose by the same amount.
    pub hits: u64,
}

/// Commits the buffered hitbox spawns: every record buffered by the cast
/// engine during the tick becomes a live entity, in order, and the buffer
/// empties.
pub fn apply_deferred(w: &mut World)
    requires
        old(w).wf(),
    ensures
        final(w).wf(),
        final(w).slots@ == old(w).slots@ + old(w).pending@.map_values(
            |e: EntityRecord| Some(e),
        ),
        final(w).pending@.len() == 0,
        final(w).points == old(w).points,
        final(w).score == old(w).score,
        final(w).elapsed_ms == old(w).elapsed_ms,
{
    let ghost w0 = *w;
    let m = w.pending.len();
    let mut k: usize = 0;
    while k < m
        invariant
            w.wf(),
            k <= m,
            m == w0.pending@.len(),
            w.pending == w0.pending,
            w.points == w0.points,
            w.score == w0.score,
            w.elapsed_ms == w0.elapsed_ms,
            w.slots@ == w0.slots@ + w0.pending@.subrange(0, k as int).map_values(
                |e: EntityRecord| Some(e),
            ),
        decreases m - k,
    {
        let ghost w_iter = *w;
        let e: EntityRecord = w.pending[k];
        w.slots.push(Some(e));
        proof {
            assert(cast_spawn_wf(e));
            let ghost newidx = w_iter.num_slots();
            assert forall|i: int, j: int| w.is_player(i) && w.is_player(j) implies i == j by {
                assert(w_iter.is_player(i) && w_iter.is_player(j));
            }
            assert forall|i: int, j: int| w.is_boss(i) && w.is_boss(j) implies i == j by {
                assert(w_iter.is_boss(i) && w_iter.is_boss(j));
            }
            assert forall|i: int, j: int|
                w.is_tile(i) && w.is_tile(j) && i != j implies !(w.ent(i).tile->0.gx == w.ent(
                j,
            ).tile->0.gx && w.ent(i).tile->0.gy == w.ent(j).tile->0.gy) by {
                assert(w_iter.is_tile(i) && w_iter.is_tile(j));
            }
            assert(w0.pending@.subrange(0, k as int + 1) =~= w0.pending@.subrange(
                0,
                k as int,
            ).push(e));
            assert(w0.pending@.subrange(0, k as int + 1).map_values(|e2: EntityRecord| Some(e2))
                =~= w0.pending@.subrange(0, k as int).map_values(|e2: EntityRecord| Some(e2)).push(
                Some(e),
            ));
            assert(w.slots@ =~= w0.slots@ + w0.pending@.subrange(0, k as int + 1).map_values(
                |e2: EntityRecord| Some(e2),
            ));
        }
        k = k + 1;
    }
    w.pending.clear();
    proof {
        assert(w0.pending@.subrange(0, m as int) =~= w0.pending@);
        assert(w.slots@ =~= w0.slots@ + w0.pending@.map_values(|e2: EntityRecord| Some(e2)));
        lemma_wf_store(*w, World { pending: w0.pending, ..*w });
    }
}

/// What the cleanup pass leaves in a slot: an entity whose hit points are
/// exhausted despawns, everything else stays.
pub open spec fn spec_cleaned_slot(o: Option<EntityRecord>) -> Option<EntityRecord> {
    match o {
        Some(e) => if e.health is Some && e.health->0.hp <= 0 {
            None
        } else {
            Some(e)
        },
        None => None,
    }
}

/// The cleanup pass: despawns every entity whose hit points have reached
/// zero or less, whatever brought them there.
pub fn clean_dead(w: &mut World)
    requires
        old(w).wf(),
    ensures
        final(w).wf(),
        final(w).num_slots() == old(w).num_slots(),
        final(w).pending == old(w).pending,
        final(w).points == old(w).points,
        final(w).score == old(w).score,
        final(w).elapsed_ms == old(w).elapsed_ms,
        forall|i: int|
            0 <= i < old(w).num_slots() ==> #[trigger] final(w).slots@[i] == spec_cleaned_slot(
                old(w).slots@[i],
            ),
{
    let ghost w0 = *w;
    let n = w.slots.len();
    let mut i: usize = 0;
    while i < n
        invariant
            n == w.num_slots(),
            n == w0.num_slots(),
            i <= n,
            w.pending == w0.pending,
            w.points == w0.points,
            w.score == w0.score,
            w.elapsed_ms == w0.elapsed_ms,
            forall|j: int|
                0 <= j < i ==> #[trigger] w.slots@[j] == spec_cleaned_slot(w0.slots@[j]),
            forall|j: int| i <= j < n ==> #[trigger] w.slots@[j] == w0.slots@[j],
        decreases n - i,
    {
        let cur: Option<EntityRecord> = w.slots[i];
        match cur {
            Some(e) => {
                match e.health {
                    Some(h) => {
                        if h.hp <= 0 {
                            w.slots[i] = None;
                        }
                    },
                    None => {},
                }
            },
            None => {},
        }
        i = i + 1;
    }
    proof {
        crate::combat::lemma_despawns_preserve_wf(*w, w0);
    }
}


/// One fixed tick of the simulation: the input snapshot's cast request,
/// the combat resolver, the boss phase machine, the countdown drivers,
/// the deferred-apply point with the cleanup pass, the clock, and the
/// streaming controller, in that order.  The score rises by the number of
/// hits the resolver landed; a transient hitbox outlives the tick exactly
/// when its lifetime exceeds the delta time; and while a player lives,
/// the resident tile set ends the tick equal to the 3 by 3 neighborhood
/// of the player's tile.
#[verifier::rlimit(60)]
pub fn advance(w: &mut World, dt_ms: u32, input: &InputSnapshot) -> (report: TickReport)
    requires
        old(w).wf(),
        match input.cast {
            Some(cmd) => -POS_LIMIT <= cmd.aim.x <= POS_LIMIT && -POS_LIMIT <= cmd.aim.y
                <= POS_LIMIT && 0 <= cmd.aim_angle < FP_TAU,
            None => true,
        },
    ensures
        final(w).wf(),
        final(w).elapsed_ms == spec_sat_add_u64(old(w).elapsed_ms, dt_ms as int),
        (match input.cast {
            Some(cmd) => report.cast is Some && ((report.cast->0 is Accepted) <==> (old(w).live(
                cmd.actor as int,
            ) && old(w).ent(cmd.actor as int).cooldowns is Some && spec_remaining(
                old(w).ent(cmd.actor as int).cooldowns->0,
                cmd.ability,
            ) == 0)),
            None => report.cast is None,
        }),
        final(w).score == spec_sat_add_u64(old(w).score, pair_count(*old(w)) as int),
        report.hits == cap64(pair_count(*old(w))),
        forall|i: int|
            old(w).live(i) && (old(w).ent(i).line is Some || old(w).ent(i).point_marker is Some)
                && #[trigger] old(w).ent(i).lifetime is Some && old(w).ent(i).health is None
                ==> (final(w).live(i) <==> spec_sat_sub_u32(
                old(w).ent(i).lifetime->0.remaining_ms,
                dt_ms,
            ) > 0),
        (match input.cast {
            Some(cmd) => report.cast == Some(CastOutcome::Accepted) ==> {
                let geo = spec_cast_spawns(
                    old(w).ent(cmd.actor as int),
                    cmd.ability,
                    cmd.aim,
                    cmd.aim_angle as int,
                );
                forall|k: int|
                    0 <= k < geo.len() ==> final(w).slots@[old(w).num_slots() + old(
                        w,
                    ).pending@.len() + k] == Some(#[trigger] geo[k])
            },
            None => true,
        }),
        (match input.cast {
            Some(cmd) => (report.cast == Some(CastOutcome::Accepted) && old(w).is_player(
                cmd.actor as int,
            ) && final(w).live(cmd.actor as int)) ==> final(w).ent(cmd.actor as int).cooldowns
                == Some(
                spec_tick_all(
                    spec_reset(old(w).ent(cmd.actor as int).cooldowns->0, cmd.ability),
                    (COOLDOWN_REWARD_MS as int) * (pair_count(*old(w)) as int) + dt_ms,
                ),
            ),
            None => true,
        }),
        final(w).has_player() ==> resident_set(*final(w)) == spec_nbhd(
            spec_tile_of(final(w).ent(final(w).player_index()).pos),
        ),
{
    let mut report = TickReport { cast: None, hits: 0 };
    match input.cast {
        Some(cmd) => {
            let oc = request_cast(w, cmd.actor, cmd.ability, cmd.aim, cmd.aim_angle);
            report.cast = Some(oc);
        },
        None => {},
    }
    let ghost w1 = *w;
    let hits = resolve_combat(w);
    report.hits = hits;
    let ghost w2 = *w;
    update_bigfoot(w, dt_ms);
    let ghost w3 = *w;
    update_cooldowns(w, dt_ms);
    let ghost w4 = *w;
    manage_invulnerability(w, dt_ms);
    let ghost w5 = *w;
    update_lifetime(w, dt_ms);
    let ghost w6 = *w;
    apply_deferred(w);
    let ghost w7 = *w;
    clean_dead(w);
    let ghost w8 = *w;
    if w.elapsed_ms <= u64::MAX - dt_ms as u64 {
        w.elapsed_ms = w.elapsed_ms + dt_ms as u64;
    } else {
        w.elapsed_ms = u64::MAX;
    }
    proof {
        lemma_wf_store(*w, w8);
    }
    let ghost w9 = *w;
    check_and_spawn_map(w);
    proof {
        // A cast only touches the casting actor's slot, never a hitbox or
        // an enemy, so the tick's hit pairs are those of the entry world.
        match input.cast {
            Some(cmd) => {
                let a = cmd.actor as int;
                if w1 == *old(w) {
                } else {
                    assert(old(w).live(a) && old(w).ent(a).cooldowns is Some);
                    assert(rec_wf(old(w).ent(a)));
                    assert forall|i: int|
                        0 <= i < w1.num_slots() implies (#[trigger] w1.slots@[i] == old(
                        w,
                    ).slots@[i] || (w1.live(i) && old(w).live(i) && !w1.is_hitbox(i) && !old(
                        w,
                    ).is_hitbox(i) && !w1.is_enemy(i) && !old(w).is_enemy(i))) by {
                        if i != a {
                            assert(w1.slots@[i] == old(w).slots@[i]);
                        }
                    }
                    assert(combat_agrees(w1, *old(w)));
                }
            },
            None => {
                assert(w1 == *old(w));
            },
        }
        assert(combat_agrees(w1, *old(w)));
        lemma_combat_counts_congruent(w1, *old(w));
        assert(w1.score == old(w).score);
        assert(w.score == spec_sat_add_u64(old(w).score, pair_count(*old(w)) as int));
        assert forall|i: int|
            old(w).live(i) && (old(w).ent(i).line is Some || old(w).ent(i).point_marker
                is Some) && #[trigger] old(w).ent(i).lifetime is Some && old(w).ent(i).health
            is None implies (w.live(i) <==> spec_sat_sub_u32(
            old(w).ent(i).lifetime->0.remaining_ms,
            dt_ms,
        ) > 0) by {
                let e0 = old(w).ent(i);
                assert(rec_wf(e0));
                match input.cast {
                    Some(cmd) => {
                        let a = cmd.actor as int;
                        if w1 != *old(w) {
                            assert(rec_wf(old(w).ent(a)));
                            assert(i != a);
                        }
                        assert(w1.slots@[i] == old(w).slots@[i]);
                    },
                    None => {},
                }
                assert(w1.slots@[i] == old(w).slots@[i]);
                assert(!w1.is_enemy(i) && !w1.is_player(i) && !w1.is_boss(i));
                assert(w2.slots@[i] == spec_resolved_slot(w1, i));
                assert(w2.slots@[i] == w1.slots@[i]);
                if w2.has_boss() {
                    let bi = w2.boss_index();
                    assert(0 <= i < w2.num_slots());
                    assert(!w2.is_player(i));
                    assert(i != bi);
                    assert(w3.slots@[i] == w2.slots@[i]);
                } else {
                    assert(w3 == w2);
                }
                assert(w4.slots@[i] == Some(spec_cooldowns_ticked(e0, dt_ms)));
                let e4 = w4.slots@[i]->0;
                assert(w5.slots@[i] == Some(spec_invuln_ticked(e4, dt_ms)));
                let e5 = w5.slots@[i]->0;
                assert(e5.lifetime == e0.lifetime && e5.health is None && e5.tile is None);
                assert(w6.slots@[i] == spec_lifetime_ticked(w5.slots@[i], dt_ms));
                assert(w7.slots@[i] == w6.slots@[i]);
                assert(w8.slots@[i] == spec_cleaned_slot(w7.slots@[i]));
                assert(w9.slots@[i] == w8.slots@[i]);
                if spec_sat_sub_u32(e0.lifetime->0.remaining_ms, dt_ms) > 0 {
                    assert(w9.live(i) && !w9.is_tile(i));
                    assert(w.slots@[i] == w9.slots@[i]);
                } else {
                    assert(w9.slots@[i] is None);
                    if w9.has_player() {
                        assert(!w9.is_tile(i));
                        assert(w.slots@[i] == w9.slots@[i]);
                    } else {
                        assert(*w == w9);
                    }
                }
            }
        match input.cast {
            Some(cmd) => {
                if report.cast == Some(CastOutcome::Accepted) {
                    let a = cmd.actor as int;
                    let e0a = old(w).ent(a);
                    let geo = spec_cast_spawns(e0a, cmd.ability, cmd.aim, cmd.aim_angle as int);
                    let n0 = old(w).num_slots();
                    let m0 = old(w).pending@.len() as int;
                    assert(w1.pending@ == old(w).pending@ + geo) by {
                        match cmd.ability {
                            Ability::Attack => {},
                            Ability::Aoe => {},
                            Ability::Ranged => {
                                assert(w1.pending@ =~= old(w).pending@ + geo);
                            },
                            Ability::Dash => {
                                assert(w1.pending@ =~= old(w).pending@ + geo);
                            },
                        }
                    }
                    assert(w6.pending@ == w1.pending@);
                    assert(w6.num_slots() == n0);
                    assert forall|k: int| 0 <= k < geo.len() implies w.slots@[n0 + m0 + k]
                        == Some(#[trigger] geo[k]) by {
                        let idx = n0 + m0 + k;
                        assert(w6.pending@[m0 + k] == geo[k]);
                        assert(cast_spawn_wf(w6.pending@[m0 + k]));
                        assert(w7.slots@[idx] == w6.pending@.map_values(
                            |e2: EntityRecord| Some(e2),
                        )[m0 + k]);
                        assert(w7.slots@[idx] == Some(geo[k]));
                        assert(w8.slots@[idx] == spec_cleaned_slot(w7.slots@[idx]));
                        assert(w8.slots@[idx] == Some(geo[k]));
                        assert(w9.slots@[idx] == w8.slots@[idx]);
                        if w9.has_player() {
                            assert(0 <= idx < w9.num_slots());
                            assert(!w9.is_tile(idx));
                            assert(w.slots@[idx] == w9.slots@[idx]);
                        } else {
                            assert(*w == w9);
                        }
                    }
                    // The caster's ledger: reset by the cast, refunded by
                    // the resolver, run down by the countdown driver.
                    if old(w).is_player(a) && w.live(a) {
                        let c0 = e0a.cooldowns->0;
                        let e1 = w1.ent(a);
                        assert(rec_wf(e0a));
                        assert(e1.cooldowns == Some(spec_reset(c0, cmd.ability)));
                        assert(w1.is_player(a));
                        assert(w2.slots@[a] == spec_resolved_slot(w1, a));
                        assert(!w1.is_enemy(a));
                        let e2 = w2.slots@[a]->0;
                        assert(e2 == spec_player_after(
                            e1,
                            pair_count(w1),
                            contact_upto(w1, a, w1.num_slots()),
                            w1.invuln_active(a),
                        ));
                        assert(e2.cooldowns == Some(
                            spec_tick_all(
                                spec_reset(c0, cmd.ability),
                                (COOLDOWN_REWARD_MS as int) * (pair_count(*old(w)) as int),
                            ),
                        ));
                        let e3 = w3.slots@[a]->0;
                        if w2.has_boss() {
                            assert(w2.is_player(a));
                            assert(w2.player_index() == a);
                            assert(w2.has_player());
                            assert(e3.cooldowns == e2.cooldowns && e3.lifetime == e2.lifetime
                                && e3.health is Some == e2.health is Some && e3.tile == e2.tile);
                        } else {
                            assert(w3 == w2);
                        }
                        assert(w4.slots@[a] == Some(spec_cooldowns_ticked(e3, dt_ms)));
                        let e4 = w4.slots@[a]->0;
                        assert(e4.cooldowns == Some(
                            spec_tick_all(
                                spec_reset(c0, cmd.ability),
                                (COOLDOWN_REWARD_MS as int) * (pair_count(*old(w)) as int)
                                    + dt_ms,
                            ),
                        ));
                        let e5 = w5.slots@[a]->0;
                        assert(e5.cooldowns == e4.cooldowns && e5.lifetime == e4.lifetime
                            && e5.tile == e4.tile);
                        assert(w6.slots@[a] == spec_lifetime_ticked(w5.slots@[a], dt_ms));
                        if w6.slots@[a] is Some {
                            let e6 = w6.slots@[a]->0;
                            assert(e6.cooldowns == e5.cooldowns && e6.tile == e5.tile);
                            assert(w7.slots@[a] == w6.slots@[a]);
                            assert(w8.slots@[a] == spec_cleaned_slot(w7.slots@[a]));
                            if w8.slots@[a] is Some {
                                assert(w9.slots@[a] == w8.slots@[a]);
                                assert(!w9.is_tile(a));
                                if w9.has_player() {
                                    assert(w.slots@[a] == w9.slots@[a]);
                                } else {
                                    assert(*w == w9);
                                }
                            } else {
                                assert(w9.slots@[a] is None);
                                assert(!w9.is_tile(a));
                                if w9.has_player() {
                                    assert(w.slots@[a] == w9.slots@[a]);
                                } else {
                                    assert(*w == w9);
                                }
                                assert(!w.live(a));
                            }
                        } else {
                            assert(w7.slots@[a] is None);
                            assert(w8.slots@[a] is None);
                            assert(w9.slots@[a] is None);
                            assert(!w9.is_tile(a));
                            if w9.has_player() {
                                assert(w.slots@[a] == w9.slots@[a]);
                            } else {
                                assert(*w == w9);
                            }
                            assert(!w.live(a));
                        }
                    }
                }
            },
            None => {},
        }
        if w.has_player() {
            let p = w.player_index();
            assert(w.is_player(p));
            if p < w9.num_slots() && w9.is_tile(p) {
                assert(rec_wf(w9.ent(p)));
                if w.slots@[p] == w9.slots@[p] {
                    assert(rec_wf(w.ent(p)));
                    assert(false);
                } else {
                    assert(!w.live(p));
                    assert(false);
                }
            }
            if p >= w9.num_slots() {
                assert(w.is_tile(p));
                assert(rec_wf(w.ent(p)));
                assert(false);
            }
            assert(w.slots@[p] == w9.slots@[p]);
            assert(w9.is_player(p));
            assert(w9.has_player());
            assert(w9.player_index() == p);
            assert(resident_set(*w) == spec_nbhd(spec_tile_of(w9.ent(p).pos)));
        }
    }
    report
}


/// What a game reset leaves in a slot: resettable entities and streamed
/// tiles despawn; an actor's cooldown ledger comes back ready; a kept
/// boss is re-seeded invulnerable with a full timer and full hit points
/// at the player's position (in place when no player lives); everything
/// else stays as it was.
pub open spec fn spec_reset_slot(o: Option<EntityRecord>, player: Option<Vec2i>) -> Option<
    EntityRecord,
> {
    match o {
        Some(e) => if e.resettable is Some || e.tile is Some {
            None
        } else {
            let anchor = match e.boss {
                Some(b) => match player {
                    Some(pp) => pp,
                    None => b.anchor,
                },
                None => e.pos,
            };
            Some(
                EntityRecord {
                    pos: if e.boss is Some {
                        anchor
                    } else {
                        e.pos
                    },
                    cooldowns: match e.cooldowns {
                        Some(c) => Some(
                            Cooldowns { dash_ms: 0, attack_ms: 0, ranged_ms: 0, aoe_ms: 0 },
                        ),
                        None => None,
                    },
                    boss: match e.boss {
                        Some(b) => Some(
                            Boss {
                                state: BossState::Invulnerable,
                                timer_ms: BOSS_INVULN_MS,
                                anchor,
                                hp: BOSS_HP,
                            },
                        ),
                        None => None,
                    },
                    ..e
                },
            )
        },
        None => None,
    }
}

/// The game reset, invoked by the surrounding menu layer: clears every
/// resettable entity and every streamed tile, restores the score and the
/// clock to zero, makes every cooldown ledger ready, drops any buffered
/// spawns and debug points, and re-seeds the boss -- in place when one
/// lives, freshly spawned at the player when none does.
pub fn reset_game(w: &mut World)
    requires
        old(w).wf(),
    ensures
        final(w).wf(),
        final(w).score == 0,
        final(w).elapsed_ms == 0,
        final(w).pending@.len() == 0,
        final(w).points@.len() == 0,
        forall|i: int|
            0 <= i < old(w).num_slots() ==> #[trigger] final(w).slots@[i] == spec_reset_slot(
                old(w).slots@[i],
                if old(w).has_player() {
                    Some(old(w).ent(old(w).player_index()).pos)
                } else {
                    None
                },
            ),
        ({
            let kept_boss = old(w).has_boss() && old(w).ent(old(w).boss_index()).resettable
                is None;
            &&& (kept_boss || !old(w).has_player() ==> final(w).num_slots() == old(w).num_slots())
            &&& (!kept_boss && old(w).has_player() ==> final(w).num_slots() == old(w).num_slots()
                + 1 && final(w).is_boss(old(w).num_slots()) && final(w).ent(old(w).num_slots())
                == (EntityRecord {
                pos: old(w).ent(old(w).player_index()).pos,
                collider: Some(Collider { width: BOSS_BOX, height: BOSS_BOX }),
                boss: Some(
                    Boss {
                        state: BossState::Invulnerable,
                        timer_ms: BOSS_INVULN_MS,
                        anchor: old(w).ent(old(w).player_index()).pos,
                        hp: BOSS_HP,
                    },
                ),
                ..spec_empty_record()
            }))
        }),
{
    let ghost w0 = *w;
    let pidx = w.find_player();
    let popt: Option<Vec2i> = match pidx {
        Some(p) => w.position_of(p),
        None => None,
    };
    let n = w.slots.len();
    let mut i: usize = 0;
    while i < n
        invariant
            w.wf(),
            n == w.num_slots(),
            n == w0.num_slots(),
            i <= n,
            w.pending == w0.pending,
            w.points == w0.points,
            w.score == w0.score,
            w.elapsed_ms == w0.elapsed_ms,
            popt == if w0.has_player() {
                Some(w0.ent(w0.player_index()).pos)
            } else {
                None::<Vec2i>
            },
            popt is Some ==> -POS_LIMIT <= popt->0.x <= POS_LIMIT && -POS_LIMIT <= popt->0.y
                <= POS_LIMIT,
            forall|j: int|
                0 <= j < i ==> #[trigger] w.slots@[j] == spec_reset_slot(w0.slots@[j], popt),
            forall|j: int| i <= j < n ==> #[trigger] w.slots@[j] == w0.slots@[j],
        decreases n - i,
    {
        let ghost w_iter = *w;
        let cur: Option<EntityRecord> = w.slots[i];
        match cur {
            Some(e_read) => {
                if e_read.resettable.is_some() || e_read.tile.is_some() {
                    w.slots[i] = None;
                    proof {
                        crate::combat::lemma_despawns_preserve_wf(*w, w_iter);
                    }
                } else {
                    let mut e = e_read;
                    match e.cooldowns {
                        Some(c_read) => {
                            let mut c = c_read;
                            c.reset_all();
                            e.cooldowns = Some(c);
                        },
                        None => {},
                    }
                    match e.boss {
                        Some(b) => {
                            let anchor = match popt {
                                Some(pp) => pp,
                                None => b.anchor,
                            };
                            e.boss = Some(
                                Boss {
                                    state: BossState::Invulnerable,
                                    timer_ms: BOSS_INVULN_MS,
                                    anchor,
                                    hp: BOSS_HP,
                                },
                            );
                            e.pos = anchor;
                        },
                        None => {},
                    }
                    w.slots[i] = Some(e);
                    proof {
                        assert(rec_wf(w_iter.ent(i as int)));
                        w.lemma_single_slot_update(w_iter, i as int);
                    }
                }
            },
            None => {},
        }
        i = i + 1;
    }
    let ghost w_mid = *w;
    let bidx = w.find_boss();
    if bidx.is_none() {
        match popt {
            Some(pp) => {
                let r = spawn_bigfoot(w, pp);
                proof {
                    assert(r is Some);
                }
            },
            None => {},
        }
    }
    let ghost w_sp = *w;
    w.score = 0;
    w.elapsed_ms = 0;
    w.pending.clear();
    w.points.clear();
    proof {
        lemma_wf_store(*w, w_sp);
        if w0.has_boss() && w0.ent(w0.boss_index()).resettable is None {
            let bi = w0.boss_index();
            assert(w_mid.slots@[bi] == spec_reset_slot(w0.slots@[bi], popt));
            assert(w_mid.is_boss(bi));
            assert(w_mid.has_boss());
        } else {
            assert forall|j: int| 0 <= j < w_mid.num_slots() implies !w_mid.is_boss(j) by {
                if w_mid.is_boss(j) {
                    assert(w_mid.slots@[j] == spec_reset_slot(w0.slots@[j], popt));
                    assert(w0.is_boss(j));
                    assert(w0.has_boss());
                    assert(w0.boss_index() == j);
                }
            }
        }
    }
}

} // verus!
