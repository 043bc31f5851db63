//! The boss phase state machine.
//!
//! The boss cycles Invulnerable -> Solid -> Invulnerable.  A phase ends
//! only when its countdown reaches zero within the current tick, never
//! early.  On the Invulnerable -> Solid transition tick the boss strikes
//! once at its anchor: a player standing within `STRIKE_RADIUS` units of
//! the anchor and holding no active invulnerability loses `STRIKE_DAMAGE`
//! hit points, exactly once per cycle.  On the Solid -> Invulnerable
//! transition the boss relocates its anchor (and itself) to the player's
//! current position; with no live player that transition is skipped for
//! the tick (the missing-singleton rule), and since the spent countdown
//! then sits at zero, the boss stays solid until a reset.  A spent boss
//! (`Cleanup`, entered when combat exhausts its hit points) is inert and
//! immune until the next game reset.

use vstd::prelude::*;

verus! {

use crate::components::Boss;
use crate::components::BossState;
use crate::components::Collider;
use crate::components::Health;
use crate::components::BOSS_BOX;
use crate::components::BOSS_HP;
use crate::components::BOSS_INVULN_MS;
use crate::components::BOSS_SOLID_MS;
use crate::components::POS_LIMIT;
use crate::components::STRIKE_DAMAGE;
use crate::components::STRIKE_RADIUS;
use crate::combat::spec_damage;
use crate::math::spec_sat_sub_u32;
use crate::math::sat_sub_ms;
use crate::math::Vec2i;
use crate::world::rec_wf;
use crate::world::spec_empty_record;
use crate::world::empty_record;
use crate::world::EntityRecord;
use crate::world::World;

/// The boss's phase countdown finishes within this tick: it was running
/// and `dt_ms` exhausts it.  Transitions happen only on such a tick.
pub open spec fn spec_phase_ends(b: Boss, dt_ms: u32) -> bool {
    b.timer_ms > 0 && spec_sat_sub_u32(b.timer_ms, dt_ms) == 0
}

/// The point `p` lies within the boss strike radius of `anchor`
/// (Euclidean distance, squared on both sides).
pub open spec fn spec_in_strike_range(anchor: Vec2i, p: Vec2i) -> bool {
    (p.x - anchor.x) * (p.x - anchor.x) + (p.y - anchor.y) * (p.y - anchor.y) <= STRIKE_RADIUS
        * STRIKE_RADIUS
}

/// The boss value after one tick: phase countdowns run down; a finished
/// Invulnerable phase flips to Solid; a finished Solid phase relocates
/// the anchor to the player and flips back to Invulnerable, but only
/// while a player lives -- with none, the transition is skipped for the
/// tick (the missing-singleton rule) and the countdown just sits at
/// zero; a spent boss never changes.
pub open spec fn spec_boss_stepped(b: Boss, dt_ms: u32, player: Option<Vec2i>) -> Boss {
    let rem = spec_sat_sub_u32(b.timer_ms, dt_ms);
    match b.state {
        BossState::Invulnerable => if spec_phase_ends(b, dt_ms) {
            Boss { state: BossState::Solid, timer_ms: BOSS_SOLID_MS, ..b }
        } else {
            Boss { timer_ms: rem, ..b }
        },
        BossState::Solid => if spec_phase_ends(b, dt_ms) {
            match player {
                Some(pp) => Boss {
                    state: BossState::Invulnerable,
                    timer_ms: BOSS_INVULN_MS,
                    anchor: pp,
                    ..b
                },
                None => Boss { timer_ms: rem, ..b },
            }
        } else {
            Boss { timer_ms: rem, ..b }
        },
        BossState::Cleanup => b,
    }
}

/// The strike lands on the player this tick: the boss's Invulnerable phase
/// ends now, the player stands within the strike radius of the anchor, and
/// the player holds no active invulnerability.
pub open spec fn spec_strike_hits_player(w: World, dt_ms: u32) -> bool {
    &&& w.has_boss()
    &&& w.has_player()
    &&& w.ent(w.boss_index()).boss->0.state is Invulnerable
    &&& spec_phase_ends(w.ent(w.boss_index()).boss->0, dt_ms)
    &&& spec_in_strike_range(w.ent(w.boss_index()).boss->0.anchor, w.ent(w.player_index()).pos)
    &&& !w.invuln_active(w.player_index())
}

/// Spawns the boss at `anchor`: invulnerable, full phase timer, full hit
/// points, its collision box.  If a boss already lives, nothing changes
/// and `None` is returned (the boss is a singleton).
pub fn spawn_bigfoot(w: &mut World, anchor: Vec2i) -> (r: Option<usize>)
    requires
        old(w).wf(),
        -POS_LIMIT <= anchor.x <= POS_LIMIT,
        -POS_LIMIT <= anchor.y <= POS_LIMIT,
    ensures
        final(w).wf(),
        old(w).has_boss() ==> r is None && *final(w) == *old(w),
        !old(w).has_boss() ==> {
            &&& r == Some(old(w).num_slots() as usize)
            &&& final(w).num_slots() == old(w).num_slots() + 1
            &&& (forall|j: int|
                0 <= j < old(w).num_slots() ==> final(w).slots@[j] == old(w).slots@[j])
            &&& final(w).is_boss(old(w).num_slots())
            &&& final(w).ent(old(w).num_slots()) == (EntityRecord {
                pos: anchor,
                collider: Some(Collider { width: BOSS_BOX, height: BOSS_BOX }),
                boss: Some(
                    Boss {
                        state: BossState::Invulnerable,
                        timer_ms: BOSS_INVULN_MS,
                        anchor,
                        hp: BOSS_HP,
                    },
                ),
                ..spec_empty_record()
            })
            &&& final(w).pending == old(w).pending
            &&& final(w).points == old(w).points
            &&& final(w).score == old(w).score
            &&& final(w).elapsed_ms == old(w).elapsed_ms
        },
{
    if w.find_boss().is_some() {
        return None;
    }
    let idx = w.slots.len();
    let mut e = empty_record();
    e.pos = anchor;
    e.collider = Some(Collider::new(BOSS_BOX, BOSS_BOX));
    e.boss = Some(
        Boss { state: BossState::Invulnerable, timer_ms: BOSS_INVULN_MS, anchor, hp: BOSS_HP },
    );
    w.slots.push(Some(e));
    proof {
        assert(w.is_boss(idx as int));
        assert forall|i: int, j: int| w.is_player(i) && w.is_player(j) implies i == j by {
            assert(old(w).is_player(i) && old(w).is_player(j));
        }
        assert forall|i: int, j: int| w.is_boss(i) && w.is_boss(j) implies i == j by {
            if i != j {
                if i == idx as int {
                    assert(old(w).is_boss(j));
                } else if j == idx as int {
                    assert(old(w).is_boss(i));
                } else {
                    assert(old(w).is_boss(i) && old(w).is_boss(j));
                }
            }
        }
        assert forall|i: int, j: int|
            w.is_tile(i) && w.is_tile(j) && i != j implies !(w.ent(i).tile->0.gx == w.ent(
            j,
        ).tile->0.gx && w.ent(i).tile->0.gy == w.ent(j).tile->0.gy) by {
            assert(old(w).is_tile(i) && old(w).is_tile(j));
        }
    }
    Some(idx)
}

/// Advances the boss phase machine by one tick.  With no live boss the
/// tick is skipped.  The boss's record follows `spec_boss_stepped` (the
/// Solid phase ends only into a live player; with none the transition is
/// skipped); on the Invulnerable -> Solid transition tick the player
/// loses `STRIKE_DAMAGE` hit points exactly when it stands within
/// `STRIKE_RADIUS` of the anchor without an active invulnerability
/// window, and is untouched otherwise.
pub fn update_bigfoot(w: &mut World, dt_ms: u32)
    requires
        old(w).wf(),
    ensures
        final(w).wf(),
        !old(w).has_boss() ==> *final(w) == *old(w),
        old(w).has_boss() ==> {
            let bi = old(w).boss_index();
            let b0 = old(w).ent(bi).boss->0;
            let popt = if old(w).has_player() {
                Some(old(w).ent(old(w).player_index()).pos)
            } else {
                None
            };
            &&& final(w).num_slots() == old(w).num_slots()
            &&& final(w).pending == old(w).pending
            &&& final(w).points == old(w).points
            &&& final(w).score == old(w).score
            &&& final(w).elapsed_ms == old(w).elapsed_ms
            &&& (forall|j: int|
                0 <= j < old(w).num_slots() && j != bi && !old(w).is_player(j)
                    ==> final(w).slots@[j] == old(w).slots@[j])
            &&& final(w).live(bi)
            &&& final(w).ent(bi) == (EntityRecord {
                pos: spec_boss_stepped(b0, dt_ms, popt).anchor,
                boss: Some(spec_boss_stepped(b0, dt_ms, popt)),
                ..old(w).ent(bi)
            })
            &&& (old(w).has_player() ==> {
                let pi = old(w).player_index();
                &&& final(w).live(pi)
                &&& final(w).ent(pi) == (EntityRecord {
                    health: if spec_strike_hits_player(*old(w), dt_ms) && old(w).ent(pi).health
                        is Some {
                        Some(
                            Health {
                                hp: spec_damage(
                                    old(w).ent(pi).health->0.hp as int,
                                    STRIKE_DAMAGE as int,
                                ) as i32,
                            },
                        )
                    } else {
                        old(w).ent(pi).health
                    },
                    ..old(w).ent(pi)
                })
            })
        },
{
    let ghost w0 = *w;
    let bidx = match w.find_boss() {
        Some(b) => b,
        None => {
            return ;
        },
    };
    let pidx = w.find_player();
    let pinfo: Option<Vec2i> = match pidx {
        Some(p) => w.position_of(p),
        None => None,
    };
    let cur: Option<EntityRecord> = w.slots[bidx];
    let mut be = cur.unwrap();
    let b0 = be.boss.unwrap();
    let rem = sat_sub_ms(b0.timer_ms, dt_ms);
    let ends = b0.timer_ms > 0 && rem == 0;
    let mut strike = false;
    match b0.state {
        BossState::Invulnerable => {
            if ends {
                be.boss = Some(Boss { state: BossState::Solid, timer_ms: BOSS_SOLID_MS, ..b0 });
                strike = true;
            } else {
                be.boss = Some(Boss { timer_ms: rem, ..b0 });
            }
        },
        BossState::Solid => {
            if ends {
                match pinfo {
                    Some(pp) => {
                        be.boss = Some(
                            Boss {
                                state: BossState::Invulnerable,
                                timer_ms: BOSS_INVULN_MS,
                                anchor: pp,
                                ..b0
                            },
                        );
                        be.pos = pp;
                    },
                    None => {
                        be.boss = Some(Boss { timer_ms: rem, ..b0 });
                    },
                }
            } else {
                be.boss = Some(Boss { timer_ms: rem, ..b0 });
            }
        },
        BossState::Cleanup => {},
    }
    let ghost w_pre = *w;
    w.slots[bidx] = Some(be);
    proof {
        assert(rec_wf(w0.ent(bidx as int)));
        if pidx is Some {
            assert(rec_wf(w0.ent(pidx->0 as int)));
        }
        w.lemma_single_slot_update(w_pre, bidx as int);
        assert(w.ent(bidx as int) == (EntityRecord {
            pos: spec_boss_stepped(b0, dt_ms, pinfo).anchor,
            boss: Some(spec_boss_stepped(b0, dt_ms, pinfo)),
            ..w0.ent(bidx as int)
        }));
    }
    if strike {
        match pidx {
            Some(p) => {
                let pcur: Option<EntityRecord> = w.slots[p];
                let mut pe = pcur.unwrap();
                let ppos = pe.pos;
                let dx = ppos.x - b0.anchor.x;
                let dy = ppos.y - b0.anchor.y;
                proof {
                    assert(0 <= dx * dx <= 17_000_000_000_000_000_000) by (nonlinear_arith)
                        requires
                            -4_004_000_000 <= dx <= 4_004_000_000,
                    ;
                    assert(0 <= dy * dy <= 17_000_000_000_000_000_000) by (nonlinear_arith)
                        requires
                            -4_004_000_000 <= dy <= 4_004_000_000,
                    ;
                }
                let d2: u128 = (dx as i128 * dx as i128) as u128 + (dy as i128 * dy as i128)
                    as u128;
                let invuln_now = match pe.invuln {
                    Some(v) => v.remaining_ms > 0,
                    None => false,
                };
                if d2 <= (STRIKE_RADIUS * STRIKE_RADIUS) as u128 && !invuln_now {
                    match pe.health {
                        Some(hh) => {
                            let mut h = hh;
                            h.take_damage(STRIKE_DAMAGE);
                            pe.health = Some(h);
                        },
                        None => {},
                    }
                }
                let ghost w_mid = *w;
                w.slots[p] = Some(pe);
                proof {
                    w.lemma_single_slot_update(w_mid, p as int);
                }
            },
            None => {},
        }
    }
}

} // verus!
