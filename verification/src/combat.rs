//! Collision and combat resolution.
//!
//! Once per tick, after movement, every attack hitbox is tested against
//! every damageable body by strict axis-aligned interval overlap.  Each
//! overlapping (hitbox, enemy) pair is one hit: it increments the score,
//! refunds a sliver of every cooldown of the player, and despawns the
//! enemy.  A solid-phase boss loses one hit point per overlapping hitbox
//! instead of despawning; an invulnerable or spent boss is exempt.  Enemy
//! bodies touching the player deal fixed contact damage unless the player
//! holds an active invulnerability window.  A hitbox registers at most one
//! hit per distinct target per tick, because each pair is examined exactly
//! once, and every pair is judged against the entity set as it stood when
//! the resolver began.

use vstd::prelude::*;

verus! {

use crate::components::Boss;
use crate::components::BossState;
use crate::components::Collider;
use crate::components::Health;
use crate::components::CONTACT_DAMAGE;
use crate::components::COOLDOWN_REWARD_MS;
use crate::components::EXT_MAX;
use crate::components::POS_WF;
use crate::components::spec_tick_all;
use crate::math::Vec2i;
use crate::math::spec_sat_add_u64;
use crate::world::rec_wf;
use crate::world::EntityRecord;
use crate::world::World;

/// Strict interval overlap of two axis-aligned boxes, stated in doubled
/// coordinates so that half extents never need rounding: box `a` spans
/// `[2 ax - w, 2 ax + w]` on the doubled x axis.  Zero-extent boxes are
/// degenerate and never overlap anything.
pub open spec fn spec_overlap(apos: Vec2i, ac: Collider, bpos: Vec2i, bc: Collider) -> bool {
    &&& ac.width > 0
    &&& ac.height > 0
    &&& bc.width > 0
    &&& bc.height > 0
    &&& 2 * apos.x - ac.width < 2 * bpos.x + bc.width
    &&& 2 * apos.x + ac.width > 2 * bpos.x - bc.width
    &&& 2 * apos.y - ac.height < 2 * bpos.y + bc.height
    &&& 2 * apos.y + ac.height > 2 * bpos.y - bc.height
}

/// Overlap is symmetric in its two boxes.
pub proof fn lemma_overlap_symmetric(apos: Vec2i, ac: Collider, bpos: Vec2i, bc: Collider)
    ensures
        spec_overlap(apos, ac, bpos, bc) == spec_overlap(bpos, bc, apos, ac),
{
}

/// A box with positive extents overlaps an identical box at the same
/// position: equal bounds are never a false negative.
pub proof fn lemma_overlap_reflexive(apos: Vec2i, ac: Collider)
    requires
        ac.width > 0,
        ac.height > 0,
    ensures
        spec_overlap(apos, ac, apos, ac),
{
}

/// A zero-area box never overlaps anything.
pub proof fn lemma_degenerate_overlaps_nothing(apos: Vec2i, ac: Collider, bpos: Vec2i, bc: Collider)
    requires
        ac.width == 0 || ac.height == 0,
    ensures
        !spec_overlap(apos, ac, bpos, bc),
        !spec_overlap(bpos, bc, apos, ac),
{
}

/// Tests two boxes for strict axis-aligned overlap.
pub fn boxes_overlap(apos: Vec2i, ac: &Collider, bpos: Vec2i, bc: &Collider) -> (r: bool)
    requires
        -POS_WF <= apos.x <= POS_WF,
        -POS_WF <= apos.y <= POS_WF,
        -POS_WF <= bpos.x <= POS_WF,
        -POS_WF <= bpos.y <= POS_WF,
        ac.width <= EXT_MAX,
        ac.height <= EXT_MAX,
        bc.width <= EXT_MAX,
        bc.height <= EXT_MAX,
    ensures
        r == spec_overlap(apos, *ac, bpos, *bc),
{
    if ac.width == 0 || ac.height == 0 || bc.width == 0 || bc.height == 0 {
        return false;
    }
    let aw = ac.width as i64;
    let ah = ac.height as i64;
    let bw = bc.width as i64;
    let bh = bc.height as i64;
    2 * apos.x - aw < 2 * bpos.x + bw && 2 * apos.x + aw > 2 * bpos.x - bw && 2 * apos.y - ah < 2
        * bpos.y + bh && 2 * apos.y + ah > 2 * bpos.y - bh
}

/// A live attack hitbox that carries a collision box.
pub open spec fn armed_hitbox(w: World, h: int) -> bool {
    w.is_hitbox(h) && w.ent(h).collider is Some
}

/// A live enemy body that carries a collision box.
pub open spec fn hittable_enemy(w: World, t: int) -> bool {
    w.is_enemy(t) && w.ent(t).collider is Some
}

/// Hitbox `h` lands a hit on enemy `t` this tick.
pub open spec fn hit_pair(w: World, h: int, t: int) -> bool {
    &&& armed_hitbox(w, h)
    &&& hittable_enemy(w, t)
    &&& spec_overlap(w.ent(h).pos, w.ent(h).collider->0, w.ent(t).pos, w.ent(t).collider->0)
}

/// Number of enemies among the first `n` slots hit by hitbox `h`.
pub open spec fn row_hits(w: World, h: int, n: int) -> nat
    decreases n,
{
    if n <= 0 {
        0
    } else {
        row_hits(w, h, n - 1) + if hit_pair(w, h, n - 1) {
            1nat
        } else {
            0nat
        }
    }
}

/// Number of (hitbox, enemy) hits whose hitbox lies among the first `hn`
/// slots.
pub open spec fn pair_count_upto(w: World, hn: int) -> nat
    decreases hn,
{
    if hn <= 0 {
        0
    } else {
        pair_count_upto(w, hn - 1) + row_hits(w, hn - 1, w.num_slots())
    }
}

/// Total number of (hitbox, enemy) hits this tick: one per overlapping
/// pair, so one hitbox may hit many distinct enemies, and each distinct
/// pair is counted exactly once.
pub open spec fn pair_count(w: World) -> nat {
    pair_count_upto(w, w.num_slots())
}

/// Enemy `t` is hit by some hitbox among the first `hn` slots.
pub open spec fn enemy_hit_before(w: World, t: int, hn: int) -> bool {
    exists|h: int| 0 <= h < hn && hit_pair(w, h, t)
}

/// Enemy `t` is hit by some hitbox this tick.
pub open spec fn enemy_hit(w: World, t: int) -> bool {
    exists|h: int| hit_pair(w, h, t)
}

/// Number of hitboxes among the first `hn` slots overlapping the body at
/// slot `b` (used for the boss).
pub open spec fn target_hits_upto(w: World, b: int, hn: int) -> nat
    decreases hn,
{
    if hn <= 0 {
        0
    } else {
        target_hits_upto(w, b, hn - 1) + if hits_target(w, hn - 1, b) {
            1nat
        } else {
            0nat
        }
    }
}

/// Hitbox `h` overlaps the live collidable body at slot `b`.
pub open spec fn hits_target(w: World, h: int, b: int) -> bool {
    &&& armed_hitbox(w, h)
    &&& w.live(b)
    &&& w.ent(b).collider is Some
    &&& spec_overlap(w.ent(h).pos, w.ent(h).collider->0, w.ent(b).pos, w.ent(b).collider->0)
}

/// Enemy body `t` touches the player at slot `p`.
pub open spec fn contact_pair(w: World, p: int, t: int) -> bool {
    &&& w.is_player(p)
    &&& w.ent(p).collider is Some
    &&& hittable_enemy(w, t)
    &&& spec_overlap(w.ent(p).pos, w.ent(p).collider->0, w.ent(t).pos, w.ent(t).collider->0)
}

/// Number of enemy bodies among the first `tn` slots touching the player.
pub open spec fn contact_upto(w: World, p: int, tn: int) -> nat
    decreases tn,
{
    if tn <= 0 {
        0
    } else {
        contact_upto(w, p, tn - 1) + if contact_pair(w, p, tn - 1) {
            1nat
        } else {
            0nat
        }
    }
}

/// A count clamped into a 64-bit counter.
pub open spec fn cap64(n: nat) -> u64 {
    if n <= u64::MAX {
        n as u64
    } else {
        u64::MAX
    }
}

/// Hit points after `amount` damage, saturating at the lowest value.
pub open spec fn spec_damage(hp: int, amount: int) -> int {
    if hp - amount >= i32::MIN {
        hp - amount
    } else {
        i32::MIN as int
    }
}

/// A hitbox that is not armed hits nothing in any prefix.
proof fn lemma_row_hits_zero(w: World, h: int, n: int)
    requires
        !armed_hitbox(w, h),
    ensures
        row_hits(w, h, n) == 0,
    decreases n,
{
    if n > 0 {
        lemma_row_hits_zero(w, h, n - 1);
    }
}

/// The slots that matter to hit pairs agree between two worlds: every
/// slot is either identical, or in both worlds live and neither an
/// attack hitbox nor an enemy (as a cast leaves the casting actor).
pub open spec fn combat_agrees(w1: World, w2: World) -> bool {
    &&& w1.num_slots() == w2.num_slots()
    &&& (forall|i: int|
        0 <= i < w1.num_slots() ==> (#[trigger] w1.slots@[i] == w2.slots@[i] || (w1.live(i)
            && w2.live(i) && !w1.is_hitbox(i) && !w2.is_hitbox(i) && !w1.is_enemy(i)
            && !w2.is_enemy(i))))
}

/// Hit pairs are blind to slots that are neither hitboxes nor enemies.
proof fn lemma_hit_pair_congruent(w1: World, w2: World, h: int, t: int)
    requires
        combat_agrees(w1, w2),
    ensures
        hit_pair(w1, h, t) == hit_pair(w2, h, t),
{
    if 0 <= h < w1.num_slots() && 0 <= t < w1.num_slots() {
        assert(w1.slots@[h] == w2.slots@[h] || (!w1.is_hitbox(h) && !w2.is_hitbox(h)));
        assert(w1.slots@[t] == w2.slots@[t] || (!w1.is_enemy(t) && !w2.is_enemy(t)));
    }
}

/// One hitbox's row count is blind to such slots too.
proof fn lemma_row_hits_congruent(w1: World, w2: World, h: int, n: int)
    requires
        combat_agrees(w1, w2),
    ensures
        row_hits(w1, h, n) == row_hits(w2, h, n),
    decreases n,
{
    if n > 0 {
        lemma_row_hits_congruent(w1, w2, h, n - 1);
        lemma_hit_pair_congruent(w1, w2, h, n - 1);
    }
}

/// And so is the hit count over any prefix of hitboxes.
proof fn lemma_pair_count_upto_congruent(w1: World, w2: World, k: int)
    requires
        combat_agrees(w1, w2),
    ensures
        pair_count_upto(w1, k) == pair_count_upto(w2, k),
    decreases k,
{
    if k > 0 {
        lemma_pair_count_upto_congruent(w1, w2, k - 1);
        lemma_row_hits_congruent(w1, w2, k - 1, w1.num_slots());
    }
}

/// A change confined to slots that are neither hitboxes nor enemies --
/// as a cast's effect on the casting actor is -- moves no hit: the pair
/// count and the set of hit enemies are the same in both worlds.
pub proof fn lemma_combat_counts_congruent(w1: World, w2: World)
    requires
        combat_agrees(w1, w2),
    ensures
        pair_count(w1) == pair_count(w2),
        forall|t: int| #[trigger] enemy_hit(w1, t) == enemy_hit(w2, t),
{
    lemma_pair_count_upto_congruent(w1, w2, w1.num_slots());
    assert forall|t: int| #[trigger] enemy_hit(w1, t) == enemy_hit(w2, t) by {
        if enemy_hit(w1, t) {
            let hw = choose|hh: int| hit_pair(w1, hh, t);
            lemma_hit_pair_congruent(w1, w2, hw, t);
            assert(hit_pair(w2, hw, t));
        }
        if enemy_hit(w2, t) {
            let hw = choose|hh: int| hit_pair(w2, hh, t);
            lemma_hit_pair_congruent(w1, w2, hw, t);
            assert(hit_pair(w1, hw, t));
        }
    }
}

/// Rows of unarmed slots contribute nothing to the hit count.
proof fn lemma_pair_count_single(w: World, h: int, k: int)
    requires
        forall|h2: int| armed_hitbox(w, h2) ==> h2 == h,
    ensures
        pair_count_upto(w, k) == if k > h && armed_hitbox(w, h) {
            row_hits(w, h, w.num_slots())
        } else {
            0
        },
    decreases k,
{
    if k > 0 {
        lemma_pair_count_single(w, h, k - 1);
        if k - 1 != h || !armed_hitbox(w, k - 1) {
            lemma_row_hits_zero(w, k - 1, w.num_slots());
        }
    }
}

/// With a single armed hitbox in the world, the tick's hit count is
/// exactly the number of distinct enemies that hitbox overlaps: the
/// resolver then raises the score by that number and despawns each of
/// those enemies, and a hitbox overlapping no enemy leaves the score
/// unchanged.
pub proof fn lemma_single_hitbox_hits(w: World, h: int)
    requires
        armed_hitbox(w, h),
        forall|h2: int| armed_hitbox(w, h2) ==> h2 == h,
    ensures
        pair_count(w) == row_hits(w, h, w.num_slots()),
        forall|t: int| hit_pair(w, h, t) ==> enemy_hit(w, t),
{
    lemma_pair_count_single(w, h, w.num_slots());
}

/// The player's record after the resolver: contact damage applied unless
/// an invulnerability window is active, and the cooldown reward refunded
/// once per hit landed anywhere.
pub open spec fn spec_player_after(e: EntityRecord, pairs: nat, contacts: nat, invuln: bool) -> EntityRecord {
    EntityRecord {
        health: if e.health is Some && !invuln {
            Some(
                Health {
                    hp: spec_damage(
                        e.health->0.hp as int,
                        (CONTACT_DAMAGE as int) * contacts,
                    ) as i32,
                },
            )
        } else {
            e.health
        },
        cooldowns: if e.cooldowns is Some {
            Some(spec_tick_all(e.cooldowns->0, (COOLDOWN_REWARD_MS as int) * pairs))
        } else {
            None
        },
        ..e
    }
}

/// The boss's record after the resolver: a solid boss loses one hit point
/// per overlapping hitbox and is spent (enters `Cleanup`) when its hit
/// points are exhausted; an invulnerable or spent boss is untouched.
pub open spec fn spec_boss_after(e: EntityRecord, hits: nat) -> EntityRecord {
    if e.boss is Some && e.boss->0.state is Solid {
        EntityRecord {
            boss: Some(
                Boss {
                    hp: spec_damage(e.boss->0.hp as int, hits as int) as i32,
                    state: if spec_damage(e.boss->0.hp as int, hits as int) <= 0 {
                        BossState::Cleanup
                    } else {
                        BossState::Solid
                    },
                    ..e.boss->0
                },
            ),
            ..e
        }
    } else {
        e
    }
}

/// What the resolver leaves in slot `t`, as a function of the world it
/// started from: hit enemies despawn, the player takes contact damage and
/// collects the cooldown reward, a solid boss loses hit points, and every
/// other entity is untouched.
pub open spec fn spec_resolved_slot(w0: World, t: int) -> Option<EntityRecord> {
    if w0.is_enemy(t) && enemy_hit(w0, t) {
        None
    } else if w0.is_player(t) {
        Some(
            spec_player_after(
                w0.ent(t),
                pair_count(w0),
                contact_upto(w0, t, w0.num_slots()),
                w0.invuln_active(t),
            ),
        )
    } else if w0.is_boss(t) {
        Some(spec_boss_after(w0.ent(t), target_hits_upto(w0, t, w0.num_slots())))
    } else {
        w0.slots@[t]
    }
}

/// Scans every (hitbox, enemy) pair once: returns the clamped number of
/// hits and, per slot, whether the enemy in it was hit.
fn scan_enemy_hits(w: &World) -> (res: (u64, Vec<bool>))
    requires
        w.wf(),
    ensures
        res.0 == cap64(pair_count(*w)),
        res.1@.len() == w.num_slots(),
        forall|t: int| 0 <= t < w.num_slots() ==> res.1@[t] == enemy_hit(*w, t),
{
    let n = w.slots.len();
    let mut flags: Vec<bool> = Vec::new();
    let mut k: usize = 0;
    while k < n
        invariant
            k <= n,
            flags@.len() == k,
            forall|j: int| 0 <= j < k ==> !flags@[j],
        decreases n - k,
    {
        flags.push(false);
        k = k + 1;
    }
    let mut count: u64 = 0;
    let mut h: usize = 0;
    while h < n
        invariant
            w.wf(),
            n == w.num_slots(),
            h <= n,
            flags@.len() == n,
            count == cap64(pair_count_upto(*w, h as int)),
            forall|t: int| 0 <= t < n ==> flags@[t] == enemy_hit_before(*w, t, h as int),
        decreases n - h,
    {
        let slot: Option<EntityRecord> = w.slots[h];
        let mut armed = false;
        let mut hpos = Vec2i { x: 0, y: 0 };
        let mut hcol = Collider { width: 0, height: 0 };
        match slot {
            Some(e) => {
                if (e.line.is_some() || e.point_marker.is_some()) && e.collider.is_some() {
                    armed = true;
                    hpos = e.pos;
                    hcol = e.collider.unwrap();
                }
            },
            None => {},
        }
        if armed {
            assert(armed_hitbox(*w, h as int));
            assert(hpos == w.ent(h as int).pos);
            assert(hcol == w.ent(h as int).collider->0);
            let mut t: usize = 0;
            while t < n
                invariant
                    w.wf(),
                    n == w.num_slots(),
                    h < n,
                    t <= n,
                    flags@.len() == n,
                    armed_hitbox(*w, h as int),
                    hpos == w.ent(h as int).pos,
                    hcol == w.ent(h as int).collider->0,
                    count == cap64(
                        pair_count_upto(*w, h as int) + row_hits(*w, h as int, t as int),
                    ),
                    forall|t2: int|
                        0 <= t2 < t ==> flags@[t2] == (enemy_hit_before(*w, t2, h as int)
                            || hit_pair(*w, h as int, t2)),
                    forall|t2: int|
                        t <= t2 < n ==> flags@[t2] == enemy_hit_before(*w, t2, h as int),
                decreases n - t,
            {
                let tslot: Option<EntityRecord> = w.slots[t];
                let mut hit = false;
                match tslot {
                    Some(e2) => {
                        if e2.enemy.is_some() && e2.collider.is_some() {
                            let c2 = e2.collider.unwrap();
                            if boxes_overlap(hpos, &hcol, e2.pos, &c2) {
                                hit = true;
                            }
                        }
                    },
                    None => {},
                }
                assert(hit == hit_pair(*w, h as int, t as int));
                if hit {
                    if count < u64::MAX {
                        count = count + 1;
                    }
                    flags[t] = true;
                }
                assert(row_hits(*w, h as int, t as int + 1) == row_hits(*w, h as int, t as int)
                    + if hit_pair(*w, h as int, t as int) {
                    1nat
                } else {
                    0nat
                });
                t = t + 1;
            }
        } else {
            proof {
                lemma_row_hits_zero(*w, h as int, n as int);
                assert forall|t2: int| 0 <= t2 < n implies flags@[t2] == (enemy_hit_before(
                    *w,
                    t2,
                    h as int,
                ) || hit_pair(*w, h as int, t2)) by {
                    assert(!hit_pair(*w, h as int, t2));
                }
            }
        }
        proof {
            assert(pair_count_upto(*w, h as int + 1) == pair_count_upto(*w, h as int) + row_hits(
                *w,
                h as int,
                n as int,
            ));
            assert forall|t2: int| 0 <= t2 < n implies (enemy_hit_before(*w, t2, h as int)
                || hit_pair(*w, h as int, t2)) == enemy_hit_before(*w, t2, h as int + 1) by {
                if enemy_hit_before(*w, t2, h as int) {
                    let hw = choose|hh: int| 0 <= hh < h as int && hit_pair(*w, hh, t2);
                    assert(0 <= hw < h as int + 1 && hit_pair(*w, hw, t2));
                }
                if hit_pair(*w, h as int, t2) {
                    assert(0 <= (h as int) && (h as int) < (h as int) + 1 && hit_pair(
                        *w,
                        h as int,
                        t2,
                    ));
                }
                if enemy_hit_before(*w, t2, h as int + 1) && !hit_pair(*w, h as int, t2) {
                    let hw = choose|hh: int| 0 <= hh < h as int + 1 && hit_pair(*w, hh, t2);
                    assert(hw != h as int);
                    assert(0 <= hw < h as int && hit_pair(*w, hw, t2));
                }
            }
        }
        h = h + 1;
    }
    proof {
        assert forall|t: int| 0 <= t < n implies enemy_hit_before(*w, t, n as int) == enemy_hit(
            *w,
            t,
        ) by {
            if enemy_hit(*w, t) {
                let hw = choose|hh: int| hit_pair(*w, hh, t);
                assert(armed_hitbox(*w, hw));
                assert(0 <= hw < n && hit_pair(*w, hw, t));
            }
        }
    }
    (count, flags)
}

/// Counts the hitboxes overlapping the collidable body in slot `b`.
fn count_hits_on(w: &World, b: usize) -> (r: u64)
    requires
        w.wf(),
        w.live(b as int),
    ensures
        r == cap64(target_hits_upto(*w, b as int, w.num_slots())),
{
    let n = w.slots.len();
    let bslot: Option<EntityRecord> = w.slots[b];
    let be = bslot.unwrap();
    let mut count: u64 = 0;
    let mut h: usize = 0;
    while h < n
        invariant
            w.wf(),
            n == w.num_slots(),
            h <= n,
            w.live(b as int),
            be == w.ent(b as int),
            count == cap64(target_hits_upto(*w, b as int, h as int)),
        decreases n - h,
    {
        let slot: Option<EntityRecord> = w.slots[h];
        let mut hit = false;
        match slot {
            Some(e) => {
                if (e.line.is_some() || e.point_marker.is_some()) && e.collider.is_some() {
                    match be.collider {
                        Some(bc) => {
                            let c = e.collider.unwrap();
                            if boxes_overlap(e.pos, &c, be.pos, &bc) {
                                hit = true;
                            }
                        },
                        None => {},
                    }
                }
            },
            None => {},
        }
        assert(hit == hits_target(*w, h as int, b as int));
        if hit {
            if count < u64::MAX {
                count = count + 1;
            }
        }
        assert(target_hits_upto(*w, b as int, h as int + 1) == target_hits_upto(
            *w,
            b as int,
            h as int,
        ) + if hits_target(*w, h as int, b as int) {
            1nat
        } else {
            0nat
        });
        h = h + 1;
    }
    count
}

/// Counts the enemy bodies touching the player in slot `p`.
fn count_contacts(w: &World, p: usize) -> (r: u64)
    requires
        w.wf(),
        w.is_player(p as int),
    ensures
        r == cap64(contact_upto(*w, p as int, w.num_slots())),
{
    let n = w.slots.len();
    let pslot: Option<EntityRecord> = w.slots[p];
    let pe = pslot.unwrap();
    let mut count: u64 = 0;
    let mut t: usize = 0;
    while t < n
        invariant
            w.wf(),
            n == w.num_slots(),
            t <= n,
            w.is_player(p as int),
            pe == w.ent(p as int),
            count == cap64(contact_upto(*w, p as int, t as int)),
        decreases n - t,
    {
        let slot: Option<EntityRecord> = w.slots[t];
        let mut hit = false;
        match slot {
            Some(e) => {
                if e.enemy.is_some() && e.collider.is_some() {
                    match pe.collider {
                        Some(pc) => {
                            let c = e.collider.unwrap();
                            if boxes_overlap(pe.pos, &pc, e.pos, &c) {
                                hit = true;
                            }
                        },
                        None => {},
                    }
                }
            },
            None => {},
        }
        assert(hit == contact_pair(*w, p as int, t as int));
        if hit {
            if count < u64::MAX {
                count = count + 1;
            }
        }
        assert(contact_upto(*w, p as int, t as int + 1) == contact_upto(*w, p as int, t as int)
            + if contact_pair(*w, p as int, t as int) {
            1nat
        } else {
            0nat
        });
        t = t + 1;
    }
    count
}

/// Hit points after clamped contact damage, one `CONTACT_DAMAGE` per
/// touching enemy.
fn apply_contact_damage(hp: i32, contacts: u64) -> (r: i32)
    ensures
        r as int == spec_damage(hp as int, (CONTACT_DAMAGE as int) * (contacts as int)),
{
    let capped: u64 = if contacts > 100_000_000 {
        100_000_000
    } else {
        contacts
    };
    let nv: i64 = (hp as i64) - 100 * (capped as i64);
    if nv < i32::MIN as i64 {
        i32::MIN
    } else {
        nv as i32
    }
}

/// Hit points after one point of damage per hit taken.
fn apply_unit_damage(hp: i32, hits: u64) -> (r: i32)
    ensures
        r as int == spec_damage(hp as int, hits as int),
{
    let capped: u64 = if hits > 10_000_000_000 {
        10_000_000_000
    } else {
        hits
    };
    let nv: i64 = (hp as i64) - (capped as i64);
    if nv < i32::MIN as i64 {
        i32::MIN
    } else {
        nv as i32
    }
}

/// Despawning entities and rewriting single slots in a bounded way keeps
/// the store well formed; despawns preserve every `wf` clause because
/// every clause only constrains live slots.
pub(crate) proof fn lemma_despawns_preserve_wf(cur: World, prev: World)
    requires
        prev.wf(),
        cur.num_slots() == prev.num_slots(),
        cur.pending == prev.pending,
        forall|j: int|
            0 <= j < prev.num_slots() ==> #[trigger] cur.slots@[j] == prev.slots@[j]
                || cur.slots@[j] is None,
    ensures
        cur.wf(),
{
    assert forall|i: int|
        0 <= i < cur.num_slots() && #[trigger] cur.slots@[i] is Some implies rec_wf(
        cur.slots@[i]->0,
    ) by {
        assert(cur.slots@[i] == prev.slots@[i]);
    }
    assert forall|i: int, j: int| cur.is_player(i) && cur.is_player(j) implies i == j by {
        assert(prev.is_player(i) && prev.is_player(j));
    }
    assert forall|i: int, j: int| cur.is_boss(i) && cur.is_boss(j) implies i == j by {
        assert(prev.is_boss(i) && prev.is_boss(j));
    }
    assert forall|i: int, j: int|
        cur.is_tile(i) && cur.is_tile(j) && i != j implies !(cur.ent(i).tile->0.gx == cur.ent(
        j,
    ).tile->0.gx && cur.ent(i).tile->0.gy == cur.ent(j).tile->0.gy) by {
        assert(prev.is_tile(i) && prev.is_tile(j));
    }
}

/// The combat resolver: runs once per tick after movement.  Judged against
/// the entity set as it stands on entry, every overlapping (hitbox, enemy)
/// pair is one hit: the score rises by the number of hits, hit enemies
/// despawn, the player's ledger is refunded `COOLDOWN_REWARD_MS` per hit,
/// the player takes `CONTACT_DAMAGE` per touching enemy unless
/// invulnerable, and a solid boss loses one hit point per overlapping
/// hitbox, entering `Cleanup` when spent.  Nothing else changes.
pub fn resolve_combat(w: &mut World) -> (hits: u64)
    requires
        old(w).wf(),
    ensures
        final(w).wf(),
        final(w).num_slots() == old(w).num_slots(),
        final(w).pending == old(w).pending,
        final(w).points == old(w).points,
        final(w).elapsed_ms == old(w).elapsed_ms,
        final(w).score == spec_sat_add_u64(old(w).score, pair_count(*old(w)) as int),
        hits == cap64(pair_count(*old(w))),
        forall|t: int|
            0 <= t < old(w).num_slots() ==> #[trigger] final(w).slots@[t] == spec_resolved_slot(
                *old(w),
                t,
            ),
{
    let ghost w0 = *w;
    let pidx = w.find_player();
    let bidx = w.find_boss();
    let (pairs, flags) = scan_enemy_hits(w);
    let contacts: u64 = match pidx {
        Some(p) => count_contacts(w, p),
        None => 0,
    };
    let boss_hits: u64 = match bidx {
        Some(b) => count_hits_on(w, b),
        None => 0,
    };
    let n = w.slots.len();

    // Score: one kill per (hitbox, enemy) hit.
    if w.score <= u64::MAX - pairs {
        w.score = w.score + pairs;
    } else {
        w.score = u64::MAX;
    }
    proof {
        assert(w.score == spec_sat_add_u64(w0.score, pair_count(w0) as int));
    }

    // Despawn every hit enemy.
    let mut t: usize = 0;
    while t < n
        invariant
            n == w.num_slots(),
            t <= n,
            flags@.len() == n,
            w.pending == w0.pending,
            w.points == w0.points,
            w.elapsed_ms == w0.elapsed_ms,
            w.score == spec_sat_add_u64(w0.score, pair_count(w0) as int),
            forall|j: int| 0 <= j < n ==> flags@[j] == enemy_hit(w0, j),
            forall|j: int|
                0 <= j < t ==> #[trigger] w.slots@[j] == if flags@[j] {
                    None::<EntityRecord>
                } else {
                    w0.slots@[j]
                },
            forall|j: int| t <= j < n ==> #[trigger] w.slots@[j] == w0.slots@[j],
        decreases n - t,
    {
        if flags[t] {
            w.slots[t] = None;
        }
        t = t + 1;
    }

    // Player: contact damage and the cooldown reward.
    match pidx {
        Some(p) => {
            proof {
                if flags@[p as int] {
                    assert(enemy_hit(w0, p as int));
                    let hw = choose|hh: int| hit_pair(w0, hh, p as int);
                    assert(hittable_enemy(w0, p as int));
                    assert(false);
                }
            }
            let cur: Option<EntityRecord> = w.slots[p];
            let mut e = cur.unwrap();
            let invuln_now = match e.invuln {
                Some(v) => v.remaining_ms > 0,
                None => false,
            };
            match e.health {
                Some(hh) => {
                    if !invuln_now {
                        e.health = Some(Health { hp: apply_contact_damage(hh.hp, contacts) });
                    }
                },
                None => {},
            }
            match e.cooldowns {
                Some(c) => {
                    let amount: u32 = if pairs >= 85_899_346 {
                        u32::MAX
                    } else {
                        (pairs as u32) * 50
                    };
                    let mut c2 = c;
                    c2.tick(amount);
                    proof {
                        assert(spec_tick_all(c, amount as int) == spec_tick_all(
                            c,
                            (COOLDOWN_REWARD_MS as int) * (pair_count(w0) as int),
                        ));
                    }
                    e.cooldowns = Some(c2);
                },
                None => {},
            }
            w.slots[p] = Some(e);
            proof {
                assert(spec_damage(
                    w0.ent(p as int).health->0.hp as int,
                    (CONTACT_DAMAGE as int) * (contacts as int),
                ) == spec_damage(
                    w0.ent(p as int).health->0.hp as int,
                    (CONTACT_DAMAGE as int) * (contact_upto(w0, p as int, w0.num_slots()) as int),
                ));
                assert(w.slots@[p as int] == spec_resolved_slot(w0, p as int));
            }
        },
        None => {},
    }

    // Boss: a solid boss absorbs the hits; it is spent at zero hit points.
    match bidx {
        Some(b) => {
            proof {
                if flags@[b as int] {
                    assert(enemy_hit(w0, b as int));
                    let hw = choose|hh: int| hit_pair(w0, hh, b as int);
                    assert(hittable_enemy(w0, b as int));
                    assert(false);
                }
            }
            let cur: Option<EntityRecord> = w.slots[b];
            let mut e = cur.unwrap();
            match e.boss {
                Some(bo) => {
                    match bo.state {
                        BossState::Solid => {
                            let newhp = apply_unit_damage(bo.hp, boss_hits);
                            let newstate = if newhp <= 0 {
                                BossState::Cleanup
                            } else {
                                BossState::Solid
                            };
                            e.boss = Some(Boss { hp: newhp, state: newstate, ..bo });
                        },
                        _ => {},
                    }
                },
                None => {},
            }
            w.slots[b] = Some(e);
            proof {
                assert(spec_damage(w0.ent(b as int).boss->0.hp as int, boss_hits as int)
                    == spec_damage(
                    w0.ent(b as int).boss->0.hp as int,
                    target_hits_upto(w0, b as int, w0.num_slots()) as int,
                ));
                assert(w.slots@[b as int] == spec_resolved_slot(w0, b as int));
            }
        },
        None => {},
    }

    proof {
        assert forall|j: int| 0 <= j < n implies #[trigger] w.slots@[j] == spec_resolved_slot(
            w0,
            j,
        ) by {
            if flags@[j] {
                assert(enemy_hit(w0, j));
                let hw = choose|hh: int| hit_pair(w0, hh, j);
                assert(hittable_enemy(w0, j));
                assert(w0.is_enemy(j) && enemy_hit(w0, j));
            } else {
                assert(!enemy_hit(w0, j));
                if w0.is_player(j) {
                    assert(pidx is Some && pidx->0 == j);
                } else if w0.is_boss(j) {
                    assert(bidx is Some && bidx->0 == j);
                }
            }
        }
        lemma_resolved_preserves_wf(*w, w0);
    }
    pairs
}

/// The resolver's pointwise slot formula preserves well-formedness.
proof fn lemma_resolved_preserves_wf(cur: World, prev: World)
    requires
        prev.wf(),
        cur.num_slots() == prev.num_slots(),
        cur.pending == prev.pending,
        forall|j: int|
            0 <= j < prev.num_slots() ==> #[trigger] cur.slots@[j] == spec_resolved_slot(prev, j),
    ensures
        cur.wf(),
{
    assert forall|i: int|
        0 <= i < cur.num_slots() && #[trigger] cur.slots@[i] is Some implies rec_wf(
        cur.slots@[i]->0,
    ) by {
        assert(cur.slots@[i] == spec_resolved_slot(prev, i));
        assert(prev.slots@[i] is Some);
        assert(rec_wf(prev.slots@[i]->0));
    }
    assert forall|i: int, j: int| cur.is_player(i) && cur.is_player(j) implies i == j by {
        assert(cur.slots@[i] == spec_resolved_slot(prev, i));
        assert(cur.slots@[j] == spec_resolved_slot(prev, j));
        assert(prev.is_player(i) && prev.is_player(j));
    }
    assert forall|i: int, j: int| cur.is_boss(i) && cur.is_boss(j) implies i == j by {
        assert(cur.slots@[i] == spec_resolved_slot(prev, i));
        assert(cur.slots@[j] == spec_resolved_slot(prev, j));
        assert(prev.is_boss(i) && prev.is_boss(j));
    }
    assert forall|i: int, j: int|
        cur.is_tile(i) && cur.is_tile(j) && i != j implies !(cur.ent(i).tile->0.gx == cur.ent(
        j,
    ).tile->0.gx && cur.ent(i).tile->0.gy == cur.ent(j).tile->0.gy) by {
        assert(cur.slots@[i] == spec_resolved_slot(prev, i));
        assert(cur.slots@[j] == spec_resolved_slot(prev, j));
        assert(prev.is_tile(i) && prev.is_tile(j));
    }
}

} // verus!
