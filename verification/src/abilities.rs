//! The ability cast engine.
//!
//! A cast request names an actor, an ability, an aim point and an aim
//! angle.  If the actor's cooldown ledger says the ability is ready, the
//! cooldown is reset and the ability's attack geometry is emitted as
//! transient hitbox entities, buffered for the deferred-apply point at the
//! end of the tick; otherwise the request is rejected and nothing changes.
//!
//! - the melee arc (`Ability::Attack`) samples a quarter-turn arc centered
//!   on the aim angle, every `RADIUS_STEP` units of radius out to
//!   `MELEE_MAX_RADIUS` and every `ANGLE_STEP` angle ticks, one point
//!   marker per sample;
//! - the area attack (`Ability::Aoe`) samples full rings the same way out
//!   to `AOE_MAX_RADIUS`, starting at radius zero;
//! - the ranged attack emits one line hitbox of length `RANGED_LENGTH`
//!   from the actor toward the aim point;
//! - the dash emits a line hitbox spanning the dashed stretch, relocates
//!   the actor to the aim point and grants it `DASH_INVULN_MS` of
//!   invulnerability.
//!
//! Every sampled point, and a line's two endpoints, are recorded in the
//! world's last-cast point buffer, which each cast clears first.

use vstd::prelude::*;

verus! {

use crate::components::Ability;
use crate::components::Collider;
use crate::components::Invulnerability;
use crate::components::Lifetime;
use crate::components::Line;
use crate::components::PointMarker;
use crate::components::Resettable;
use crate::components::spec_remaining;
use crate::components::spec_reset;
use crate::components::ANGLE_STEP;
use crate::components::AOE_MAX_RADIUS;
use crate::components::AOE_RING_COUNT;
use crate::components::AOE_RING_SAMPLES;
use crate::components::DASH_INVULN_MS;
use crate::components::HITBOX_LIFETIME_MS;
use crate::components::LINE_THICKNESS;
use crate::components::MARKER_SIZE;
use crate::components::MELEE_ARC_HALF;
use crate::components::MELEE_RING_COUNT;
use crate::components::MELEE_RING_SAMPLES;
use crate::components::POS_LIMIT;
use crate::components::RADIUS_STEP;
use crate::components::RANGED_LENGTH;
use crate::math::cos_fp;
use crate::math::half_toward_zero;
use crate::math::isqrt;
use crate::math::scale_trig;
use crate::math::scaled_dir;
use crate::math::sin_fp;
use crate::math::spec_cos_fp;
use crate::math::spec_half;
use crate::math::spec_isqrt;
use crate::math::spec_scale_trig;
use crate::math::spec_scaled_dir;
use crate::math::spec_sin_fp;
use crate::math::Vec2i;
use crate::math::FP_TAU;
use crate::world::cast_spawn_wf;
use crate::world::rec_wf;
use crate::world::lemma_wf_store;
use crate::world::spec_empty_record;
use crate::world::empty_record;
use crate::world::EntityRecord;
use crate::world::World;

/// Outcome of a cast request.
#[derive(Clone, Copy, PartialEq, Eq, Structural, Debug)]
pub enum CastOutcome {
    /// The ability was ready: its geometry was emitted and its cooldown
    /// restarted.
    Accepted,
    /// The ability is still cooling down; nothing changed.
    NotReady,
    /// The named entity is missing or cannot cast; nothing changed.
    NoActor,
}

/// The sample point at radius `r` and angle `a` (in ticks) from `o`.
pub open spec fn spec_sample_point(o: Vec2i, r: int, a: int) -> Vec2i {
    Vec2i {
        x: (o.x + spec_scale_trig(r, spec_cos_fp(a))) as i64,
        y: (o.y + spec_scale_trig(r, spec_sin_fp(a))) as i64,
    }
}

/// One sampled ring: `count` samples from angle `base` on, one every
/// `ANGLE_STEP` ticks, all at radius `r` around `o`.
pub open spec fn spec_ring(o: Vec2i, base: int, count: int, r: int) -> Seq<Vec2i> {
    Seq::new(count as nat, |i: int| spec_sample_point(o, r, base + ANGLE_STEP * i))
}

/// First sampled angle of a melee cast: the arc starts `MELEE_ARC_HALF`
/// ticks below the aim angle; one full turn is added so the value stays
/// nonnegative for every normalized aim angle.
pub open spec fn spec_melee_base(aim: int) -> int {
    aim + FP_TAU - MELEE_ARC_HALF
}

/// The first `k` melee rings, at radii `RADIUS_STEP`, `2 * RADIUS_STEP`,
/// and so on.
pub open spec fn spec_melee_rings(o: Vec2i, aim: int, k: int) -> Seq<Vec2i>
    decreases k,
{
    if k <= 0 {
        Seq::empty()
    } else {
        spec_melee_rings(o, aim, k - 1) + spec_ring(
            o,
            spec_melee_base(aim),
            MELEE_RING_SAMPLES as int,
            RADIUS_STEP * k,
        )
    }
}

/// Every sample point of a melee cast, ring by ring: the same grid of
/// (radius, angle) pairs for the same origin and aim angle, every time.
pub open spec fn spec_melee_points(o: Vec2i, aim: int) -> Seq<Vec2i> {
    spec_melee_rings(o, aim, MELEE_RING_COUNT as int)
}

/// The first `k` area rings, at radii 0, `RADIUS_STEP`, and so on.
pub open spec fn spec_aoe_rings(o: Vec2i, k: int) -> Seq<Vec2i>
    decreases k,
{
    if k <= 0 {
        Seq::empty()
    } else {
        spec_aoe_rings(o, k - 1) + spec_ring(
            o,
            0,
            AOE_RING_SAMPLES as int,
            RADIUS_STEP * (k - 1),
        )
    }
}

/// Every sample point of an area cast.
pub open spec fn spec_aoe_points(o: Vec2i) -> Seq<Vec2i> {
    spec_aoe_rings(o, AOE_RING_COUNT as int)
}

/// The transient point-marker hitbox spawned at one sample point.
pub open spec fn spec_marker(p: Vec2i) -> EntityRecord {
    EntityRecord {
        pos: p,
        collider: Some(Collider { width: MARKER_SIZE, height: MARKER_SIZE }),
        point_marker: Some(PointMarker),
        lifetime: Some(Lifetime { remaining_ms: HITBOX_LIFETIME_MS }),
        resettable: Some(Resettable),
        ..spec_empty_record()
    }
}

/// The point markers for a whole sequence of sample points.
pub open spec fn spec_markers_of(ps: Seq<Vec2i>) -> Seq<EntityRecord> {
    ps.map_values(|p: Vec2i| spec_marker(p))
}

/// The transient line hitbox of a ranged attack or a dash: an axis-aligned
/// box centered on the line's midpoint, as long as the line.
pub open spec fn spec_line_record(mid: Vec2i, length: u64) -> EntityRecord {
    EntityRecord {
        pos: mid,
        collider: Some(Collider { width: length, height: LINE_THICKNESS }),
        line: Some(Line),
        lifetime: Some(Lifetime { remaining_ms: HITBOX_LIFETIME_MS }),
        resettable: Some(Resettable),
        ..spec_empty_record()
    }
}

/// Euclidean distance between two points, rounded down.
pub open spec fn spec_dist(o: Vec2i, aim: Vec2i) -> int {
    spec_isqrt(
        ((aim.x - o.x) * (aim.x - o.x) + (aim.y - o.y) * (aim.y - o.y)) as nat,
    ) as int
}

/// The point `num` units of the way from `o` toward `aim` (truncated per
/// axis); `o` itself when the two coincide.
pub open spec fn spec_toward(o: Vec2i, aim: Vec2i, num: int) -> Vec2i {
    let len = spec_dist(o, aim);
    if len == 0 {
        o
    } else {
        Vec2i {
            x: (o.x + spec_scaled_dir(aim.x - o.x, num, len)) as i64,
            y: (o.y + spec_scaled_dir(aim.y - o.y, num, len)) as i64,
        }
    }
}

/// Midpoint of the dashed stretch, truncated toward the start.
pub open spec fn spec_dash_mid(o: Vec2i, aim: Vec2i) -> Vec2i {
    Vec2i {
        x: (o.x + spec_half(aim.x - o.x)) as i64,
        y: (o.y + spec_half(aim.y - o.y)) as i64,
    }
}

/// Every hitbox record one accepted cast buffers for the deferred-apply
/// point, in order: the point markers of an arc or area attack, or the
/// single line of a ranged attack or dash.
pub open spec fn spec_cast_spawns(
    e0: EntityRecord,
    ability: Ability,
    aim: Vec2i,
    aim_angle: int,
) -> Seq<EntityRecord> {
    match ability {
        Ability::Attack => spec_markers_of(spec_melee_points(e0.pos, aim_angle)),
        Ability::Aoe => spec_markers_of(spec_aoe_points(e0.pos)),
        Ability::Ranged => seq![
            spec_line_record(
                spec_toward(e0.pos, aim, (RANGED_LENGTH / 2) as int),
                RANGED_LENGTH,
            ),
        ],
        Ability::Dash => seq![
            spec_line_record(spec_dash_mid(e0.pos, aim), spec_dist(e0.pos, aim) as u64),
        ],
    }
}

/// Appending one sample keeps the marker buffer the mapped image of the
/// point buffer.
proof fn lemma_markers_push(ps: Seq<Vec2i>, p: Vec2i)
    ensures
        spec_markers_of(ps.push(p)) == spec_markers_of(ps).push(spec_marker(p)),
{
    assert(spec_markers_of(ps.push(p)) =~= spec_markers_of(ps).push(spec_marker(p)));
}

/// Emits one sampled ring: pushes every sample point and buffers one point
/// marker per sample.
fn sample_ring(w: &mut World, o: Vec2i, base: i64, count: usize, r: i64)
    requires
        old(w).wf(),
        -POS_LIMIT <= o.x <= POS_LIMIT,
        -POS_LIMIT <= o.y <= POS_LIMIT,
        0 <= base <= 200_000,
        count <= 100,
        0 <= r <= AOE_MAX_RADIUS,
    ensures
        final(w).wf(),
        final(w).slots == old(w).slots,
        final(w).score == old(w).score,
        final(w).elapsed_ms == old(w).elapsed_ms,
        final(w).points@ == old(w).points@ + spec_ring(o, base as int, count as int, r as int),
        final(w).pending@ == old(w).pending@ + spec_markers_of(
            spec_ring(o, base as int, count as int, r as int),
        ),
{
    let ghost points0 = old(w).points@;
    let ghost pend0 = old(w).pending@;
    let mut i: usize = 0;
    while i < count
        invariant
            w.wf(),
            w.slots == old(w).slots,
            w.score == old(w).score,
            w.elapsed_ms == old(w).elapsed_ms,
            -POS_LIMIT <= o.x <= POS_LIMIT,
            -POS_LIMIT <= o.y <= POS_LIMIT,
            0 <= base <= 200_000,
            count <= 100,
            0 <= r <= AOE_MAX_RADIUS,
            i <= count,
            w.points@ == points0 + spec_ring(o, base as int, i as int, r as int),
            w.pending@ == pend0 + spec_markers_of(spec_ring(o, base as int, i as int, r as int)),
        decreases count - i,
    {
        let ghost w_start = *w;
        let ghost ring_i = spec_ring(o, base as int, i as int, r as int);
        let a: i64 = base + ANGLE_STEP * (i as i64);
        let c = cos_fp(a);
        let s = sin_fp(a);
        let dx = scale_trig(r, c);
        let dy = scale_trig(r, s);
        let p = Vec2i { x: o.x + dx, y: o.y + dy };
        proof {
            assert(p == spec_sample_point(o, r as int, a as int));
        }
        w.points.push(p);
        let mut e = empty_record();
        e.pos = p;
        e.collider = Some(Collider::new(MARKER_SIZE, MARKER_SIZE));
        e.point_marker = Some(PointMarker);
        e.lifetime = Some(Lifetime { remaining_ms: HITBOX_LIFETIME_MS });
        e.resettable = Some(Resettable);
        w.pending.push(e);
        proof {
            assert(e == spec_marker(p));
            assert(cast_spawn_wf(e));
            assert forall|q: int| 0 <= q < w.pending@.len() implies cast_spawn_wf(
                #[trigger] w.pending@[q],
            ) by {
                if q < w_start.pending@.len() {
                    assert(w.pending@[q] == w_start.pending@[q]);
                    assert(cast_spawn_wf(w_start.pending@[q]));
                } else {
                    assert(w.pending@[q] == e);
                }
            }
            lemma_wf_store(*w, w_start);
            let ring_n = spec_ring(o, base as int, i as int + 1, r as int);
            assert(ring_n =~= ring_i.push(p));
            lemma_markers_push(ring_i, p);
            assert(w.points@ =~= points0 + ring_n);
            assert(w.pending@ =~= pend0 + spec_markers_of(ring_n));
        }
        i = i + 1;
    }
}

/// Two point buffers laid end to end map to their markers laid end to end.
proof fn lemma_markers_concat(a: Seq<Vec2i>, b: Seq<Vec2i>)
    ensures
        spec_markers_of(a + b) == spec_markers_of(a) + spec_markers_of(b),
{
    assert(spec_markers_of(a + b) =~= spec_markers_of(a) + spec_markers_of(b));
}

/// The melee arc attack: samples a quarter-turn arc centered on the aim
/// angle, one point-marker hitbox per (radius, angle) sample.  The sample
/// grid is a function of the origin and the aim angle alone, so casting
/// twice with the same inputs yields the same point set.
pub fn melee_attack(w: &mut World, origin: Vec2i, aim_angle: i64)
    requires
        old(w).wf(),
        -POS_LIMIT <= origin.x <= POS_LIMIT,
        -POS_LIMIT <= origin.y <= POS_LIMIT,
        0 <= aim_angle < FP_TAU,
    ensures
        final(w).wf(),
        final(w).slots == old(w).slots,
        final(w).score == old(w).score,
        final(w).elapsed_ms == old(w).elapsed_ms,
        final(w).points@ == spec_melee_points(origin, aim_angle as int),
        final(w).pending@ == old(w).pending@ + spec_markers_of(
            spec_melee_points(origin, aim_angle as int),
        ),
{
    let ghost pend0 = old(w).pending@;
    w.points.clear();
    proof {
        assert forall|q: int| 0 <= q < w.pending@.len() implies cast_spawn_wf(
            #[trigger] w.pending@[q],
        ) by {
            assert(w.pending@[q] == old(w).pending@[q]);
            assert(cast_spawn_wf(old(w).pending@[q]));
        }
        lemma_wf_store(*w, *old(w));
        assert(w.points@ =~= Seq::<Vec2i>::empty());
        assert(w.pending@ =~= pend0 + spec_markers_of(Seq::<Vec2i>::empty()));
    }
    let base: i64 = aim_angle + FP_TAU - MELEE_ARC_HALF;
    let mut k: usize = 1;
    while k <= MELEE_RING_COUNT
        invariant
            w.wf(),
            w.slots == old(w).slots,
            w.score == old(w).score,
            w.elapsed_ms == old(w).elapsed_ms,
            -POS_LIMIT <= origin.x <= POS_LIMIT,
            -POS_LIMIT <= origin.y <= POS_LIMIT,
            0 <= aim_angle < FP_TAU,
            base == spec_melee_base(aim_angle as int),
            1 <= k <= MELEE_RING_COUNT + 1,
            w.points@ == spec_melee_rings(origin, aim_angle as int, k as int - 1),
            w.pending@ == pend0 + spec_markers_of(
                spec_melee_rings(origin, aim_angle as int, k as int - 1),
            ),
        decreases MELEE_RING_COUNT + 1 - k,
    {
        let ghost rings_prev = spec_melee_rings(origin, aim_angle as int, k as int - 1);
        sample_ring(w, origin, base, MELEE_RING_SAMPLES, RADIUS_STEP * (k as i64));
        proof {
            let ring = spec_ring(
                origin,
                spec_melee_base(aim_angle as int),
                MELEE_RING_SAMPLES as int,
                RADIUS_STEP * (k as int),
            );
            assert(spec_melee_rings(origin, aim_angle as int, k as int) == rings_prev + ring);
            lemma_markers_concat(rings_prev, ring);
            assert(w.pending@ =~= pend0 + spec_markers_of(rings_prev + ring));
        }
        k = k + 1;
    }
}

/// The area attack: samples full rings around the caster out to
/// `AOE_MAX_RADIUS`, starting at radius zero, one point-marker hitbox per
/// sample.
pub fn aoe_attack(w: &mut World, origin: Vec2i)
    requires
        old(w).wf(),
        -POS_LIMIT <= origin.x <= POS_LIMIT,
        -POS_LIMIT <= origin.y <= POS_LIMIT,
    ensures
        final(w).wf(),
        final(w).slots == old(w).slots,
        final(w).score == old(w).score,
        final(w).elapsed_ms == old(w).elapsed_ms,
        final(w).points@ == spec_aoe_points(origin),
        final(w).pending@ == old(w).pending@ + spec_markers_of(spec_aoe_points(origin)),
{
    let ghost pend0 = old(w).pending@;
    w.points.clear();
    proof {
        assert forall|q: int| 0 <= q < w.pending@.len() implies cast_spawn_wf(
            #[trigger] w.pending@[q],
        ) by {
            assert(w.pending@[q] == old(w).pending@[q]);
            assert(cast_spawn_wf(old(w).pending@[q]));
        }
        lemma_wf_store(*w, *old(w));
        assert(w.points@ =~= Seq::<Vec2i>::empty());
        assert(w.pending@ =~= pend0 + spec_markers_of(Seq::<Vec2i>::empty()));
    }
    let mut k: usize = 0;
    while k < AOE_RING_COUNT
        invariant
            w.wf(),
            w.slots == old(w).slots,
            w.score == old(w).score,
            w.elapsed_ms == old(w).elapsed_ms,
            -POS_LIMIT <= origin.x <= POS_LIMIT,
            -POS_LIMIT <= origin.y <= POS_LIMIT,
            k <= AOE_RING_COUNT,
            w.points@ == spec_aoe_rings(origin, k as int),
            w.pending@ == pend0 + spec_markers_of(spec_aoe_rings(origin, k as int)),
        decreases AOE_RING_COUNT - k,
    {
        let ghost rings_prev = spec_aoe_rings(origin, k as int);
        sample_ring(w, origin, 0, AOE_RING_SAMPLES, RADIUS_STEP * (k as i64));
        proof {
            let ring = spec_ring(origin, 0, AOE_RING_SAMPLES as int, RADIUS_STEP * (k as int));
            assert(spec_aoe_rings(origin, k as int + 1) == rings_prev + ring);
            lemma_markers_concat(rings_prev, ring);
            assert(w.pending@ =~= pend0 + spec_markers_of(rings_prev + ring));
        }
        k = k + 1;
    }
}

/// The point `num` units from `o` toward `aim`, truncated per axis.
fn point_toward(o: Vec2i, aim: Vec2i, num: u64) -> (p: Vec2i)
    requires
        -POS_LIMIT <= o.x <= POS_LIMIT,
        -POS_LIMIT <= o.y <= POS_LIMIT,
        -POS_LIMIT <= aim.x <= POS_LIMIT,
        -POS_LIMIT <= aim.y <= POS_LIMIT,
        num <= 10_000,
    ensures
        p == spec_toward(o, aim, num as int),
        -POS_LIMIT - num <= p.x <= POS_LIMIT + num,
        -POS_LIMIT - num <= p.y <= POS_LIMIT + num,
{
    let dx = aim.x - o.x;
    let dy = aim.y - o.y;
    proof {
        assert(0 <= dx * dx <= 4_000_000_000_000_000_000) by (nonlinear_arith)
            requires
                -2_000_000_000 <= dx <= 2_000_000_000,
        ;
        assert(0 <= dy * dy <= 4_000_000_000_000_000_000) by (nonlinear_arith)
            requires
                -2_000_000_000 <= dy <= 2_000_000_000,
        ;
    }
    let s: i64 = dx * dx + dy * dy;
    let len = isqrt(s as u64);
    if len == 0 {
        o
    } else {
        proof {
            assert(dx <= len && -dx <= len && dy <= len && -dy <= len) by (nonlinear_arith)
                requires
                    s == dx * dx + dy * dy,
                    len >= 0,
                    s < (len + 1) * (len + 1),
            ;
        }
        let ox = scaled_dir(dx, num, len);
        let oy = scaled_dir(dy, num, len);
        Vec2i { x: o.x + ox, y: o.y + oy }
    }
}

/// The ranged line attack: one line hitbox of length `RANGED_LENGTH`
/// running from the caster toward the aim point, centered halfway along
/// the line; the point buffer records the line's two endpoints.  When the
/// aim point coincides with the caster, the line collapses onto the caster
/// and, its box still being axis-aligned, keeps its full extent there.
pub fn ranged_attack(w: &mut World, origin: Vec2i, aim: Vec2i)
    requires
        old(w).wf(),
        -POS_LIMIT <= origin.x <= POS_LIMIT,
        -POS_LIMIT <= origin.y <= POS_LIMIT,
        -POS_LIMIT <= aim.x <= POS_LIMIT,
        -POS_LIMIT <= aim.y <= POS_LIMIT,
    ensures
        final(w).wf(),
        final(w).slots == old(w).slots,
        final(w).score == old(w).score,
        final(w).elapsed_ms == old(w).elapsed_ms,
        final(w).points@ == seq![origin, spec_toward(origin, aim, RANGED_LENGTH as int)],
        final(w).pending@ == old(w).pending@.push(
            spec_line_record(
                spec_toward(origin, aim, (RANGED_LENGTH / 2) as int),
                RANGED_LENGTH,
            ),
        ),
{
    let mid = point_toward(origin, aim, RANGED_LENGTH / 2);
    let end = point_toward(origin, aim, RANGED_LENGTH);
    w.points.clear();
    w.points.push(origin);
    w.points.push(end);
    let mut e = empty_record();
    e.pos = mid;
    e.collider = Some(Collider::new(RANGED_LENGTH, LINE_THICKNESS));
    e.line = Some(Line);
    e.lifetime = Some(Lifetime { remaining_ms: HITBOX_LIFETIME_MS });
    e.resettable = Some(Resettable);
    let ghost w_start = *w;
    w.pending.push(e);
    proof {
        assert(e == spec_line_record(spec_toward(origin, aim, (RANGED_LENGTH / 2) as int), RANGED_LENGTH));
        assert(cast_spawn_wf(e));
        assert forall|q: int| 0 <= q < w.pending@.len() implies cast_spawn_wf(
            #[trigger] w.pending@[q],
        ) by {
            if q < w_start.pending@.len() {
                assert(w.pending@[q] == w_start.pending@[q]);
                assert(cast_spawn_wf(old(w).pending@[q]));
            } else {
                assert(w.pending@[q] == e);
            }
        }
        lemma_wf_store(*w, *old(w));
        assert(w.points@ =~= seq![origin, spec_toward(origin, aim, RANGED_LENGTH as int)]);
    }
}

/// The dash: emits a line hitbox spanning the dashed stretch (from the
/// actor's old position to the aim point), relocates the actor to the aim
/// point, and grants it the dash invulnerability window.  The point buffer
/// records the stretch's two endpoints.
pub fn dash_attack(w: &mut World, actor: usize, aim: Vec2i)
    requires
        old(w).wf(),
        old(w).live(actor as int),
        old(w).ent(actor as int).cooldowns is Some,
        -POS_LIMIT <= aim.x <= POS_LIMIT,
        -POS_LIMIT <= aim.y <= POS_LIMIT,
    ensures
        final(w).wf(),
        final(w).num_slots() == old(w).num_slots(),
        final(w).score == old(w).score,
        final(w).elapsed_ms == old(w).elapsed_ms,
        forall|j: int|
            0 <= j < old(w).num_slots() && j != actor as int ==> final(w).slots@[j] == old(
                w,
            ).slots@[j],
        final(w).live(actor as int),
        final(w).ent(actor as int) == (EntityRecord {
            pos: aim,
            invuln: Some(Invulnerability { remaining_ms: DASH_INVULN_MS }),
            ..old(w).ent(actor as int)
        }),
        final(w).points@ == seq![old(w).ent(actor as int).pos, aim],
        final(w).pending@ == old(w).pending@.push(
            spec_line_record(
                spec_dash_mid(old(w).ent(actor as int).pos, aim),
                spec_dist(old(w).ent(actor as int).pos, aim) as u64,
            ),
        ),
{
    let cur: Option<EntityRecord> = w.slots[actor];
    let mut e = cur.unwrap();
    let origin = e.pos;
    proof {
        assert(rec_wf(old(w).ent(actor as int)));
    }
    let dx = aim.x - origin.x;
    let dy = aim.y - origin.y;
    proof {
        assert(0 <= dx * dx <= 4_000_000_000_000_000_000) by (nonlinear_arith)
            requires
                -2_000_000_000 <= dx <= 2_000_000_000,
        ;
        assert(0 <= dy * dy <= 4_000_000_000_000_000_000) by (nonlinear_arith)
            requires
                -2_000_000_000 <= dy <= 2_000_000_000,
        ;
    }
    let s: i64 = dx * dx + dy * dy;
    let len = isqrt(s as u64);
    proof {
        assert(len <= 3_000_000_000) by (nonlinear_arith)
            requires
                len >= 0,
                len * len <= 8_000_000_000_000_000_000,
        ;
    }
    let hx = half_toward_zero(dx);
    let hy = half_toward_zero(dy);
    proof {
        assert(0 <= dx ==> 0 <= spec_half(dx as int) <= dx);
        assert(dx < 0 ==> dx <= spec_half(dx as int) <= 0);
        assert(0 <= dy ==> 0 <= spec_half(dy as int) <= dy);
        assert(dy < 0 ==> dy <= spec_half(dy as int) <= 0);
    }
    let mid = Vec2i { x: origin.x + hx, y: origin.y + hy };
    let mut le = empty_record();
    le.pos = mid;
    le.collider = Some(Collider::new(len, LINE_THICKNESS));
    le.line = Some(Line);
    le.lifetime = Some(Lifetime { remaining_ms: HITBOX_LIFETIME_MS });
    le.resettable = Some(Resettable);
    let ghost w_start = *w;
    w.pending.push(le);
    w.points.clear();
    w.points.push(origin);
    w.points.push(aim);
    proof {
        assert(le == spec_line_record(spec_dash_mid(origin, aim), spec_dist(origin, aim) as u64));
        assert(cast_spawn_wf(le));
        assert forall|q: int| 0 <= q < w.pending@.len() implies cast_spawn_wf(
            #[trigger] w.pending@[q],
        ) by {
            if q < w_start.pending@.len() {
                assert(w.pending@[q] == w_start.pending@[q]);
                assert(cast_spawn_wf(old(w).pending@[q]));
            } else {
                assert(w.pending@[q] == le);
            }
        }
        lemma_wf_store(*w, *old(w));
    }
    let ghost w_mid = *w;
    e.pos = aim;
    e.invuln = Some(Invulnerability { remaining_ms: DASH_INVULN_MS });
    w.slots[actor] = Some(e);
    proof {
        w.lemma_single_slot_update(w_mid, actor as int);
        assert(w.points@ =~= seq![old(w).ent(actor as int).pos, aim]);
    }
}

/// A cast request from the input collaborator: if `actor` is a live entity
/// with a cooldown ledger and the ability is ready, the cooldown restarts
/// and the ability's geometry is emitted; otherwise the request is
/// rejected and the world is untouched.  `aim` is the world-space aim
/// point (ranged, dash); `aim_angle` is the normalized aim direction in
/// angle ticks (melee).
pub fn request_cast(
    w: &mut World,
    actor: usize,
    ability: Ability,
    aim: Vec2i,
    aim_angle: i64,
) -> (r: CastOutcome)
    requires
        old(w).wf(),
        -POS_LIMIT <= aim.x <= POS_LIMIT,
        -POS_LIMIT <= aim.y <= POS_LIMIT,
        0 <= aim_angle < FP_TAU,
    ensures
        final(w).wf(),
        r is NoActor <==> !(old(w).live(actor as int) && old(w).ent(actor as int).cooldowns
            is Some),
        r is NotReady <==> (old(w).live(actor as int) && old(w).ent(actor as int).cooldowns
            is Some && spec_remaining(old(w).ent(actor as int).cooldowns->0, ability) != 0),
        r is Accepted <==> (old(w).live(actor as int) && old(w).ent(actor as int).cooldowns
            is Some && spec_remaining(old(w).ent(actor as int).cooldowns->0, ability) == 0),
        !(r is Accepted) ==> *final(w) == *old(w),
        r is Accepted ==> {
            let e0 = old(w).ent(actor as int);
            &&& final(w).num_slots() == old(w).num_slots()
            &&& final(w).score == old(w).score
            &&& final(w).elapsed_ms == old(w).elapsed_ms
            &&& (forall|j: int|
                0 <= j < old(w).num_slots() && j != actor as int ==> final(w).slots@[j] == old(
                    w,
                ).slots@[j])
            &&& final(w).live(actor as int)
            &&& final(w).ent(actor as int) == (EntityRecord {
                cooldowns: Some(spec_reset(e0.cooldowns->0, ability)),
                pos: if ability is Dash {
                    aim
                } else {
                    e0.pos
                },
                invuln: if ability is Dash {
                    Some(Invulnerability { remaining_ms: DASH_INVULN_MS })
                } else {
                    e0.invuln
                },
                ..e0
            })
            &&& match ability {
                Ability::Attack => final(w).points@ == spec_melee_points(e0.pos, aim_angle as int)
                    && final(w).pending@ == old(w).pending@ + spec_markers_of(
                    spec_melee_points(e0.pos, aim_angle as int),
                ),
                Ability::Aoe => final(w).points@ == spec_aoe_points(e0.pos) && final(w).pending@
                    == old(w).pending@ + spec_markers_of(spec_aoe_points(e0.pos)),
                Ability::Ranged => final(w).points@ == seq![
                    e0.pos,
                    spec_toward(e0.pos, aim, RANGED_LENGTH as int),
                ] && final(w).pending@ == old(w).pending@.push(
                    spec_line_record(
                        spec_toward(e0.pos, aim, (RANGED_LENGTH / 2) as int),
                        RANGED_LENGTH,
                    ),
                ),
                Ability::Dash => final(w).points@ == seq![e0.pos, aim] && final(w).pending@ == old(
                    w,
                ).pending@.push(
                    spec_line_record(spec_dash_mid(e0.pos, aim), spec_dist(e0.pos, aim) as u64),
                ),
            }
        },
{
    if actor >= w.slots.len() {
        return CastOutcome::NoActor;
    }
    let cur: Option<EntityRecord> = w.slots[actor];
    let e = match cur {
        Some(e) => e,
        None => {
            return CastOutcome::NoActor;
        },
    };
    let c = match e.cooldowns {
        Some(c) => c,
        None => {
            return CastOutcome::NoActor;
        },
    };
    if !c.is_ready(ability) {
        return CastOutcome::NotReady;
    }
    proof {
        assert(rec_wf(old(w).ent(actor as int)));
    }
    match ability {
        Ability::Attack => melee_attack(w, e.pos, aim_angle),
        Ability::Aoe => aoe_attack(w, e.pos),
        Ability::Ranged => ranged_attack(w, e.pos, aim),
        Ability::Dash => dash_attack(w, actor, aim),
    }
    let ghost w_mid = *w;
    let cur2: Option<EntityRecord> = w.slots[actor];
    let mut e2 = cur2.unwrap();
    let mut c2 = e2.cooldowns.unwrap();
    c2.reset(ability);
    e2.cooldowns = Some(c2);
    w.slots[actor] = Some(e2);
    proof {
        w.lemma_single_slot_update(w_mid, actor as int);
    }
    CastOutcome::Accepted
}


/// Determinism of the melee sampling: the sampled point grid is a pure
/// function of the caster's position and aim angle, so re-running a cast
/// with identical inputs yields an identical point set.
pub proof fn lemma_melee_cast_deterministic(o1: Vec2i, aim1: int, o2: Vec2i, aim2: int)
    requires
        o1 == o2,
        aim1 == aim2,
    ensures
        spec_melee_points(o1, aim1) == spec_melee_points(o2, aim2),
        spec_aoe_points(o1) == spec_aoe_points(o2),
{
}

} // verus!
