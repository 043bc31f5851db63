//! The world-streaming controller.
//!
//! The world is tiled by fixed-size terrain chunks addressed by integer
//! grid coordinates.  Every tick the controller computes the player's tile
//! coordinate by rounding each position axis to the nearest tile, spawns a
//! tile entity for every coordinate of the player's 3 by 3 neighborhood
//! not yet resident, and despawns every resident tile more than one tile
//! away on either axis.  After one run the resident set equals exactly the
//! player's 3 by 3 neighborhood, which also makes the controller
//! idempotent while the player stays inside its tile.

use vstd::prelude::*;

verus! {

use crate::components::Tile;
use crate::components::POS_LIMIT;
use crate::math::round_div;
use crate::math::spec_round_div;
use crate::math::Vec2i;
use crate::world::rec_wf;
use crate::world::spec_empty_record;
use crate::world::empty_record;
use crate::world::EntityRecord;
use crate::world::World;
use vstd::arithmetic::div_mod::lemma_fundamental_div_mod;
use vstd::arithmetic::mul::lemma_mul_is_commutative;

/// Width of one terrain tile, in world units.
pub const TILE_WIDTH: i64 = 10688;
/// Height of one terrain tile, in world units.
pub const TILE_HEIGHT: i64 = 5248;

/// The tile coordinate of a world position: each axis rounded to the
/// nearest tile, halves away from zero.
pub open spec fn spec_tile_of(pos: Vec2i) -> (int, int) {
    (
        spec_round_div(pos.x as int, TILE_WIDTH as int),
        spec_round_div(pos.y as int, TILE_HEIGHT as int),
    )
}

/// World-space anchor of the tile at grid coordinate `(gx, gy)`.
pub open spec fn spec_tile_anchor(gx: int, gy: int) -> Vec2i {
    Vec2i { x: (gx * TILE_WIDTH) as i64, y: (gy * TILE_HEIGHT) as i64 }
}

/// The set of tile coordinates currently resident in the world.
pub open spec fn resident_set(w: World) -> Set<(int, int)> {
    Set::new(
        |c: (int, int)|
            exists|i: int|
                #[trigger] w.is_tile(i) && w.ent(i).tile->0.gx == c.0 && w.ent(i).tile->0.gy
                    == c.1,
    )
}

/// The 3 by 3 block of tile coordinates centered on `t`.
pub open spec fn spec_nbhd(t: (int, int)) -> Set<(int, int)> {
    Set::new(|c: (int, int)| t.0 - 1 <= c.0 <= t.0 + 1 && t.1 - 1 <= c.1 <= t.1 + 1)
}

/// The `k`-th coordinate of the neighborhood of `t`, row by row.
pub open spec fn spec_nbhd_coord(t: (int, int), k: int) -> (int, int) {
    (t.0 + k / 3 - 1, t.1 + k % 3 - 1)
}

/// One position axis divided into tiles: the tile index, its product with
/// the tile size staying within one tile of the position.
fn tile_axis(p: i64, d: i64) -> (g: i64)
    requires
        5000 <= d <= 20000,
        d % 2 == 0,
        -POS_LIMIT <= p <= POS_LIMIT,
    ensures
        g == spec_round_div(p as int, d as int),
        -1_000_000_000 - d <= g * d <= 1_000_000_000 + d,
        -300_000 <= g <= 300_000,
{
    let g = round_div(p, d);
    proof {
        let h = (d as int) / 2;
        if p >= 0 {
            let x = p + h;
            lemma_fundamental_div_mod(x, d as int);
            lemma_mul_is_commutative(d as int, x / (d as int));
            assert(g * d == x - x % (d as int));
        } else {
            let x = -p + h;
            lemma_fundamental_div_mod(x, d as int);
            lemma_mul_is_commutative(d as int, x / (d as int));
            assert((-g) * d == x - x % (d as int));
            assert(g * d == -(x - x % (d as int))) by (nonlinear_arith)
                requires
                    (-g) * d == x - x % (d as int),
            ;
        }
        assert(-300_000 <= g <= 300_000) by (nonlinear_arith)
            requires
                -1_000_000_000 - d <= g * d <= 1_000_000_000 + d,
                5000 <= d <= 20000,
        ;
    }
    g
}

/// Looks up whether the tile at `(gx, gy)` is resident.
pub fn has_resident_tile(w: &World, gx: i64, gy: i64) -> (r: bool)
    ensures
        r == resident_set(*w).contains((gx as int, gy as int)),
{
    let n = w.slots.len();
    let mut i: usize = 0;
    while i < n
        invariant
            n == w.num_slots(),
            i <= n,
            forall|j: int|
                0 <= j < i ==> !(#[trigger] w.is_tile(j) && w.ent(j).tile->0.gx == gx && w.ent(
                    j,
                ).tile->0.gy == gy),
        decreases n - i,
    {
        match &w.slots[i] {
            Some(e) => {
                match &e.tile {
                    Some(t) => {
                        if t.gx == gx && t.gy == gy {
                            proof {
                                assert(w.is_tile(i as int) && w.ent(i as int).tile->0.gx
                                    == gx as int && w.ent(i as int).tile->0.gy == gy as int);
                            }
                            return true;
                        }
                    },
                    None => {},
                }
            },
            None => {},
        }
        i = i + 1;
    }
    proof {
        if resident_set(*w).contains((gx as int, gy as int)) {
            let i = choose|i: int|
                #[trigger] w.is_tile(i) && w.ent(i).tile->0.gx == gx as int && w.ent(
                    i,
                ).tile->0.gy == gy as int;
            assert(false);
        }
    }
    false
}

/// Counts the resident tiles.
pub open spec fn spec_tile_count(w: World, n: int) -> nat
    decreases n,
{
    if n <= 0 {
        0
    } else {
        spec_tile_count(w, n - 1) + if w.is_tile(n - 1) {
            1nat
        } else {
            0nat
        }
    }
}

/// Number of resident tiles.
pub fn count_tiles(w: &World) -> (r: u64)
    ensures
        r == spec_tile_count(*w, w.num_slots()),
{
    let n = w.slots.len();
    let mut count: u64 = 0;
    let mut i: usize = 0;
    while i < n
        invariant
            n == w.num_slots(),
            i <= n,
            count == spec_tile_count(*w, i as int),
            count <= i,
        decreases n - i,
    {
        let mut here = false;
        match &w.slots[i] {
            Some(e) => {
                if e.tile.is_some() {
                    here = true;
                }
            },
            None => {},
        }
        if here {
            count = count + 1;
        }
        assert(spec_tile_count(*w, i as int + 1) == spec_tile_count(*w, i as int) + if w.is_tile(
            i as int,
        ) {
            1nat
        } else {
            0nat
        });
        i = i + 1;
    }
    count
}

/// The streaming controller, run once per tick.  With no live player it
/// does nothing.  Otherwise it brings the resident set to exactly the
/// 3 by 3 neighborhood of the player's tile: missing neighborhood tiles
/// are spawned at their world anchors, resident tiles outside the
/// neighborhood are despawned, and no other entity is touched.
pub fn check_and_spawn_map(w: &mut World)
    requires
        old(w).wf(),
    ensures
        final(w).wf(),
        final(w).pending == old(w).pending,
        final(w).points == old(w).points,
        final(w).score == old(w).score,
        final(w).elapsed_ms == old(w).elapsed_ms,
        !old(w).has_player() ==> *final(w) == *old(w),
        old(w).has_player() ==> {
            let pt = spec_tile_of(old(w).ent(old(w).player_index()).pos);
            &&& resident_set(*final(w)) == spec_nbhd(pt)
            &&& final(w).num_slots() >= old(w).num_slots()
            &&& (forall|j: int|
                0 <= j < old(w).num_slots() && !old(w).is_tile(j) ==> final(w).slots@[j] == old(
                    w,
                ).slots@[j])
            &&& (forall|j: int|
                old(w).is_tile(j) && spec_nbhd(pt).contains(
                    (old(w).ent(j).tile->0.gx as int, old(w).ent(j).tile->0.gy as int),
                ) ==> final(w).slots@[j] == old(w).slots@[j])
            &&& (forall|j: int|
                old(w).is_tile(j) && !spec_nbhd(pt).contains(
                    (old(w).ent(j).tile->0.gx as int, old(w).ent(j).tile->0.gy as int),
                ) ==> !final(w).live(j))
            &&& (forall|j: int|
                old(w).num_slots() <= j < final(w).num_slots()
                    ==> final(w).live(j) && final(w).is_tile(j) && spec_nbhd(pt).contains(
                    (final(w).ent(j).tile->0.gx as int, final(w).ent(j).tile->0.gy as int),
                ) && final(w).ent(j) == (EntityRecord {
                    pos: spec_tile_anchor(
                        final(w).ent(j).tile->0.gx as int,
                        final(w).ent(j).tile->0.gy as int,
                    ),
                    tile: final(w).ent(j).tile,
                    ..spec_empty_record()
                }))
        },
{
    let ghost w0 = *w;
    let pidx = match w.find_player() {
        Some(p) => p,
        None => {
            return ;
        },
    };
    let pcur: Option<EntityRecord> = w.slots[pidx];
    let ppos = pcur.unwrap().pos;
    proof {
        assert(rec_wf(w0.ent(pidx as int)));
    }
    let ptx = tile_axis(ppos.x, TILE_WIDTH);
    let pty = tile_axis(ppos.y, TILE_HEIGHT);
    let ghost pt = spec_tile_of(ppos);
    let n0 = w.slots.len();

    // First pass: spawn the missing tiles of the 3 by 3 neighborhood.
    let mut k: usize = 0;
    while k < 9
        invariant
            w.wf(),
            k <= 9,
            pt == spec_tile_of(ppos),
            ptx as int == pt.0,
            pty as int == pt.1,
            -300_000 <= ptx <= 300_000,
            -300_000 <= pty <= 300_000,
            -1_000_000_000 - TILE_WIDTH <= ptx * TILE_WIDTH <= 1_000_000_000 + TILE_WIDTH,
            -1_000_000_000 - TILE_HEIGHT <= pty * TILE_HEIGHT <= 1_000_000_000 + TILE_HEIGHT,
            n0 == w0.num_slots(),
            w.num_slots() >= n0,
            w.pending == w0.pending,
            w.points == w0.points,
            w.score == w0.score,
            w.elapsed_ms == w0.elapsed_ms,
            forall|j: int| 0 <= j < n0 ==> #[trigger] w.slots@[j] == w0.slots@[j],
            forall|j: int|
                n0 <= j < w.num_slots() ==> #[trigger] w.slots@[j] is Some && w.is_tile(j)
                    && spec_nbhd(pt).contains(
                    (w.ent(j).tile->0.gx as int, w.ent(j).tile->0.gy as int),
                ) && w.ent(j) == (EntityRecord {
                    pos: spec_tile_anchor(w.ent(j).tile->0.gx as int, w.ent(j).tile->0.gy as int),
                    tile: w.ent(j).tile,
                    ..spec_empty_record()
                }),
            forall|m: int|
                0 <= m < k ==> resident_set(*w).contains(#[trigger] spec_nbhd_coord(pt, m)),
        decreases 9 - k,
    {
        let ghost w_iter = *w;
        let ox: i64 = (k / 3) as i64 - 1;
        let oy: i64 = (k % 3) as i64 - 1;
        let gx = ptx + ox;
        let gy = pty + oy;
        proof {
            assert(gx as int == spec_nbhd_coord(pt, k as int).0);
            assert(gy as int == spec_nbhd_coord(pt, k as int).1);
        }
        if !has_resident_tile(w, gx, gy) {
            let anchor = Vec2i { x: gx * TILE_WIDTH, y: gy * TILE_HEIGHT };
            let mut e = empty_record();
            e.pos = anchor;
            e.tile = Some(Tile { gx, gy });
            let ghost newidx = w.num_slots();
            w.slots.push(Some(e));
            proof {
                assert(gx * TILE_WIDTH == ptx * TILE_WIDTH + ox * TILE_WIDTH);
                assert(gy * TILE_HEIGHT == pty * TILE_HEIGHT + oy * TILE_HEIGHT);
                assert(rec_wf(e));
                assert forall|i: int, j: int| w.is_player(i) && w.is_player(j) implies i == j by {
                    assert(w_iter.is_player(i) && w_iter.is_player(j));
                }
                assert forall|i: int, j: int| w.is_boss(i) && w.is_boss(j) implies i == j by {
                    assert(w_iter.is_boss(i) && w_iter.is_boss(j));
                }
                assert forall|i: int, j: int|
                    w.is_tile(i) && w.is_tile(j) && i != j implies !(w.ent(i).tile->0.gx == w.ent(
                    j,
                ).tile->0.gx && w.ent(i).tile->0.gy == w.ent(j).tile->0.gy) by {
                    if i == newidx {
                        assert(w_iter.is_tile(j));
                        if w.ent(j).tile->0.gx == gx as int && w.ent(j).tile->0.gy == gy as int {
                            assert(resident_set(w_iter).contains((gx as int, gy as int)));
                            assert(false);
                        }
                    } else if j == newidx {
                        assert(w_iter.is_tile(i));
                        if w.ent(i).tile->0.gx == gx as int && w.ent(i).tile->0.gy == gy as int {
                            assert(resident_set(w_iter).contains((gx as int, gy as int)));
                            assert(false);
                        }
                    } else {
                        assert(w_iter.is_tile(i) && w_iter.is_tile(j));
                    }
                }
                assert(w.is_tile(newidx) && w.ent(newidx).tile->0.gx == gx as int && w.ent(
                    newidx,
                ).tile->0.gy == gy as int);
                assert(resident_set(*w).contains((gx as int, gy as int)));
            }
        }
        proof {
            assert(resident_set(*w).contains(spec_nbhd_coord(pt, k as int)));
            assert forall|m: int|
                0 <= m < k + 1 implies resident_set(*w).contains(
                #[trigger] spec_nbhd_coord(pt, m),
            ) by {
                if m < k {
                    let c = spec_nbhd_coord(pt, m);
                    let i = choose|i: int|
                        #[trigger] w_iter.is_tile(i) && w_iter.ent(i).tile->0.gx == c.0
                            && w_iter.ent(i).tile->0.gy == c.1;
                    assert(w.is_tile(i) && w.ent(i).tile->0.gx == c.0 && w.ent(i).tile->0.gy
                        == c.1);
                }
            }
        }
        k = k + 1;
    }

    // Second pass: despawn every resident tile outside the neighborhood.
    let ghost w1 = *w;
    let n1 = w.slots.len();
    let mut j: usize = 0;
    while j < n1
        invariant
            w.wf(),
            j <= n1,
            n1 == w1.num_slots(),
            n1 == w.num_slots(),
            n0 <= n1,
            n0 == w0.num_slots(),
            pt == spec_tile_of(ppos),
            ptx as int == pt.0,
            pty as int == pt.1,
            -300_000 <= ptx <= 300_000,
            -300_000 <= pty <= 300_000,
            w.pending == w1.pending,
            w.points == w1.points,
            w.score == w1.score,
            w.elapsed_ms == w1.elapsed_ms,
            w1.pending == w0.pending,
            w1.points == w0.points,
            w1.score == w0.score,
            w1.elapsed_ms == w0.elapsed_ms,
            forall|i: int| 0 <= i < n0 ==> #[trigger] w1.slots@[i] == w0.slots@[i],
            forall|i: int|
                n0 <= i < n1 ==> #[trigger] w1.slots@[i] is Some && w1.is_tile(i) && spec_nbhd(
                    pt,
                ).contains((w1.ent(i).tile->0.gx as int, w1.ent(i).tile->0.gy as int))
                    && w1.ent(i) == (EntityRecord {
                    pos: spec_tile_anchor(
                        w1.ent(i).tile->0.gx as int,
                        w1.ent(i).tile->0.gy as int,
                    ),
                    tile: w1.ent(i).tile,
                    ..spec_empty_record()
                }),
            forall|m: int|
                0 <= m < 9 ==> resident_set(w1).contains(#[trigger] spec_nbhd_coord(pt, m)),
            forall|i: int|
                0 <= i < j ==> #[trigger] w.slots@[i] == if w1.is_tile(i) && !spec_nbhd(
                    pt,
                ).contains((w1.ent(i).tile->0.gx as int, w1.ent(i).tile->0.gy as int)) {
                    None::<EntityRecord>
                } else {
                    w1.slots@[i]
                },
            forall|i: int| j <= i < n1 ==> #[trigger] w.slots@[i] == w1.slots@[i],
        decreases n1 - j,
    {
        let cur: Option<EntityRecord> = w.slots[j];
        match cur {
            Some(e) => {
                match e.tile {
                    Some(t) => {
                        let away_x = t.gx - ptx;
                        let away_y = t.gy - pty;
                        if away_x > 1 || away_x < -1 || away_y > 1 || away_y < -1 {
                            let ghost w_iter = *w;
                            w.slots[j] = None;
                            proof {
                                crate::combat::lemma_despawns_preserve_wf(*w, w_iter);
                            }
                        }
                    },
                    None => {},
                }
            },
            None => {},
        }
        j = j + 1;
    }

    // The resident set is now exactly the neighborhood.
    proof {
        assert forall|c: (int, int)| #[trigger] spec_nbhd(pt).contains(c) implies resident_set(
            *w,
        ).contains(c) by {
            let m = (c.0 - pt.0 + 1) * 3 + (c.1 - pt.1 + 1);
            assert(spec_nbhd_coord(pt, m) == c);
            assert(resident_set(w1).contains(spec_nbhd_coord(pt, m)));
            let i = choose|i: int|
                #[trigger] w1.is_tile(i) && w1.ent(i).tile->0.gx == c.0 && w1.ent(i).tile->0.gy
                    == c.1;
            assert(w.slots@[i] == w1.slots@[i]);
            assert(w.is_tile(i) && w.ent(i).tile->0.gx == c.0 && w.ent(i).tile->0.gy == c.1);
        }
        assert forall|c: (int, int)| #[trigger] resident_set(*w).contains(c) implies spec_nbhd(
            pt,
        ).contains(c) by {
            let i = choose|i: int|
                #[trigger] w.is_tile(i) && w.ent(i).tile->0.gx == c.0 && w.ent(i).tile->0.gy
                    == c.1;
            assert(w.slots@[i] == if w1.is_tile(i) && !spec_nbhd(pt).contains(
                (w1.ent(i).tile->0.gx as int, w1.ent(i).tile->0.gy as int),
            ) {
                None::<EntityRecord>
            } else {
                w1.slots@[i]
            });
        }
        assert(resident_set(*w) =~= spec_nbhd(pt));
        assert forall|j2: int|
            0 <= j2 < n0 && !w0.is_tile(j2) implies w.slots@[j2] == w0.slots@[j2] by {
            assert(w1.slots@[j2] == w0.slots@[j2]);
        }
        assert forall|j2: int|
            w0.is_tile(j2) && spec_nbhd(pt).contains(
                (w0.ent(j2).tile->0.gx as int, w0.ent(j2).tile->0.gy as int),
            ) implies w.slots@[j2] == w0.slots@[j2] by {
            assert(w1.slots@[j2] == w0.slots@[j2]);
        }
        assert forall|j2: int|
            w0.is_tile(j2) && !spec_nbhd(pt).contains(
                (w0.ent(j2).tile->0.gx as int, w0.ent(j2).tile->0.gy as int),
            ) implies !w.live(j2) by {
            assert(w1.slots@[j2] == w0.slots@[j2]);
        }
    }
}

} // verus!
