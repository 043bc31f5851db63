//! Components attached to entities of the simulation, and the balance
//! constants of the game.
//!
//! Canonical balance table (integer units, milliseconds):
//! cooldowns Dash 5000, Ranged 3000, Attack (melee arc) 1000, Aoe 10000;
//! dash invulnerability 1000; hitbox lifetime 100; melee arc radius 250 and
//! area attack radius 300, both sampled every 10 units of radius and every
//! 725 angle ticks; ranged line length 1100; line thickness 225; point
//! marker box 5 by 5; player box 112 by 112 with 500 hit points; boss box
//! 256 by 256 with 5 hit points, 2500 ms invulnerable phase, 5000 ms solid
//! phase, 175 unit strike radius and 500 strike damage; enemy contact
//! damage 100; cooldown reward 50 ms per hit.

use vstd::prelude::*;

verus! {

use crate::math::Vec2i;
use crate::math::spec_sat_sub_u32;
use crate::math::spec_sat_sub_big;
use crate::math::sat_sub_ms;

/// Base cooldown of the dash ability, in milliseconds.
pub const DASH_COOLDOWN_MS: u32 = 5000;
/// Base cooldown of the melee arc attack, in milliseconds.
pub const ATTACK_COOLDOWN_MS: u32 = 1000;
/// Base cooldown of the ranged line attack, in milliseconds.
pub const RANGED_COOLDOWN_MS: u32 = 3000;
/// Base cooldown of the area attack, in milliseconds.
pub const AOE_COOLDOWN_MS: u32 = 10000;
/// Invulnerability window granted by a dash, in milliseconds.
pub const DASH_INVULN_MS: u32 = 1000;
/// Lifetime of every attack hitbox, in milliseconds.
pub const HITBOX_LIFETIME_MS: u32 = 100;
/// Cooldown time refunded on each hit landed, in milliseconds.
pub const COOLDOWN_REWARD_MS: u32 = 50;
/// Damage taken by the player for each enemy body touching it in a tick.
pub const CONTACT_DAMAGE: i32 = 100;
/// Hit points of a freshly spawned player.
pub const PLAYER_HP: i32 = 500;
/// Width and height of the player's collision box.
pub const PLAYER_BOX: u64 = 112;
/// Hit points of a freshly spawned boss.
pub const BOSS_HP: i32 = 5;
/// Width and height of the boss's collision box.
pub const BOSS_BOX: u64 = 256;
/// Duration of the boss's invulnerable phase, in milliseconds.
pub const BOSS_INVULN_MS: u32 = 2500;
/// Duration of the boss's solid phase, in milliseconds.
pub const BOSS_SOLID_MS: u32 = 5000;
/// Radius around the boss anchor struck when the boss lands.
pub const STRIKE_RADIUS: i64 = 175;
/// Damage dealt by the boss strike to a player inside the strike radius.
pub const STRIKE_DAMAGE: i32 = 500;
/// Largest collider extent the engine accepts, in world units (a dash
/// across the whole coordinate range spawns a line hitbox this long).
pub const EXT_MAX: u64 = 4_000_000_000;
/// Largest coordinate magnitude accepted from callers, in world units.
pub const POS_LIMIT: i64 = 1_000_000_000;
/// Largest coordinate magnitude ever stored for an entity: a cast offsets
/// the caster's position by at most a ranged line's half length, and a
/// streamed tile sits at most a tile and a half beyond the player.
pub const POS_WF: i64 = 1_002_000_000;
/// Greatest reach of the melee arc attack, in world units.
pub const MELEE_MAX_RADIUS: i64 = 250;
/// Greatest reach of the area attack, in world units.
pub const AOE_MAX_RADIUS: i64 = 300;
/// Distance between two sampled rings of an arc or area attack.
pub const RADIUS_STEP: i64 = 10;
/// Angular distance between two samples of a ring, in angle ticks
/// (0.0725 rad).
pub const ANGLE_STEP: i64 = 725;
/// Half the melee arc's angular span, in angle ticks (the arc spans a
/// quarter turn centered on the aim angle).
pub const MELEE_ARC_HALF: i64 = 7854;
/// Number of sampled rings of a melee cast: radii 10, 20, ..., 250.
pub const MELEE_RING_COUNT: usize = 25;
/// Samples per melee ring: one per whole angle step in the arc span,
/// endpoints included.
pub const MELEE_RING_SAMPLES: usize = 22;
/// Number of sampled rings of an area cast: radii 0, 10, ..., 300.
pub const AOE_RING_COUNT: usize = 31;
/// Samples per area ring: one per whole angle step in a full turn,
/// both endpoints included.
pub const AOE_RING_SAMPLES: usize = 87;
/// Length of the ranged line attack, in world units.
pub const RANGED_LENGTH: u64 = 1100;
/// Thickness of line attacks, in world units.
pub const LINE_THICKNESS: u64 = 225;
/// Side of the box of one sampled point marker, in world units.
pub const MARKER_SIZE: u64 = 5;

/// Integer hit points.  An entity whose hit points reach zero or less is
/// despawned by the cleanup pass at the end of the tick.
#[derive(Clone, Copy, PartialEq, Eq, Structural, Debug)]
pub struct Health {
    pub hp: i32,
}

impl Health {
    /// Applies `amount` damage, saturating at the lowest representable
    /// value; hit points may go negative transiently.
    pub fn take_damage(&mut self, amount: i32)
        requires
            amount >= 0,
        ensures
            final(self).hp == if old(self).hp - amount >= i32::MIN {
                old(self).hp - amount
            } else {
                i32::MIN as int
            },
    {
        let next: i64 = (self.hp as i64) - (amount as i64);
        if next < i32::MIN as i64 {
            self.hp = i32::MIN;
        } else {
            self.hp = next as i32;
        }
    }
}

/// An axis-aligned collision box: full width and height, centered on the
/// owning entity's position.  A zero-extent box collides with nothing.
#[derive(Clone, Copy, PartialEq, Eq, Structural, Debug)]
pub struct Collider {
    pub width: u64,
    pub height: u64,
}

impl Collider {
    /// A collision box of the given full width and height.
    pub fn new(width: u64, height: u64) -> (c: Collider)
        requires
            width <= EXT_MAX,
            height <= EXT_MAX,
        ensures
            c.width == width,
            c.height == height,
    {
        Collider { width, height }
    }
}

/// Direction of an entity in world units per second; integrated into the
/// position by the movement collaborator outside the core.
#[derive(Clone, Copy, PartialEq, Eq, Structural, Debug)]
pub struct Velocity {
    pub x: i64,
    pub y: i64,
}

/// Marker: the player character.  At most one live entity carries it.
#[derive(Clone, Copy, PartialEq, Eq, Structural, Debug)]
pub struct Player;

/// Marker: an enemy body.
#[derive(Clone, Copy, PartialEq, Eq, Structural, Debug)]
pub struct Enemy;

/// Marker: a line-shaped attack hitbox.
#[derive(Clone, Copy, PartialEq, Eq, Structural, Debug)]
pub struct Line;

/// Marker: a point-sample attack hitbox from an arc or area attack.
#[derive(Clone, Copy, PartialEq, Eq, Structural, Debug)]
pub struct PointMarker;

/// Marker: the entity is cleared by a game reset.
#[derive(Clone, Copy, PartialEq, Eq, Structural, Debug)]
pub struct Resettable;

/// Remaining invulnerability window; while positive the entity is exempt
/// from damage.  Removed, not merely zeroed, on expiry.
#[derive(Clone, Copy, PartialEq, Eq, Structural, Debug)]
pub struct Invulnerability {
    pub remaining_ms: u32,
}

/// Remaining lifetime of a transient entity; the entity is despawned when
/// the countdown reaches zero.
#[derive(Clone, Copy, PartialEq, Eq, Structural, Debug)]
pub struct Lifetime {
    pub remaining_ms: u32,
}

/// A streamed terrain tile, identified by its integer grid coordinate.
#[derive(Clone, Copy, PartialEq, Eq, Structural, Debug)]
pub struct Tile {
    pub gx: i64,
    pub gy: i64,
}

/// The four castable abilities.
#[derive(Clone, Copy, PartialEq, Eq, Structural, Debug)]
pub enum Ability {
    Dash,
    Attack,
    Ranged,
    Aoe,
}

/// Phases of the boss state machine.  `Cleanup` is the terminal phase the
/// boss enters when its hit points are exhausted: it stays inert and immune
/// until the next game reset.
#[derive(Clone, Copy, PartialEq, Eq, Structural, Debug)]
pub enum BossState {
    Invulnerable,
    Solid,
    Cleanup,
}

/// The boss: its phase, the phase countdown, the anchor it strikes at and
/// relocates from, and its dedicated hit point counter.
#[derive(Clone, Copy, PartialEq, Eq, Structural, Debug)]
pub struct Boss {
    pub state: BossState,
    pub timer_ms: u32,
    pub anchor: Vec2i,
    pub hp: i32,
}

/// Per-actor cooldown ledger: remaining time for each ability, counted down
/// every tick and clamped at zero.  An ability is ready exactly when its
/// remaining time is zero.
#[derive(Clone, Copy, PartialEq, Eq, Structural, Debug)]
pub struct Cooldowns {
    pub dash_ms: u32,
    pub attack_ms: u32,
    pub ranged_ms: u32,
    pub aoe_ms: u32,
}

/// Base cooldown duration of an ability, in milliseconds.
pub open spec fn spec_base_cooldown(a: Ability) -> u32 {
    match a {
        Ability::Dash => DASH_COOLDOWN_MS,
        Ability::Attack => ATTACK_COOLDOWN_MS,
        Ability::Ranged => RANGED_COOLDOWN_MS,
        Ability::Aoe => AOE_COOLDOWN_MS,
    }
}

/// Remaining time of one ability in a ledger.
pub open spec fn spec_remaining(c: Cooldowns, a: Ability) -> u32 {
    match a {
        Ability::Dash => c.dash_ms,
        Ability::Attack => c.attack_ms,
        Ability::Ranged => c.ranged_ms,
        Ability::Aoe => c.aoe_ms,
    }
}

/// The ledger after `a`'s remaining time is set back to its base duration.
pub open spec fn spec_reset(c: Cooldowns, a: Ability) -> Cooldowns {
    match a {
        Ability::Dash => Cooldowns { dash_ms: DASH_COOLDOWN_MS, ..c },
        Ability::Attack => Cooldowns { attack_ms: ATTACK_COOLDOWN_MS, ..c },
        Ability::Ranged => Cooldowns { ranged_ms: RANGED_COOLDOWN_MS, ..c },
        Ability::Aoe => Cooldowns { aoe_ms: AOE_COOLDOWN_MS, ..c },
    }
}

/// The ledger after every remaining time is shortened by `amount`, floored
/// at zero.  Both the per-tick countdown and the kill reward reduce the
/// current remaining time this way.
pub open spec fn spec_tick_all(c: Cooldowns, amount: int) -> Cooldowns {
    Cooldowns {
        dash_ms: spec_sat_sub_big(c.dash_ms, amount),
        attack_ms: spec_sat_sub_big(c.attack_ms, amount),
        ranged_ms: spec_sat_sub_big(c.ranged_ms, amount),
        aoe_ms: spec_sat_sub_big(c.aoe_ms, amount),
    }
}

impl Cooldowns {
    /// A fresh ledger with every ability on its full base cooldown: a
    /// newly spawned actor must first wait out every countdown once.  A
    /// game reset, by contrast, makes the ledger ready (`reset_all`).
    pub fn new() -> (c: Cooldowns)
        ensures
            c.dash_ms == DASH_COOLDOWN_MS,
            c.attack_ms == ATTACK_COOLDOWN_MS,
            c.ranged_ms == RANGED_COOLDOWN_MS,
            c.aoe_ms == AOE_COOLDOWN_MS,
    {
        Cooldowns {
            dash_ms: DASH_COOLDOWN_MS,
            attack_ms: ATTACK_COOLDOWN_MS,
            ranged_ms: RANGED_COOLDOWN_MS,
            aoe_ms: AOE_COOLDOWN_MS,
        }
    }

    /// True exactly when the ability's remaining time is zero.
    pub fn is_ready(&self, ability: Ability) -> (r: bool)
        ensures
            r == (spec_remaining(*self, ability) == 0),
    {
        match ability {
            Ability::Dash => self.dash_ms == 0,
            Ability::Attack => self.attack_ms == 0,
            Ability::Ranged => self.ranged_ms == 0,
            Ability::Aoe => self.aoe_ms == 0,
        }
    }

    /// Remaining time of one ability, in milliseconds.
    pub fn get_cooldown(&self, ability: Ability) -> (r: u32)
        ensures
            r == spec_remaining(*self, ability),
    {
        match ability {
            Ability::Dash => self.dash_ms,
            Ability::Attack => self.attack_ms,
            Ability::Ranged => self.ranged_ms,
            Ability::Aoe => self.aoe_ms,
        }
    }

    /// Puts the ability back on its full base cooldown.
    pub fn reset(&mut self, ability: Ability)
        ensures
            *final(self) == spec_reset(*old(self), ability),
    {
        match ability {
            Ability::Dash => self.dash_ms = DASH_COOLDOWN_MS,
            Ability::Attack => self.attack_ms = ATTACK_COOLDOWN_MS,
            Ability::Ranged => self.ranged_ms = RANGED_COOLDOWN_MS,
            Ability::Aoe => self.aoe_ms = AOE_COOLDOWN_MS,
        }
    }

    /// Makes every ability ready again, as a game reset does.
    pub fn reset_all(&mut self)
        ensures
            final(self).dash_ms == 0,
            final(self).attack_ms == 0,
            final(self).ranged_ms == 0,
            final(self).aoe_ms == 0,
    {
        self.dash_ms = 0;
        self.attack_ms = 0;
        self.ranged_ms = 0;
        self.aoe_ms = 0;
    }

    /// Advances every countdown by `dt_ms`, clamped at zero.
    pub fn tick(&mut self, dt_ms: u32)
        ensures
            *final(self) == spec_tick_all(*old(self), dt_ms as int),
    {
        self.dash_ms = sat_sub_ms(self.dash_ms, dt_ms);
        self.attack_ms = sat_sub_ms(self.attack_ms, dt_ms);
        self.ranged_ms = sat_sub_ms(self.ranged_ms, dt_ms);
        self.aoe_ms = sat_sub_ms(self.aoe_ms, dt_ms);
    }

    /// Shortens the current remaining time of one ability by `amount`,
    /// floored at zero: the reward granted on an enemy kill.
    pub fn reduce(&mut self, ability: Ability, amount: u32)
        ensures
            spec_remaining(*final(self), ability) == spec_sat_sub_u32(
                spec_remaining(*old(self), ability),
                amount,
            ),
            forall|b: Ability| b != ability ==> spec_remaining(*final(self), b) == spec_remaining(
                *old(self),
                b,
            ),
    {
        match ability {
            Ability::Dash => self.dash_ms = sat_sub_ms(self.dash_ms, amount),
            Ability::Attack => self.attack_ms = sat_sub_ms(self.attack_ms, amount),
            Ability::Ranged => self.ranged_ms = sat_sub_ms(self.ranged_ms, amount),
            Ability::Aoe => self.aoe_ms = sat_sub_ms(self.aoe_ms, amount),
        }
    }
}

/// Resetting an ability always leaves it not ready, and ticking exactly its
/// base duration of simulated time afterwards makes it ready again; ticking
/// any shorter total keeps it on cooldown.
pub proof fn lemma_reset_then_ready(c: Cooldowns, a: Ability, total: int)
    requires
        total >= 0,
    ensures
        spec_remaining(spec_reset(c, a), a) != 0,
        total >= spec_base_cooldown(a) ==> spec_remaining(
            spec_tick_all(spec_reset(c, a), total),
            a,
        ) == 0,
        total < spec_base_cooldown(a) ==> spec_remaining(
            spec_tick_all(spec_reset(c, a), total),
            a,
        ) != 0,
{
}

/// Ticking a ledger by two deltas in a row equals ticking it once by their
/// sum, so a cooldown expires after the same total simulated time no matter
/// how that time is cut into ticks.
pub proof fn lemma_tick_all_additive(c: Cooldowns, d1: u32, d2: u32)
    ensures
        spec_tick_all(spec_tick_all(c, d1 as int), d2 as int) == spec_tick_all(c, d1 + d2),
{
}

} // verus!
