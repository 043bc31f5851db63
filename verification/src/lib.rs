//! Tick-simulation core of a top-down survival/combat game.
//!
//! The library models the fixed-tick pipeline of the game: ability casting
//! with per-ability cooldowns, axis-aligned collision and combat resolution,
//! a boss phase state machine, timed component expiry, and a grid-based
//! world-streaming controller.  All quantities are integers: time is in
//! milliseconds, world positions are in integer world units, and angles are
//! in ticks of 1/10000 radian, so every rule of the simulation is exact and
//! provable.  Rendering, audio, input polling and engine plumbing are the
//! surrounding application's business; the library only ever sees plain
//! values.

pub mod abilities;
pub mod boss;
pub mod combat;
pub mod components;
pub mod engine;
pub mod expiry;
pub mod math;
pub mod streaming;
pub mod world;
