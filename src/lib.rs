//! A fixed-point, frame-driven simulation of a small arena shooter: movement,
//! cooldown-gated firing, collisions, damage and entity lifecycle.
//!
//! Units: lengths are thousandths of a world unit, times are milliseconds,
//! and health is counted in thousandths of a full bar.

pub mod geometry;
pub mod components;
pub mod world;
pub mod movement;
pub mod bullets;
pub mod lifecycle;
pub mod collisions;
pub mod ai;
pub mod player;
pub mod game;
