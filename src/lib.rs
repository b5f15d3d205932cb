//! A turn-based skirmish between combatants with dice-driven attributes.
//!
//! Positions are fixed-point: one unit of distance is [`location::UNIT`] steps,
//! so every rule on distance (range, movement, nearest opponent) is decided
//! exactly in integers.
pub mod dice;
pub mod location;
pub mod player;
pub mod game;
pub mod text;
pub mod stepper;
pub mod config;
