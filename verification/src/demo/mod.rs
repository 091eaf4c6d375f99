//! The demo: a floating island to fly around, to dig into and to build on.
//!
//! Nothing here computes geometry: events become intents, intents become commands, and commands
//! change the world.

pub mod controls;


pub mod play;
pub mod hud;
