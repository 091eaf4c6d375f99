//! Contracts shared by every layer: no platform, GPU or world state in here.

pub mod command;
pub mod error;
pub mod event;
pub mod geometry;
pub mod input;
pub mod widget;
pub mod window;
