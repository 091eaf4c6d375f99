//! Runtime: what happens at the frame boundary.

pub mod assembly;
pub mod clock;
pub mod command;
pub mod context;
pub mod driver;
pub mod exec;
pub mod forward;
pub mod jobs;
pub mod log;
pub mod overlays;
pub mod pump;
pub mod window;
