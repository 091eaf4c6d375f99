//! The voxel world: blocks, chunks and what is built from them.

pub mod block;
pub mod chunk;
pub mod collision;
pub mod command;
pub mod laws;
pub mod raycast;
pub mod store;
pub mod stream;
pub mod stream_count;
pub mod stream_laws;
pub mod stream_progress;
pub mod terrain;

pub use store::World;
