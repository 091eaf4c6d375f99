//! lxlake: the verified core of a small application framework with a voxel engine.

pub mod capability;
pub mod contract;
pub mod demo;
pub mod editor;
pub mod entry;
pub mod meshing;
pub mod meshing_laws;
pub mod path;
pub mod project;
pub mod render;
pub mod runtime;
pub(crate) mod shared;
pub mod text;
pub mod ui;
pub mod world;
