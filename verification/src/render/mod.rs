//! What is drawn, up to the point where the graphics device takes over.



pub mod surface;
pub mod tiles;
pub mod glyphs;
pub mod resources;
