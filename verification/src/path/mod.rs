//! Paths: where directories are, and what can be said of a path by its text alone.

pub mod lexical;
pub mod places;
pub mod windows;
