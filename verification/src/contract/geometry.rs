//! Sizes in device pixels.

use vstd::prelude::*;

verus! {

/// A size in device pixels. It changes with the scale of the display.
#[derive(Debug, Clone, Copy, PartialEq, Eq, Structural)]
pub struct PhysicalSize {
    pub width: u32,
    pub height: u32,
}

impl PhysicalSize {
    pub fn new(width: u32, height: u32) -> (size: Self)
        ensures
            size == (PhysicalSize { width, height }),
    {
        PhysicalSize { width, height }
    }
}

impl Default for PhysicalSize {
    fn default() -> (size: Self)
        ensures
            size == (PhysicalSize { width: 0, height: 0 }),
    {
        PhysicalSize::new(0, 0)
    }
}

} // verus!
