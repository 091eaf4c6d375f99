//! What the framework does about a window event before the application hears of it.

use crate::contract::event::Event;
use crate::contract::geometry::PhysicalSize;
use crate::contract::window::WindowId;
use vstd::prelude::*;

verus! {

/// What a window event asks of the framework: the renderer of the window is set up anew, and its
/// overlays are placed again, so that both are right when the application hears of the event.
#[derive(Debug, Clone, Copy, PartialEq, Eq)]
pub struct Forward<N> {
    pub window: WindowId,
    /// The size that the renderer is given, and that overlays are placed in.
    pub size: PhysicalSize,
    /// The scale that the renderer is given first, and that overlays are placed with. Without one the
    /// renderer keeps its own, and overlays go by what the window says.
    pub scale_factor: Option<N>,
}

/// What a window event asks of the framework; nothing unless its size or scale changed.
pub fn forward_window_event<N: Copy>(event: &Event<N>) -> (forward: Option<Forward<N>>)
    ensures
        forward == match *event {
            Event::Resized { window, size } => Some(Forward { window, size, scale_factor: None }),
            Event::ScaleFactorChanged { window, scale_factor, size } => Some(
                Forward { window, size, scale_factor: Some(scale_factor) },
            ),
            _ => None,
        },
{
    match event {
        Event::Resized { window, size } => Some(
            Forward { window: *window, size: *size, scale_factor: None },
        ),
        Event::ScaleFactorChanged { window, scale_factor, size } => Some(
            Forward { window: *window, size: *size, scale_factor: Some(*scale_factor) },
        ),
        _ => None,
    }
}

} // verus!
