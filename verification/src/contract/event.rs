//! Events as applications see them. `N` is the type of real numbers.

use crate::contract::geometry::PhysicalSize;
use crate::contract::input::{Key, MouseButton};
use crate::contract::window::WindowId;
use vstd::prelude::*;

verus! {

/// What happened.
#[derive(Debug, Clone, Copy, PartialEq)]
pub enum Event<N> {
    /// A window has a new size.
    Resized { window: WindowId, size: PhysicalSize },
    /// The scale of the display under a window changed.
    ScaleFactorChanged { window: WindowId, scale_factor: N, size: PhysicalSize },
    /// A window gained or lost the focus.
    Focused { window: WindowId, focused: bool },
    /// The user closed a window.
    CloseRequested { window: WindowId },
    /// A key was pressed or released.
    KeyboardInput { window: WindowId, key: Key, pressed: bool, repeat: bool },
    /// The cursor moved; the position is in logical pixels.
    CursorMoved { window: WindowId, position: [N; 2] },
    /// A mouse button was pressed or released.
    MouseButton { window: WindowId, button: MouseButton, pressed: bool },
    /// The wheel turned.
    MouseWheel { window: WindowId, delta: [N; 2] },
    /// The mouse moved, whatever the cursor does.
    MouseMotion { delta: [N; 2] },
}

/// What the platform reports of a window.
#[derive(Debug, Clone, Copy, PartialEq)]
pub enum RawEvent<N> {
    Resized(PhysicalSize),
    /// The new scale, and the size that the window now has, if it is still there.
    ScaleFactorChanged { scale_factor: N, size: Option<PhysicalSize> },
    Focused(bool),
    /// A key; none if applications do not know it.
    Keyboard { key: Option<Key>, pressed: bool, repeat: bool },
    /// The position in logical pixels.
    CursorMoved([N; 2]),
    /// A mouse button; none if applications do not know it.
    MouseInput { button: Option<MouseButton>, pressed: bool },
    MouseWheel([N; 2]),
    CloseRequested,
    /// Anything that applications are not told of.
    Other,
}

/// What applications are told of a report; none if nothing, or if there is more to do than telling.
pub open spec fn told<N>(window: WindowId, raw: RawEvent<N>) -> Option<Event<N>> {
    match raw {
        RawEvent::Resized(size) => Some(Event::Resized { window, size }),
        RawEvent::ScaleFactorChanged { scale_factor, size } => Some(
            Event::ScaleFactorChanged {
                window,
                scale_factor,
                size: match size {
                    Some(size) => size,
                    None => PhysicalSize { width: 0, height: 0 },
                },
            },
        ),
        RawEvent::Focused(focused) => Some(Event::Focused { window, focused }),
        RawEvent::Keyboard { key, pressed, repeat } => match key {
            Some(key) => Some(Event::KeyboardInput { window, key, pressed, repeat }),
            None => None,
        },
        RawEvent::CursorMoved(position) => Some(Event::CursorMoved { window, position }),
        RawEvent::MouseInput { button, pressed } => match button {
            Some(button) => Some(Event::MouseButton { window, button, pressed }),
            None => None,
        },
        RawEvent::MouseWheel(delta) => Some(Event::MouseWheel { window, delta }),
        RawEvent::CloseRequested => None,
        RawEvent::Other => None,
    }
}

/// Whether a report calls for a new picture at once.
pub open spec fn calls_for_a_frame<N>(raw: RawEvent<N>) -> bool {
    raw is Resized || raw is ScaleFactorChanged
}

impl<N> RawEvent<N> {
    /// Whether the report calls for a new picture at once.
    pub fn needs_frame(&self) -> (yes: bool)
        ensures
            yes == calls_for_a_frame(*self),
    {
        match self {
            RawEvent::Resized(_) => true,
            RawEvent::ScaleFactorChanged { .. } => true,
            _ => false,
        }
    }

    /// What applications are told of the report.
    pub fn tell(self, window: WindowId) -> (event: Option<Event<N>>)
        ensures
            event == told(window, self),
    {
        match self {
            RawEvent::Resized(size) => Some(Event::Resized { window, size }),
            RawEvent::ScaleFactorChanged { scale_factor, size } => {
                let size = match size {
                    Some(size) => size,
                    None => PhysicalSize::default(),
                };
                Some(Event::ScaleFactorChanged { window, scale_factor, size })
            },
            RawEvent::Focused(focused) => Some(Event::Focused { window, focused }),
            RawEvent::Keyboard { key, pressed, repeat } => match key {
                Some(key) => Some(Event::KeyboardInput { window, key, pressed, repeat }),
                None => None,
            },
            RawEvent::CursorMoved(position) => Some(Event::CursorMoved { window, position }),
            RawEvent::MouseInput { button, pressed } => match button {
                Some(button) => Some(Event::MouseButton { window, button, pressed }),
                None => None,
            },
            RawEvent::MouseWheel(delta) => Some(Event::MouseWheel { window, delta }),
            RawEvent::CloseRequested => None,
            RawEvent::Other => None,
        }
    }
}

/// Nothing of a report is lost or changed on the way to the application, and the window is named: keys and
/// buttons that applications do not know are left out, a size that is not known is told as zero, and a
/// request to close is not told but decided.
pub proof fn a_report_is_told_as_it_is<N>(window: WindowId, raw: RawEvent<N>)
    ensures
        raw matches RawEvent::Resized(size) ==> told(window, raw) == Some(Event::<N>::Resized { window, size }),
        raw matches RawEvent::ScaleFactorChanged { scale_factor, size: Some(size) } ==> told(window, raw) == Some(
            Event::ScaleFactorChanged { window, scale_factor, size },
        ),
        raw matches RawEvent::ScaleFactorChanged { scale_factor, size: None } ==> told(window, raw) == Some(
            Event::ScaleFactorChanged { window, scale_factor, size: PhysicalSize { width: 0, height: 0 } },
        ),
        raw matches RawEvent::Focused(focused) ==> told(window, raw) == Some(
            Event::<N>::Focused { window, focused },
        ),
        raw matches RawEvent::Keyboard { key: Some(key), pressed, repeat } ==> told(window, raw) == Some(
            Event::<N>::KeyboardInput { window, key, pressed, repeat },
        ),
        raw matches RawEvent::Keyboard { key: None, pressed, repeat } ==> told(window, raw) is None,
        raw matches RawEvent::CursorMoved(position) ==> told(window, raw) == Some(
            Event::CursorMoved { window, position },
        ),
        raw matches RawEvent::MouseInput { button: Some(button), pressed } ==> told(window, raw) == Some(
            Event::<N>::MouseButton { window, button, pressed },
        ),
        raw matches RawEvent::MouseInput { button: None, pressed } ==> told(window, raw) is None,
        raw matches RawEvent::MouseWheel(delta) ==> told(window, raw) == Some(Event::MouseWheel { window, delta }),
        raw is CloseRequested || raw is Other ==> told(window, raw) is None,
{
}

/// A new picture is wanted at once when the size or the scale of a window has changed, and only then.
pub proof fn a_new_size_calls_for_a_frame<N>(window: WindowId, raw: RawEvent<N>)
    ensures
        calls_for_a_frame(raw) <==> (told(window, raw) matches Some(Event::Resized { .. })) || (told(
            window,
            raw,
        ) matches Some(Event::ScaleFactorChanged { .. })),
{
}

} // verus!
