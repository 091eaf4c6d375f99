//! Widgets: what drawn UI and native overlays share about where something stands.

use vstd::prelude::*;

verus! {

/// Identity of a widget, numbered by the application.
#[derive(Debug, Clone, Copy, PartialEq, Eq, Hash, PartialOrd, Ord, Structural)]
pub struct UiId(pub u32);

/// Where in its container a widget is anchored: a cell of a three by three grid.
#[derive(Debug, Clone, Copy, PartialEq, Eq, Hash, Structural)]
pub enum Anchor {
    TopLeft,
    TopCenter,
    TopRight,
    CenterLeft,
    Center,
    CenterRight,
    BottomLeft,
    BottomCenter,
    BottomRight,
}

impl Anchor {
    /// Column and row of the grid, counted from the top left.
    pub open spec fn cell(self) -> (int, int) {
        match self {
            Anchor::TopLeft => (0, 0),
            Anchor::TopCenter => (1, 0),
            Anchor::TopRight => (2, 0),
            Anchor::CenterLeft => (0, 1),
            Anchor::Center => (1, 1),
            Anchor::CenterRight => (2, 1),
            Anchor::BottomLeft => (0, 2),
            Anchor::BottomCenter => (1, 2),
            Anchor::BottomRight => (2, 2),
        }
    }

    /// The anchor in halves of the container: 0 is left or top, 2 is right or bottom.
    pub fn halves(self) -> (halves: [u8; 2])
        ensures
            halves@[0] == self.cell().0,
            halves@[1] == self.cell().1,
    {
        match self {
            Anchor::TopLeft => [0, 0],
            Anchor::TopCenter => [1, 0],
            Anchor::TopRight => [2, 0],
            Anchor::CenterLeft => [0, 1],
            Anchor::Center => [1, 1],
            Anchor::CenterRight => [2, 1],
            Anchor::BottomLeft => [0, 2],
            Anchor::BottomCenter => [1, 2],
            Anchor::BottomRight => [2, 2],
        }
    }
}

/// No two anchors share a cell of the grid.
pub proof fn anchors_cover_the_grid(a: Anchor, b: Anchor)
    requires
        a.cell() == b.cell(),
    ensures
        a == b,
{
}

/// Where a widget stands. `S` holds its size and its offset from the anchor.
#[derive(Debug, Clone, Copy, PartialEq, Eq)]
pub struct Widget<S> {
    pub id: UiId,
    pub anchor: Anchor,
    pub shape: S,
    /// Whether a native overlay carries the widget. Overlays float above everything that is drawn.
    pub overlay: bool,
}

impl<S> Widget<S> {
    /// A drawn widget.
    pub fn new(id: UiId, anchor: Anchor, shape: S) -> (widget: Self)
        ensures
            widget == (Widget { id, anchor, shape, overlay: false }),
    {
        Widget { id, anchor, shape, overlay: false }
    }

    /// The widget, carried by a native overlay.
    pub fn overlay(self) -> (widget: Self)
        ensures
            widget == (Widget { overlay: true, ..self }),
    {
        Widget { overlay: true, ..self }
    }
}

/// Anchors stand where they are named: the top above the center above the bottom, the left before the center
/// before the right.
pub proof fn anchors_stand_where_they_are_named(anchor: Anchor)
    ensures
        anchor == Anchor::TopLeft || anchor == Anchor::TopCenter || anchor == Anchor::TopRight <==> anchor.cell().1
            == 0,
        anchor == Anchor::CenterLeft || anchor == Anchor::Center || anchor == Anchor::CenterRight
            <==> anchor.cell().1 == 1,
        anchor == Anchor::BottomLeft || anchor == Anchor::BottomCenter || anchor == Anchor::BottomRight
            <==> anchor.cell().1 == 2,
        anchor == Anchor::TopLeft || anchor == Anchor::CenterLeft || anchor == Anchor::BottomLeft
            <==> anchor.cell().0 == 0,
        anchor == Anchor::TopCenter || anchor == Anchor::Center || anchor == Anchor::BottomCenter
            <==> anchor.cell().0 == 1,
        anchor == Anchor::TopRight || anchor == Anchor::CenterRight || anchor == Anchor::BottomRight
            <==> anchor.cell().0 == 2,
{
}

} // verus!
