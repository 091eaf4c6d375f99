//! The widget tree: what was placed where, and what lies on top.
//!
//! `S` is the shape of a widget and `R` a rectangle. Turning the one into the other, and whether a
//! rectangle holds a point, is geometry over real numbers and is left to the caller.

use crate::contract::widget::{UiId, Widget};
use vstd::prelude::*;

verus! {

/// A widget with its place.
#[derive(Debug, Clone, Copy, PartialEq, Eq)]
pub struct Placed<R> {
    pub id: UiId,
    pub rect: R,
    /// Carried by a native overlay: it is not drawn.
    pub overlay: bool,
}

/// Widgets, and where they were placed last.
#[derive(Debug)]
pub struct UiTree<S, R> {
    widgets: Vec<Widget<S>>,
    placed: Vec<Placed<R>>,
}

/// The widgets with the rectangles, in order.
pub open spec fn paired<S, R>(widgets: Seq<Widget<S>>, rects: Seq<R>) -> Seq<Placed<R>> {
    Seq::new(
        widgets.len(),
        |i: int| Placed { id: widgets[i].id, rect: rects[i], overlay: widgets[i].overlay },
    )
}

/// The last among the first `n` that is in the group of overlays, or in the other, and holds the
/// point.
pub open spec fn last_hit<R>(placed: Seq<Placed<R>>, inside: Seq<bool>, overlay: bool, n: int) -> Option<UiId>
    decreases n,
{
    if n <= 0 {
        None
    } else if placed[n - 1].overlay == overlay && inside[n - 1] {
        Some(placed[n - 1].id)
    } else {
        last_hit(placed, inside, overlay, n - 1)
    }
}

/// What lies on top at a point: overlays before anything drawn, and within a group the last one.
pub open spec fn topmost<R>(placed: Seq<Placed<R>>, inside: Seq<bool>) -> Option<UiId> {
    let n = placed.len() as int;
    match last_hit(placed, inside, true, n) {
        Some(id) => Some(id),
        None => last_hit(placed, inside, false, n),
    }
}

/// The rectangle of the first widget of an identity.
pub open spec fn rect_for<R>(placed: Seq<Placed<R>>, id: UiId) -> Option<R>
    decreases placed.len(),
{
    if placed.len() == 0 {
        None
    } else if placed[0].id == id {
        Some(placed[0].rect)
    } else {
        rect_for(placed.drop_first(), id)
    }
}

impl<S, R: Copy> UiTree<S, R> {
    /// The widgets, in the order in which they were added.
    pub closed spec fn added(&self) -> Seq<Widget<S>> {
        self.widgets@
    }

    /// Where the widgets were placed last.
    pub closed spec fn places(&self) -> Seq<Placed<R>> {
        self.placed@
    }

    pub fn new() -> (tree: Self)
        ensures
            tree.added() == Seq::<Widget<S>>::empty(),
            tree.places() == Seq::<Placed<R>>::empty(),
    {
        UiTree { widgets: Vec::new(), placed: Vec::new() }
    }

    /// Adds a widget on top of those of its group.
    pub fn add(&mut self, widget: Widget<S>)
        ensures
            final(self).added() == old(self).added().push(widget),
            final(self).places() == old(self).places(),
    {
        self.widgets.push(widget);
    }

    /// Drops widgets and places.
    pub fn clear(&mut self)
        ensures
            final(self).added() == Seq::<Widget<S>>::empty(),
            final(self).places() == Seq::<Placed<R>>::empty(),
    {
        self.widgets.clear();
        self.placed.clear();
    }

    /// The widgets, in the order in which they were added.
    pub fn widgets(&self) -> (widgets: &[Widget<S>])
        ensures
            widgets@ == self.added(),
    {
        self.widgets.as_slice()
    }

    /// Places the widgets: each gets the rectangle of the same position.
    pub fn layout(&mut self, rects: &[R])
        requires
            rects@.len() == old(self).added().len(),
        ensures
            final(self).added() == old(self).added(),
            final(self).places() == paired(old(self).added(), rects@),
    {
        let mut placed: Vec<Placed<R>> = Vec::new();
        let mut i: usize = 0;
        while i < self.widgets.len()
            invariant
                i <= self.widgets@.len(),
                rects@.len() == self.widgets@.len(),
                self.widgets == old(self).widgets,
                placed@ == paired(self.widgets@, rects@).take(i as int),
            decreases self.widgets@.len() - i,
        {
            placed.push(
                Placed { id: self.widgets[i].id, rect: rects[i], overlay: self.widgets[i].overlay },
            );
            assert(placed@ =~= paired(self.widgets@, rects@).take(i + 1));
            i += 1;
        }
        self.placed = placed;
        assert(self.placed@ =~= paired(self.widgets@, rects@));
    }

    /// Where the widgets were placed last, in the order in which they were added.
    pub fn placed(&self) -> (placed: &[Placed<R>])
        ensures
            placed@ == self.places(),
    {
        self.placed.as_slice()
    }

    /// The rectangle of a widget; none before it was placed.
    pub fn rect_of(&self, id: UiId) -> (rect: Option<R>)
        ensures
            rect == rect_for(self.places(), id),
    {
        let ghost all = self.placed@;
        let mut i: usize = 0;
        assert(all.skip(0) =~= all);
        while i < self.placed.len()
            invariant
                i <= self.placed@.len(),
                all == self.placed@,
                rect_for(all, id) == rect_for(all.skip(i as int), id),
            decreases self.placed@.len() - i,
        {
            proof {
                assert(all.skip(i as int)[0] == all[i as int]);
                assert(all.skip(i as int).drop_first() =~= all.skip(i + 1));
            }
            if self.placed[i].id == id {
                return Some(self.placed[i].rect);
            }
            i += 1;
        }
        None
    }

    /// What lies on top at a point. `inside` says of each placed widget whether its rectangle holds
    /// the point.
    pub fn hit_test(&self, inside: &[bool]) -> (hit: Option<UiId>)
        requires
            inside@.len() == self.places().len(),
        ensures
            hit == topmost(self.places(), inside@),
    {
        match self.last_of(inside, true) {
            Some(id) => Some(id),
            None => self.last_of(inside, false),
        }
    }

    fn last_of(&self, inside: &[bool], overlay: bool) -> (hit: Option<UiId>)
        requires
            inside@.len() == self.places().len(),
        ensures
            hit == last_hit(self.places(), inside@, overlay, self.places().len() as int),
    {
        let mut n: usize = self.placed.len();
        while n > 0
            invariant
                n <= self.placed@.len() == inside@.len(),
                last_hit(self.placed@, inside@, overlay, self.placed@.len() as int) == last_hit(
                    self.placed@,
                    inside@,
                    overlay,
                    n as int,
                ),
            decreases n,
        {
            if self.placed[n - 1].overlay == overlay && inside[n - 1] {
                return Some(self.placed[n - 1].id);
            }
            n -= 1;
        }
        None
    }
}

proof fn last_hit_is_last<R>(placed: Seq<Placed<R>>, inside: Seq<bool>, overlay: bool, n: int, i: int)
    requires
        0 <= i < n <= placed.len(),
        placed[i].overlay == overlay,
        inside[i],
        forall|j: int| i < j < n ==> !((#[trigger] placed[j]).overlay == overlay && inside[j]),
    ensures
        last_hit(placed, inside, overlay, n) == Some(placed[i].id),
    decreases n,
{
    if i < n - 1 {
        assert(!(placed[n - 1].overlay == overlay && inside[n - 1]));
        last_hit_is_last(placed, inside, overlay, n - 1, i);
    }
}

proof fn no_hit<R>(placed: Seq<Placed<R>>, inside: Seq<bool>, overlay: bool, n: int)
    requires
        0 <= n <= placed.len(),
        forall|j: int| 0 <= j < n ==> !((#[trigger] placed[j]).overlay == overlay && inside[j]),
    ensures
        last_hit(placed, inside, overlay, n) is None,
    decreases n,
{
    if n > 0 {
        assert(!(placed[n - 1].overlay == overlay && inside[n - 1]));
        no_hit(placed, inside, overlay, n - 1);
    }
}

/// Overlays win over everything that is drawn, however late that was added; among overlays the last
/// one wins.
pub proof fn overlays_win_over_what_is_drawn<R>(placed: Seq<Placed<R>>, inside: Seq<bool>, i: int)
    requires
        0 <= i < placed.len(),
        placed[i].overlay,
        inside[i],
        forall|j: int| i < j < placed.len() ==> !((#[trigger] placed[j]).overlay && inside[j]),
    ensures
        topmost(placed, inside) == Some(placed[i].id),
{
    last_hit_is_last(placed, inside, true, placed.len() as int, i);
}

/// Where no overlay is hit, the drawn widget that was added last wins.
pub proof fn the_later_widget_wins<R>(placed: Seq<Placed<R>>, inside: Seq<bool>, i: int)
    requires
        0 <= i < placed.len(),
        !placed[i].overlay,
        inside[i],
        forall|j: int| 0 <= j < placed.len() ==> !((#[trigger] placed[j]).overlay && inside[j]),
        forall|j: int| i < j < placed.len() ==> !inside[j],
    ensures
        topmost(placed, inside) == Some(placed[i].id),
{
    no_hit(placed, inside, true, placed.len() as int);
    last_hit_is_last(placed, inside, false, placed.len() as int, i);
}

/// A point outside every widget hits nothing.
pub proof fn a_point_outside_hits_nothing<R>(placed: Seq<Placed<R>>, inside: Seq<bool>)
    requires
        inside.len() == placed.len(),
        forall|j: int| 0 <= j < inside.len() ==> !inside[j],
    ensures
        topmost(placed, inside) is None,
{
    no_hit(placed, inside, true, placed.len() as int);
    no_hit(placed, inside, false, placed.len() as int);
}

/// The rectangle of an identity is that of the first widget that has it.
pub proof fn the_first_of_an_identity_is_placed<R>(placed: Seq<Placed<R>>, id: UiId)
    ensures
        match rect_for(placed, id) {
            Some(rect) => exists|i: int|
                0 <= i < placed.len() && (#[trigger] placed[i]).id == id && placed[i].rect == rect && forall|j: int|
                    0 <= j < i ==> (#[trigger] placed[j]).id != id,
            None => forall|i: int| 0 <= i < placed.len() ==> (#[trigger] placed[i]).id != id,
        },
    decreases placed.len(),
{
    if placed.len() > 0 {
        if placed[0].id == id {
            assert(placed[0].rect == rect_for(placed, id)->0);
        } else {
            let rest = placed.drop_first();
            the_first_of_an_identity_is_placed(rest, id);
            if rect_for(rest, id) is Some {
                let rect = rect_for(rest, id)->0;
                let i = choose|i: int|
                    0 <= i < rest.len() && (#[trigger] rest[i]).id == id && rest[i].rect == rect && forall|j: int|
                        0 <= j < i ==> (#[trigger] rest[j]).id != id;
                assert(placed[i + 1] == rest[i]);
                assert forall|j: int| 0 <= j < i + 1 implies (#[trigger] placed[j]).id != id by {
                    if j > 0 {
                        assert(rest[j - 1] == placed[j]);
                    }
                }
            } else {
                assert forall|i: int| 0 <= i < placed.len() implies (#[trigger] placed[i]).id != id by {
                    if i > 0 {
                        assert(rest[i - 1] == placed[i]);
                    }
                }
            }
        }
    }
}

} // verus!
