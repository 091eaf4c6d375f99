//! Collision with the block grid: which blocks stand in the way of a box that moves along an axis.
//!
//! A box is moved one axis at a time. Along an axis it sweeps a column of cells: its extent along
//! the two other axes is the cross-section. What stops it is the first slice of the column that
//! holds a solid block. How far that lets the box move is geometry over real numbers and is left to
//! the caller.
//!
//! Where no chunk is loaded there is nothing to collide with.

use crate::world::World;
use vstd::prelude::*;

verus! {

/// The cross-section of a column: the range of cells, both ends included, along each of the two
/// axes across it, in the order of the axes.
#[derive(Debug, Clone, Copy, PartialEq, Eq)]
pub struct CrossSection {
    pub first: (i32, i32),
    pub second: (i32, i32),
}

/// The two axes across `axis`, in order.
pub open spec fn others(axis: int) -> (int, int) {
    if axis == 0 {
        (1, 2)
    } else if axis == 1 {
        (0, 2)
    } else {
        (0, 1)
    }
}

/// The two axes across `axis`, in order.
pub fn other_axes(axis: usize) -> (axes: (usize, usize))
    requires
        axis < 3,
    ensures
        axes.0 == others(axis as int).0,
        axes.1 == others(axis as int).1,
{
    if axis == 0 {
        (1, 2)
    } else if axis == 1 {
        (0, 2)
    } else {
        (0, 1)
    }
}

/// The cell of a column at `cell` along the column and at `a` and `b` across it.
pub open spec fn cell_of(axis: int, cell: i32, a: i32, b: i32) -> Seq<i32> {
    if axis == 0 {
        seq![cell, a, b]
    } else if axis == 1 {
        seq![a, cell, b]
    } else {
        seq![a, b, cell]
    }
}

/// Whether a slice of a column holds a solid block.
pub open spec fn blocked(world: &World, axis: int, cell: i32, span: CrossSection) -> bool {
    exists|a: i32, b: i32|
        span.first.0 <= a <= span.first.1 && span.second.0 <= b <= span.second.1 && world.solid_at(
            #[trigger] cell_of(axis, cell, a, b),
        )
}

/// Whether a slice of a column holds a solid block.
pub fn hits_solid(world: &World, axis: usize, cell: i32, span: CrossSection) -> (hit: bool)
    requires
        axis < 3,
        world.wf(),
        world.knows_its_blocks(),
    ensures
        hit == blocked(world, axis as int, cell, span),
{
    let mut a: i64 = span.first.0 as i64;
    while a <= span.first.1 as i64
        invariant
            axis < 3,
            world.wf(),
            world.knows_its_blocks(),
            span.first.0 <= a,
            a <= span.first.1 + 1 || a == span.first.0,
            forall|p: i32, q: i32|
                span.first.0 <= p < a && span.second.0 <= q <= span.second.1 ==> !world.solid_at(
                    #[trigger] cell_of(axis as int, cell, p, q),
                ),
        decreases span.first.1 + 1 - a,
    {
        let mut b: i64 = span.second.0 as i64;
        while b <= span.second.1 as i64
            invariant
                axis < 3,
                world.wf(),
                world.knows_its_blocks(),
                span.first.0 <= a <= span.first.1,
                span.second.0 <= b,
                b <= span.second.1 + 1 || b == span.second.0,
                forall|p: i32, q: i32|
                    (span.first.0 <= p < a && span.second.0 <= q <= span.second.1) || (p == a
                        && span.second.0 <= q < b) ==> !world.solid_at(
                        #[trigger] cell_of(axis as int, cell, p, q),
                    ),
            decreases span.second.1 + 1 - b,
        {
            let pos = if axis == 0 {
                [cell, a as i32, b as i32]
            } else if axis == 1 {
                [a as i32, cell, b as i32]
            } else {
                [a as i32, b as i32, cell]
            };
            assert(pos@ =~= cell_of(axis as int, cell, a as i32, b as i32));
            assert(world.known_at(pos@));
            if world.is_solid(pos) {
                return true;
            }
            b += 1;
        }
        a += 1;
    }
    false
}

/// Whether `stop` is the first slice that is blocked from `from` up to `to`.
pub open spec fn stops_upward(
    world: &World,
    axis: int,
    from: i32,
    to: i32,
    span: CrossSection,
    stop: Option<i32>,
) -> bool {
    match stop {
        Some(stop) => {
            &&& from <= stop <= to
            &&& blocked(world, axis, stop, span)
            &&& forall|c: i32| from <= c < stop ==> !#[trigger] blocked(world, axis, c, span)
        },
        None => forall|c: i32| from <= c <= to ==> !#[trigger] blocked(world, axis, c, span),
    }
}

/// Whether `stop` is the first slice that is blocked from `from` down to `to`.
pub open spec fn stops_downward(
    world: &World,
    axis: int,
    from: i32,
    to: i32,
    span: CrossSection,
    stop: Option<i32>,
) -> bool {
    match stop {
        Some(stop) => {
            &&& to <= stop <= from
            &&& blocked(world, axis, stop, span)
            &&& forall|c: i32| stop < c <= from ==> !#[trigger] blocked(world, axis, c, span)
        },
        None => forall|c: i32| to <= c <= from ==> !#[trigger] blocked(world, axis, c, span),
    }
}

/// The first slice that is blocked, looking from `from` up to `to`.
pub fn first_stop_upward(world: &World, axis: usize, from: i32, to: i32, span: CrossSection) -> (stop:
    Option<i32>)
    requires
        axis < 3,
        world.wf(),
        world.knows_its_blocks(),
    ensures
        stops_upward(world, axis as int, from, to, span, stop),
{
    let mut c: i64 = from as i64;
    while c <= to as i64
        invariant
            axis < 3,
            world.wf(),
            world.knows_its_blocks(),
            from <= c,
            c <= to + 1 || c == from,
            forall|p: i32| from <= p < c ==> !#[trigger] blocked(world, axis as int, p, span),
        decreases to + 1 - c,
    {
        if hits_solid(world, axis, c as i32, span) {
            return Some(c as i32);
        }
        c += 1;
    }
    None
}

/// The first slice that is blocked, looking from `from` down to `to`.
pub fn first_stop_downward(world: &World, axis: usize, from: i32, to: i32, span: CrossSection) -> (stop:
    Option<i32>)
    requires
        axis < 3,
        world.wf(),
        world.knows_its_blocks(),
    ensures
        stops_downward(world, axis as int, from, to, span, stop),
{
    let mut c: i64 = from as i64;
    while c >= to as i64
        invariant
            axis < 3,
            world.wf(),
            world.knows_its_blocks(),
            c <= from,
            c >= to - 1 || c == from,
            forall|p: i32| c < p <= from ==> !#[trigger] blocked(world, axis as int, p, span),
        decreases c + 1 - to,
    {
        if hits_solid(world, axis, c as i32, span) {
            return Some(c as i32);
        }
        c -= 1;
    }
    None
}

/// A box that stops before the first blocked slice touches no solid block of the column.
pub proof fn stopping_short_touches_nothing(
    world: &World,
    axis: int,
    from: i32,
    to: i32,
    span: CrossSection,
    stop: i32,
    c: i32,
    a: i32,
    b: i32,
)
    requires
        stops_upward(world, axis, from, to, span, Some(stop)),
        from <= c < stop,
        span.first.0 <= a <= span.first.1,
        span.second.0 <= b <= span.second.1,
    ensures
        !world.solid_at(cell_of(axis, c, a, b)),
{
    assert(!blocked(world, axis, c, span));
}

/// A cell of a column stands where it is said to: along the column, and across it in the order of the axes.
pub proof fn a_cell_stands_in_its_column(axis: int, cell: i32, a: i32, b: i32)
    requires
        0 <= axis < 3,
    ensures
        cell_of(axis, cell, a, b).len() == 3,
        cell_of(axis, cell, a, b)[axis] == cell,
        cell_of(axis, cell, a, b)[others(axis).0] == a,
        cell_of(axis, cell, a, b)[others(axis).1] == b,
        others(axis).0 < others(axis).1 && others(axis).0 != axis && others(axis).1 != axis,
        0 <= others(axis).0 && others(axis).1 < 3,
{
}

/// A solid block in the way is not passed, whichever way the box moves: it stops there or before.
pub proof fn a_block_in_the_way_stops_the_box(
    world: &World,
    axis: int,
    from: i32,
    to: i32,
    span: CrossSection,
    stop: Option<i32>,
    cell: i32,
    a: i32,
    b: i32,
)
    requires
        world.solid_at(cell_of(axis, cell, a, b)),
        span.first.0 <= a <= span.first.1,
        span.second.0 <= b <= span.second.1,
    ensures
        stops_upward(world, axis, from, to, span, stop) && from <= cell <= to ==> stop is Some && stop->0 <= cell,
        stops_downward(world, axis, from, to, span, stop) && to <= cell <= from ==> stop is Some && stop->0
            >= cell,
{
    assert(blocked(world, axis, cell, span));
}

/// A box is not stopped by nothing: where it stops there is a solid block in its cross-section, on its way.
pub proof fn a_stop_has_a_reason(
    world: &World,
    axis: int,
    from: i32,
    to: i32,
    span: CrossSection,
    stop: i32,
)
    requires
        stops_upward(world, axis, from, to, span, Some(stop)) || stops_downward(
            world,
            axis,
            from,
            to,
            span,
            Some(stop),
        ),
    ensures
        from <= stop <= to || to <= stop <= from,
        exists|a: i32, b: i32|
            span.first.0 <= a <= span.first.1 && span.second.0 <= b <= span.second.1 && world.solid_at(
                #[trigger] cell_of(axis, stop, a, b),
            ),
{
}

/// A box that stops before the first blocked slice on the way down touches no solid block of the column.
pub proof fn stopping_short_below_touches_nothing(
    world: &World,
    axis: int,
    from: i32,
    to: i32,
    span: CrossSection,
    stop: i32,
    c: i32,
    a: i32,
    b: i32,
)
    requires
        stops_downward(world, axis, from, to, span, Some(stop)),
        stop < c <= from,
        span.first.0 <= a <= span.first.1,
        span.second.0 <= b <= span.second.1,
    ensures
        !world.solid_at(cell_of(axis, c, a, b)),
{
    assert(!blocked(world, axis, c, span));
}

} // verus!
