//! Rays through the block grid: which block a ray meets first, and through which face.
//!
//! A ray is followed from one grid boundary to the next, never by sampling: every crossing enters
//! exactly one new cell, so no block on the way can be missed. Where the boundaries are crossed is
//! geometry over real numbers; what is decided here starts from the order of the crossings.
//!
//! What can be pointed at is a block and one of its faces: breaking acts on the block, placing on
//! the cell in front of the face.

use crate::world::block::{BlockId, Face};
use crate::world::chunk::{Chunk, ChunkPos};
use crate::world::World;
use vstd::prelude::*;

verus! {

/// One crossing of a grid boundary.
#[derive(Debug, Clone, Copy, PartialEq, Eq, Structural)]
pub struct Crossing {
    /// The axis that the boundary is perpendicular to: 0, 1 or 2.
    pub axis: usize,
    /// Whether the ray runs in the positive direction of that axis.
    pub forward: bool,
}

/// What a ray meets.
#[derive(Debug, Clone, Copy, PartialEq, Eq)]
pub struct RayHit {
    /// World coordinates of the block.
    pub block: [i32; 3],
    /// The face that the ray enters by; its normal points back along the ray.
    pub face: Face,
    /// Which crossing enters the block, counted from 0.
    pub crossing: usize,
}

impl Crossing {
    /// How far the crossing moves a cell along `axis`.
    pub open spec fn shift(self, axis: int) -> int {
        if self.axis != axis {
            0
        } else if self.forward {
            1
        } else {
            -1
        }
    }
}

/// Coordinate `axis` of the cell that the ray is in after `n` crossings.
pub open spec fn coordinate_after(start: Seq<i32>, crossings: Seq<Crossing>, n: int, axis: int) -> int
    decreases n,
{
    if n <= 0 {
        start[axis] as int
    } else {
        coordinate_after(start, crossings, n - 1, axis) + crossings[n - 1].shift(axis)
    }
}

/// Whether every cell on the way has representable coordinates.
pub open spec fn stays_in_space(start: Seq<i32>, crossings: Seq<Crossing>) -> bool {
    forall|n: int, axis: int|
        0 <= n <= crossings.len() && 0 <= axis < 3 ==> i32::MIN <= #[trigger] coordinate_after(
            start,
            crossings,
            n,
            axis,
        ) <= i32::MAX
}

/// The cell that the ray is in after `n` crossings.
pub open spec fn cell_after(start: Seq<i32>, crossings: Seq<Crossing>, n: int) -> Seq<i32> {
    seq![
        coordinate_after(start, crossings, n, 0) as i32,
        coordinate_after(start, crossings, n, 1) as i32,
        coordinate_after(start, crossings, n, 2) as i32,
    ]
}

/// The face through which a crossing enters the next cell.
pub open spec fn face_entered(axis: int, forward: bool) -> Face {
    Face::nth(2 * axis + if forward { 1int } else { 0 })
}

/// The face through which a crossing along `axis` enters the next cell.
pub fn entered_face(axis: usize, forward: bool) -> (face: Face)
    requires
        axis < 3,
    ensures
        face == face_entered(axis as int, forward),
{
    if axis == 0 {
        if forward {
            Face::NegX
        } else {
            Face::PosX
        }
    } else if axis == 1 {
        if forward {
            Face::NegY
        } else {
            Face::PosY
        }
    } else {
        if forward {
            Face::NegZ
        } else {
            Face::PosZ
        }
    }
}

/// The axis whose boundary comes next, from how the distances to the three next boundaries compare:
/// the nearest, and of equally near ones the last.
pub open spec fn nearest(x_before_y: bool, x_before_z: bool, y_before_z: bool) -> int {
    if x_before_y && x_before_z {
        0
    } else if y_before_z {
        1
    } else {
        2
    }
}

/// The axis whose boundary comes next.
pub fn nearest_axis(x_before_y: bool, x_before_z: bool, y_before_z: bool) -> (axis: usize)
    ensures
        axis == nearest(x_before_y, x_before_z, y_before_z),
        axis < 3,
{
    if x_before_y && x_before_z {
        0
    } else if y_before_z {
        1
    } else {
        2
    }
}

/// Whether the ray meets its first solid block at crossing `i`.
pub open spec fn meets_at(world: &World, start: Seq<i32>, crossings: Seq<Crossing>, i: int) -> bool {
    &&& 0 <= i < crossings.len()
    &&& world.solid_at(cell_after(start, crossings, i + 1))
    &&& forall|n: int| 0 <= n <= i ==> !world.solid_at(#[trigger] cell_after(start, crossings, n))
}

/// Whether the ray meets nothing: it starts in a solid block, where there is no face to point at, or
/// every cell on its way is clear.
pub open spec fn meets_nothing(world: &World, start: Seq<i32>, crossings: Seq<Crossing>) -> bool {
    world.solid_at(start) || forall|n: int|
        0 <= n <= crossings.len() ==> !world.solid_at(#[trigger] cell_after(start, crossings, n))
}

/// Follows a ray from the cell `start` across grid boundaries to the first solid block. Where no
/// chunk is loaded there is nothing to meet.
pub fn raycast(world: &World, start: [i32; 3], crossings: &[Crossing]) -> (hit: Option<RayHit>)
    requires
        world.wf(),
        world.knows_its_blocks(),
        stays_in_space(start@, crossings@),
        forall|i: int| 0 <= i < crossings@.len() ==> (#[trigger] crossings@[i]).axis < 3,
    ensures
        hit is None <==> meets_nothing(world, start@, crossings@),
        hit matches Some(hit) ==> {
            &&& meets_at(world, start@, crossings@, hit.crossing as int)
            &&& hit.block@ == cell_after(start@, crossings@, hit.crossing + 1)
            &&& hit.face == face_entered(
                crossings@[hit.crossing as int].axis as int,
                crossings@[hit.crossing as int].forward,
            )
        },
{
    assert(cell_after(start@, crossings@, 0) =~= start@);
    assert(world.known_at(start@));
    if world.is_solid(start) {
        return None;
    }
    let mut cell = start;
    let mut i: usize = 0;
    while i < crossings.len()
        invariant
            world.wf(),
            world.knows_its_blocks(),
            stays_in_space(start@, crossings@),
            forall|k: int| 0 <= k < crossings@.len() ==> (#[trigger] crossings@[k]).axis < 3,
            i <= crossings@.len(),
            cell@ == cell_after(start@, crossings@, i as int),
            !world.solid_at(start@),
            cell_after(start@, crossings@, 0) == start@,
            forall|n: int|
                0 <= n <= i ==> !world.solid_at(#[trigger] cell_after(start@, crossings@, n)),
        decreases crossings@.len() - i,
    {
        let crossing = crossings[i];
        let ghost before = cell@;
        proof {
            assert forall|axis: int| 0 <= axis < 3 implies i32::MIN <= coordinate_after(
                start@,
                crossings@,
                i + 1,
                axis,
            ) <= i32::MAX && coordinate_after(start@, crossings@, i + 1, axis) == before[axis]
                + crossing.shift(axis) by {
                assert(i32::MIN <= coordinate_after(start@, crossings@, i as int, axis) <= i32::MAX);
            }
            assert(before[crossing.axis as int] + crossing.shift(crossing.axis as int)
                == coordinate_after(start@, crossings@, i + 1, crossing.axis as int));
        }
        if crossing.forward {
            cell[crossing.axis] = cell[crossing.axis] + 1;
        } else {
            cell[crossing.axis] = cell[crossing.axis] - 1;
        }
        assert(cell@ =~= cell_after(start@, crossings@, i + 1));
        assert(world.known_at(cell@));
        if world.is_solid(cell) {
            return Some(
                RayHit {
                    block: cell,
                    face: entered_face(crossing.axis, crossing.forward),
                    crossing: i,
                },
            );
        }
        i += 1;
    }
    None
}

/// The face that is hit looks back along the ray: the cell in front of it is the one that the ray
/// comes from, and that cell is clear. So what is placed against a face does not end up in a block.
pub proof fn the_face_looks_back(world: &World, start: Seq<i32>, crossings: Seq<Crossing>, i: int)
    requires
        meets_at(world, start, crossings, i),
        crossings[i].axis < 3,
    ensures
        !world.solid_at(cell_after(start, crossings, i)),
        forall|axis: int|
            0 <= axis < 3 ==> #[trigger] coordinate_after(start, crossings, i, axis)
                == coordinate_after(start, crossings, i + 1, axis) + face_entered(
                crossings[i].axis as int,
                crossings[i].forward,
            ).normal_at(axis),
{
    assert(!world.solid_at(cell_after(start, crossings, i)));
}

/// A ray meets at most one block first.
pub proof fn the_first_block_is_unique(
    world: &World,
    start: Seq<i32>,
    crossings: Seq<Crossing>,
    i: int,
    j: int,
)
    requires
        meets_at(world, start, crossings, i),
        meets_at(world, start, crossings, j),
    ensures
        i == j,
{
    if i < j {
        assert(!world.solid_at(cell_after(start, crossings, i + 1)));
    } else if j < i {
        assert(!world.solid_at(cell_after(start, crossings, j + 1)));
    }
}

/// A longer reach changes nothing about what was within reach.
pub proof fn reach_only_adds(
    world: &World,
    start: Seq<i32>,
    near: Seq<Crossing>,
    far: Seq<Crossing>,
    i: int,
)
    requires
        near.len() <= far.len(),
        far.take(near.len() as int) == near,
        meets_at(world, start, near, i),
    ensures
        meets_at(world, start, far, i),
{
    assert forall|n: int| 0 <= n <= i + 1 implies #[trigger] cell_after(start, far, n) == cell_after(
        start,
        near,
        n,
    ) by {
        same_way(start, near, far, n, 0);
        same_way(start, near, far, n, 1);
        same_way(start, near, far, n, 2);
    }
    assert(cell_after(start, far, i + 1) == cell_after(start, near, i + 1));
    assert forall|n: int| 0 <= n <= i implies !world.solid_at(#[trigger] cell_after(start, far, n)) by {
        assert(!world.solid_at(cell_after(start, near, n)));
    }
}

proof fn same_way(start: Seq<i32>, near: Seq<Crossing>, far: Seq<Crossing>, n: int, axis: int)
    requires
        0 <= n <= near.len() <= far.len(),
        far.take(near.len() as int) == near,
    ensures
        coordinate_after(start, far, n, axis) == coordinate_after(start, near, n, axis),
    decreases n,
{
    if n > 0 {
        same_way(start, near, far, n - 1, axis);
        assert(far.take(near.len() as int)[n - 1] == far[n - 1]);
    }
}

/// The face that is hit opposes the ray: along the axis of the crossing its normal points against the
/// direction in which the ray moves on, and along the others nowhere.
pub proof fn the_face_opposes_the_ray(crossing: Crossing, axis: int)
    requires
        crossing.axis < 3,
        0 <= axis < 3,
    ensures
        face_entered(crossing.axis as int, crossing.forward).normal_at(axis) == -crossing.shift(axis),
{
}

/// Where no chunk is loaded, and where a ray crosses no boundary, nothing is met.
pub proof fn nothing_is_met_where_there_is_nothing(world: &World, start: Seq<i32>, crossings: Seq<Crossing>)
    requires
        start.len() == 3,
        world@ == Map::<ChunkPos, Chunk>::empty() || crossings.len() == 0,
    ensures
        meets_nothing(world, start, crossings),
{
    crate::world::block::air_is_index_zero();
    assert(cell_after(start, crossings, 0) =~= start);
    if crossings.len() > 0 {
        assert forall|n: int| 0 <= n <= crossings.len() implies !world.solid_at(
            #[trigger] cell_after(start, crossings, n),
        ) by {
            assert(world.world_block(cell_after(start, crossings, n)) == BlockId::air());
        }
    }
}

/// The boundary that comes next is the nearest of the three, and of equally near ones that of the last axis.
/// The distances stand for any values in an order.
pub proof fn the_nearest_boundary_comes_next(distances: (int, int, int))
    ensures
        ({
            let (x, y, z) = distances;
            let axis = nearest(x < y, x < z, y < z);
            let found = if axis == 0 {
                x
            } else if axis == 1 {
                y
            } else {
                z
            };
            &&& 0 <= axis < 3
            &&& found <= x && found <= y && found <= z
            &&& axis < 1 ==> found < y
            &&& axis < 2 ==> found < z
        }),
{
}

/// A ray goes from cell to cell through faces: a crossing moves it by one block along its own axis, onward
/// or back as the ray runs, and along no other.
pub proof fn a_crossing_leads_to_a_neighbor(start: Seq<i32>, crossings: Seq<Crossing>, n: int, axis: int)
    requires
        0 <= n < crossings.len(),
        0 <= axis < 3,
    ensures
        coordinate_after(start, crossings, 0, axis) == start[axis],
        coordinate_after(start, crossings, n + 1, axis) - coordinate_after(start, crossings, n, axis) == (if axis
            != crossings[n].axis {
            0int
        } else if crossings[n].forward {
            1
        } else {
            -1
        }),
{
}

/// A ray that starts in the clear and comes to a solid block meets one, at that crossing or before it, and
/// passes through clear cells only until then.
pub proof fn a_solid_block_is_not_passed(world: &World, start: Seq<i32>, crossings: Seq<Crossing>, n: int, i: int)
    requires
        start.len() == 3,
        0 <= n <= crossings.len(),
        world.solid_at(cell_after(start, crossings, n)),
        !world.solid_at(start),
    ensures
        !meets_nothing(world, start, crossings),
        meets_at(world, start, crossings, i) ==> i < n && world.solid_at(cell_after(start, crossings, i + 1))
            && forall|k: int| 0 <= k <= i ==> !world.solid_at(#[trigger] cell_after(start, crossings, k)),
{
    assert(cell_after(start, crossings, 0) =~= start);
}

} // verus!
