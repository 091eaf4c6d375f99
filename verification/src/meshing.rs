//! Meshing: the visible faces of a chunk, merged into rectangles.
//!
//! A pure function of a neighbourhood snapshot and the block registry. Coordinates are whole
//! blocks: the corners of merged faces always lie on the block grid.

use crate::world::block::{BlockId, BlockRegistry, Face};
use crate::world::chunk::{count_non_air, in_chunk, ChunkNeighborhood, ChunkPos, CHUNK_SIZE};
use vstd::prelude::*;

verus! {

/// A vertex of a mesh, local to its chunk.
#[derive(Debug, Clone, Copy, PartialEq, Eq)]
pub struct Vertex {
    /// Position inside the chunk.
    pub position: [i32; 3],
    /// Face normal.
    pub normal: [i32; 3],
    /// Position inside the face, in blocks: a face merged from N blocks runs from 0 to N.
    pub uv: [i32; 2],
    /// Atlas tile.
    pub tile: u16,
}

/// The mesh of one chunk: four vertices and two triangles for each rectangle.
#[derive(Debug, PartialEq, Eq)]
pub struct ChunkMesh {
    pub pos: ChunkPos,
    pub vertices: Vec<Vertex>,
    pub indices: Vec<u32>,
}

impl ChunkMesh {
    /// A mesh without faces.
    pub fn empty(pos: ChunkPos) -> (mesh: Self)
        ensures
            mesh.pos == pos,
            mesh.vertices@.len() == 0,
            mesh.indices@.len() == 0,
    {
        ChunkMesh { pos, vertices: Vec::new(), indices: Vec::new() }
    }

    /// Whether there is no face at all.
    pub fn is_empty(&self) -> (empty: bool)
        ensures
            empty == (self.indices@.len() == 0),
    {
        self.indices.len() == 0
    }
}

/// What one visible block face looks like. Only equal cells merge.
#[derive(Debug, Clone, Copy, PartialEq, Eq, Structural)]
pub struct MaskCell {
    pub face: Face,
    pub tile: u16,
}

/// A rectangle of equal cells in one plane.
pub ghost struct Patch {
    pub u: int,
    pub v: int,
    pub width: int,
    pub height: int,
    pub cell: MaskCell,
}

impl Patch {
    /// Whether the patch covers column `u` of row `v`.
    pub open spec fn covers(self, u: int, v: int) -> bool {
        self.u <= u < self.u + self.width && self.v <= v < self.v + self.height
    }
}

/// A rectangle of equal cells, with the plane that it lies in.
pub ghost struct Quad {
    pub axis: int,
    pub slice: int,
    pub patch: Patch,
}

// ---------------------------------------------------------------------------------------------
// Which faces are visible.

/// Coordinate `k` of the block at in-plane position `(u, v)` and depth `d` along `axis`.
pub open spec fn plane_coord(axis: int, d: int, u: int, v: int, k: int) -> int {
    if k == axis {
        d
    } else if k == (axis + 1) % 3 {
        u
    } else {
        v
    }
}

/// The block at a coordinate local to the middle chunk, which may lie outside of it.
pub open spec fn block_near(n: &ChunkNeighborhood, x: int, y: int, z: int) -> BlockId {
    if in_chunk(x, y, z) {
        n.middle().block(x, y, z)
    } else {
        n.world_block(
            seq![
                (n.middle().at().origin_at(0) + x) as i32,
                (n.middle().at().origin_at(1) + y) as i32,
                (n.middle().at().origin_at(2) + z) as i32,
            ],
        )
    }
}

/// The block at in-plane position `(u, v)` and depth `d` along `axis`.
pub open spec fn block_in_plane(n: &ChunkNeighborhood, axis: int, d: int, u: int, v: int) -> BlockId {
    block_near(
        n,
        plane_coord(axis, d, u, v, 0),
        plane_coord(axis, d, u, v, 1),
        plane_coord(axis, d, u, v, 2),
    )
}

/// The face that looks along `axis`, in the positive direction or against it.
pub open spec fn face_along(axis: int, positive: bool) -> Face {
    Face::nth(
        axis * 2 + if positive {
            0int
        } else {
            1int
        },
    )
}

/// The face to draw between depths `slice - 1` and `slice`: there is one where exactly one of the
/// two blocks is solid, it belongs to that block and looks at the other.
pub open spec fn visible_face(
    n: &ChunkNeighborhood,
    blocks: &BlockRegistry,
    axis: int,
    slice: int,
    u: int,
    v: int,
) -> Option<MaskCell> {
    let a = blocks@[block_in_plane(n, axis, slice - 1, u, v).id() as int];
    let b = blocks@[block_in_plane(n, axis, slice, u, v).id() as int];
    if a.solid == b.solid {
        None
    } else if a.solid {
        Some(
            MaskCell { face: face_along(axis, true), tile: a.tiles.tile(face_along(axis, true)) },
        )
    } else {
        Some(
            MaskCell { face: face_along(axis, false), tile: b.tiles.tile(face_along(axis, false)) },
        )
    }
}

/// The visible faces of one plane: column `u` of row `v` at index `v * 32 + u`.
pub open spec fn plane_mask(
    n: &ChunkNeighborhood,
    blocks: &BlockRegistry,
    axis: int,
    slice: int,
) -> Seq<Option<MaskCell>> {
    Seq::new(1024, |i: int| visible_face(n, blocks, axis, slice, i % 32, i / 32))
}

// ---------------------------------------------------------------------------------------------
// Greedy merging of one plane.

/// The cell in column `u` of row `v`.
pub open spec fn mask_at(mask: Seq<Option<MaskCell>>, u: int, v: int) -> Option<MaskCell> {
    mask[v * 32 + u]
}

/// How far the run of `cell` that starts at `(u, v)` reaches to the right, at least `w`.
pub open spec fn run_width(mask: Seq<Option<MaskCell>>, u: int, v: int, cell: MaskCell, w: int) -> int
    decreases 32 - u - w,
{
    if u + w < 32 && mask_at(mask, u + w, v) == Some(cell) {
        run_width(mask, u, v, cell, w + 1)
    } else {
        w
    }
}

/// A run that starts inside the plane stays inside it.
pub proof fn width_in_range(mask: Seq<Option<MaskCell>>, u: int, v: int, cell: MaskCell, w: int)
    requires
        u + w <= 32,
    ensures
        w <= run_width(mask, u, v, cell, w) <= 32 - u,
    decreases 32 - u - w,
{
    if u + w < 32 && mask_at(mask, u + w, v) == Some(cell) {
        width_in_range(mask, u, v, cell, w + 1);
    }
}

/// Whether row `v` holds `cell` in all of the `width` columns from `u` on.
pub open spec fn row_holds(mask: Seq<Option<MaskCell>>, u: int, v: int, width: int, cell: MaskCell) -> bool {
    forall|k: int| 0 <= k < width ==> #[trigger] mask_at(mask, u + k, v) == Some(cell)
}

/// How many rows from `v` on hold `cell` over the whole width, at least `h`.
pub open spec fn run_height(
    mask: Seq<Option<MaskCell>>,
    u: int,
    v: int,
    width: int,
    cell: MaskCell,
    h: int,
) -> int
    decreases 32 - v - h,
{
    if v + h < 32 && row_holds(mask, u, v + h, width, cell) {
        run_height(mask, u, v, width, cell, h + 1)
    } else {
        h
    }
}

/// The largest rectangle that greedy growth reaches from `(u, v)`: first to the right, then down.
pub open spec fn grown(mask: Seq<Option<MaskCell>>, u: int, v: int, cell: MaskCell) -> Patch {
    let width = run_width(mask, u, v, cell, 1);
    Patch { u, v, width, height: run_height(mask, u, v, width, cell, 1), cell }
}

/// The mask without the cells of a patch.
pub open spec fn without(mask: Seq<Option<MaskCell>>, patch: Patch) -> Seq<Option<MaskCell>> {
    Seq::new(
        mask.len(),
        |i: int|
            if patch.covers(i % 32, i / 32) {
                None
            } else {
                mask[i]
            },
    )
}

/// Greedy merging, row by row from `(u, v)` on: the first cell left grows into a patch.
pub open spec fn merged(mask: Seq<Option<MaskCell>>, u: int, v: int) -> Seq<Patch>
    decreases 32 - v, 32 - u,
{
    if v >= 32 {
        Seq::empty()
    } else if u >= 32 {
        merged(mask, 0, v + 1)
    } else {
        match mask_at(mask, u, v) {
            None => merged(mask, u + 1, v),
            Some(cell) => {
                proof {
                    width_in_range(mask, u, v, cell, 1);
                }
                let patch = grown(mask, u, v, cell);
                seq![patch] + merged(without(mask, patch), u + patch.width, v)
            },
        }
    }
}

/// The quads of one plane.
pub open spec fn plane_quads(mask: Seq<Option<MaskCell>>, axis: int, slice: int) -> Seq<Quad> {
    merged(mask, 0, 0).map_values(|patch: Patch| Quad { axis, slice, patch })
}

/// The quads of the first `planes` planes: 33 along each axis.
pub open spec fn quads_of(n: &ChunkNeighborhood, blocks: &BlockRegistry, planes: int) -> Seq<Quad>
    decreases planes,
{
    if planes <= 0 {
        Seq::empty()
    } else {
        let axis = (planes - 1) / 33;
        let slice = (planes - 1) % 33;
        quads_of(n, blocks, planes - 1) + plane_quads(
            plane_mask(n, blocks, axis, slice),
            axis,
            slice,
        )
    }
}

// ---------------------------------------------------------------------------------------------
// From quads to vertices.

/// Whether corner `i` of a quad lies on its far side along `u`. The corners run counter-clockwise
/// seen from outside.
pub open spec fn far_u(q: Quad, i: int) -> int {
    if q.patch.cell.face.positive() {
        if i == 1 || i == 2 { 1 } else { 0 }
    } else {
        if i == 2 || i == 3 { 1 } else { 0 }
    }
}

/// Whether corner `i` of a quad lies on its far side along `v`.
pub open spec fn far_v(q: Quad, i: int) -> int {
    if q.patch.cell.face.positive() {
        if i == 2 || i == 3 { 1 } else { 0 }
    } else {
        if i == 1 || i == 2 { 1 } else { 0 }
    }
}

/// Whether `vertex` is corner `i` of the quad.
pub open spec fn is_corner(vertex: Vertex, q: Quad, i: int) -> bool {
    let du = if far_u(q, i) == 1 { q.patch.width } else { 0 };
    let dv = if far_v(q, i) == 1 { q.patch.height } else { 0 };
    &&& forall|k: int|
        0 <= k < 3 ==> #[trigger] vertex.position@[k] == plane_coord(
            q.axis,
            q.slice,
            q.patch.u + du,
            q.patch.v + dv,
            k,
        )
    &&& forall|k: int| 0 <= k < 3 ==> #[trigger] vertex.normal@[k] == q.patch.cell.face.normal_at(k)
    &&& vertex.uv@[0] == du
    &&& vertex.uv@[1] == dv
    &&& vertex.tile == q.patch.cell.tile
}

/// Which corner the `j`-th index of a quad names: two triangles that share a diagonal.
pub open spec fn index_corner(j: int) -> int {
    if j == 0 || j == 3 {
        0
    } else if j == 1 {
        1
    } else if j == 2 || j == 4 {
        2
    } else {
        3
    }
}

/// Vertex `i` of the `q`-th quad of a mesh.
pub open spec fn quad_vertex(vertices: Seq<Vertex>, q: int, i: int) -> Vertex {
    vertices[4 * q + i]
}

/// Index `j` of the `q`-th quad of a mesh.
pub open spec fn quad_index(indices: Seq<u32>, q: int, j: int) -> u32 {
    indices[6 * q + j]
}

/// Whether the mesh draws exactly the quads, in order.
pub open spec fn draws(mesh: ChunkMesh, quads: Seq<Quad>) -> bool {
    &&& mesh.vertices@.len() == 4 * quads.len()
    &&& mesh.indices@.len() == 6 * quads.len()
    &&& forall|q: int, i: int|
        0 <= q < quads.len() && 0 <= i < 4 ==> is_corner(
            #[trigger] quad_vertex(mesh.vertices@, q, i),
            quads[q],
            i,
        )
    &&& forall|q: int, j: int|
        0 <= q < quads.len() && 0 <= j < 6 ==> #[trigger] quad_index(mesh.indices@, q, j) == 4 * q
            + index_corner(j)
}

// ---------------------------------------------------------------------------------------------
// Bounds.

proof fn height_in_range(mask: Seq<Option<MaskCell>>, u: int, v: int, width: int, cell: MaskCell, h: int)
    requires
        v + h <= 32,
    ensures
        h <= run_height(mask, u, v, width, cell, h) <= 32 - v,
    decreases 32 - v - h,
{
    if v + h < 32 && row_holds(mask, u, v + h, width, cell) {
        height_in_range(mask, u, v, width, cell, h + 1);
    }
}

proof fn merged_is_bounded(mask: Seq<Option<MaskCell>>, u: int, v: int)
    requires
        0 <= u <= 32,
        0 <= v <= 32,
    ensures
        v < 32 ==> merged(mask, u, v).len() <= (32 - v) * 32 - u,
        v == 32 ==> merged(mask, u, v).len() == 0,
    decreases 32 - v, 32 - u,
{
    if v < 32 {
        if u >= 32 {
            merged_is_bounded(mask, 0, v + 1);
        } else {
            match mask_at(mask, u, v) {
                None => merged_is_bounded(mask, u + 1, v),
                Some(cell) => {
                    width_in_range(mask, u, v, cell, 1);
                    let patch = grown(mask, u, v, cell);
                    merged_is_bounded(without(mask, patch), u + patch.width, v);
                },
            }
        }
    }
}

proof fn quads_are_bounded(n: &ChunkNeighborhood, blocks: &BlockRegistry, planes: int)
    requires
        0 <= planes,
    ensures
        quads_of(n, blocks, planes).len() <= planes * 1024,
    decreases planes,
{
    if planes > 0 {
        quads_are_bounded(n, blocks, planes - 1);
        merged_is_bounded(plane_mask(n, blocks, (planes - 1) / 33, (planes - 1) % 33), 0, 0);
    }
}

// ---------------------------------------------------------------------------------------------
// The executable side.

/// A plane across the chunk: `axis` is its normal, `u` and `v` lie in it.
#[derive(Clone, Copy)]
struct Plane {
    axis: usize,
    u: usize,
    v: usize,
}

impl Plane {
    spec fn wf(self) -> bool {
        &&& self.axis < 3
        &&& self.u == (self.axis + 1) % 3
        &&& self.v == (self.axis + 2) % 3
    }

    fn new(axis: usize) -> (plane: Self)
        requires
            axis < 3,
        ensures
            plane.wf(),
            plane.axis == axis,
    {
        Plane { axis, u: (axis + 1) % 3, v: (axis + 2) % 3 }
    }

    /// The local coordinate at depth `d` and in-plane position `(u, v)`.
    fn coord(self, d: i32, u: i32, v: i32) -> (local: [i32; 3])
        requires
            self.wf(),
        ensures
            forall|k: int|
                0 <= k < 3 ==> #[trigger] local@[k] == plane_coord(
                    self.axis as int,
                    d as int,
                    u as int,
                    v as int,
                    k,
                ),
    {
        let mut local: [i32; 3] = [0, 0, 0];
        local[self.axis] = d;
        local[self.u] = u;
        local[self.v] = v;
        local
    }
}

/// A rectangle in a plane.
#[derive(Clone, Copy)]
struct Rect {
    u: usize,
    v: usize,
    width: usize,
    height: usize,
}

impl Rect {
    spec fn patch(self, cell: MaskCell) -> Patch {
        Patch {
            u: self.u as int,
            v: self.v as int,
            width: self.width as int,
            height: self.height as int,
            cell,
        }
    }
}

/// The face that looks along `axis`.
fn axis_face(axis: usize, positive: bool) -> (face: Face)
    requires
        axis < 3,
    ensures
        face == face_along(axis as int, positive),
        face.axis() == axis,
        face.positive() == positive,
{
    let faces = Face::all();
    let side: usize = if positive { 0 } else { 1 };
    faces[axis * 2 + side]
}

fn holds(slot: Option<MaskCell>, cell: MaskCell) -> (same: bool)
    ensures
        same == (slot == Some(cell)),
{
    match slot {
        Some(other) => other == cell,
        None => false,
    }
}

/// Writes a rectangle as four vertices and two triangles.
fn push_quad(mesh: &mut ChunkMesh, plane: Plane, slice: usize, rect: Rect, cell: MaskCell, Ghost(quads): Ghost<Seq<Quad>>)
    requires
        plane.wf(),
        slice <= 32,
        rect.u + rect.width <= 32,
        rect.v + rect.height <= 32,
        cell.face.axis() == plane.axis,
        draws(*old(mesh), quads),
        quads.len() < 0x1000_0000,
    ensures
        final(mesh).pos == old(mesh).pos,
        draws(
            *final(mesh),
            quads.push(
                Quad { axis: plane.axis as int, slice: slice as int, patch: rect.patch(cell) },
            ),
        ),
{
    let u0: i32 = rect.u as i32;
    let v0: i32 = rect.v as i32;
    let width: i32 = rect.width as i32;
    let height: i32 = rect.height as i32;
    let depth: i32 = slice as i32;
    let normal = cell.face.step();
    let positive = normal[plane.axis] > 0;
    let base: u32 = mesh.vertices.len() as u32;
    let ghost quad = Quad {
        axis: plane.axis as int,
        slice: slice as int,
        patch: rect.patch(cell),
    };
    let ghost vertices = mesh.vertices@;
    let ghost indices = mesh.indices@;

    let near = Vertex {
        position: plane.coord(depth, u0, v0),
        normal,
        uv: [0, 0],
        tile: cell.tile,
    };
    let along_u = Vertex {
        position: plane.coord(depth, u0 + width, v0),
        normal,
        uv: [width, 0],
        tile: cell.tile,
    };
    let far = Vertex {
        position: plane.coord(depth, u0 + width, v0 + height),
        normal,
        uv: [width, height],
        tile: cell.tile,
    };
    let along_v = Vertex {
        position: plane.coord(depth, u0, v0 + height),
        normal,
        uv: [0, height],
        tile: cell.tile,
    };
    let second = if positive { along_u } else { along_v };
    let fourth = if positive { along_v } else { along_u };
    mesh.vertices.push(near);
    mesh.vertices.push(second);
    mesh.vertices.push(far);
    mesh.vertices.push(fourth);
    mesh.indices.push(base);
    mesh.indices.push(base + 1);
    mesh.indices.push(base + 2);
    mesh.indices.push(base);
    mesh.indices.push(base + 2);
    mesh.indices.push(base + 3);

    proof {
        let all = quads.push(quad);
        assert forall|q: int, i: int| 0 <= q < all.len() && 0 <= i < 4 implies is_corner(
            #[trigger] quad_vertex(mesh.vertices@, q, i),
            all[q],
            i,
        ) by {
            if q < quads.len() {
                assert(quad_vertex(mesh.vertices@, q, i) == quad_vertex(vertices, q, i));
                assert(is_corner(quad_vertex(vertices, q, i), quads[q], i));
            } else {
                assert(all[q] == quad);
                assert(quad_vertex(mesh.vertices@, q, i) == if i == 0 {
                    near
                } else if i == 1 {
                    second
                } else if i == 2 {
                    far
                } else {
                    fourth
                });
            }
        }
        assert forall|q: int, j: int| 0 <= q < all.len() && 0 <= j < 6 implies #[trigger] quad_index(
            mesh.indices@,
            q,
            j,
        ) == 4 * q + index_corner(j) by {
            if q < quads.len() {
                assert(quad_index(mesh.indices@, q, j) == quad_index(indices, q, j));
            }
        }
    }
}

/// Whether row `v` holds `cell` in the `width` columns from `u` on.
fn row_matches(mask: &Vec<Option<MaskCell>>, u: usize, v: usize, width: usize, cell: MaskCell) -> (all: bool)
    requires
        mask@.len() == 1024,
        u + width <= 32,
        v < 32,
    ensures
        all == row_holds(mask@, u as int, v as int, width as int, cell),
{
    let mut k: usize = 0;
    while k < width
        invariant
            mask@.len() == 1024,
            u + width <= 32,
            v < 32,
            k <= width,
            forall|j: int| 0 <= j < k ==> #[trigger] mask_at(mask@, u + j, v as int) == Some(cell),
        decreases width - k,
    {
        if !holds(mask[v * CHUNK_SIZE + u + k], cell) {
            assert(mask_at(mask@, u + k as int, v as int) != Some(cell));
            return false;
        }
        k += 1;
    }
    true
}

/// The patch that grows from `(u, v)`.
fn grow(mask: &Vec<Option<MaskCell>>, u: usize, v: usize, cell: MaskCell) -> (rect: Rect)
    requires
        mask@.len() == 1024,
        u < 32,
        v < 32,
    ensures
        rect.patch(cell) == grown(mask@, u as int, v as int, cell),
        1 <= rect.width,
        1 <= rect.height,
        u + rect.width <= 32,
        v + rect.height <= 32,
{
    let mut width: usize = 1;
    while u + width < CHUNK_SIZE && holds(mask[v * CHUNK_SIZE + u + width], cell)
        invariant
            mask@.len() == 1024,
            u < 32,
            v < 32,
            1 <= width,
            u + width <= 32,
            run_width(mask@, u as int, v as int, cell, 1) == run_width(
                mask@,
                u as int,
                v as int,
                cell,
                width as int,
            ),
        decreases 32 - width,
    {
        width += 1;
    }
    let mut height: usize = 1;
    while v + height < CHUNK_SIZE && row_matches(mask, u, v + height, width, cell)
        invariant
            mask@.len() == 1024,
            u < 32,
            v < 32,
            1 <= width,
            u + width <= 32,
            1 <= height,
            v + height <= 32,
            run_height(mask@, u as int, v as int, width as int, cell, 1) == run_height(
                mask@,
                u as int,
                v as int,
                width as int,
                cell,
                height as int,
            ),
        decreases 32 - height,
    {
        height += 1;
    }
    Rect { u, v, width, height }
}

/// Takes the cells of a rectangle out of the mask.
fn clear_rect(mask: &mut Vec<Option<MaskCell>>, rect: Rect, Ghost(cell): Ghost<MaskCell>)
    requires
        old(mask)@.len() == 1024,
        rect.u + rect.width <= 32,
        rect.v + rect.height <= 32,
    ensures
        final(mask)@ == without(old(mask)@, rect.patch(cell)),
{
    let mut dv: usize = 0;
    while dv < rect.height
        invariant
            mask@.len() == 1024,
            old(mask)@.len() == 1024,
            rect.u + rect.width <= 32,
            rect.v + rect.height <= 32,
            dv <= rect.height,
            forall|i: int|
                0 <= i < 1024 ==> #[trigger] mask@[i] == (if rect.u <= i % 32 < rect.u + rect.width
                    && rect.v <= i / 32 < rect.v + dv {
                    None
                } else {
                    old(mask)@[i]
                }),
        decreases rect.height - dv,
    {
        let mut du: usize = 0;
        while du < rect.width
            invariant
                mask@.len() == 1024,
                old(mask)@.len() == 1024,
                rect.u + rect.width <= 32,
                rect.v + rect.height <= 32,
                dv < rect.height,
                du <= rect.width,
                forall|i: int|
                    0 <= i < 1024 ==> #[trigger] mask@[i] == (if (rect.u <= i % 32 < rect.u
                        + rect.width && rect.v <= i / 32 < rect.v + dv) || (rect.u <= i % 32
                        < rect.u + du && i / 32 == rect.v + dv) {
                        None
                    } else {
                        old(mask)@[i]
                    }),
            decreases rect.width - du,
        {
            let index: usize = (rect.v + dv) * CHUNK_SIZE + rect.u + du;
            assert(index as int / 32 == rect.v + dv && index as int % 32 == rect.u + du);
            mask.set(index, None);
            du += 1;
        }
        dv += 1;
    }
    assert(mask@ =~= without(old(mask)@, rect.patch(cell)));
}

/// Merges one plane and writes its rectangles into the mesh.
fn merge_plane(mesh: &mut ChunkMesh, mask: &mut Vec<Option<MaskCell>>, plane: Plane, slice: usize, Ghost(quads): Ghost<Seq<Quad>>)
    requires
        plane.wf(),
        slice <= 32,
        old(mask)@.len() == 1024,
        forall|i: int|
            0 <= i < 1024 && (#[trigger] old(mask)@[i]) is Some ==> old(mask)@[i]->0.face.axis()
                == plane.axis,
        draws(*old(mesh), quads),
        quads.len() <= 0x800_0000,
    ensures
        final(mask)@.len() == 1024,
        final(mesh).pos == old(mesh).pos,
        draws(*final(mesh), quads + plane_quads(old(mask)@, plane.axis as int, slice as int)),
{
    let ghost whole = mask@;
    let ghost f = |patch: Patch| Quad { axis: plane.axis as int, slice: slice as int, patch };
    let ghost mut found: Seq<Patch> = Seq::empty();
    proof {
        merged_is_bounded(whole, 0, 0);
        assert(quads + found.map_values(f) =~= quads);
        assert(found + merged(whole, 0, 0) =~= merged(whole, 0, 0));
    }
    let mut row: usize = 0;
    while row < CHUNK_SIZE
        invariant
            plane.wf(),
            slice <= 32,
            row <= 32,
            mask@.len() == 1024,
            forall|i: int|
                0 <= i < 1024 && (#[trigger] mask@[i]) is Some ==> mask@[i]->0.face.axis()
                    == plane.axis,
            mesh.pos == old(mesh).pos,
            draws(*mesh, quads + found.map_values(f)),
            f == (|patch: Patch| Quad { axis: plane.axis as int, slice: slice as int, patch }),
            merged(whole, 0, 0) == found + merged(mask@, 0, row as int),
            merged(whole, 0, 0).len() <= 1024,
            quads.len() <= 0x800_0000,
        decreases 32 - row,
    {
        let mut column: usize = 0;
        while column < CHUNK_SIZE
            invariant
                plane.wf(),
                slice <= 32,
                row < 32,
                column <= 32,
                mask@.len() == 1024,
                forall|i: int|
                    0 <= i < 1024 && (#[trigger] mask@[i]) is Some ==> mask@[i]->0.face.axis()
                        == plane.axis,
                mesh.pos == old(mesh).pos,
                draws(*mesh, quads + found.map_values(f)),
                f == (|patch: Patch| Quad { axis: plane.axis as int, slice: slice as int, patch }),
                merged(whole, 0, 0) == found + merged(mask@, column as int, row as int),
                merged(whole, 0, 0).len() <= 1024,
                quads.len() <= 0x800_0000,
            decreases 32 - column,
        {
            let slot = mask[row * CHUNK_SIZE + column];
            assert(slot == mask_at(mask@, column as int, row as int));
            match slot {
                None => {
                    column += 1;
                },
                Some(cell) => {
                    let rect = grow(mask, column, row, cell);
                    let ghost patch = rect.patch(cell);
                    let ghost rest = merged(
                        without(mask@, patch),
                        column + rect.width as int,
                        row as int,
                    );
                    proof {
                        assert(merged(mask@, column as int, row as int) == seq![patch] + rest);
                        assert(found + (seq![patch] + rest) =~= found.push(patch) + rest);
                        assert(quads + found.push(patch).map_values(f) =~= (quads
                            + found.map_values(f)).push(f(patch)));
                        assert(found.len() <= 1024);
                    }
                    clear_rect(mask, rect, Ghost(cell));
                    push_quad(mesh, plane, slice, rect, cell, Ghost(quads + found.map_values(f)));
                    proof {
                        found = found.push(patch);
                    }
                    column += rect.width;
                },
            }
        }
        assert(merged(mask@, column as int, row as int) == merged(mask@, 0, row + 1));
        row += 1;
    }
    proof {
        assert(merged(mask@, 0, 32) =~= Seq::empty());
        assert(found =~= merged(whole, 0, 0));
    }
}

/// Whether a local coordinate is read when the chunk is meshed: inside the chunk, or one block
/// past one of its faces.
pub open spec fn read_by_meshing(x: int, y: int, z: int) -> bool {
    ||| (-1 <= x <= 32 && 0 <= y < 32 && 0 <= z < 32)
    ||| (0 <= x < 32 && -1 <= y <= 32 && 0 <= z < 32)
    ||| (0 <= x < 32 && 0 <= y < 32 && -1 <= z <= 32)
}

/// Whether the registry knows every block that meshing reads.
pub open spec fn blocks_known(n: &ChunkNeighborhood, blocks: &BlockRegistry) -> bool {
    forall|x: int, y: int, z: int|
        read_by_meshing(x, y, z) ==> blocks.defines(#[trigger] block_near(n, x, y, z))
}

/// Whether the world coordinates of the blocks around the chunk are representable.
pub open spec fn coordinates_fit(pos: ChunkPos) -> bool {
    forall|k: int|
        0 <= k < 3 ==> i32::MIN < #[trigger] pos.origin_at(k) && pos.origin_at(k) + 32 <= i32::MAX
}

fn block_near_at(n: &ChunkNeighborhood, origin: [i32; 3], local: [i32; 3]) -> (id: BlockId)
    requires
        n.wf(),
        coordinates_fit(n.middle().at()),
        forall|k: int| 0 <= k < 3 ==> #[trigger] origin@[k] == n.middle().at().origin_at(k),
        forall|k: int| 0 <= k < 3 ==> -1 <= #[trigger] local@[k] <= 32,
    ensures
        id == block_near(n, local@[0] as int, local@[1] as int, local@[2] as int),
{
    let size: i32 = CHUNK_SIZE as i32;
    let inside = 0 <= local[0] && local[0] < size && 0 <= local[1] && local[1] < size && 0
        <= local[2] && local[2] < size;
    if inside {
        n.center().get([local[0] as usize, local[1] as usize, local[2] as usize])
    } else {
        proof {
            let pos = n.middle().at();
            assert(i32::MIN < pos.origin_at(0) && i32::MIN < pos.origin_at(1) && i32::MIN
                < pos.origin_at(2));
        }
        let world = [origin[0] + local[0], origin[1] + local[1], origin[2] + local[2]];
        assert(world@ =~= seq![
            (n.middle().at().origin_at(0) + local@[0]) as i32,
            (n.middle().at().origin_at(1) + local@[1]) as i32,
            (n.middle().at().origin_at(2) + local@[2]) as i32,
        ]);
        n.block_at(world)
    }
}

/// The face to draw at one place of a plane.
fn visible_face_at(
    n: &ChunkNeighborhood,
    blocks: &BlockRegistry,
    origin: [i32; 3],
    plane: Plane,
    slice: usize,
    u: usize,
    v: usize,
) -> (cell: Option<MaskCell>)
    requires
        n.wf(),
        coordinates_fit(n.middle().at()),
        blocks_known(n, blocks),
        forall|k: int| 0 <= k < 3 ==> #[trigger] origin@[k] == n.middle().at().origin_at(k),
        plane.wf(),
        slice <= 32,
        u < 32,
        v < 32,
    ensures
        cell == visible_face(n, blocks, plane.axis as int, slice as int, u as int, v as int),
        cell is Some ==> cell->0.face.axis() == plane.axis,
{
    let local_a = plane.coord(slice as i32 - 1, u as i32, v as i32);
    let a = block_near_at(n, origin, local_a);
    let local_b = plane.coord(slice as i32, u as i32, v as i32);
    let b = block_near_at(n, origin, local_b);
    proof {
        assert(read_by_meshing(local_a@[0] as int, local_a@[1] as int, local_a@[2] as int));
        assert(read_by_meshing(local_b@[0] as int, local_b@[1] as int, local_b@[2] as int));
        assert(a == block_in_plane(n, plane.axis as int, slice - 1, u as int, v as int));
        assert(b == block_in_plane(n, plane.axis as int, slice as int, u as int, v as int));
    }
    let def_a = blocks.get(a);
    let def_b = blocks.get(b);
    if def_a.solid == def_b.solid {
        None
    } else if def_a.solid {
        let face = axis_face(plane.axis, true);
        Some(MaskCell { face, tile: def_a.tiles.get(face) })
    } else {
        let face = axis_face(plane.axis, false);
        Some(MaskCell { face, tile: def_b.tiles.get(face) })
    }
}

/// Fills the mask of one plane.
fn fill_mask(
    mask: &mut Vec<Option<MaskCell>>,
    n: &ChunkNeighborhood,
    blocks: &BlockRegistry,
    origin: [i32; 3],
    plane: Plane,
    slice: usize,
)
    requires
        n.wf(),
        coordinates_fit(n.middle().at()),
        blocks_known(n, blocks),
        forall|k: int| 0 <= k < 3 ==> #[trigger] origin@[k] == n.middle().at().origin_at(k),
        plane.wf(),
        slice <= 32,
        old(mask)@.len() == 1024,
    ensures
        final(mask)@ == plane_mask(n, blocks, plane.axis as int, slice as int),
        forall|i: int|
            0 <= i < 1024 && (#[trigger] final(mask)@[i]) is Some
                ==> final(mask)@[i]->0.face.axis() == plane.axis,
{
    let mut v: usize = 0;
    while v < CHUNK_SIZE
        invariant
            n.wf(),
            coordinates_fit(n.middle().at()),
            blocks_known(n, blocks),
            forall|k: int| 0 <= k < 3 ==> #[trigger] origin@[k] == n.middle().at().origin_at(k),
            plane.wf(),
            slice <= 32,
            v <= 32,
            mask@.len() == 1024,
            forall|i: int|
                0 <= i < v * 32 ==> #[trigger] mask@[i] == visible_face(
                    n,
                    blocks,
                    plane.axis as int,
                    slice as int,
                    i % 32,
                    i / 32,
                ),
            forall|i: int|
                0 <= i < v * 32 && (#[trigger] mask@[i]) is Some ==> mask@[i]->0.face.axis()
                    == plane.axis,
        decreases 32 - v,
    {
        let mut u: usize = 0;
        while u < CHUNK_SIZE
            invariant
                n.wf(),
                coordinates_fit(n.middle().at()),
                blocks_known(n, blocks),
                forall|k: int| 0 <= k < 3 ==> #[trigger] origin@[k] == n.middle().at().origin_at(k),
                plane.wf(),
                slice <= 32,
                v < 32,
                u <= 32,
                mask@.len() == 1024,
                forall|i: int|
                    0 <= i < v * 32 + u ==> #[trigger] mask@[i] == visible_face(
                        n,
                        blocks,
                        plane.axis as int,
                        slice as int,
                        i % 32,
                        i / 32,
                    ),
                forall|i: int|
                    0 <= i < v * 32 + u && (#[trigger] mask@[i]) is Some
                        ==> mask@[i]->0.face.axis() == plane.axis,
            decreases 32 - u,
        {
            let cell = visible_face_at(n, blocks, origin, plane, slice, u, v);
            let index: usize = v * CHUNK_SIZE + u;
            assert(index as int / 32 == v && index as int % 32 == u);
            mask.set(index, cell);
            u += 1;
        }
        v += 1;
    }
    assert(mask@ =~= plane_mask(n, blocks, plane.axis as int, slice as int));
}

/// Meshes the 33 planes across one axis.
fn mesh_axis(
    mesh: &mut ChunkMesh,
    mask: &mut Vec<Option<MaskCell>>,
    n: &ChunkNeighborhood,
    blocks: &BlockRegistry,
    origin: [i32; 3],
    axis: usize,
)
    requires
        n.wf(),
        coordinates_fit(n.middle().at()),
        blocks_known(n, blocks),
        forall|k: int| 0 <= k < 3 ==> #[trigger] origin@[k] == n.middle().at().origin_at(k),
        axis < 3,
        old(mask)@.len() == 1024,
        draws(*old(mesh), quads_of(n, blocks, axis * 33)),
    ensures
        final(mask)@.len() == 1024,
        final(mesh).pos == old(mesh).pos,
        draws(*final(mesh), quads_of(n, blocks, axis * 33 + 33)),
{
    let plane = Plane::new(axis);
    let mut slice: usize = 0;
    while slice <= CHUNK_SIZE
        invariant
            n.wf(),
            coordinates_fit(n.middle().at()),
            blocks_known(n, blocks),
            forall|k: int| 0 <= k < 3 ==> #[trigger] origin@[k] == n.middle().at().origin_at(k),
            axis < 3,
            plane.wf(),
            plane.axis == axis,
            slice <= 33,
            mask@.len() == 1024,
            mesh.pos == old(mesh).pos,
            draws(*mesh, quads_of(n, blocks, axis * 33 + slice)),
        decreases 33 - slice,
    {
        let ghost planes = axis * 33 + slice as int;
        let ghost quads = quads_of(n, blocks, planes);
        proof {
            quads_are_bounded(n, blocks, planes);
            assert(planes / 33 == axis && planes % 33 == slice);
            assert(quads_of(n, blocks, planes + 1) == quads + plane_quads(
                plane_mask(n, blocks, axis as int, slice as int),
                axis as int,
                slice as int,
            ));
        }
        fill_mask(mask, n, blocks, origin, plane, slice);
        merge_plane(mesh, mask, plane, slice, Ghost(quads));
        slice += 1;
    }
}

/// Meshes the middle chunk of a snapshot.
///
/// Along each axis, plane by plane, the visible faces are found and greedily merged. Absent
/// neighbours count as air, so the faces that look at them are drawn. A chunk of air has no faces.
pub fn mesh_chunk(neighborhood: &ChunkNeighborhood, blocks: &BlockRegistry) -> (mesh: ChunkMesh)
    requires
        neighborhood.wf(),
        count_non_air(neighborhood.middle()@) > 0 ==> {
            &&& coordinates_fit(neighborhood.middle().at())
            &&& blocks_known(neighborhood, blocks)
        },
    ensures
        mesh.pos == neighborhood.middle().at(),
        draws(mesh, chunk_quads(neighborhood, blocks)),
{
    let center = neighborhood.center();
    let pos = center.pos();
    if center.is_empty() {
        return ChunkMesh::empty(pos);
    }
    proof {
        assert forall|k: int| 0 <= k < 3 implies i32::MIN <= #[trigger] pos.origin_at(k)
            <= i32::MAX by {
            assert(i32::MIN < pos.origin_at(k));
        }
    }
    let origin = pos.origin();
    let mut mesh = ChunkMesh::empty(pos);
    let mut mask: Vec<Option<MaskCell>> = vec![None; 1024];
    let ghost none = quads_of(neighborhood, blocks, 0);
    assert(none.len() == 0);
    assert(draws(mesh, none));
    mesh_axis(&mut mesh, &mut mask, neighborhood, blocks, origin, 0);
    mesh_axis(&mut mesh, &mut mask, neighborhood, blocks, origin, 1);
    mesh_axis(&mut mesh, &mut mask, neighborhood, blocks, origin, 2);
    mesh
}

/// The quads of the middle chunk's mesh: none for a chunk of air.
pub open spec fn chunk_quads(n: &ChunkNeighborhood, blocks: &BlockRegistry) -> Seq<Quad> {
    if count_non_air(n.middle()@) == 0 {
        Seq::empty()
    } else {
        quads_of(n, blocks, 99)
    }
}

// ---------------------------------------------------------------------------------------------
// Laws: the mesh shows each visible face once and nothing else.

/// Whether `(u, v)` is a place in a plane.
pub open spec fn in_plane(u: int, v: int) -> bool {
    0 <= u < 32 && 0 <= v < 32
}

/// Whether the patch lies in the plane and every place it covers holds its cell.
pub open spec fn patch_fits(mask: Seq<Option<MaskCell>>, patch: Patch) -> bool {
    &&& 0 <= patch.u && 0 <= patch.v && 1 <= patch.width && 1 <= patch.height
    &&& patch.u + patch.width <= 32 && patch.v + patch.height <= 32
    &&& forall|u: int, v: int| #[trigger]
        patch.covers(u, v) ==> mask_at(mask, u, v) == Some(patch.cell)
}

/// Whether some patch covers `(u, v)`.
pub open spec fn covered(patches: Seq<Patch>, u: int, v: int) -> bool {
    exists|k: int| 0 <= k < patches.len() && (#[trigger] patches[k]).covers(u, v)
}

/// Whether every patch fits, every cell of the mask is covered, and no place is covered twice.
pub open spec fn covers_exactly(mask: Seq<Option<MaskCell>>, patches: Seq<Patch>) -> bool {
    &&& forall|k: int| 0 <= k < patches.len() ==> patch_fits(mask, #[trigger] patches[k])
    &&& forall|u: int, v: int|
        in_plane(u, v) && (#[trigger] mask_at(mask, u, v)) is Some ==> covered(patches, u, v)
    &&& forall|i: int, j: int, u: int, v: int|
        0 <= i < patches.len() && 0 <= j < patches.len() && #[trigger] patches[i].covers(u, v)
            && #[trigger] patches[j].covers(u, v) ==> i == j
}

proof fn grown_cells(mask: Seq<Option<MaskCell>>, u: int, v: int, cell: MaskCell, w: int)
    requires
        1 <= w,
        u + w <= 32,
        row_holds(mask, u, v, w, cell),
    ensures
        row_holds(mask, u, v, run_width(mask, u, v, cell, w), cell),
    decreases 32 - u - w,
{
    if u + w < 32 && mask_at(mask, u + w, v) == Some(cell) {
        assert(row_holds(mask, u, v, w + 1, cell));
        grown_cells(mask, u, v, cell, w + 1);
    }
}

proof fn grown_rows(mask: Seq<Option<MaskCell>>, u: int, v: int, width: int, cell: MaskCell, h: int)
    requires
        1 <= h,
        v + h <= 32,
        forall|r: int| v <= r < v + h ==> #[trigger] row_holds(mask, u, r, width, cell),
    ensures
        forall|r: int|
            v <= r < v + run_height(mask, u, v, width, cell, h) ==> #[trigger] row_holds(
                mask,
                u,
                r,
                width,
                cell,
            ),
    decreases 32 - v - h,
{
    if v + h < 32 && row_holds(mask, u, v + h, width, cell) {
        grown_rows(mask, u, v, width, cell, h + 1);
    }
}

/// Growth reaches over equal cells only.
pub proof fn grown_patch_fits(mask: Seq<Option<MaskCell>>, u: int, v: int, cell: MaskCell)
    requires
        in_plane(u, v),
        mask_at(mask, u, v) == Some(cell),
    ensures
        patch_fits(mask, grown(mask, u, v, cell)),
{
    let patch = grown(mask, u, v, cell);
    width_in_range(mask, u, v, cell, 1);
    height_in_range(mask, u, v, patch.width, cell, 1);
    assert(row_holds(mask, u, v, 1, cell)) by {
        assert forall|k: int| 0 <= k < 1 implies #[trigger] mask_at(mask, u + k, v) == Some(cell) by {
            assert(k == 0);
        }
    }
    grown_cells(mask, u, v, cell, 1);
    grown_rows(mask, u, v, patch.width, cell, 1);
    assert forall|a: int, b: int| #[trigger] patch.covers(a, b) implies mask_at(mask, a, b) == Some(
        patch.cell,
    ) by {
        assert(row_holds(mask, u, b, patch.width, cell));
        assert(mask_at(mask, u + (a - u), b) == Some(cell));
    }
}

/// Taking a patch out of a mask empties the places that it covers and no others.
pub proof fn without_at(mask: Seq<Option<MaskCell>>, patch: Patch, u: int, v: int)
    requires
        mask.len() == 1024,
        in_plane(u, v),
    ensures
        mask_at(without(mask, patch), u, v) == (if patch.covers(u, v) {
            None
        } else {
            mask_at(mask, u, v)
        }),
{
    assert((v * 32 + u) / 32 == v && (v * 32 + u) % 32 == u);
}

/// Merging from a place on covers what is left exactly, where all before it is done.
pub proof fn merged_covers_from(mask: Seq<Option<MaskCell>>, u: int, v: int)
    requires
        mask.len() == 1024,
        0 <= u <= 32,
        0 <= v <= 32,
        forall|a: int, b: int|
            in_plane(a, b) && (b < v || (b == v && a < u)) ==> (#[trigger] mask_at(mask, a, b))
                is None,
    ensures
        covers_exactly(mask, merged(mask, u, v)),
    decreases 32 - v, 32 - u,
{
    if v >= 32 {
    } else if u >= 32 {
        merged_covers_from(mask, 0, v + 1);
    } else {
        match mask_at(mask, u, v) {
            None => {
                merged_covers_from(mask, u + 1, v);
            },
            Some(cell) => {
                let patch = grown(mask, u, v, cell);
                let rest_mask = without(mask, patch);
                width_in_range(mask, u, v, cell, 1);
                height_in_range(mask, u, v, patch.width, cell, 1);
                grown_patch_fits(mask, u, v, cell);
                assert forall|a: int, b: int|
                    in_plane(a, b) && (b < v || (b == v && a < u + patch.width)) implies (
                #[trigger] mask_at(rest_mask, a, b)) is None by {
                    without_at(mask, patch, a, b);
                    let _ = mask_at(mask, a, b);
                }
                merged_covers_from(rest_mask, u + patch.width, v);
                let rest = merged(rest_mask, u + patch.width, v);
                let all = seq![patch] + rest;
                assert(merged(mask, u, v) == all);
                assert forall|k: int| 0 <= k < all.len() implies patch_fits(
                    mask,
                    #[trigger] all[k],
                ) by {
                    if k > 0 {
                        let p = rest[k - 1];
                        assert(all[k] == p && patch_fits(rest_mask, p));
                        assert forall|a: int, b: int| #[trigger] p.covers(a, b) implies mask_at(
                            mask,
                            a,
                            b,
                        ) == Some(p.cell) by {
                            without_at(mask, patch, a, b);
                        }
                    }
                }
                assert forall|a: int, b: int|
                    in_plane(a, b) && (#[trigger] mask_at(mask, a, b)) is Some implies covered(
                    all,
                    a,
                    b,
                ) by {
                    without_at(mask, patch, a, b);
                    if patch.covers(a, b) {
                        assert(all[0].covers(a, b));
                    } else {
                        assert(mask_at(rest_mask, a, b) is Some);
                        let k = choose|k: int|
                            0 <= k < rest.len() && (#[trigger] rest[k]).covers(a, b);
                        assert(all[k + 1].covers(a, b));
                    }
                }
                assert forall|i: int, j: int, a: int, b: int|
                    0 <= i < all.len() && 0 <= j < all.len() && #[trigger] all[i].covers(a, b)
                        && #[trigger] all[j].covers(a, b) implies i == j by {
                    if i > 0 {
                        assert(all[i] == rest[i - 1] && patch_fits(rest_mask, rest[i - 1]));
                        without_at(mask, patch, a, b);
                    }
                    if j > 0 {
                        assert(all[j] == rest[j - 1] && patch_fits(rest_mask, rest[j - 1]));
                        without_at(mask, patch, a, b);
                    }
                }
            },
        }
    }
}

/// Greedy merging covers every cell of a plane exactly once, with patches of equal cells.
pub proof fn merging_covers_exactly(mask: Seq<Option<MaskCell>>)
    requires
        mask.len() == 1024,
    ensures
        covers_exactly(mask, merged(mask, 0, 0)),
{
    merged_covers_from(mask, 0, 0);
}

/// Whether the quad shows the face at `(u, v)` of the given plane.
pub open spec fn shows(q: Quad, axis: int, slice: int, u: int, v: int) -> bool {
    q.axis == axis && q.slice == slice && q.patch.covers(u, v)
}

proof fn plane_cells(n: &ChunkNeighborhood, blocks: &BlockRegistry, axis: int, slice: int, u: int, v: int)
    requires
        in_plane(u, v),
    ensures
        mask_at(plane_mask(n, blocks, axis, slice), u, v) == visible_face(
            n,
            blocks,
            axis,
            slice,
            u,
            v,
        ),
{
    assert((v * 32 + u) / 32 == v && (v * 32 + u) % 32 == u);
}

/// The quads of some planes lie in those planes, and show what is to be seen there.
pub proof fn quads_know_their_plane(n: &ChunkNeighborhood, blocks: &BlockRegistry, planes: int, i: int)
    requires
        0 <= planes,
        0 <= i < quads_of(n, blocks, planes).len(),
    ensures
        ({
            let q = quads_of(n, blocks, planes)[i];
            &&& 0 <= q.axis && 0 <= q.slice <= 32 && q.axis * 33 + q.slice < planes
            &&& patch_fits(plane_mask(n, blocks, q.axis, q.slice), q.patch)
        }),
    decreases planes,
{
    if planes > 0 {
        let before = quads_of(n, blocks, planes - 1);
        let axis = (planes - 1) / 33;
        let slice = (planes - 1) % 33;
        if i < before.len() {
            quads_know_their_plane(n, blocks, planes - 1, i);
        } else {
            let mask = plane_mask(n, blocks, axis, slice);
            merging_covers_exactly(mask);
            assert(patch_fits(mask, merged(mask, 0, 0)[i - before.len()]));
        }
    }
}

/// Every face that the mesh shows is a visible face, and looks as the visible face does.
pub proof fn mesh_shows_only_visible_faces(
    n: &ChunkNeighborhood,
    blocks: &BlockRegistry,
    i: int,
    u: int,
    v: int,
)
    requires
        0 <= i < chunk_quads(n, blocks).len(),
        chunk_quads(n, blocks)[i].patch.covers(u, v),
    ensures
        ({
            let q = chunk_quads(n, blocks)[i];
            &&& 0 <= q.axis < 3 && 0 <= q.slice <= 32 && in_plane(u, v)
            &&& visible_face(n, blocks, q.axis, q.slice, u, v) == Some(q.patch.cell)
        }),
{
    quads_know_their_plane(n, blocks, 99, i);
    let q = chunk_quads(n, blocks)[i];
    plane_cells(n, blocks, q.axis, q.slice, u, v);
}

proof fn visible_faces_are_in(
    n: &ChunkNeighborhood,
    blocks: &BlockRegistry,
    planes: int,
    axis: int,
    slice: int,
    u: int,
    v: int,
)
    requires
        0 <= axis,
        0 <= slice <= 32,
        axis * 33 + slice < planes,
        in_plane(u, v),
        visible_face(n, blocks, axis, slice, u, v) is Some,
    ensures
        exists|i: int|
            0 <= i < quads_of(n, blocks, planes).len() && shows(
                #[trigger] quads_of(n, blocks, planes)[i],
                axis,
                slice,
                u,
                v,
            ),
    decreases planes,
{
    let before = quads_of(n, blocks, planes - 1);
    let all = quads_of(n, blocks, planes);
    if axis * 33 + slice < planes - 1 {
        visible_faces_are_in(n, blocks, planes - 1, axis, slice, u, v);
        let i = choose|i: int| 0 <= i < before.len() && shows(#[trigger] before[i], axis, slice, u, v);
        assert(shows(all[i], axis, slice, u, v));
    } else {
        assert((planes - 1) / 33 == axis && (planes - 1) % 33 == slice);
        let mask = plane_mask(n, blocks, axis, slice);
        let patches = merged(mask, 0, 0);
        merging_covers_exactly(mask);
        plane_cells(n, blocks, axis, slice, u, v);
        assert(covered(patches, u, v));
        let k = choose|k: int| 0 <= k < patches.len() && (#[trigger] patches[k]).covers(u, v);
        let quads = plane_quads(mask, axis, slice);
        assert(all == before + quads);
        assert(shows(all[before.len() + k], axis, slice, u, v));
    }
}

/// Every visible face of a chunk that is not all air is shown by some quad of its mesh.
pub proof fn mesh_shows_every_visible_face(
    n: &ChunkNeighborhood,
    blocks: &BlockRegistry,
    axis: int,
    slice: int,
    u: int,
    v: int,
)
    requires
        count_non_air(n.middle()@) > 0,
        0 <= axis < 3,
        0 <= slice <= 32,
        in_plane(u, v),
        visible_face(n, blocks, axis, slice, u, v) is Some,
    ensures
        exists|i: int|
            0 <= i < chunk_quads(n, blocks).len() && shows(
                #[trigger] chunk_quads(n, blocks)[i],
                axis,
                slice,
                u,
                v,
            ),
{
    visible_faces_are_in(n, blocks, 99, axis, slice, u, v);
    let i = choose|i: int|
        0 <= i < quads_of(n, blocks, 99).len() && shows(
            #[trigger] quads_of(n, blocks, 99)[i],
            axis,
            slice,
            u,
            v,
        );
    assert(shows(chunk_quads(n, blocks)[i], axis, slice, u, v));
}

proof fn shown_once_in(
    n: &ChunkNeighborhood,
    blocks: &BlockRegistry,
    planes: int,
    i: int,
    j: int,
    axis: int,
    slice: int,
    u: int,
    v: int,
)
    requires
        0 <= planes,
        0 <= i < quads_of(n, blocks, planes).len(),
        0 <= j < quads_of(n, blocks, planes).len(),
        shows(quads_of(n, blocks, planes)[i], axis, slice, u, v),
        shows(quads_of(n, blocks, planes)[j], axis, slice, u, v),
    ensures
        i == j,
    decreases planes,
{
    let all = quads_of(n, blocks, planes);
    quads_know_their_plane(n, blocks, planes, i);
    if planes > 0 {
        let before = quads_of(n, blocks, planes - 1);
        let a = (planes - 1) / 33;
        let s = (planes - 1) % 33;
        let mask = plane_mask(n, blocks, a, s);
        let patches = merged(mask, 0, 0);
        assert(all == before + plane_quads(mask, a, s));
        if i < before.len() {
            quads_know_their_plane(n, blocks, planes - 1, i);
        }
        if j < before.len() {
            quads_know_their_plane(n, blocks, planes - 1, j);
        }
        if i < before.len() && j < before.len() {
            shown_once_in(n, blocks, planes - 1, i, j, axis, slice, u, v);
        } else if i >= before.len() && j >= before.len() {
            merging_covers_exactly(mask);
            assert(patches[i - before.len()].covers(u, v));
            assert(patches[j - before.len()].covers(u, v));
        }
    }
}

/// No face is shown twice.
pub proof fn mesh_shows_no_face_twice(
    n: &ChunkNeighborhood,
    blocks: &BlockRegistry,
    i: int,
    j: int,
    axis: int,
    slice: int,
    u: int,
    v: int,
)
    requires
        0 <= i < chunk_quads(n, blocks).len(),
        0 <= j < chunk_quads(n, blocks).len(),
        shows(chunk_quads(n, blocks)[i], axis, slice, u, v),
        shows(chunk_quads(n, blocks)[j], axis, slice, u, v),
    ensures
        i == j,
{
    if count_non_air(n.middle()@) > 0 {
        shown_once_in(n, blocks, 99, i, j, axis, slice, u, v);
    }
}

} // verus!
