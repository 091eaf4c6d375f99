//! Laws of meshing, in terms of the vertices and triangles of the mesh and the blocks of the snapshot.

use crate::meshing::{
    block_in_plane, block_near, chunk_quads, coordinates_fit, draws, grown, grown_patch_fits, in_plane,
    index_corner, is_corner, mask_at, merged, merged_covers_from, mesh_shows_every_visible_face,
    mesh_shows_no_face_twice, mesh_shows_only_visible_faces, patch_fits, plane_coord, plane_mask,
    plane_quads, quad_index, quad_vertex, quads_know_their_plane, quads_of, row_holds, run_height, run_width,
    shows, visible_face, width_in_range, without, without_at, ChunkMesh, MaskCell, Patch, Quad, Vertex,
};
use crate::world::block::{BlockDef, BlockId, BlockRegistry, Face};
use crate::world::chunk::{count_non_air, in_chunk, local_block_stays_in_its_chunk, ChunkNeighborhood};
use vstd::prelude::*;

verus! {

/// Component `k` of the way from one vertex to another.
pub open spec fn way(a: Vertex, b: Vertex, k: int) -> int {
    b.position@[k] - a.position@[k]
}

/// Component `k` of the cross product of the ways from `a` to `b` and from `a` to `c`.
pub open spec fn cross(a: Vertex, b: Vertex, c: Vertex, k: int) -> int {
    if k == 0 {
        way(a, b, 1) * way(a, c, 2) - way(a, b, 2) * way(a, c, 1)
    } else if k == 1 {
        way(a, b, 2) * way(a, c, 0) - way(a, b, 0) * way(a, c, 2)
    } else {
        way(a, b, 0) * way(a, c, 1) - way(a, b, 1) * way(a, c, 0)
    }
}

/// Whether the cross product is `m` times the normal of `a`.
pub open spec fn turns_about_the_normal(a: Vertex, b: Vertex, c: Vertex, m: int) -> bool {
    forall|k: int| 0 <= k < 3 ==> #[trigger] cross(a, b, c, k) == m * a.normal@[k]
}

/// The vertex that index `j` of the mesh names.
pub open spec fn vertex_of(mesh: ChunkMesh, j: int) -> Vertex {
    mesh.vertices@[mesh.indices@[j] as int]
}

/// Whether the vertex has the normal of the face.
pub open spec fn looks_along(vertex: Vertex, face: Face) -> bool {
    forall|k: int| 0 <= k < 3 ==> #[trigger] vertex.normal@[k] == face.normal_at(k)
}

/// The block at a coordinate local to the middle chunk, as the snapshot has it.
pub open spec fn seen(n: &ChunkNeighborhood, p: Seq<int>) -> BlockId {
    n.world_block(
        seq![
            (n.middle().at().origin_at(0) + p[0]) as i32,
            (n.middle().at().origin_at(1) + p[1]) as i32,
            (n.middle().at().origin_at(2) + p[2]) as i32,
        ],
    )
}

/// What the registry says of the block at a coordinate.
pub open spec fn seen_def(n: &ChunkNeighborhood, blocks: &BlockRegistry, p: Seq<int>) -> BlockDef {
    blocks@[seen(n, p).id() as int]
}

/// The coordinate across a face.
pub open spec fn across(p: Seq<int>, face: Face) -> Seq<int> {
    seq![p[0] + face.normal_at(0), p[1] + face.normal_at(1), p[2] + face.normal_at(2)]
}

/// Whether a coordinate lies inside the chunk.
pub open spec fn inside(p: Seq<int>) -> bool {
    in_chunk(p[0], p[1], p[2])
}

/// Whether quad `i` of the mesh covers the given face of the block at `p`: it has the face's normal, lies
/// on the side of the block that the face is on, and the face is within its corners.
pub open spec fn covers_face(mesh: ChunkMesh, i: int, p: Seq<int>, face: Face) -> bool {
    let a = mesh.vertices@[4 * i];
    let c = mesh.vertices@[4 * i + 2];
    &&& looks_along(a, face)
    &&& forall|k: int|
        0 <= k < 3 ==> if face.normal_at(k) > 0 {
            #[trigger] a.position@[k] == p[k] + 1
        } else if face.normal_at(k) < 0 {
            a.position@[k] == p[k]
        } else {
            a.position@[k] <= p[k] < c.position@[k]
        }
}

proof fn quad_facts(n: &ChunkNeighborhood, blocks: &BlockRegistry, i: int)
    requires
        0 <= i < chunk_quads(n, blocks).len(),
    ensures
        ({
            let q = chunk_quads(n, blocks)[i];
            &&& 0 <= q.axis < 3
            &&& 0 <= q.slice <= 32
            &&& 1 <= q.patch.width
            &&& 1 <= q.patch.height
            &&& q.patch.cell.face.axis() == q.axis
        }),
{
    quads_know_their_plane(n, blocks, 99, i);
    let q = chunk_quads(n, blocks)[i];
    assert(q.patch.covers(q.patch.u, q.patch.v));
    mesh_shows_only_visible_faces(n, blocks, i, q.patch.u, q.patch.v);
}

proof fn corner_crosses(q: Quad, a: Vertex, b: Vertex, c: Vertex, first: bool)
    requires
        0 <= q.axis < 3,
        1 <= q.patch.width,
        1 <= q.patch.height,
        q.patch.cell.face.axis() == q.axis,
        is_corner(a, q, 0),
        is_corner(b, q, if first { 1 } else { 2 }),
        is_corner(c, q, if first { 2 } else { 3 }),
    ensures
        turns_about_the_normal(a, b, c, q.patch.width * q.patch.height),
{
    let w = q.patch.width;
    let h = q.patch.height;
    let m = w * h;
    let face = q.patch.cell.face;
    assert forall|k: int| 0 <= k < 3 implies #[trigger] cross(a, b, c, k) == m * a.normal@[k] by {
        assert(a.normal@[k] == face.normal_at(k));
        let (i, j) = if k == 0 {
            (1int, 2int)
        } else if k == 1 {
            (2int, 0int)
        } else {
            (0int, 1int)
        };
        assert(a.position@[i] == plane_coord(q.axis, q.slice, q.patch.u, q.patch.v, i));
        assert(a.position@[j] == plane_coord(q.axis, q.slice, q.patch.u, q.patch.v, j));
        let (bi, bj, ci, cj) = (way(a, b, i), way(a, b, j), way(a, c, i), way(a, c, j));
        let _ = (b.position@[i], b.position@[j], c.position@[i], c.position@[j]);
        let sign: int = a.normal@[k] as int;
        if k == q.axis {
            if face.positive() {
                assert(sign == 1);
                assert((bi == w && bj == 0 && ci == w && cj == h) || (bi == w && bj == h && ci == 0 && cj == h));
            } else {
                assert(sign == -1);
                assert((bi == 0 && bj == h && ci == w && cj == h) || (bi == w && bj == h && ci == w && cj == 0));
            }
        } else {
            assert(sign == 0);
            assert((bi == 0 && ci == 0) || (bj == 0 && cj == 0));
        }
        assert(bi * cj - bj * ci == m * sign) by (nonlinear_arith)
            requires
                m == w * h,
                (sign == 1 && ((bi == w && bj == 0 && ci == w && cj == h) || (bi == w && bj == h && ci == 0
                    && cj == h))) || (sign == -1 && ((bi == 0 && bj == h && ci == w && cj == h) || (bi == w
                    && bj == h && ci == w && cj == 0))) || (sign == 0 && ((bi == 0 && ci == 0) || (bj == 0
                    && cj == 0))),
        ;
    }
}

/// Every triangle of a mesh faces where its normal points: its three vertices share a normal, which is
/// that of a face, and going round them turns about it counter-clockwise. The cross product of two of its
/// sides is a positive multiple of the normal.
pub proof fn triangles_face_along_their_normals(
    n: &ChunkNeighborhood,
    blocks: &BlockRegistry,
    mesh: ChunkMesh,
    t: int,
)
    requires
        draws(mesh, chunk_quads(n, blocks)),
        0 <= t,
        3 * t < mesh.indices@.len(),
    ensures
        3 * t + 2 < mesh.indices@.len(),
        forall|j: int| 3 * t <= j < 3 * t + 3 ==> (#[trigger] mesh.indices@[j]) < mesh.vertices@.len(),
        ({
            let a = vertex_of(mesh, 3 * t);
            let b = vertex_of(mesh, 3 * t + 1);
            let c = vertex_of(mesh, 3 * t + 2);
            &&& exists|face: Face| #[trigger]
                looks_along(a, face) && looks_along(b, face) && looks_along(c, face)
            &&& exists|m: int| m > 0 && #[trigger] turns_about_the_normal(a, b, c, m)
        }),
{
    let quads = chunk_quads(n, blocks);
    let i = t / 2;
    let first = t % 2 == 0;
    let q = quads[i];
    quad_facts(n, blocks, i);
    let at: int = if first { 0 } else { 3 };
    assert(3 * t == 6 * i + at);
    assert(quad_index(mesh.indices@, i, at) == 4 * i + index_corner(at));
    assert(quad_index(mesh.indices@, i, at + 1) == 4 * i + index_corner(at + 1));
    assert(quad_index(mesh.indices@, i, at + 2) == 4 * i + index_corner(at + 2));
    let a = vertex_of(mesh, 3 * t);
    let b = vertex_of(mesh, 3 * t + 1);
    let c = vertex_of(mesh, 3 * t + 2);
    assert(a == quad_vertex(mesh.vertices@, i, 0));
    assert(b == quad_vertex(mesh.vertices@, i, if first { 1 } else { 2 }));
    assert(c == quad_vertex(mesh.vertices@, i, if first { 2 } else { 3 }));
    corner_crosses(q, a, b, c, first);
    let face = q.patch.cell.face;
    assert(looks_along(a, face) && looks_along(b, face) && looks_along(c, face));
    let m = q.patch.width * q.patch.height;
    assert(m > 0) by (nonlinear_arith)
        requires
            m == q.patch.width * q.patch.height,
            1 <= q.patch.width,
            1 <= q.patch.height,
    ;
    assert forall|j: int| 3 * t <= j < 3 * t + 3 implies (#[trigger] mesh.indices@[j]) < mesh.vertices@.len() by {
        assert(j == 3 * t || j == 3 * t + 1 || j == 3 * t + 2);
    }
}

proof fn near_is_seen(n: &ChunkNeighborhood, p: Seq<int>)
    requires
        coordinates_fit(n.middle().at()),
        forall|k: int| 0 <= k < 3 ==> -1 <= #[trigger] p[k] <= 32,
    ensures
        block_near(n, p[0], p[1], p[2]) == seen(n, p),
{
    if inside(p) {
        let at = n.middle().at();
        assert(i32::MIN < at.origin_at(0) && i32::MIN < at.origin_at(1) && i32::MIN < at.origin_at(2));
        local_block_stays_in_its_chunk(at.x as int, p[0]);
        local_block_stays_in_its_chunk(at.y as int, p[1]);
        local_block_stays_in_its_chunk(at.z as int, p[2]);
    }
}

/// In-plane place `(u, v)` of a plane across `axis`, at depth `d`.
spec fn place(axis: int, d: int, u: int, v: int) -> Seq<int> {
    Seq::new(3, |k: int| plane_coord(axis, d, u, v, k))
}

proof fn covered_place(n: &ChunkNeighborhood, blocks: &BlockRegistry, mesh: ChunkMesh, i: int, p: Seq<int>, face: Face)
    requires
        draws(mesh, chunk_quads(n, blocks)),
        0 <= i < chunk_quads(n, blocks).len(),
        p.len() == 3,
    ensures
        ({
            let q = chunk_quads(n, blocks)[i];
            let axis = face.axis();
            covers_face(mesh, i, p, face) <==> {
                &&& q.patch.cell.face == face
                &&& q.slice == p[axis] + (if face.positive() { 1int } else { 0 })
                &&& q.patch.covers(p[(axis + 1) % 3], p[(axis + 2) % 3])
            }
        }),
{
    let q = chunk_quads(n, blocks)[i];
    quad_facts(n, blocks, i);
    let a = mesh.vertices@[4 * i];
    let c = mesh.vertices@[4 * i + 2];
    assert(is_corner(quad_vertex(mesh.vertices@, i, 0), q, 0));
    assert(is_corner(quad_vertex(mesh.vertices@, i, 2), q, 2));
    let axis = face.axis();
    if looks_along(a, face) {
        assert(a.normal@[axis] == face.normal_at(axis));
        assert(a.normal@[q.axis] == q.patch.cell.face.normal_at(q.axis));
        assert(q.axis == axis);
        assert(q.patch.cell.face.positive() == face.positive());
        assert(q.patch.cell.face == face);
    }
    if q.patch.cell.face == face {
        assert(looks_along(a, face));
        let (u, v) = ((axis + 1) % 3, (axis + 2) % 3);
        assert(a.position@[axis] == q.slice && a.position@[u] == q.patch.u && a.position@[v] == q.patch.v);
        assert(c.position@[u] == q.patch.u + q.patch.width && c.position@[v] == q.patch.v + q.patch.height);
        if covers_face(mesh, i, p, face) {
            assert(q.patch.covers(p[u], p[v]));
        }
        if q.slice == p[axis] + (if face.positive() { 1int } else { 0 }) && q.patch.covers(p[u], p[v]) {
            assert forall|k: int| 0 <= k < 3 implies if face.normal_at(k) > 0 {
                #[trigger] a.position@[k] == p[k] + 1
            } else if face.normal_at(k) < 0 {
                a.position@[k] == p[k]
            } else {
                a.position@[k] <= p[k] < c.position@[k]
            } by {
                assert(k == axis || k == u || k == v);
            }
        }
    }
}

proof fn two_sides(n: &ChunkNeighborhood, p: Seq<int>, face: Face)
    requires
        p.len() == 3,
        coordinates_fit(n.middle().at()),
        inside(p) || inside(across(p, face)),
    ensures
        ({
            let axis = face.axis();
            let slice = p[axis] + (if face.positive() { 1int } else { 0 });
            let u = p[(axis + 1) % 3];
            let v = p[(axis + 2) % 3];
            let low = block_in_plane(n, axis, slice - 1, u, v);
            let high = block_in_plane(n, axis, slice, u, v);
            &&& 0 <= slice <= 32
            &&& in_plane(u, v)
            &&& seen(n, p) == (if face.positive() { low } else { high })
            &&& seen(n, across(p, face)) == (if face.positive() { high } else { low })
        }),
{
    let axis = face.axis();
    let o = across(p, face);
    let u = p[(axis + 1) % 3];
    let v = p[(axis + 2) % 3];
    assert(p =~= place(axis, p[axis], u, v));
    assert(o =~= place(axis, o[axis], u, v));
    assert(forall|k: int| 0 <= k < 3 ==> -1 <= #[trigger] p[k] <= 32);
    assert(forall|k: int| 0 <= k < 3 ==> -1 <= #[trigger] o[k] <= 32);
    near_is_seen(n, p);
    near_is_seen(n, o);
}

/// What a mesh shows is there: a quad covers a face only where the block is solid and the one across the
/// face is not, and bears the tile of that face of that block. Of the two blocks, one is in the chunk.
pub proof fn a_covered_face_is_exposed(
    n: &ChunkNeighborhood,
    blocks: &BlockRegistry,
    mesh: ChunkMesh,
    i: int,
    p: Seq<int>,
    face: Face,
)
    requires
        coordinates_fit(n.middle().at()),
        draws(mesh, chunk_quads(n, blocks)),
        0 <= i,
        4 * i < mesh.vertices@.len(),
        p.len() == 3,
        covers_face(mesh, i, p, face),
    ensures
        inside(p) || inside(across(p, face)),
        seen_def(n, blocks, p).solid,
        !seen_def(n, blocks, across(p, face)).solid,
        forall|j: int|
            4 * i <= j < 4 * i + 4 ==> (#[trigger] mesh.vertices@[j]).tile == seen_def(n, blocks, p).tiles.tile(
                face,
            ),
{
    let q = chunk_quads(n, blocks)[i];
    covered_place(n, blocks, mesh, i, p, face);
    let axis = face.axis();
    let u = p[(axis + 1) % 3];
    let v = p[(axis + 2) % 3];
    quad_facts(n, blocks, i);
    mesh_shows_only_visible_faces(n, blocks, i, u, v);
    assert(visible_face(n, blocks, axis, q.slice, u, v) == Some(q.patch.cell));
    two_sides(n, p, face);
    assert forall|j: int| 4 * i <= j < 4 * i + 4 implies (#[trigger] mesh.vertices@[j]).tile == seen_def(
        n,
        blocks,
        p,
    ).tiles.tile(face) by {
        assert(mesh.vertices@[j] == quad_vertex(mesh.vertices@, i, j - 4 * i));
    }
}

/// What is there is shown: in a chunk that is not all air, every face between a solid block and one that is
/// not, one of the two in the chunk, is covered by a quad.
pub proof fn an_exposed_face_is_covered(
    n: &ChunkNeighborhood,
    blocks: &BlockRegistry,
    mesh: ChunkMesh,
    p: Seq<int>,
    face: Face,
)
    requires
        coordinates_fit(n.middle().at()),
        draws(mesh, chunk_quads(n, blocks)),
        count_non_air(n.middle()@) > 0,
        p.len() == 3,
        inside(p) || inside(across(p, face)),
        seen_def(n, blocks, p).solid,
        !seen_def(n, blocks, across(p, face)).solid,
    ensures
        exists|i: int| 0 <= i && 4 * i < mesh.vertices@.len() && #[trigger] covers_face(mesh, i, p, face),
{
    two_sides(n, p, face);
    let axis = face.axis();
    let slice = p[axis] + (if face.positive() { 1int } else { 0 });
    let u = p[(axis + 1) % 3];
    let v = p[(axis + 2) % 3];
    assert(visible_face(n, blocks, axis, slice, u, v) is Some);
    mesh_shows_every_visible_face(n, blocks, axis, slice, u, v);
    let i = choose|i: int|
        0 <= i < chunk_quads(n, blocks).len() && shows(
            #[trigger] chunk_quads(n, blocks)[i],
            axis,
            slice,
            u,
            v,
        );
    mesh_shows_only_visible_faces(n, blocks, i, u, v);
    covered_place(n, blocks, mesh, i, p, face);
    assert(covers_face(mesh, i, p, face));
}

/// Nothing is shown twice: no two quads cover the same face.
pub proof fn a_face_is_covered_once(
    n: &ChunkNeighborhood,
    blocks: &BlockRegistry,
    mesh: ChunkMesh,
    i: int,
    j: int,
    p: Seq<int>,
    face: Face,
)
    requires
        draws(mesh, chunk_quads(n, blocks)),
        0 <= i,
        4 * i < mesh.vertices@.len(),
        0 <= j,
        4 * j < mesh.vertices@.len(),
        p.len() == 3,
        covers_face(mesh, i, p, face),
        covers_face(mesh, j, p, face),
    ensures
        i == j,
{
    covered_place(n, blocks, mesh, i, p, face);
    covered_place(n, blocks, mesh, j, p, face);
    quad_facts(n, blocks, i);
    quad_facts(n, blocks, j);
    let axis = face.axis();
    mesh_shows_no_face_twice(
        n,
        blocks,
        i,
        j,
        axis,
        chunk_quads(n, blocks)[i].slice,
        p[(axis + 1) % 3],
        p[(axis + 2) % 3],
    );
}

/// Textures repeat once per block: over a quad, the texture coordinates start at zero and grow with the
/// position, by one for each block, the first along the axis after that of the normal and the second along
/// the next.
pub proof fn textures_repeat_per_block(
    n: &ChunkNeighborhood,
    blocks: &BlockRegistry,
    mesh: ChunkMesh,
    i: int,
    j: int,
    axis: int,
)
    requires
        draws(mesh, chunk_quads(n, blocks)),
        0 <= i,
        4 * i < mesh.vertices@.len(),
        4 * i <= j < 4 * i + 4,
        0 <= axis < 3,
        mesh.vertices@[4 * i].normal@[axis] != 0,
    ensures
        j < mesh.vertices@.len(),
        mesh.vertices@[j].uv@[0] == way(mesh.vertices@[4 * i], mesh.vertices@[j], (axis + 1) % 3),
        mesh.vertices@[j].uv@[1] == way(mesh.vertices@[4 * i], mesh.vertices@[j], (axis + 2) % 3),
        way(mesh.vertices@[4 * i], mesh.vertices@[j], axis) == 0,
        0 <= mesh.vertices@[j].uv@[0] <= mesh.vertices@[4 * i + 2].uv@[0],
        0 <= mesh.vertices@[j].uv@[1] <= mesh.vertices@[4 * i + 2].uv@[1],
{
    let q = chunk_quads(n, blocks)[i];
    quad_facts(n, blocks, i);
    let a = quad_vertex(mesh.vertices@, i, 0);
    let b = quad_vertex(mesh.vertices@, i, j - 4 * i);
    let c = quad_vertex(mesh.vertices@, i, 2);
    assert(is_corner(a, q, 0) && is_corner(b, q, j - 4 * i) && is_corner(c, q, 2));
    assert(a.normal@[axis] == q.patch.cell.face.normal_at(axis));
    assert(q.axis == axis);
    let (u, v) = ((axis + 1) % 3, (axis + 2) % 3);
    assert(a.position@[u] == q.patch.u && a.position@[v] == q.patch.v && a.position@[axis] == q.slice);
    let _ = (b.position@[u], b.position@[v], b.position@[axis]);
}

/// Whether two patches of one look make one rectangle, the second to the right of the first or below it.
spec fn joins(a: Patch, b: Patch) -> bool {
    a.cell == b.cell && ((b.u == a.u + a.width && b.v == a.v && b.height == a.height) || (b.v == a.v
        + a.height && b.u == a.u && b.width == a.width))
}

spec fn none_join(patches: Seq<Patch>) -> bool {
    forall|i: int, j: int|
        0 <= i < patches.len() && 0 <= j < patches.len() ==> !joins(#[trigger] patches[i], #[trigger] patches[j])
}

proof fn width_stops(mask: Seq<Option<MaskCell>>, u: int, v: int, cell: MaskCell, w: int)
    requires
        u + w <= 32,
    ensures
        ({
            let end = run_width(mask, u, v, cell, w);
            u + end < 32 ==> mask_at(mask, u + end, v) != Some(cell)
        }),
    decreases 32 - u - w,
{
    if u + w < 32 && mask_at(mask, u + w, v) == Some(cell) {
        width_stops(mask, u, v, cell, w + 1);
    }
}

proof fn height_stops(mask: Seq<Option<MaskCell>>, u: int, v: int, width: int, cell: MaskCell, h: int)
    requires
        v + h <= 32,
    ensures
        ({
            let end = run_height(mask, u, v, width, cell, h);
            v + end < 32 ==> !row_holds(mask, u, v + end, width, cell)
        }),
    decreases 32 - v - h,
{
    if v + h < 32 && row_holds(mask, u, v + h, width, cell) {
        height_stops(mask, u, v, width, cell, h + 1);
    }
}

proof fn merged_do_not_join(mask: Seq<Option<MaskCell>>, u: int, v: int)
    requires
        mask.len() == 1024,
        0 <= u <= 32,
        0 <= v <= 32,
        forall|a: int, b: int|
            in_plane(a, b) && (b < v || (b == v && a < u)) ==> (#[trigger] mask_at(mask, a, b)) is None,
    ensures
        none_join(merged(mask, u, v)),
    decreases 32 - v, 32 - u,
{
    if v >= 32 {
    } else if u >= 32 {
        merged_do_not_join(mask, 0, v + 1);
    } else {
        match mask_at(mask, u, v) {
            None => merged_do_not_join(mask, u + 1, v),
            Some(cell) => {
                let patch = grown(mask, u, v, cell);
                let rest_mask = without(mask, patch);
                width_in_range(mask, u, v, cell, 1);
                grown_patch_fits(mask, u, v, cell);
                assert forall|a: int, b: int|
                    in_plane(a, b) && (b < v || (b == v && a < u + patch.width)) implies (
                #[trigger] mask_at(rest_mask, a, b)) is None by {
                    without_at(mask, patch, a, b);
                    let _ = mask_at(mask, a, b);
                }
                merged_do_not_join(rest_mask, u + patch.width, v);
                merged_covers_from(rest_mask, u + patch.width, v);
                let rest = merged(rest_mask, u + patch.width, v);
                let all = seq![patch] + rest;
                assert(merged(mask, u, v) == all);
                assert forall|i: int, j: int| 0 <= i < all.len() && 0 <= j < all.len() implies !joins(
                    #[trigger] all[i],
                    #[trigger] all[j],
                ) by {
                    if i > 0 && j > 0 {
                        assert(all[i] == rest[i - 1] && all[j] == rest[j - 1]);
                    } else if i == 0 && j > 0 {
                        let other = rest[j - 1];
                        assert(all[j] == other && patch_fits(rest_mask, other));
                        width_stops(mask, u, v, cell, 1);
                        height_stops(mask, u, v, patch.width, cell, 1);
                        if joins(patch, other) {
                            if other.u == u + patch.width && other.v == v {
                                assert(other.covers(other.u, other.v));
                                without_at(mask, patch, other.u, other.v);
                            } else {
                                assert forall|k: int| 0 <= k < patch.width implies #[trigger] mask_at(
                                    mask,
                                    u + k,
                                    other.v,
                                ) == Some(cell) by {
                                    assert(other.covers(u + k, other.v));
                                    without_at(mask, patch, u + k, other.v);
                                }
                                assert(row_holds(mask, u, v + patch.height, patch.width, cell));
                            }
                        }
                    } else if i > 0 {
                        let other = rest[i - 1];
                        assert(all[i] == other && patch_fits(rest_mask, other));
                        if joins(other, patch) {
                            assert(other.covers(other.u, other.v));
                            assert(mask_at(rest_mask, other.u, other.v) is None);
                        }
                    }
                }
            },
        }
    }
}

proof fn quads_do_not_join(n: &ChunkNeighborhood, blocks: &BlockRegistry, planes: int, i: int, j: int)
    requires
        0 <= planes,
        0 <= i < quads_of(n, blocks, planes).len(),
        0 <= j < quads_of(n, blocks, planes).len(),
        quads_of(n, blocks, planes)[i].axis == quads_of(n, blocks, planes)[j].axis,
        quads_of(n, blocks, planes)[i].slice == quads_of(n, blocks, planes)[j].slice,
    ensures
        !joins(quads_of(n, blocks, planes)[i].patch, quads_of(n, blocks, planes)[j].patch),
    decreases planes,
{
    if planes > 0 {
        let all = quads_of(n, blocks, planes);
        let before = quads_of(n, blocks, planes - 1);
        let axis = (planes - 1) / 33;
        let slice = (planes - 1) % 33;
        let mask = plane_mask(n, blocks, axis, slice);
        let patches = merged(mask, 0, 0);
        assert(all == before + plane_quads(mask, axis, slice));
        if i < before.len() {
            quads_know_their_plane(n, blocks, planes - 1, i);
        }
        if j < before.len() {
            quads_know_their_plane(n, blocks, planes - 1, j);
        }
        if i < before.len() && j < before.len() {
            quads_do_not_join(n, blocks, planes - 1, i, j);
        } else if i >= before.len() && j >= before.len() {
            merged_do_not_join(mask, 0, 0);
            assert(!joins(patches[i - before.len()], patches[j - before.len()]));
        }
    }
}

/// Whether quads `i` and `j` of a mesh look alike and make one rectangle: the second goes on along axis `k`
/// where the first ends, and they agree along the others.
pub open spec fn could_be_one(mesh: ChunkMesh, i: int, j: int, k: int) -> bool {
    let a = mesh.vertices@[4 * i];
    let far_a = mesh.vertices@[4 * i + 2];
    let b = mesh.vertices@[4 * j];
    let far_b = mesh.vertices@[4 * j + 2];
    &&& a.tile == b.tile
    &&& a.normal@[0] == b.normal@[0] && a.normal@[1] == b.normal@[1] && a.normal@[2] == b.normal@[2]
    &&& a.normal@[k] == 0
    &&& b.position@[k] == far_a.position@[k]
    &&& forall|l: int|
        0 <= l < 3 && l != k ==> #[trigger] b.position@[l] == a.position@[l] && far_b.position@[l]
            == far_a.position@[l]
}

/// Faces are merged as far as they go: no two quads of a mesh look alike and make one rectangle.
pub proof fn no_two_quads_could_be_one(
    n: &ChunkNeighborhood,
    blocks: &BlockRegistry,
    mesh: ChunkMesh,
    i: int,
    j: int,
    k: int,
)
    requires
        draws(mesh, chunk_quads(n, blocks)),
        0 <= i,
        4 * i < mesh.vertices@.len(),
        0 <= j,
        4 * j < mesh.vertices@.len(),
        0 <= k < 3,
    ensures
        !could_be_one(mesh, i, j, k),
{
    let p = chunk_quads(n, blocks)[i];
    let q = chunk_quads(n, blocks)[j];
    quad_facts(n, blocks, i);
    quad_facts(n, blocks, j);
    if could_be_one(mesh, i, j, k) {
        let a = quad_vertex(mesh.vertices@, i, 0);
        let far_a = quad_vertex(mesh.vertices@, i, 2);
        let b = quad_vertex(mesh.vertices@, j, 0);
        let far_b = quad_vertex(mesh.vertices@, j, 2);
        assert(is_corner(a, p, 0) && is_corner(far_a, p, 2) && is_corner(b, q, 0) && is_corner(far_b, q, 2));
        let axis = p.axis;
        assert(a.normal@[axis] == p.patch.cell.face.normal_at(axis));
        assert(b.normal@[axis] == q.patch.cell.face.normal_at(axis));
        assert(q.axis == axis);
        assert(p.patch.cell.face == q.patch.cell.face);
        assert(k != axis) by {
            assert(a.normal@[k] == p.patch.cell.face.normal_at(k));
        }
        let (u, v) = ((axis + 1) % 3, (axis + 2) % 3);
        assert(k == u || k == v);
        assert(b.position@[axis] == a.position@[axis]);
        let _ = (a.position@[u], a.position@[v], far_a.position@[u], far_a.position@[v]);
        let _ = (b.position@[u], b.position@[v], far_b.position@[u], far_b.position@[v]);
        assert(p.slice == q.slice);
        assert(joins(p.patch, q.patch));
        quads_do_not_join(n, blocks, 99, i, j);
    }
}

} // verus!
