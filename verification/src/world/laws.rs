//! Laws of the world: what reads give back of writes, and which chunks a write can affect.

use crate::meshing::{
    block_in_plane, block_near, chunk_quads, coordinates_fit, plane_coord, plane_mask, quads_of,
    read_by_meshing, visible_face,
};
use crate::world::block::{BlockId, BlockRegistry, Face};
use crate::world::chunk::{
    block_index, chunk_coord, in_chunk, layout_is_in_range, layout_is_injective, local_coord,
    ChunkNeighborhood, ChunkPos,
};
use crate::world::store::{along, border_neighbor, border_step, touched_by};
use crate::world::World;
use vstd::prelude::*;

verus! {

/// Two worlds that differ by one write.
pub open spec fn one_write(before: World, after: World, w: Seq<i32>, id: BlockId) -> bool {
    &&& before@.contains_key(ChunkPos::of_world(w))
    &&& before@[ChunkPos::of_world(w)].wf()
    &&& World::written(before@, after@, w, id)
}

/// A write is read back.
pub proof fn write_is_read_back(before: World, after: World, w: Seq<i32>, id: BlockId)
    requires
        w.len() == 3,
        one_write(before, after, w, id),
    ensures
        after.world_block(w) == id,
{
    let pos = ChunkPos::of_world(w);
    before@[pos].wf_means_full();
    layout_is_in_range(
        local_coord(w[0] as int),
        local_coord(w[1] as int),
        local_coord(w[2] as int),
    );
    assert(after@.dom().contains(pos));
}

/// A write changes no other block.
pub proof fn write_changes_no_other_block(
    before: World,
    after: World,
    w: Seq<i32>,
    id: BlockId,
    other: Seq<i32>,
)
    requires
        w.len() == 3,
        other.len() == 3,
        w != other,
        one_write(before, after, w, id),
    ensures
        after.world_block(other) == before.world_block(other),
{
    let pos = ChunkPos::of_world(w);
    let there = ChunkPos::of_world(other);
    assert(after@.dom().contains(there) == before@.dom().contains(there));
    if there == pos {
        before@[pos].wf_means_full();
        let a = (local_coord(w[0] as int), local_coord(w[1] as int), local_coord(w[2] as int));
        let b = (
            local_coord(other[0] as int),
            local_coord(other[1] as int),
            local_coord(other[2] as int),
        );
        layout_is_in_range(a.0, a.1, a.2);
        layout_is_in_range(b.0, b.1, b.2);
        if a == b {
            assert(chunk_coord(w[0] as int) == pos.x && chunk_coord(other[0] as int) == pos.x);
            assert(chunk_coord(w[1] as int) == pos.y && chunk_coord(other[1] as int) == pos.y);
            assert(chunk_coord(w[2] as int) == pos.z && chunk_coord(other[2] as int) == pos.z);
            assert(w[0] == other[0] && w[1] == other[1] && w[2] == other[2]);
            assert(w =~= other);
        } else if block_index(a.0, a.1, a.2) == block_index(b.0, b.1, b.2) {
            layout_is_injective(a, b);
        }
    }
}

/// Writing a block that the registry knows leaves the registry knowing every block of the world.
pub proof fn a_known_block_keeps_the_world_known(before: World, after: World, w: Seq<i32>, id: BlockId)
    requires
        w.len() == 3,
        one_write(before, after, w, id),
        before.blocks() == after.blocks(),
        before.knows_its_blocks(),
        id.is_air() || before.blocks().defines(id),
    ensures
        after.knows_its_blocks(),
{
    assert forall|other: Seq<i32>| other.len() == 3 implies #[trigger] after.known_at(other) by {
        assert(before.known_at(other));
        if other == w {
            write_is_read_back(before, after, w, id);
        } else {
            write_changes_no_other_block(before, after, w, id, other);
        }
    }
}

/// Breaking a block and placing the same block again restores what was there.
pub proof fn placing_back_undoes_breaking(
    before: World,
    broken: World,
    restored: World,
    w: Seq<i32>,
    other: Seq<i32>,
)
    requires
        w.len() == 3,
        other.len() == 3,
        one_write(before, broken, w, BlockId::air()),
        one_write(broken, restored, w, before.world_block(w)),
    ensures
        restored.world_block(other) == before.world_block(other),
{
    write_is_read_back(broken, restored, w, before.world_block(w));
    if other != w {
        write_changes_no_other_block(before, broken, w, BlockId::air(), other);
        write_changes_no_other_block(broken, restored, w, before.world_block(w), other);
    }
}

/// What a write reports is never empty and starts with the chunk of its target: so a command that
/// changed something is never mistaken for one that nobody claimed.
pub proof fn a_change_reports_its_chunk_first(w: Seq<i32>)
    ensures
        touched_by(w).len() >= 1,
        touched_by(w)[0] == ChunkPos::of_world(w),
{
}

/// The blocks that meshing the chunk at `pos` reads include the one at `w`.
pub open spec fn mesh_reads(pos: ChunkPos, w: Seq<i32>) -> bool {
    read_by_meshing(
        w[0] - pos.origin_at(0),
        w[1] - pos.origin_at(1),
        w[2] - pos.origin_at(2),
    )
}

/// A chunk whose mesh can change with the block at `w` is among the chunks that a write at `w`
/// reports: no seam is left stale.
pub proof fn every_affected_mesh_is_reported(pos: ChunkPos, w: Seq<i32>)
    requires
        w.len() == 3,
        mesh_reads(pos, w),
    ensures
        touched_by(w).contains(pos),
{
    let home = ChunkPos::of_world(w);
    let x = w[0] as int;
    let y = w[1] as int;
    let z = w[2] as int;
    assert(home.x == chunk_coord(x) && home.y == chunk_coord(y) && home.z == chunk_coord(z));
    let list = touched_by(w);
    let first = seq![home];
    let n0 = border_neighbor(home, w, 0);
    let n1 = border_neighbor(home, w, 1);
    let n2 = border_neighbor(home, w, 2);
    assert(list == first + n0 + n1 + n2);
    if pos == home {
        assert(list[0] == pos);
    } else if pos.x != home.x {
        assert(pos.y == home.y && pos.z == home.z);
        assert(along(home, 0, border_step(w, 0)) == pos);
        assert(list[1] == pos);
    } else if pos.y != home.y {
        assert(pos.z == home.z);
        assert(along(home, 1, border_step(w, 1)) == pos);
        assert(list[1 + n0.len() as int] == pos);
    } else {
        assert(pos.z != home.z);
        assert(along(home, 2, border_step(w, 2)) == pos);
        assert(list[1 + n0.len() + n1.len() as int] == pos);
    }
}

/// Every chunk that a write reports reads the block: none is reported in vain.
pub proof fn every_reported_mesh_is_affected(w: Seq<i32>, i: int)
    requires
        w.len() == 3,
        0 <= i < touched_by(w).len(),
    ensures
        mesh_reads(touched_by(w)[i], w),
{
    let home = ChunkPos::of_world(w);
    assert(home.x == chunk_coord(w[0] as int) && home.y == chunk_coord(w[1] as int) && home.z
        == chunk_coord(w[2] as int));
    let n0 = border_neighbor(home, w, 0);
    let n1 = border_neighbor(home, w, 1);
    let n2 = border_neighbor(home, w, 2);
    let list = touched_by(w);
    assert(list == seq![home] + n0 + n1 + n2);
    if i == 0 {
        assert(list[i] == home);
    } else if i < 1 + n0.len() {
        assert(list[i] == n0[i - 1]);
    } else if i < 1 + n0.len() + n1.len() {
        assert(list[i] == n1[i - 1 - n0.len()]);
    } else {
        assert(list[i] == n2[i - 1 - n0.len() - n1.len()]);
    }
}

/// Whether a snapshot around `center` holds the chunk at `home`: it is that chunk or lies across one of
/// its faces.
pub open spec fn is_near(center: ChunkPos, home: ChunkPos) -> bool {
    home == center || exists|i: int| 0 <= i < 6 && home == World::across(center, #[trigger] Face::nth(i))
}

/// A snapshot answers as the world did when it was taken: in its chunk and the six across its faces it
/// has the blocks of the world, air where such a chunk was not loaded; in every other chunk it has air.
/// What happens to the world afterwards does not enter into it.
pub proof fn a_snapshot_answers_as_the_world_did(
    world: World,
    snapshot: &ChunkNeighborhood,
    center: ChunkPos,
    w: Seq<i32>,
)
    requires
        w.len() == 3,
        World::surrounded(center),
        world.is_snapshot(snapshot, center),
    ensures
        snapshot.world_block(w) == if is_near(center, ChunkPos::of_world(w)) {
            world.world_block(w)
        } else {
            BlockId::air()
        },
        is_near(center, ChunkPos::of_world(w)) && !world@.contains_key(ChunkPos::of_world(w))
            ==> snapshot.world_block(w) == BlockId::air(),
{
    let home = ChunkPos::of_world(w);
    if home != center {
        if is_near(center, home) {
            let i = choose|i: int| 0 <= i < 6 && home == World::across(center, #[trigger] Face::nth(i));
            assert forall|j: int| 0 <= j < 6 && j != i implies World::across(
                center,
                #[trigger] Face::nth(j),
            ) != home by {}
            assert(snapshot.neighbor(i) == world.loaded(home));
            found_from(snapshot, home, i, 0);
        } else {
            assert forall|j: int| 0 <= j < 6 && (#[trigger] snapshot.neighbor(j)) is Some implies
                snapshot.neighbor(j)->0.at() != home by {
                assert(World::across(center, Face::nth(j)) != home);
            }
            found_nowhere(snapshot, home, 0);
        }
    }
}

/// Where meshing reads, the snapshot answers as the world does.
pub proof fn snapshot_reads_as_the_world(
    world: World,
    snapshot: &ChunkNeighborhood,
    center: ChunkPos,
    w: Seq<i32>,
)
    requires
        w.len() == 3,
        World::surrounded(center),
        world.is_snapshot(snapshot, center),
        mesh_reads(center, w),
    ensures
        snapshot.world_block(w) == world.world_block(w),
{
    let home = ChunkPos::of_world(w);
    assert(home.x == chunk_coord(w[0] as int) && home.y == chunk_coord(w[1] as int) && home.z
        == chunk_coord(w[2] as int));
    if home != center {
        let i: int = if home.x > center.x {
            0
        } else if home.x < center.x {
            1
        } else if home.y > center.y {
            2
        } else if home.y < center.y {
            3
        } else if home.z > center.z {
            4
        } else {
            5
        };
        assert(home == World::across(center, Face::nth(i)));
    }
    a_snapshot_answers_as_the_world_did(world, snapshot, center, w);
}

proof fn found_nowhere(snapshot: &ChunkNeighborhood, home: ChunkPos, from: int)
    requires
        0 <= from <= 6,
        forall|j: int|
            0 <= j < 6 && (#[trigger] snapshot.neighbor(j)) is Some ==> snapshot.neighbor(j)->0.at() != home,
    ensures
        snapshot.neighbor_at(home, from) is None,
    decreases 6 - from,
{
    if from < 6 {
        found_nowhere(snapshot, home, from + 1);
    }
}

proof fn found_from(snapshot: &ChunkNeighborhood, home: ChunkPos, i: int, from: int)
    requires
        0 <= from <= 6,
        0 <= i < 6,
        snapshot.neighbor(i) is Some ==> snapshot.neighbor(i)->0.at() == home,
        forall|j: int|
            0 <= j < 6 && j != i && (#[trigger] snapshot.neighbor(j)) is Some
                ==> snapshot.neighbor(j)->0.at() != home,
    ensures
        from <= i ==> snapshot.neighbor_at(home, from) == snapshot.neighbor(i),
        from > i ==> snapshot.neighbor_at(home, from) is None,
    decreases 6 - from,
{
    if from < 6 {
        found_from(snapshot, home, i, from + 1);
    }
}

proof fn unread_write_keeps_block(
    before: World,
    after: World,
    n1: &ChunkNeighborhood,
    n2: &ChunkNeighborhood,
    center: ChunkPos,
    w: Seq<i32>,
    id: BlockId,
    x: int,
    y: int,
    z: int,
)
    requires
        w.len() == 3,
        one_write(before, after, w, id),
        World::surrounded(center),
        coordinates_fit(center),
        before.is_snapshot(n1, center),
        after.is_snapshot(n2, center),
        !touched_by(w).contains(center),
        read_by_meshing(x, y, z),
    ensures
        block_near(n1, x, y, z) == block_near(n2, x, y, z),
{
    assert(touched_by(w)[0] == ChunkPos::of_world(w));
    assert(center != ChunkPos::of_world(w));
    assert(n1.middle() == n2.middle());
    if !in_chunk(x, y, z) {
        assert(i32::MIN < center.origin_at(0) && center.origin_at(0) + 32 <= i32::MAX);
        assert(i32::MIN < center.origin_at(1) && center.origin_at(1) + 32 <= i32::MAX);
        assert(i32::MIN < center.origin_at(2) && center.origin_at(2) + 32 <= i32::MAX);
        let there = seq![
            (center.origin_at(0) + x) as i32,
            (center.origin_at(1) + y) as i32,
            (center.origin_at(2) + z) as i32,
        ];
        assert(mesh_reads(center, there));
        if there == w {
            every_affected_mesh_is_reported(center, w);
        }
        snapshot_reads_as_the_world(before, n1, center, there);
        snapshot_reads_as_the_world(after, n2, center, there);
        write_changes_no_other_block(before, after, w, id, there);
    }
}

proof fn equal_reads_equal_quads(
    n1: &ChunkNeighborhood,
    n2: &ChunkNeighborhood,
    blocks: &BlockRegistry,
    planes: int,
)
    requires
        planes <= 99,
        forall|x: int, y: int, z: int|
            read_by_meshing(x, y, z) ==> #[trigger] block_near(n1, x, y, z) == block_near(
                n2,
                x,
                y,
                z,
            ),
    ensures
        quads_of(n1, blocks, planes) == quads_of(n2, blocks, planes),
    decreases planes,
{
    if planes > 0 {
        equal_reads_equal_quads(n1, n2, blocks, planes - 1);
        let axis = (planes - 1) / 33;
        let slice = (planes - 1) % 33;
        assert forall|i: int| 0 <= i < 1024 implies #[trigger] plane_mask(n1, blocks, axis, slice)[i]
            == plane_mask(n2, blocks, axis, slice)[i] by {
            let u = i % 32;
            let v = i / 32;
            assert forall|d: int| slice - 1 <= d <= slice implies #[trigger] block_in_plane(
                n1,
                axis,
                d,
                u,
                v,
            ) == block_in_plane(n2, axis, d, u, v) by {
                let x = plane_coord(axis, d, u, v, 0);
                let y = plane_coord(axis, d, u, v, 1);
                let z = plane_coord(axis, d, u, v, 2);
                assert(read_by_meshing(x, y, z));
                assert(block_near(n1, x, y, z) == block_near(n2, x, y, z));
            }
            assert(block_in_plane(n1, axis, slice - 1, u, v) == block_in_plane(
                n2,
                axis,
                slice - 1,
                u,
                v,
            ));
            assert(block_in_plane(n1, axis, slice, u, v) == block_in_plane(n2, axis, slice, u, v));
            assert(visible_face(n1, blocks, axis, slice, u, v) == visible_face(
                n2,
                blocks,
                axis,
                slice,
                u,
                v,
            ));
        }
        assert(plane_mask(n1, blocks, axis, slice) =~= plane_mask(n2, blocks, axis, slice));
    }
}

/// A chunk that a write does not report has the same mesh after the write as before it.
pub proof fn unreported_mesh_is_unchanged(
    before: World,
    after: World,
    n1: &ChunkNeighborhood,
    n2: &ChunkNeighborhood,
    center: ChunkPos,
    w: Seq<i32>,
    id: BlockId,
    blocks: &BlockRegistry,
)
    requires
        w.len() == 3,
        one_write(before, after, w, id),
        World::surrounded(center),
        coordinates_fit(center),
        before.is_snapshot(n1, center),
        after.is_snapshot(n2, center),
        !touched_by(w).contains(center),
    ensures
        chunk_quads(n1, blocks) == chunk_quads(n2, blocks),
{
    assert forall|x: int, y: int, z: int| read_by_meshing(x, y, z) implies #[trigger] block_near(
        n1,
        x,
        y,
        z,
    ) == block_near(n2, x, y, z) by {
        unread_write_keeps_block(before, after, n1, n2, center, w, id, x, y, z);
    }
    equal_reads_equal_quads(n1, n2, blocks, 99);
    assert(touched_by(w)[0] == ChunkPos::of_world(w));
    assert(n1.middle() == n2.middle());
}

} // verus!
