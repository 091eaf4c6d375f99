//! Chunks: 32 x 32 x 32 blocks, and the immutable neighbourhood snapshot that meshing reads.

use crate::world::block::{BlockId, Face};
use std::sync::Arc;
use vstd::prelude::*;

verus! {

/// Edge length of a chunk in blocks, the same on all three axes.
pub const CHUNK_SIZE: usize = 32;

/// Number of blocks in a chunk.
pub const CHUNK_VOLUME: usize = 32768;

/// The volume is the cube of the edge.
pub proof fn volume_is_the_cube_of_the_edge()
    ensures
        CHUNK_VOLUME == CHUNK_SIZE * CHUNK_SIZE * CHUNK_SIZE,
{
}

/// Position of a chunk, counted in chunks.
#[derive(Debug, Clone, Copy, PartialEq, Eq, Hash, PartialOrd, Ord, Structural)]
pub struct ChunkPos {
    pub x: i32,
    pub y: i32,
    pub z: i32,
}

/// The chunk coordinate that a world block coordinate falls into.
pub open spec fn chunk_coord(w: int) -> int {
    w / 32
}

/// The coordinate inside its chunk of a world block coordinate.
pub open spec fn local_coord(w: int) -> int {
    w % 32
}

fn div_chunk(w: i32) -> (c: i32)
    ensures
        c == chunk_coord(w as int),
{
    match w.checked_div_euclid(32) {
        Some(c) => c,
        None => 0,
    }
}

fn rem_chunk(w: i32) -> (c: usize)
    ensures
        c == local_coord(w as int),
        c < CHUNK_SIZE,
{
    match w.checked_rem_euclid(32) {
        Some(c) => c as usize,
        None => 0,
    }
}

impl ChunkPos {
    /// Component `axis` of the position.
    pub open spec fn at(self, axis: int) -> int {
        if axis == 0 { self.x as int } else if axis == 1 { self.y as int } else { self.z as int }
    }

    /// The chunk that holds the block at world coordinates `w`.
    pub open spec fn of_world(w: Seq<i32>) -> ChunkPos {
        ChunkPos {
            x: chunk_coord(w[0] as int) as i32,
            y: chunk_coord(w[1] as int) as i32,
            z: chunk_coord(w[2] as int) as i32,
        }
    }

    /// World coordinate of the chunk's lowest corner along `axis`.
    pub open spec fn origin_at(self, axis: int) -> int {
        self.at(axis) * 32
    }

    /// Whether the lowest corner's world coordinates are representable.
    pub open spec fn has_origin(self) -> bool {
        forall|axis: int|
            0 <= axis < 3 ==> i32::MIN <= #[trigger] self.origin_at(axis) <= i32::MAX
    }

    /// The position `step` chunks away.
    pub open spec fn moved(self, step: Seq<int>) -> ChunkPos {
        ChunkPos {
            x: (self.x + step[0]) as i32,
            y: (self.y + step[1]) as i32,
            z: (self.z + step[2]) as i32,
        }
    }

    /// Whether the position `step` chunks away is representable.
    pub open spec fn can_move(self, step: Seq<int>) -> bool {
        &&& i32::MIN <= self.x + step[0] <= i32::MAX
        &&& i32::MIN <= self.y + step[1] <= i32::MAX
        &&& i32::MIN <= self.z + step[2] <= i32::MAX
    }

    pub fn new(x: i32, y: i32, z: i32) -> (pos: Self)
        ensures
            pos == (ChunkPos { x, y, z }),
    {
        ChunkPos { x, y, z }
    }

    /// The chunk of a world block coordinate: Euclidean division, so that negative coordinates
    /// are not off by one.
    pub fn from_world(world: [i32; 3]) -> (pos: Self)
        ensures
            pos == ChunkPos::of_world(world@),
            pos.x == chunk_coord(world@[0] as int),
            pos.y == chunk_coord(world@[1] as int),
            pos.z == chunk_coord(world@[2] as int),
    {
        ChunkPos { x: div_chunk(world[0]), y: div_chunk(world[1]), z: div_chunk(world[2]) }
    }

    /// World block coordinates of the chunk's lowest corner.
    pub fn origin(self) -> (origin: [i32; 3])
        requires
            self.has_origin(),
        ensures
            forall|axis: int| 0 <= axis < 3 ==> #[trigger] origin@[axis] == self.origin_at(axis),
    {
        proof {
            let _ = self.origin_at(0);
            let _ = self.origin_at(1);
            let _ = self.origin_at(2);
        }
        [self.x * 32, self.y * 32, self.z * 32]
    }

    /// The position `step` chunks away.
    pub fn offset(self, step: [i32; 3]) -> (pos: Self)
        requires
            self.can_move(step@.map_values(|s: i32| s as int)),
        ensures
            pos.x == self.x + step@[0],
            pos.y == self.y + step@[1],
            pos.z == self.z + step@[2],
            pos == self.moved(step@.map_values(|s: i32| s as int)),
    {
        ChunkPos { x: self.x + step[0], y: self.y + step[1], z: self.z + step[2] }
    }
}

/// Chunk and local coordinates together are the world coordinate: nothing is lost by splitting.
pub proof fn world_coordinate_splits(w: int)
    ensures
        chunk_coord(w) * 32 + local_coord(w) == w,
        0 <= local_coord(w) < 32,
{
}

/// A block inside the chunk at `c` belongs to that chunk, at that local coordinate.
pub proof fn local_block_stays_in_its_chunk(c: int, l: int)
    requires
        0 <= l < 32,
    ensures
        chunk_coord(c * 32 + l) == c,
        local_coord(c * 32 + l) == l,
{
}

/// Array index of a local coordinate: x runs fastest, then z, then y.
pub open spec fn block_index(x: int, y: int, z: int) -> int {
    (y * 32 + z) * 32 + x
}

/// Whether the three coordinates lie inside a chunk.
pub open spec fn in_chunk(x: int, y: int, z: int) -> bool {
    0 <= x < 32 && 0 <= y < 32 && 0 <= z < 32
}

/// The layout gives each cell of a chunk an index of its own.
pub proof fn layout_is_injective(a: (int, int, int), b: (int, int, int))
    requires
        in_chunk(a.0, a.1, a.2),
        in_chunk(b.0, b.1, b.2),
        block_index(a.0, a.1, a.2) == block_index(b.0, b.1, b.2),
    ensures
        a == b,
{
}

/// The index of a cell of the chunk lies inside the chunk's array.
pub proof fn layout_is_in_range(x: int, y: int, z: int)
    requires
        in_chunk(x, y, z),
    ensures
        0 <= block_index(x, y, z) < CHUNK_VOLUME,
{
}

/// How many blocks are not air.
pub open spec fn count_non_air(blocks: Seq<BlockId>) -> nat
    decreases blocks.len(),
{
    if blocks.len() == 0 {
        0
    } else {
        count_non_air(blocks.drop_last()) + if blocks.last().is_air() { 0nat } else { 1nat }
    }
}

proof fn count_is_bounded(blocks: Seq<BlockId>)
    ensures
        count_non_air(blocks) <= blocks.len(),
    decreases blocks.len(),
{
    if blocks.len() > 0 {
        count_is_bounded(blocks.drop_last());
    }
}

proof fn count_of_air(blocks: Seq<BlockId>)
    requires
        forall|i: int| 0 <= i < blocks.len() ==> #[trigger] blocks[i].is_air(),
    ensures
        count_non_air(blocks) == 0,
    decreases blocks.len(),
{
    if blocks.len() > 0 {
        count_of_air(blocks.drop_last());
        assert(blocks.last().is_air());
    }
}

/// A chunk has no block but air exactly when the count is zero.
pub proof fn zero_count_means_air(blocks: Seq<BlockId>)
    ensures
        count_non_air(blocks) == 0 <==> forall|i: int|
            0 <= i < blocks.len() ==> #[trigger] blocks[i].is_air(),
    decreases blocks.len(),
{
    if blocks.len() > 0 {
        zero_count_means_air(blocks.drop_last());
        if count_non_air(blocks) == 0 {
            assert forall|i: int| 0 <= i < blocks.len() implies #[trigger] blocks[i].is_air() by {
                if i < blocks.len() - 1 {
                    assert(blocks.drop_last()[i].is_air());
                } else {
                    assert(blocks.last() == blocks[i]);
                }
            }
        }
        if forall|i: int| 0 <= i < blocks.len() ==> #[trigger] blocks[i].is_air() {
            count_of_air(blocks);
        }
    }
}

proof fn count_after_update(blocks: Seq<BlockId>, i: int, id: BlockId)
    requires
        0 <= i < blocks.len(),
    ensures
        count_non_air(blocks.update(i, id)) == count_non_air(blocks) - (if blocks[i].is_air() {
            0int
        } else {
            1int
        }) + (if id.is_air() {
            0int
        } else {
            1int
        }),
    decreases blocks.len(),
{
    if i == blocks.len() - 1 {
        assert(blocks.update(i, id).drop_last() == blocks.drop_last());
    } else {
        count_after_update(blocks.drop_last(), i, id);
        assert(blocks.update(i, id).drop_last() == blocks.drop_last().update(i, id));
    }
}

/// A chunk: `CHUNK_VOLUME` blocks and the count of those that are not air.
#[derive(Debug)]
pub struct Chunk {
    pos: ChunkPos,
    blocks: Vec<BlockId>,
    non_air: u32,
}

impl View for Chunk {
    type V = Seq<BlockId>;

    closed spec fn view(&self) -> Seq<BlockId> {
        self.blocks@
    }
}

impl Chunk {
    /// Where the chunk stands.
    pub closed spec fn at(&self) -> ChunkPos {
        self.pos
    }

    /// The array is full and the counter is right.
    pub closed spec fn wf(&self) -> bool {
        self.blocks@.len() == CHUNK_VOLUME && self.non_air == count_non_air(self.blocks@)
    }

    /// A well-formed chunk holds as many blocks as a chunk has.
    pub proof fn wf_means_full(&self)
        requires
            self.wf(),
        ensures
            self@.len() == CHUNK_VOLUME,
    {
    }

    /// The block at a local coordinate.
    pub open spec fn block(&self, x: int, y: int, z: int) -> BlockId {
        self@[block_index(x, y, z)]
    }

    /// The block of this chunk that the world coordinate falls on.
    pub open spec fn world_block(&self, w: Seq<i32>) -> BlockId {
        self.block(local_coord(w[0] as int), local_coord(w[1] as int), local_coord(w[2] as int))
    }

    /// A chunk of air.
    pub fn new(pos: ChunkPos) -> (chunk: Self)
        ensures
            chunk.wf(),
            chunk.at() == pos,
            chunk@ == Seq::new(CHUNK_VOLUME as nat, |i: int| BlockId::air()),
    {
        let air = BlockId::air();
        let blocks: Vec<BlockId> = vec![air; CHUNK_VOLUME];
        proof {
            assert(blocks@ == Seq::new(CHUNK_VOLUME as nat, |i: int| BlockId::air()));
            count_of_air(blocks@);
        }
        Chunk { pos, blocks, non_air: 0 }
    }

    /// A chunk with the same position and the same blocks.
    pub fn copy(&self) -> (chunk: Self)
        ensures
            chunk@ == self@,
            chunk.at() == self.at(),
            chunk.wf() == self.wf(),
    {
        let blocks = self.blocks.clone();
        assert(blocks@ == self.blocks@);
        Chunk { pos: self.pos, blocks, non_air: self.non_air }
    }

    pub fn pos(&self) -> (pos: ChunkPos)
        ensures
            pos == self.at(),
    {
        self.pos
    }

    /// Whether every block is air.
    pub fn is_empty(&self) -> (empty: bool)
        requires
            self.wf(),
        ensures
            empty == (count_non_air(self@) == 0),
            empty == forall|i: int| 0 <= i < self@.len() ==> #[trigger] self@[i].is_air(),
    {
        proof {
            zero_count_means_air(self@);
        }
        self.non_air == 0
    }

    /// Number of blocks that are not air.
    pub fn non_air(&self) -> (n: u32)
        requires
            self.wf(),
        ensures
            n == count_non_air(self@),
    {
        self.non_air
    }

    /// All blocks, in the layout of [`Chunk::index`].
    pub fn blocks(&self) -> (blocks: &[BlockId])
        ensures
            blocks@ == self@,
    {
        self.blocks.as_slice()
    }

    /// Array index of a local coordinate: x runs fastest, then z, then y.
    pub fn index(local: [usize; 3]) -> (index: usize)
        requires
            block_index(local@[0] as int, local@[1] as int, local@[2] as int) <= usize::MAX,
        ensures
            index == block_index(local@[0] as int, local@[1] as int, local@[2] as int),
    {
        (local[1] * CHUNK_SIZE + local[2]) * CHUNK_SIZE + local[0]
    }

    /// Local coordinate of a world block coordinate.
    pub fn local_of(world: [i32; 3]) -> (local: [usize; 3])
        ensures
            forall|axis: int|
                0 <= axis < 3 ==> #[trigger] local@[axis] == local_coord(world@[axis] as int),
            in_chunk(local@[0] as int, local@[1] as int, local@[2] as int),
    {
        [rem_chunk(world[0]), rem_chunk(world[1]), rem_chunk(world[2])]
    }

    /// Reads a block. The coordinate must lie in the array.
    pub fn get(&self, local: [usize; 3]) -> (id: BlockId)
        requires
            self.wf(),
            block_index(local@[0] as int, local@[1] as int, local@[2] as int) < CHUNK_VOLUME,
        ensures
            id == self.block(local@[0] as int, local@[1] as int, local@[2] as int),
    {
        self.blocks[Chunk::index(local)]
    }

    /// Writes a block. The coordinate must lie in the array.
    pub fn set(&mut self, local: [usize; 3], id: BlockId)
        requires
            old(self).wf(),
            block_index(local@[0] as int, local@[1] as int, local@[2] as int) < CHUNK_VOLUME,
        ensures
            final(self).wf(),
            final(self).at() == old(self).at(),
            final(self)@ == old(self)@.update(
                block_index(local@[0] as int, local@[1] as int, local@[2] as int),
                id,
            ),
    {
        let index: usize = Chunk::index(local);
        let previous = self.blocks[index];
        proof {
            count_after_update(self.blocks@, index as int, id);
            count_is_bounded(self.blocks@);
            count_is_bounded(self.blocks@.update(index as int, id));
        }
        if previous.is_air() && !id.is_air() {
            self.non_air = self.non_air + 1;
        } else if !previous.is_air() && id.is_air() {
            self.non_air = self.non_air - 1;
        }
        self.blocks.set(index, id);
    }
}

/// Snapshot of a chunk and its six face neighbours: all that meshing reads.
///
/// The neighbours stand in the order of [`Face::index`]; an absent one counts as air.
pub struct ChunkNeighborhood {
    center: Arc<Chunk>,
    neighbors: [Option<Arc<Chunk>>; 6],
}

impl ChunkNeighborhood {
    /// The chunk in the middle.
    pub closed spec fn middle(&self) -> Chunk {
        *self.center
    }

    /// The neighbour across face number `i`.
    pub closed spec fn neighbor(&self, i: int) -> Option<Chunk> {
        match self.neighbors@[i] {
            Some(chunk) => Some(*chunk),
            None => None,
        }
    }

    /// All chunks of the snapshot are well-formed.
    pub open spec fn wf(&self) -> bool {
        &&& self.middle().wf()
        &&& forall|i: int|
            0 <= i < 6 && (#[trigger] self.neighbor(i)) is Some ==> self.neighbor(i)->0.wf()
    }

    /// The first neighbour, from `i` on, that stands at `pos`.
    pub open spec fn neighbor_at(&self, pos: ChunkPos, i: int) -> Option<Chunk>
        decreases 6 - i,
    {
        if i >= 6 {
            None
        } else if self.neighbor(i) is Some && self.neighbor(i)->0.at() == pos {
            self.neighbor(i)
        } else {
            self.neighbor_at(pos, i + 1)
        }
    }

    /// The chunk of the snapshot that stands at `pos`, the middle one first.
    pub open spec fn chunk_at(&self, pos: ChunkPos) -> Option<Chunk> {
        if self.middle().at() == pos { Some(self.middle()) } else { self.neighbor_at(pos, 0) }
    }

    /// The block at world coordinates `w`; air where the snapshot holds no chunk.
    pub open spec fn world_block(&self, w: Seq<i32>) -> BlockId {
        match self.chunk_at(ChunkPos::of_world(w)) {
            Some(chunk) => chunk.world_block(w),
            None => BlockId::air(),
        }
    }

    pub fn new(center: Arc<Chunk>, neighbors: [Option<Arc<Chunk>>; 6]) -> (snapshot: Self)
        ensures
            snapshot.middle() == *center,
            forall|i: int|
                0 <= i < 6 ==> #[trigger] snapshot.neighbor(i) == match neighbors@[i] {
                    Some(chunk) => Some(*chunk),
                    None => None,
                },
    {
        ChunkNeighborhood { center, neighbors }
    }

    /// The chunk in the middle.
    pub fn center(&self) -> (center: &Arc<Chunk>)
        ensures
            **center == self.middle(),
    {
        &self.center
    }

    /// Reads by world block coordinates, across the borders of the middle chunk.
    pub fn block_at(&self, world: [i32; 3]) -> (id: BlockId)
        requires
            self.wf(),
        ensures
            id == self.world_block(world@),
    {
        let pos = ChunkPos::from_world(world);
        let local = Chunk::local_of(world);
        if self.center.pos() == pos {
            return self.center.get(local);
        }
        let mut i: usize = 0;
        while i < 6
            invariant
                i <= 6,
                self.wf(),
                pos == ChunkPos::of_world(world@),
                forall|axis: int|
                    0 <= axis < 3 ==> #[trigger] local@[axis] == local_coord(world@[axis] as int),
                in_chunk(local@[0] as int, local@[1] as int, local@[2] as int),
                self.chunk_at(pos) == self.neighbor_at(pos, i as int),
            decreases 6 - i,
        {
            if let Some(chunk) = &self.neighbors[i] {
                assert(self.neighbor(i as int) == Some(**chunk));
                if chunk.pos() == pos {
                    return chunk.get(local);
                }
            }
            i += 1;
        }
        BlockId::air()
    }
}

/// The layout runs along `x` first, then along `z`, then along `y`.
pub proof fn the_layout_runs_along_x_first(x: int, y: int, z: int)
    ensures
        block_index(0, 0, 0) == 0,
        block_index(x + 1, y, z) == block_index(x, y, z) + 1,
        block_index(x, y, z + 1) == block_index(x, y, z) + 32,
        block_index(x, y + 1, z) == block_index(x, y, z) + 32 * 32,
{
}

/// A block belongs to the chunk whose lowest corner is no more than a chunk below it along each axis, negative
/// coordinates included.
pub proof fn a_block_lies_above_the_corner_of_its_chunk(w: Seq<i32>, axis: int)
    requires
        w.len() == 3,
        0 <= axis < 3,
    ensures
        ChunkPos::of_world(w).origin_at(axis) <= w[axis] < ChunkPos::of_world(w).origin_at(axis) + 32,
        w[axis] - ChunkPos::of_world(w).origin_at(axis) == local_coord(w[axis] as int),
{
}

/// The count is the number of places that hold something else than air.
pub proof fn the_count_is_of_what_is_not_air(blocks: Seq<BlockId>)
    ensures
        count_non_air(blocks) == blocks.filter(|id: BlockId| !id.is_air()).len(),
    decreases blocks.len(),
{
    reveal(Seq::filter);
    if blocks.len() > 0 {
        the_count_is_of_what_is_not_air(blocks.drop_last());
    }
}

} // verus!
