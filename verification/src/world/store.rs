//! The world: loaded chunks and the block registry.
//!
//! A chunk in the world is immutable. Changing a block replaces the chunk by a changed copy, so a
//! snapshot taken before the change still reads the old blocks.

use crate::contract::command::Command;
use crate::shared::share;
use crate::world::block::{BlockId, BlockRegistry, Face};
use crate::world::chunk::{
    chunk_coord, local_coord, Chunk, ChunkNeighborhood, ChunkPos, CHUNK_SIZE,
};
use std::collections::HashMap;
use std::sync::Arc;
use vstd::prelude::*;

verus! {

/// A number for each chunk position.
pub(crate) open spec fn pos_key(pos: ChunkPos) -> int {
    (pos.x + 0x8000_0000) * 0x1_0000_0000_0000_0000 + (pos.y + 0x8000_0000) * 0x1_0000_0000
        + (pos.z + 0x8000_0000)
}

pub(crate) proof fn pos_key_is_injective(a: ChunkPos, b: ChunkPos)
    requires
        pos_key(a) == pos_key(b),
    ensures
        a == b,
{
}

pub(crate) proof fn pos_key_fits(pos: ChunkPos)
    ensures
        0 <= pos_key(pos) < 0x1_0000_0000_0000_0000_0000_0000,
{
}

pub(crate) fn key_of(pos: ChunkPos) -> (key: u128)
    ensures
        key == pos_key(pos),
{
    let x: u128 = (pos.x as i64 + 0x8000_0000) as u128;
    let y: u128 = (pos.y as i64 + 0x8000_0000) as u128;
    let z: u128 = (pos.z as i64 + 0x8000_0000) as u128;
    x * 0x1_0000_0000_0000_0000 + y * 0x1_0000_0000 + z
}

/// Loaded chunks by position, and the registry that their blocks come from.
pub struct World {
    registry: Arc<BlockRegistry>,
    chunks: HashMap<u128, Arc<Chunk>>,
}

impl View for World {
    type V = Map<ChunkPos, Chunk>;

    closed spec fn view(&self) -> Map<ChunkPos, Chunk> {
        Map::new(
            |pos: ChunkPos| self.chunks@.contains_key(pos_key(pos) as u128),
            |pos: ChunkPos| *self.chunks@[pos_key(pos) as u128],
        )
    }
}

/// The chunks whose geometry can change with the block at `w`: its own chunk first, then per axis
/// the face neighbour that the block touches.
pub open spec fn touched_by(w: Seq<i32>) -> Seq<ChunkPos> {
    let pos = ChunkPos::of_world(w);
    seq![pos] + border_neighbor(pos, w, 0) + border_neighbor(pos, w, 1) + border_neighbor(pos, w, 2)
}

/// Which way along `axis` the block at `w` touches a face neighbour of its chunk: -1, 1, or 0 for
/// neither.
pub open spec fn border_step(w: Seq<i32>, axis: int) -> int {
    let l = local_coord(w[axis] as int);
    if l == 0 {
        -1
    } else if l == 31 {
        1
    } else {
        0
    }
}

/// The position one chunk away along `axis`.
pub open spec fn along(pos: ChunkPos, axis: int, step: int) -> ChunkPos {
    pos.moved(
        seq![
            if axis == 0 { step } else { 0 },
            if axis == 1 { step } else { 0 },
            if axis == 2 { step } else { 0 },
        ],
    )
}

/// The face neighbour along `axis` that the block at `w` touches, if there is one.
pub open spec fn border_neighbor(pos: ChunkPos, w: Seq<i32>, axis: int) -> Seq<ChunkPos> {
    let step = border_step(w, axis);
    if step == 0 {
        Seq::empty()
    } else {
        seq![along(pos, axis, step)]
    }
}

impl World {
    /// The registry.
    pub closed spec fn blocks(&self) -> BlockRegistry {
        *self.registry
    }

    /// Every chunk is well-formed and stands where it is filed.
    pub closed spec fn wf(&self) -> bool {
        &&& forall|key: u128| #[trigger]
            self.chunks@.contains_key(key) ==> self.chunks@[key].wf() && pos_key(
                self.chunks@[key].at(),
            ) == key
    }

    /// Every chunk that is loaded is sound and stands where it is filed.
    pub proof fn filed_chunks_are_sound(&self, pos: ChunkPos)
        requires
            self.wf(),
            self@.contains_key(pos),
        ensures
            self@[pos].wf(),
            self@[pos].at() == pos,
    {
        let key = pos_key(pos) as u128;
        assert(self.chunks@.contains_key(key));
        pos_key_fits(pos);
        pos_key_is_injective(self.chunks@[key].at(), pos);
    }

    /// The block at world coordinates `w`; air where no chunk is loaded.
    pub open spec fn world_block(&self, w: Seq<i32>) -> BlockId {
        let pos = ChunkPos::of_world(w);
        if self@.contains_key(pos) {
            self@[pos].world_block(w)
        } else {
            BlockId::air()
        }
    }

    /// Whether the block at `w` is solid.
    pub open spec fn solid_at(&self, w: Seq<i32>) -> bool {
        let id = self.world_block(w);
        !id.is_air() && self.blocks()@[id.id() as int].solid
    }

    /// Whether the registry knows the block at `w`, or there is none to know.
    pub open spec fn known_at(&self, w: Seq<i32>) -> bool {
        self.world_block(w).is_air() || self.blocks().defines(self.world_block(w))
    }

    /// Whether the registry knows every block of the world.
    pub open spec fn knows_its_blocks(&self) -> bool {
        forall|w: Seq<i32>| w.len() == 3 ==> #[trigger] self.known_at(w)
    }

    /// What writing `id` at `w` makes of the loaded chunks.
    pub open spec fn written(chunks: Map<ChunkPos, Chunk>, after: Map<ChunkPos, Chunk>, w: Seq<i32>, id: BlockId) -> bool {
        let pos = ChunkPos::of_world(w);
        &&& after.dom() == chunks.dom()
        &&& forall|other: ChunkPos| #![auto] other != pos && chunks.contains_key(other) ==> after[other] == chunks[other]
        &&& after[pos].wf()
        &&& after[pos].at() == pos
        &&& after[pos]@ == chunks[pos]@.update(
            crate::world::chunk::block_index(
                local_coord(w[0] as int),
                local_coord(w[1] as int),
                local_coord(w[2] as int),
            ),
            id,
        )
    }

    pub fn new(registry: BlockRegistry) -> (world: Self)
        ensures
            world.wf(),
            world.blocks() == registry,
            world@ == Map::<ChunkPos, Chunk>::empty(),
    {
        let world = World { registry: Arc::new(registry), chunks: HashMap::new() };
        assert(world@ == Map::<ChunkPos, Chunk>::empty());
        world
    }

    /// The registry.
    pub fn registry(&self) -> (registry: &BlockRegistry)
        ensures
            *registry == self.blocks(),
    {
        &self.registry
    }

    /// A shared handle to the registry, for work that outlives a borrow of the world.
    pub fn registry_handle(&self) -> (registry: Arc<BlockRegistry>)
        ensures
            *registry == self.blocks(),
    {
        share(&self.registry)
    }

    /// Number of loaded chunks.
    pub fn chunk_count(&self) -> (n: usize)
        requires
            self.wf(),
        ensures
            n == self@.dom().len(),
            self@.dom().finite(),
    {
        broadcast use vstd::std_specs::hash::group_hash_axioms;
        proof {
            self.dom_matches();
        }
        self.chunks.len()
    }

    proof fn dom_matches(&self)
        requires
            self.wf(),
        ensures
            self@.dom().finite(),
            self@.dom().len() == self.chunks@.dom().len(),
    {
        broadcast use vstd::std_specs::hash::group_hash_axioms;
        let f = |key: u128| self.chunks@[key].at();
        let image = self.chunks@.dom().map(f);
        assert(self@.dom() =~= image) by {
            assert forall|pos: ChunkPos| self@.dom().contains(pos) == image.contains(pos) by {
                pos_key_fits(pos);
                if self@.dom().contains(pos) {
                    let key = pos_key(pos) as u128;
                    pos_key_is_injective(self.chunks@[key].at(), pos);
                    assert(self.chunks@.dom().contains(key) && f(key) == pos);
                }
                if image.contains(pos) {
                    let key = choose|key: u128| #[trigger] self.chunks@.dom().contains(key) && f(key) == pos;
                    assert(self.chunks@.contains_key(key));
                }
            }
        }
        assert(vstd::relations::injective_on(f, self.chunks@.dom())) by {
            assert forall|a: u128, b: u128|
                self.chunks@.dom().contains(a) && self.chunks@.dom().contains(b) && #[trigger] f(a) == #[trigger] f(b) implies a == b by {
                assert(self.chunks@.contains_key(a) && self.chunks@.contains_key(b));
            }
        }
        vstd::set_lib::lemma_map_size(self.chunks@.dom(), image, f);
    }

    /// The chunk at `pos`.
    pub fn chunk(&self, pos: ChunkPos) -> (chunk: Option<&Arc<Chunk>>)
        requires
            self.wf(),
        ensures
            chunk is Some == self@.contains_key(pos),
            chunk matches Some(chunk) ==> **chunk == self@[pos] && chunk.wf() && chunk.at() == pos,
    {
        broadcast use vstd::std_specs::hash::group_hash_axioms;
        proof {
            pos_key_fits(pos);
        }
        let found = self.chunks.get(&key_of(pos));
        proof {
            if found is Some {
                pos_key_is_injective(found->0.at(), pos);
            }
        }
        found
    }

    /// The block at world coordinates; air where no chunk is loaded.
    pub fn block_at(&self, world: [i32; 3]) -> (id: BlockId)
        requires
            self.wf(),
        ensures
            id == self.world_block(world@),
    {
        let pos = ChunkPos::from_world(world);
        match self.chunk(pos) {
            Some(chunk) => chunk.get(Chunk::local_of(world)),
            None => BlockId::air(),
        }
    }

    /// Whether the block at world coordinates is solid; where no chunk is loaded it is not.
    pub fn is_solid(&self, world: [i32; 3]) -> (solid: bool)
        requires
            self.wf(),
            self.known_at(world@),
        ensures
            solid == self.solid_at(world@),
    {
        let id = self.block_at(world);
        !id.is_air() && self.registry.get(id).solid
    }

    /// Whether the six face neighbours of `pos` have representable positions.
    pub open spec fn surrounded(pos: ChunkPos) -> bool {
        &&& i32::MIN < pos.x < i32::MAX
        &&& i32::MIN < pos.y < i32::MAX
        &&& i32::MIN < pos.z < i32::MAX
    }

    /// The position across `face` of the chunk at `pos`.
    pub open spec fn across(pos: ChunkPos, face: Face) -> ChunkPos {
        along(pos, face.axis(), face.normal_at(face.axis()))
    }

    /// The loaded chunk at `pos`, if there is one.
    pub open spec fn loaded(&self, pos: ChunkPos) -> Option<Chunk> {
        if self@.contains_key(pos) {
            Some(self@[pos])
        } else {
            None
        }
    }

    fn handle(&self, pos: ChunkPos) -> (chunk: Option<Arc<Chunk>>)
        requires
            self.wf(),
        ensures
            chunk matches Some(chunk) ==> chunk.wf() && chunk.at() == pos,
            (match chunk {
                Some(chunk) => Some(*chunk),
                None => None,
            }) == self.loaded(pos),
    {
        match self.chunk(pos) {
            Some(chunk) => Some(share(chunk)),
            None => None,
        }
    }

    fn neighbor_handle(&self, center: ChunkPos, face: Face) -> (chunk: Option<Arc<Chunk>>)
        requires
            self.wf(),
            Self::surrounded(center),
        ensures
            chunk matches Some(chunk) ==> chunk.wf() && chunk.at() == Self::across(center, face),
            (match chunk {
                Some(chunk) => Some(*chunk),
                None => None,
            }) == self.loaded(Self::across(center, face)),
    {
        let step = face.step();
        let pos = center.offset(step);
        assert(pos == Self::across(center, face));
        self.handle(pos)
    }

    /// Whether `snapshot` holds the chunk at `center` and its loaded face neighbours, each in
    /// its place.
    pub open spec fn is_snapshot(&self, snapshot: &ChunkNeighborhood, center: ChunkPos) -> bool {
        &&& self@.contains_key(center)
        &&& snapshot.middle() == self@[center]
        &&& snapshot.middle().at() == center
        &&& forall|i: int|
            0 <= i < 6 ==> #[trigger] snapshot.neighbor(i) == self.loaded(
                Self::across(center, Face::nth(i)),
            )
        &&& forall|i: int|
            0 <= i < 6 && (#[trigger] snapshot.neighbor(i)) is Some ==> snapshot.neighbor(i)->0.at()
                == Self::across(center, Face::nth(i))
    }

    /// Snapshot of the chunk at `center` and its loaded face neighbours.
    pub fn neighborhood(&self, center: ChunkPos) -> (snapshot: Option<ChunkNeighborhood>)
        requires
            self.wf(),
            self@.contains_key(center) ==> Self::surrounded(center),
        ensures
            snapshot is Some == self@.contains_key(center),
            snapshot matches Some(snapshot) ==> snapshot.wf() && self.is_snapshot(
                &snapshot,
                center,
            ),
    {
        let middle = self.handle(center);
        match middle {
            None => None,
            Some(middle) => {
                let neighbors = [
                    self.neighbor_handle(center, Face::PosX),
                    self.neighbor_handle(center, Face::NegX),
                    self.neighbor_handle(center, Face::PosY),
                    self.neighbor_handle(center, Face::NegY),
                    self.neighbor_handle(center, Face::PosZ),
                    self.neighbor_handle(center, Face::NegZ),
                ];
                Some(ChunkNeighborhood::new(middle, neighbors))
            },
        }
    }

    /// Files a chunk under its position, in place of any chunk that was there.
    pub fn insert(&mut self, chunk: Arc<Chunk>)
        requires
            old(self).wf(),
            chunk.wf(),
        ensures
            final(self).wf(),
            final(self).blocks() == old(self).blocks(),
            final(self)@ == old(self)@.insert(chunk.at(), *chunk),
    {
        broadcast use vstd::std_specs::hash::group_hash_axioms;
        let pos = chunk.pos();
        let ghost filed = chunk;
        proof {
            pos_key_fits(pos);
        }
        self.chunks.insert(key_of(pos), chunk);
        proof {
            assert forall|p: ChunkPos| self@.contains_key(p) == old(self)@.insert(pos, *filed).contains_key(p) by {
                pos_key_fits(p);
                if pos_key(p) == pos_key(pos) {
                    pos_key_is_injective(p, pos);
                }
            }
            assert forall|p: ChunkPos| self@.contains_key(p) implies #[trigger] self@[p] == old(self)@.insert(pos, *filed)[p] by {
                pos_key_fits(p);
                if pos_key(p) == pos_key(pos) {
                    pos_key_is_injective(p, pos);
                }
            }
            assert(self@ =~= old(self)@.insert(pos, *filed));
        }
    }

    /// Unloads the chunk at `pos`.
    pub fn remove(&mut self, pos: ChunkPos)
        requires
            old(self).wf(),
        ensures
            final(self).wf(),
            final(self).blocks() == old(self).blocks(),
            final(self)@ == old(self)@.remove(pos),
    {
        broadcast use vstd::std_specs::hash::group_hash_axioms;
        proof {
            pos_key_fits(pos);
        }
        self.chunks.remove(&key_of(pos));
        proof {
            assert forall|p: ChunkPos| self@.contains_key(p) == old(self)@.remove(pos).contains_key(p) by {
                pos_key_fits(p);
                if pos_key(p) == pos_key(pos) {
                    pos_key_is_injective(p, pos);
                }
            }
            assert forall|p: ChunkPos| self@.contains_key(p) implies #[trigger] self@[p] == old(self)@.remove(pos)[p] by {
                pos_key_fits(p);
            }
            assert(self@ =~= old(self)@.remove(pos));
        }
    }

    /// Changes a block and returns the chunks whose geometry can change with it.
    ///
    /// Nothing happens, and nothing is returned, where no chunk is loaded or the block is already
    /// the one asked for. Otherwise the chunk is replaced by a changed copy.
    pub fn set_block(&mut self, world: [i32; 3], id: BlockId) -> (touched: Vec<ChunkPos>)
        requires
            old(self).wf(),
        ensures
            final(self).wf(),
            final(self).blocks() == old(self).blocks(),
            old(self).writes(world@, id) ==> {
                &&& touched@ == touched_by(world@)
                &&& Self::written(old(self)@, final(self)@, world@, id)
            },
            !old(self).writes(world@, id) ==> {
                &&& touched@ == Seq::<ChunkPos>::empty()
                &&& final(self)@ == old(self)@
            },
    {
        let pos = ChunkPos::from_world(world);
        let local = Chunk::local_of(world);
        let mut next = match self.chunk(pos) {
            None => {
                return Vec::new();
            },
            Some(current) => {
                if current.get(local) == id {
                    return Vec::new();
                }
                current.copy()
            },
        };
        next.set(local, id);
        self.insert(Arc::new(next));
        proof {
            assert(self@.dom() =~= old(self)@.dom());
            assert(Self::written(old(self)@, self@, world@, id));
        }

        let mut touched: Vec<ChunkPos> = Vec::new();
        touched.push(pos);
        let mut axis: usize = 0;
        while axis < 3
            invariant
                axis <= 3,
                pos == ChunkPos::of_world(world@),
                pos.x == chunk_coord(world@[0] as int),
                pos.y == chunk_coord(world@[1] as int),
                pos.z == chunk_coord(world@[2] as int),
                forall|a: int| 0 <= a < 3 ==> #[trigger] local@[a] == local_coord(world@[a] as int),
                axis == 0 ==> touched@ == seq![pos],
                axis == 1 ==> touched@ == seq![pos] + border_neighbor(pos, world@, 0),
                axis == 2 ==> touched@ == seq![pos] + border_neighbor(pos, world@, 0)
                    + border_neighbor(pos, world@, 1),
                axis == 3 ==> touched@ == touched_by(world@),
            decreases 3 - axis,
        {
            let l: usize = local[axis];
            if l == 0 || l == CHUNK_SIZE - 1 {
                let step: i32 = if l == 0 { -1 } else { 1 };
                let mut offset: [i32; 3] = [0, 0, 0];
                offset[axis] = step;
                let neighbor = pos.offset(offset);
                assert(neighbor == along(pos, axis as int, step as int));
                touched.push(neighbor);
            }
            axis += 1;
        }
        touched
    }

    /// Whether writing `id` at `w` changes anything: a chunk is loaded and holds another block.
    pub open spec fn writes(&self, w: Seq<i32>, id: BlockId) -> bool {
        self@.contains_key(ChunkPos::of_world(w)) && self.world_block(w) != id
    }

    /// What a command asks to be written, if its target admits it: only a block that is there can
    /// be broken, and only air can be built on.
    pub open spec fn asked(&self, command: Command) -> Option<(Seq<i32>, BlockId)> {
        match command {
            Command::Break { pos } => if self.world_block(pos@).is_air() {
                None
            } else {
                Some((pos@, BlockId::air()))
            },
            Command::Place { pos, block } => if self.world_block(pos@).is_air() {
                Some((pos@, block))
            } else {
                None
            },
            Command::Entity(_) => None,
        }
    }

    /// Carries a command out and returns the chunks whose geometry can change with it.
    ///
    /// A command whose target does not admit it does nothing, quietly.
    pub fn apply(&mut self, command: &Command) -> (touched: Vec<ChunkPos>)
        requires
            old(self).wf(),
        ensures
            final(self).wf(),
            final(self).blocks() == old(self).blocks(),
            (match old(self).asked(*command) {
                Some((w, id)) => if old(self).writes(w, id) {
                    &&& touched@ == touched_by(w)
                    &&& Self::written(old(self)@, final(self)@, w, id)
                } else {
                    &&& touched@ == Seq::<ChunkPos>::empty()
                    &&& final(self)@ == old(self)@
                },
                None => {
                    &&& touched@ == Seq::<ChunkPos>::empty()
                    &&& final(self)@ == old(self)@
                },
            }),
    {
        match *command {
            Command::Break { pos } => {
                if self.block_at(pos).is_air() {
                    Vec::new()
                } else {
                    self.set_block(pos, BlockId::air())
                }
            },
            Command::Place { pos, block } => {
                if self.block_at(pos).is_air() {
                    self.set_block(pos, block)
                } else {
                    Vec::new()
                }
            },
            Command::Entity(_) => Vec::new(),
        }
    }
}

} // verus!
