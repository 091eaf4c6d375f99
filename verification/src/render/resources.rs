//! What the device holds of the world: one piece of geometry for each chunk that has any.

use crate::meshing::{ChunkMesh, Vertex};
use crate::world::chunk::ChunkPos;
use crate::world::store::{key_of, pos_key, pos_key_is_injective};
use std::collections::HashMap;
use vstd::prelude::*;
use vstd::std_specs::hash::spec_keys_iter;
use vstd::std_specs::iter::IteratorSpec;
use vstd::set_lib::lemma_map_size;

verus! {

broadcast use vstd::std_specs::hash::group_hash_axioms;

/// The geometry of chunks on the device, by position. `D` stands for the buffers of one chunk.
pub struct ChunkDraws<D> {
    draws: HashMap<u128, D>,
}

impl<D> View for ChunkDraws<D> {
    type V = Map<ChunkPos, D>;

    closed spec fn view(&self) -> Map<ChunkPos, D> {
        Map::new(
            |pos: ChunkPos| self.draws@.contains_key(pos_key(pos) as u128),
            |pos: ChunkPos| self.draws@[pos_key(pos) as u128],
        )
    }
}

impl<D> ChunkDraws<D> {
    /// Everything is filed under the number of a position.
    pub closed spec fn wf(&self) -> bool {
        forall|n: u128| #[trigger]
            self.draws@.contains_key(n) ==> exists|pos: ChunkPos| n == #[trigger] pos_key(pos)
    }

    pub fn new() -> (table: Self)
        ensures
            table.wf(),
            table@ == Map::<ChunkPos, D>::empty(),
    {
        let table = ChunkDraws { draws: HashMap::new() };
        assert(table@ =~= Map::<ChunkPos, D>::empty());
        table
    }

    /// Takes over the geometry of a chunk, in place of any that was there. A chunk without geometry
    /// takes up nothing.
    pub fn upload(&mut self, mesh: &ChunkMesh, draw: D)
        requires
            old(self).wf(),
        ensures
            final(self).wf(),
            final(self)@ == if mesh.indices@.len() == 0 {
                old(self)@.remove(mesh.pos)
            } else {
                old(self)@.insert(mesh.pos, draw)
            },
    {
        if mesh.is_empty() {
            self.unload(mesh.pos);
            return;
        }
        self.draws.insert(key_of(mesh.pos), draw);
        proof {
            let expected = old(self)@.insert(mesh.pos, draw);
            assert forall|pos: ChunkPos| #[trigger] self@.contains_key(pos) == expected.contains_key(pos)
                && (expected.contains_key(pos) ==> self@[pos] == expected[pos]) by {
                if pos_key(pos) == pos_key(mesh.pos) {
                    pos_key_is_injective(pos, mesh.pos);
                }
            }
            assert(self@ =~= expected);
        }
    }

    /// Lets go of the geometry of a chunk; of one that is not there, nothing happens.
    pub fn unload(&mut self, pos: ChunkPos)
        requires
            old(self).wf(),
        ensures
            final(self).wf(),
            final(self)@ == old(self)@.remove(pos),
    {
        self.draws.remove(&key_of(pos));
        proof {
            let expected = old(self)@.remove(pos);
            assert forall|other: ChunkPos| #[trigger] self@.contains_key(other)
                == expected.contains_key(other) && (expected.contains_key(other) ==> self@[other]
                == expected[other]) by {
                if pos_key(other) == pos_key(pos) {
                    pos_key_is_injective(other, pos);
                }
            }
            assert(self@ =~= expected);
        }
    }

    /// Number of chunks whose geometry is on the device.
    pub fn uploaded_chunks(&self) -> (n: usize)
        requires
            self.wf(),
        ensures
            self@.dom().finite(),
            n == self@.len(),
    {
        proof {
            let back = |n: u128| choose|pos: ChunkPos| n == pos_key(pos);
            let keys = self.draws@.dom();
            assert forall|n: u128| keys.contains(n) implies #[trigger] pos_key(back(n)) == n by {
                assert(self.draws@.contains_key(n));
            }
            assert(keys.map(back) =~= self@.dom()) by {
                assert forall|pos: ChunkPos| keys.map(back).contains(pos) == self@.dom().contains(pos) by {
                    if self@.dom().contains(pos) {
                        let n = pos_key(pos) as u128;
                        assert(keys.contains(n));
                        pos_key_is_injective(back(n), pos);
                        assert(keys.map(back).contains(back(n)));
                    }
                }
            }
            assert(vstd::relations::injective_on(back, keys)) by {
                assert forall|a: u128, b: u128|
                    keys.contains(a) && keys.contains(b) && #[trigger] back(a) == #[trigger] back(b) implies a
                    == b by {
                    assert(pos_key(back(a)) == a && pos_key(back(b)) == b);
                }
            }
            lemma_map_size(keys, self@.dom(), back);
        }
        self.draws.len()
    }

    /// The geometry of every chunk, in any order, each once.
    pub fn draw_chunks(&self) -> (draws: Vec<&D>)
        requires
            self.wf(),
        ensures
            exists|order: Seq<ChunkPos>|
                {
                    &&& #[trigger] order.no_duplicates()
                    &&& order.to_set() == self@.dom()
                    &&& draws@.len() == order.len()
                    &&& forall|i: int| 0 <= i < order.len() ==> *(#[trigger] draws@[i]) == self@[order[i]]
                },
    {
        let mut numbers: Vec<u128> = Vec::new();
        let ghost walk = spec_keys_iter(&self.draws).remaining();
        for n in it: self.draws.keys()
            invariant
                it.seq() == walk,
                numbers@.len() == it.index(),
                forall|k: int| 0 <= k < numbers@.len() ==> #[trigger] numbers@[k] == *walk[k],
        {
            numbers.push(*n);
        }
        proof {
            assert(numbers@ =~= walk.unref());
            assert(numbers@.no_duplicates()) by {
                assert forall|i: int, j: int| 0 <= i < j < numbers@.len() implies numbers@[i] != numbers@[j] by {
                    assert(walk[i] != walk[j]);
                }
            }
        }
        let ghost back = |n: u128| choose|pos: ChunkPos| n == pos_key(pos);
        let ghost order = numbers@.map_values(back);
        proof {
            assert forall|i: int| 0 <= i < numbers@.len() implies self.draws@.contains_key(#[trigger] numbers@[i])
                && pos_key(back(numbers@[i])) == numbers@[i] by {
                assert(numbers@.to_set().contains(numbers@[i]));
            }
        }
        let mut draws: Vec<&D> = Vec::new();
        let mut i: usize = 0;
        while i < numbers.len()
            invariant
                i <= numbers@.len(),
                forall|k: int|
                    0 <= k < numbers@.len() ==> self.draws@.contains_key(#[trigger] numbers@[k]),
                draws@.len() == i,
                forall|k: int| 0 <= k < i ==> *(#[trigger] draws@[k]) == self.draws@[numbers@[k]],
            decreases numbers@.len() - i,
        {
            assert(self.draws@.contains_key(numbers@[i as int]));
            if let Some(draw) = self.draws.get(&numbers[i]) {
                draws.push(draw);
            }
            i += 1;
        }
        proof {
            assert(order.to_set() =~= self@.dom()) by {
                assert forall|pos: ChunkPos| order.to_set().contains(pos) == self@.dom().contains(pos) by {
                    if order.to_set().contains(pos) {
                        let k = choose|k: int| 0 <= k < order.len() && order[k] == pos;
                        assert(self.draws@.contains_key(numbers@[k]));
                    }
                    if self@.dom().contains(pos) {
                        let n = pos_key(pos) as u128;
                        assert(numbers@.to_set().contains(n));
                        let k = choose|k: int| 0 <= k < numbers@.len() && numbers@[k] == n;
                        pos_key_is_injective(back(n), pos);
                        assert(order[k] == pos);
                    }
                }
            }
            assert(order.no_duplicates());
        }
        draws
    }

    /// The geometry of a chunk.
    pub fn draw(&self, pos: ChunkPos) -> (draw: Option<&D>)
        ensures
            draw is Some == self@.contains_key(pos),
            draw matches Some(draw) ==> *draw == self@[pos],
    {
        self.draws.get(&key_of(pos))
    }
}

/// Uploading and unloading cancel out.
pub proof fn unloading_undoes_uploading<D>(draws: Map<ChunkPos, D>, pos: ChunkPos, draw: D)
    requires
        !draws.contains_key(pos),
    ensures
        draws.insert(pos, draw).remove(pos) == draws,
{
    assert(draws.insert(pos, draw).remove(pos) =~= draws);
}

/// Whether every vertex of a mesh has a place in the world.
pub open spec fn fits_world(mesh: &ChunkMesh) -> bool {
    &&& mesh.pos.has_origin()
    &&& forall|i: int, axis: int|
        0 <= i < mesh.vertices@.len() && 0 <= axis < 3 ==> i32::MIN <= mesh.pos.origin_at(axis)
            + #[trigger] mesh.vertices@[i].position@[axis] <= i32::MAX
}

/// Whether a vertex is another one, moved by the origin of a chunk.
pub open spec fn is_moved(moved: Vertex, vertex: Vertex, pos: ChunkPos) -> bool {
    &&& forall|axis: int|
        0 <= axis < 3 ==> #[trigger] moved.position@[axis] == vertex.position@[axis] + pos.origin_at(
            axis,
        )
    &&& moved.normal == vertex.normal
    &&& moved.uv == vertex.uv
    &&& moved.tile == vertex.tile
}

/// The vertices of a mesh in world coordinates, so that all chunks are drawn with the same settings.
pub fn to_world_vertices(mesh: &ChunkMesh) -> (vertices: Vec<Vertex>)
    requires
        fits_world(mesh),
    ensures
        vertices@.len() == mesh.vertices@.len(),
        forall|i: int|
            0 <= i < vertices@.len() ==> is_moved(
                #[trigger] vertices@[i],
                mesh.vertices@[i],
                mesh.pos,
            ),
{
    let origin = mesh.pos.origin();
    let mut vertices: Vec<Vertex> = Vec::new();
    let mut i: usize = 0;
    while i < mesh.vertices.len()
        invariant
            i <= mesh.vertices@.len(),
            fits_world(mesh),
            forall|axis: int| 0 <= axis < 3 ==> #[trigger] origin@[axis] == mesh.pos.origin_at(axis),
            vertices@.len() == i,
            forall|k: int|
                0 <= k < i ==> is_moved(#[trigger] vertices@[k], mesh.vertices@[k], mesh.pos),
        decreases mesh.vertices@.len() - i,
    {
        let vertex = mesh.vertices[i];
        proof {
            let _ = origin@[0] + origin@[1] + origin@[2];
            assert(vertex == mesh.vertices@[i as int]);
            let _ = mesh.vertices@[i as int].position@[0];
            let _ = mesh.vertices@[i as int].position@[1];
            let _ = mesh.vertices@[i as int].position@[2];
        }
        let position = [
            vertex.position[0] + origin[0],
            vertex.position[1] + origin[1],
            vertex.position[2] + origin[2],
        ];
        vertices.push(Vertex { position, ..vertex });
        i += 1;
    }
    vertices
}

} // verus!
