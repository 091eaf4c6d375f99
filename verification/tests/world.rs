//! The block world: storage, edits, snapshots and meshes.

use lxlake::contract::command::{Command, EntityCommand, EntityId};
use lxlake::meshing::{mesh_chunk, ChunkMesh};
use lxlake::runtime::command::CommandExecutor;
use lxlake::world::block::{BlockDef, BlockId, BlockRegistry, Face, FaceTiles};
use lxlake::world::chunk::{Chunk, ChunkNeighborhood, ChunkPos, CHUNK_SIZE};
use lxlake::world::command::WorldExecutor;
use lxlake::world::World;
use std::sync::Arc;

fn stone_world() -> (World, BlockId) {
    let mut registry = BlockRegistry::new();
    let stone = registry.register(BlockDef { key: "stone", solid: true, tiles: FaceTiles::uniform(1) });
    (World::new(registry), stone)
}

fn layered_chunk(world: &mut World, pos: ChunkPos, layer: usize, id: BlockId) {
    let mut chunk = Chunk::new(pos);
    for z in 0..CHUNK_SIZE {
        for x in 0..CHUNK_SIZE {
            chunk.set([x, layer, z], id);
        }
    }
    world.insert(Arc::new(chunk));
}

fn floor_world() -> (World, BlockId) {
    let (mut world, stone) = stone_world();
    layered_chunk(&mut world, ChunkPos::new(0, 0, 0), 0, stone);
    (world, stone)
}

#[test]
fn breaking_a_block_reports_the_chunk_it_touched() {
    let (mut world, _) = floor_world();
    let mut executor = WorldExecutor::new(&mut world);

    let touched = executor.execute(&Command::Break { pos: [3, 0, 7] });

    assert!(touched.contains(&ChunkPos::new(0, 0, 0)));
    assert!(executor.world_mut().block_at([3, 0, 7]).is_air());
}

#[test]
fn a_no_op_edit_reports_nothing() {
    let (mut world, _) = floor_world();
    let mut executor = WorldExecutor::new(&mut world);

    assert!(executor.execute(&Command::Break { pos: [5, 5, 5] }).is_empty());
}

#[test]
fn entity_commands_are_left_to_the_next_executor() {
    let (mut world, _) = floor_world();
    let mut executor = WorldExecutor::new(&mut world);

    let command = Command::Entity(EntityCommand::Despawn { id: EntityId(1) });
    assert!(executor.execute(&command).is_empty());
}

#[test]
fn set_block_swaps_the_snapshot_and_reports_the_chunk() {
    let (mut world, stone) = floor_world();
    let pos = ChunkPos::new(0, 0, 0);
    let in_flight = Arc::clone(world.chunk(pos).expect("the chunk is loaded"));

    let touched = world.set_block([3, 5, 7], stone);

    assert_eq!(touched, vec![pos]);
    assert_eq!(world.block_at([3, 5, 7]), stone);
    assert_eq!(world.chunk_count(), 1);
    assert_eq!(in_flight.get(Chunk::local_of([3, 5, 7])), BlockId::air());
}

#[test]
fn set_block_outside_a_loaded_chunk_does_nothing() {
    let (mut world, stone) = floor_world();

    let touched = world.set_block([100, 5, 7], stone);

    assert!(touched.is_empty());
    assert_eq!(world.block_at([100, 5, 7]), BlockId::air());
    assert_eq!(world.chunk_count(), 1);
}

#[test]
fn set_block_to_the_same_value_reports_nothing() {
    let (mut world, stone) = floor_world();

    assert!(world.set_block([3, 0, 7], stone).is_empty());
}

#[test]
fn editing_on_a_chunk_border_also_flags_the_face_neighbour() {
    let (mut world, stone) = floor_world();
    let pos = ChunkPos::new(0, 0, 0);

    let touched = world.set_block([0, 5, 7], stone);
    assert_eq!(touched, vec![pos, pos.offset([-1, 0, 0])]);

    let touched = world.set_block([CHUNK_SIZE as i32 - 1, 5, 7], stone);
    assert_eq!(touched, vec![pos, pos.offset([1, 0, 0])]);

    let touched = world.set_block([15, 5, 7], stone);
    assert_eq!(touched, vec![pos]);

    let touched = world.set_block([0, CHUNK_SIZE as i32 - 1, 0], stone);
    assert_eq!(
        touched,
        vec![
            pos,
            pos.offset([-1, 0, 0]),
            pos.offset([0, 1, 0]),
            pos.offset([0, 0, -1]),
        ]
    );
}

#[test]
fn break_and_place_validate_their_target() {
    let (mut world, stone) = floor_world();

    assert!(world.apply(&Command::Break { pos: [3, 5, 7] }).is_empty());
    assert!(!world.apply(&Command::Break { pos: [3, 0, 7] }).is_empty());
    assert_eq!(world.block_at([3, 0, 7]), BlockId::air());

    assert!(world.apply(&Command::Place { pos: [3, 0, 8], block: stone }).is_empty());
    assert_eq!(world.block_at([3, 0, 8]), stone);

    assert!(!world.apply(&Command::Place { pos: [3, 5, 8], block: stone }).is_empty());
    assert_eq!(world.block_at([3, 5, 8]), stone);
}

#[test]
fn is_solid_reads_the_registry_for_solidity() {
    let (mut world, stone) = floor_world();

    assert!(world.is_solid([0, 0, 0]));
    assert!(!world.is_solid([0, 5, 0]));
    assert!(!world.is_solid([100, 0, 0]));

    world.set_block([5, 5, 5], stone);
    assert!(world.is_solid([5, 5, 5]));
}

#[test]
fn a_see_through_block_is_not_solid() {
    let mut registry = BlockRegistry::new();
    let glass = registry.register(BlockDef { key: "glass", solid: false, tiles: FaceTiles::uniform(9) });
    let mut world = World::new(registry);
    world.insert(Arc::new(Chunk::new(ChunkPos::new(0, 0, 0))));
    world.set_block([1, 1, 1], glass);
    assert_eq!(world.block_at([1, 1, 1]), glass);
    assert!(!world.is_solid([1, 1, 1]));
}

#[test]
fn placing_back_undoes_breaking() {
    let (mut world, stone) = floor_world();
    let before = world.chunk(ChunkPos::new(0, 0, 0)).unwrap().blocks().to_vec();
    world.apply(&Command::Break { pos: [3, 0, 7] });
    world.apply(&Command::Place { pos: [3, 0, 7], block: stone });
    assert_eq!(world.chunk(ChunkPos::new(0, 0, 0)).unwrap().blocks(), before.as_slice());
}

#[test]
fn world_coordinates_split_into_chunk_and_local_coordinates() {
    assert_eq!(ChunkPos::from_world([-1, 0, 32]), ChunkPos::new(-1, 0, 1));
    assert_eq!(ChunkPos::from_world([-33, 31, -32]), ChunkPos::new(-2, 0, -1));
    assert_eq!(Chunk::local_of([-1, 0, 32]), [31, 0, 0]);
    assert_eq!(ChunkPos::new(-2, 0, 1).origin(), [-64, 0, 32]);
    assert_eq!(Chunk::index([1, 2, 3]), (2 * 32 + 3) * 32 + 1);
}

#[test]
fn the_count_of_blocks_follows_every_write() {
    let (_, stone) = stone_world();
    let mut chunk = Chunk::new(ChunkPos::new(0, 0, 0));
    assert!(chunk.is_empty());
    chunk.set([0, 0, 0], stone);
    chunk.set([0, 0, 0], stone);
    assert_eq!(chunk.non_air(), 1);
    chunk.set([0, 0, 0], BlockId::air());
    assert!(chunk.is_empty());
    assert_eq!(chunk.copy().blocks(), chunk.blocks());
}

#[test]
fn a_snapshot_reads_across_its_border() {
    let (mut world, stone) = floor_world();
    layered_chunk(&mut world, ChunkPos::new(1, 0, 0), 3, stone);
    let snapshot = world.neighborhood(ChunkPos::new(0, 0, 0)).expect("the chunk is loaded");
    assert_eq!(snapshot.block_at([32, 3, 0]), stone);
    assert_eq!(snapshot.block_at([32, 0, 0]), BlockId::air());
    assert_eq!(snapshot.block_at([-1, 0, 0]), BlockId::air());
    assert_eq!(snapshot.center().pos(), ChunkPos::new(0, 0, 0));
    assert!(world.neighborhood(ChunkPos::new(5, 0, 0)).is_none());
    world.remove(ChunkPos::new(0, 0, 0));
    assert_eq!(world.chunk_count(), 1);
    assert_eq!(world.registry_handle().len(), world.registry().len());
}

#[test]
fn a_snapshot_answers_as_the_world_did() {
    let (mut world, stone) = floor_world();
    for pos in [ChunkPos::new(1, 0, 0), ChunkPos::new(1, 0, 1), ChunkPos::new(0, -1, 0)] {
        layered_chunk(&mut world, pos, 3, stone);
    }
    let snapshot = world.neighborhood(ChunkPos::new(0, 0, 0)).expect("the chunk is loaded");
    let before = |x: i32, y: i32, z: i32| snapshot.block_at([x, y, z]);
    assert_eq!(before(50, 3, 20), stone);
    assert_eq!(world.block_at([50, 3, 20]), stone);
    assert_eq!(before(7, -29, 9), stone);
    assert_eq!(before(50, 3, 40), BlockId::air());
    assert_eq!(world.block_at([50, 3, 40]), stone);
    assert_eq!(before(-9, 3, 4), BlockId::air());
    let here = before(5, 0, 5);
    assert_eq!(here, world.block_at([5, 0, 5]));
    assert!(!world.set_block([50, 3, 20], BlockId::air()).is_empty());
    world.remove(ChunkPos::new(0, 0, 0));
    assert_eq!(before(50, 3, 20), stone);
    assert_eq!(before(5, 0, 5), here);
}

#[test]
fn block_ids_number_the_definitions_in_order() {
    let mut registry = BlockRegistry::new();
    assert!(registry.is_empty(), "air alone does not count");
    assert_eq!(registry.len(), 1);
    let first = registry.register(BlockDef { key: "a", solid: true, tiles: FaceTiles::uniform(4) });
    let second = registry.register(BlockDef { key: "b", solid: false, tiles: FaceTiles([1, 2, 3, 4, 5, 6]) });
    assert_eq!((first.index(), second.index()), (1, 2));
    assert_eq!(second.display(), "block#2");
    assert_eq!(registry.get(first).key, "a");
    assert_eq!(registry.get(second).tiles.get(Face::NegY), 4);
    assert!(!registry.get(BlockId::air()).solid);
    assert_eq!(Face::NegZ.step(), [0, 0, -1]);
    let ordinals: Vec<usize> = Face::all().iter().map(|face| face.index()).collect();
    assert_eq!(ordinals, vec![0, 1, 2, 3, 4, 5]);
}

// -----------------------------------------------------------------------------------------------
// Meshes

fn setup() -> (BlockRegistry, BlockId) {
    let mut registry = BlockRegistry::new();
    let mut ids = Vec::new();
    for (key, tile) in [("stone", 1u16), ("dirt", 2), ("grass", 3)] {
        ids.push(registry.register(BlockDef { key, solid: true, tiles: FaceTiles::uniform(tile) }));
    }
    (registry, ids[0])
}

fn alone(center: Chunk) -> ChunkNeighborhood {
    ChunkNeighborhood::new(Arc::new(center), [None, None, None, None, None, None])
}

fn total_area(mesh: &ChunkMesh) -> f32 {
    (0..mesh.indices.len() / 6)
        .map(|quad| {
            let base = mesh.indices[quad * 6] as usize;
            let (p0, p1, p3) = (
                mesh.vertices[base].position,
                mesh.vertices[base + 1].position,
                mesh.vertices[base + 3].position,
            );
            let e1 = [p1[0] - p0[0], p1[1] - p0[1], p1[2] - p0[2]];
            let e2 = [p3[0] - p0[0], p3[1] - p0[1], p3[2] - p0[2]];
            let cross = [
                e1[1] * e2[2] - e1[2] * e2[1],
                e1[2] * e2[0] - e1[0] * e2[2],
                e1[0] * e2[1] - e1[1] * e2[0],
            ];
            ((cross[0] * cross[0] + cross[1] * cross[1] + cross[2] * cross[2]) as f32).sqrt()
        })
        .sum()
}

fn quad_count(mesh: &ChunkMesh) -> usize {
    mesh.indices.len() / 6
}

#[test]
fn single_block_has_six_faces() {
    let (registry, stone) = setup();
    let mut chunk = Chunk::new(ChunkPos::new(0, 0, 0));
    chunk.set([16, 16, 16], stone);

    let mesh = mesh_chunk(&alone(chunk), &registry);

    assert_eq!(quad_count(&mesh), 6);
    assert_eq!(mesh.vertices.len(), 24);
    assert_eq!(total_area(&mesh), 6.0);
}

#[test]
fn all_faces_are_present_once() {
    let (registry, stone) = setup();
    let mut chunk = Chunk::new(ChunkPos::new(0, 0, 0));
    chunk.set([16, 16, 16], stone);

    let mesh = mesh_chunk(&alone(chunk), &registry);
    let mut normals = mesh.vertices.iter().map(|vertex| vertex.normal).collect::<Vec<_>>();
    normals.dedup();

    assert_eq!(normals.len(), 6);
}

#[test]
fn empty_chunk_yields_empty_mesh() {
    let (registry, _) = setup();
    let chunk = Chunk::new(ChunkPos::new(3, -1, 2));
    let mesh = mesh_chunk(&alone(chunk), &registry);

    assert!(mesh.is_empty());
    assert_eq!(mesh.pos, ChunkPos::new(3, -1, 2));
}

#[test]
fn adjacent_blocks_merge_and_hide_the_shared_face() {
    let (registry, stone) = setup();
    let mut chunk = Chunk::new(ChunkPos::new(0, 0, 0));
    chunk.set([16, 16, 16], stone);
    chunk.set([17, 16, 16], stone);

    let mesh = mesh_chunk(&alone(chunk), &registry);

    assert_eq!(total_area(&mesh), 10.0);
    assert_eq!(quad_count(&mesh), 6);
}

#[test]
fn far_apart_blocks_do_not_merge() {
    let (registry, stone) = setup();
    let mut chunk = Chunk::new(ChunkPos::new(0, 0, 0));
    chunk.set([4, 4, 4], stone);
    chunk.set([20, 20, 20], stone);

    let mesh = mesh_chunk(&alone(chunk), &registry);

    assert_eq!(quad_count(&mesh), 12);
    assert_eq!(total_area(&mesh), 12.0);
}

#[test]
fn a_solid_neighbour_hides_the_border_face() {
    let (registry, stone) = setup();
    let mut chunk = Chunk::new(ChunkPos::new(0, 0, 0));
    chunk.set([31, 5, 5], stone);
    let mut beside = Chunk::new(ChunkPos::new(1, 0, 0));
    beside.set([0, 5, 5], stone);
    let snapshot = ChunkNeighborhood::new(
        Arc::new(chunk),
        [Some(Arc::new(beside)), None, None, None, None, None],
    );
    let mesh = mesh_chunk(&snapshot, &registry);
    assert_eq!(quad_count(&mesh), 5);
    assert!(mesh.vertices.iter().all(|vertex| vertex.normal != [1, 0, 0]));
}

#[test]
fn different_tiles_do_not_merge() {
    let mut registry = BlockRegistry::new();
    let a = registry.register(BlockDef { key: "a", solid: true, tiles: FaceTiles::uniform(1) });
    let b = registry.register(BlockDef { key: "b", solid: true, tiles: FaceTiles::uniform(2) });
    let mut chunk = Chunk::new(ChunkPos::new(0, 0, 0));
    chunk.set([16, 16, 16], a);
    chunk.set([17, 16, 16], b);
    let mesh = mesh_chunk(&alone(chunk), &registry);
    assert_eq!(quad_count(&mesh), 10);
    assert_eq!(total_area(&mesh), 10.0);
}
