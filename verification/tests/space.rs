//! Rays and boxes in the world, and the island that is streamed in and played with.

use lxlake::contract::command::{Command, Intent};
use lxlake::contract::event::Event;
use lxlake::contract::input::{InputSource, IntentState, Key, Keymap, MouseButton};
use lxlake::contract::widget::{Anchor, UiId, Widget};
use lxlake::contract::window::WindowId;
use lxlake::demo::controls::{
    camera_input, default_keymap, ui_owns_click, ui_owns_control, CameraAxes, Controls, Reply,
};
use lxlake::demo::hud::{
    count_lines, help_lines, title_tail, FrameCounter, Hud, HudPart, HudShape, Report,
    CROSSHAIR_COLOR, HUD_CROSSHAIR_V, HUD_HELP, HUD_PANEL_COLOR,
};
use lxlake::demo::play::{command_line, worker_count, Game, SEED};
use lxlake::meshing::{mesh_chunk, ChunkMesh};
use lxlake::ui::tree::UiTree;
use lxlake::world::block::{BlockDef, BlockId, BlockPalette, BlockRegistry, Face, FaceTiles};
use lxlake::world::chunk::{Chunk, ChunkPos, CHUNK_SIZE};
use lxlake::world::collision::{first_stop_downward, first_stop_upward, other_axes, CrossSection};
use lxlake::world::raycast::{nearest_axis, raycast, Crossing};
use lxlake::world::stream::{
    ChunkStreamer, SlotState, StreamBounds, StreamJobs, StreamOutput, SPAWN_BUDGET,
};
use lxlake::world::terrain::{
    density_index, lattice, layer_seed, IslandGenerator, DENSITY_LAYERS, DENSITY_VOLUME,
    ISLAND_MAX_CHUNK_Y, ISLAND_MIN_CHUNK_Y,
};
use lxlake::world::World;
use std::sync::Arc;

// Rays.

fn stone_world() -> (World, BlockId) {
    let mut registry = BlockRegistry::new();
    let stone =
        registry.register(BlockDef { key: "stone", solid: true, tiles: FaceTiles::uniform(1) });
    (World::new(registry), stone)
}

fn floor_world() -> (World, BlockId) {
    let (mut world, stone) = stone_world();
    let mut chunk = Chunk::new(ChunkPos::new(0, 0, 0));
    for z in 0..CHUNK_SIZE {
        for x in 0..CHUNK_SIZE {
            chunk.set([x, 0, z], stone);
        }
    }
    world.insert(Arc::new(chunk));
    (world, stone)
}

#[derive(Debug)]
struct RayHit {
    block: [i32; 3],
    face: Face,
    distance: f32,
}

/// The boundaries that a ray crosses within reach, with their distances.
fn crossings(origin: [f32; 3], direction: [f32; 3], reach: f32) -> Option<([i32; 3], Vec<(Crossing, f32)>)> {
    let length = direction.iter().map(|d| d * d).sum::<f32>().sqrt();
    if !length.is_finite() || length <= f32::EPSILON {
        return None;
    }
    let dir = direction.map(|d| d / length);
    let cell = origin.map(|o| o.floor() as i32);
    let mut t_max = [f32::INFINITY; 3];
    let mut t_delta = [f32::INFINITY; 3];
    for axis in 0..3 {
        if dir[axis] > 0.0 {
            t_delta[axis] = 1.0 / dir[axis];
            t_max[axis] = (cell[axis] as f32 + 1.0 - origin[axis]) / dir[axis];
        } else if dir[axis] < 0.0 {
            t_delta[axis] = -1.0 / dir[axis];
            t_max[axis] = (origin[axis] - cell[axis] as f32) / -dir[axis];
        }
    }
    let mut list = Vec::new();
    loop {
        let axis = nearest_axis(t_max[0] < t_max[1], t_max[0] < t_max[2], t_max[1] < t_max[2]);
        if t_max[axis] > reach {
            return Some((cell, list));
        }
        list.push((Crossing { axis, forward: dir[axis] > 0.0 }, t_max[axis]));
        t_max[axis] += t_delta[axis];
    }
}

fn cast(world: &World, origin: [f32; 3], direction: [f32; 3], reach: f32) -> Option<RayHit> {
    let (start, list) = crossings(origin, direction, reach)?;
    let steps: Vec<Crossing> = list.iter().map(|(crossing, _)| *crossing).collect();
    let hit = raycast(world, start, &steps)?;
    Some(RayHit { block: hit.block, face: hit.face, distance: list[hit.crossing].1 })
}

#[test]
fn straight_down_hits_the_floor_top() {
    let world = floor_world().0;

    let hit = cast(&world, [0.5, 4.5, 0.5], [0.0, -1.0, 0.0], 8.0).unwrap();

    assert_eq!(hit.block, [0, 0, 0]);
    assert_eq!(hit.face, Face::PosY);
    assert!((hit.distance - 3.5).abs() < 1e-5, "{}", hit.distance);
}

#[test]
fn ray_from_a_face_boundary_still_hits() {
    let world = floor_world().0;

    let hit = cast(&world, [0.5, 1.0, 0.5], [0.0, -1.0, 0.0], 8.0).unwrap();

    assert_eq!(hit.block, [0, 0, 0]);
    assert_eq!(hit.face, Face::PosY);
    assert!(hit.distance.abs() < 1e-5);
}

#[test]
fn horizontal_ray_reports_the_face_it_came_from() {
    let (mut world, stone) = floor_world();
    world.set_block([4, 2, 0], stone);

    let hit = cast(&world, [0.5, 2.5, 0.5], [1.0, 0.0, 0.0], 8.0).unwrap();

    assert_eq!(hit.block, [4, 2, 0]);
    assert_eq!(hit.face, Face::NegX);
    assert!((hit.distance - 3.5).abs() < 1e-5, "{}", hit.distance);
}

#[test]
fn slanted_ray_steps_cell_by_cell_and_reports_the_face() {
    let (mut world, stone) = floor_world();
    world.set_block([10, 1, 0], stone);

    let hit = cast(&world, [0.5, 1.5, 0.5], [1.0, -0.05, 0.0], 16.0).unwrap();

    assert_eq!(hit.block, [10, 1, 0]);
    assert_eq!(hit.face, Face::NegX);
    assert!((hit.distance - 9.5).abs() < 0.05, "{}", hit.distance);
}

#[test]
fn respects_the_reach_limit() {
    let world = floor_world().0;

    assert!(cast(&world, [0.5, 4.5, 0.5], [0.0, -1.0, 0.0], 3.4).is_none());
    assert!(cast(&world, [0.5, 4.5, 0.5], [0.0, -1.0, 0.0], 8.0).is_some());
}

#[test]
fn missing_chunks_are_treated_as_air() {
    let (world, _) = stone_world();

    assert!(cast(&world, [0.5, 4.5, 0.5], [0.0, -1.0, 0.0], 8.0).is_none());
}

#[test]
fn zero_direction_returns_none() {
    let world = floor_world().0;

    assert!(cast(&world, [0.5, 4.5, 0.5], [0.0, 0.0, 0.0], 8.0).is_none());
}

#[test]
fn origin_inside_a_solid_returns_none() {
    let world = floor_world().0;

    assert!(cast(&world, [0.5, 0.5, 0.5], [1.0, 0.0, 0.0], 8.0).is_none());
}

// Boxes.

const EPS: f32 = 1e-4;
const HALF: [f32; 3] = [0.3, 0.3, 0.3];

fn sweep_axis(world: &World, center: [f32; 3], axis: usize, amount: f32) -> f32 {
    if amount == 0.0 {
        return 0.0;
    }
    let range = |other: usize| {
        let lo_cell = (center[other] - HALF[other]).floor() as i32;
        (lo_cell, ((center[other] + HALF[other] - EPS).floor() as i32).max(lo_cell))
    };
    let (first, second) = other_axes(axis);
    let span = CrossSection { first: range(first), second: range(second) };
    let (lo, hi) = (center[axis] - HALF[axis], center[axis] + HALF[axis]);
    if amount > 0.0 {
        let from = hi.ceil() as i32;
        let to = (hi + amount).ceil() as i32 - 1;
        match first_stop_upward(world, axis, from, to, span) {
            Some(cell) => cell as f32 - hi,
            None => amount,
        }
    } else {
        let from = lo.floor() as i32 - 1;
        let to = (lo + amount).floor() as i32;
        match first_stop_downward(world, axis, from, to, span) {
            Some(cell) => cell as f32 + 1.0 - lo,
            None => amount,
        }
    }
}

fn sweep(world: &World, start: [f32; 3], delta: [f32; 3]) -> [f32; 3] {
    let mut center = start;
    let mut allowed = [0.0; 3];
    for axis in 0..3 {
        allowed[axis] = sweep_axis(world, center, axis, delta[axis]);
        center[axis] += allowed[axis];
    }
    allowed
}

fn moved(center: [f32; 3], delta: [f32; 3]) -> [f32; 3] {
    std::array::from_fn(|axis| center[axis] + delta[axis])
}

fn overlaps_solid(world: &World, center: [f32; 3]) -> bool {
    let range = |axis: usize| {
        let lo = (center[axis] - HALF[axis] + EPS).floor() as i32;
        lo..=(center[axis] + HALF[axis] - EPS).floor() as i32
    };
    range(1).any(|y| range(2).any(|z| range(0).any(|x| world.is_solid([x, y, z]))))
}

fn wall_at_x(world: &mut World, stone: BlockId, at: i32, y: [i32; 2], z: [i32; 2]) {
    for y in y[0]..=y[1] {
        for z in z[0]..=z[1] {
            world.set_block([at, y, z], stone);
        }
    }
}

#[test]
fn empty_space_returns_the_delta_unchanged() {
    let (world, _) = stone_world();
    assert_eq!(sweep(&world, [0.5, 40.5, 0.5], [1.5, -2.0, 3.0]), [1.5, -2.0, 3.0]);
}

#[test]
fn moving_down_stops_on_the_floor() {
    let (world, _) = floor_world();
    let center = [2.0, 3.0, 2.0];
    let delta = sweep(&world, center, [0.0, -5.0, 0.0]);

    assert!((delta[1] + 1.7).abs() < EPS, "{}", delta[1]);
    assert!(!overlaps_solid(&world, moved(center, delta)));
}

#[test]
fn moving_up_into_a_ceiling_stops_below_it() {
    let (mut world, stone) = floor_world();
    wall_at_x(&mut world, stone, 2, [8, 8], [1, 3]);
    let center = [2.0, 3.0, 2.0];
    let delta = sweep(&world, center, [0.0, 5.0, 0.0]);

    assert!((delta[1] - 4.7).abs() < EPS, "{}", delta[1]);
    assert!(!overlaps_solid(&world, moved(center, delta)));
}

#[test]
fn walking_into_a_wall_stops_at_its_face() {
    let (mut world, stone) = floor_world();
    wall_at_x(&mut world, stone, 5, [1, 3], [1, 3]);
    let center = [2.0, 2.0, 2.0];
    let delta = sweep(&world, center, [5.0, 0.0, 0.0]);

    assert!((delta[0] - 2.7).abs() < EPS, "{}", delta[0]);
    assert!(!overlaps_solid(&world, moved(center, delta)));
}

#[test]
fn sliding_along_a_wall_keeps_the_free_axis() {
    let (mut world, stone) = floor_world();
    wall_at_x(&mut world, stone, 5, [1, 3], [1, 3]);
    let center = [2.0, 2.0, 2.0];
    let delta = sweep(&world, center, [5.0, 0.0, 3.0]);

    assert!((delta[0] - 2.7).abs() < EPS, "{}", delta[0]);
    assert!((delta[2] - 3.0).abs() < EPS, "{}", delta[2]);
    assert!(!overlaps_solid(&world, moved(center, delta)));
}

#[test]
fn sweeping_diagonally_never_ends_up_inside_a_solid() {
    let (mut world, stone) = floor_world();
    world.set_block([5, 2, 5], stone);
    let center = [4.0, 2.0, 4.0];
    let delta = sweep(&world, center, [2.0, 0.0, 2.0]);

    assert!(!overlaps_solid(&world, moved(center, delta)));
    assert!(delta[0] > 0.0 || delta[2] > 0.0);
}

#[test]
fn missing_chunks_are_not_solid() {
    let (world, _) = stone_world();
    assert_eq!(sweep(&world, [200.0, 40.0, 200.0], [0.0, -9.0, 0.0]), [0.0, -9.0, 0.0]);
}

// The island.

fn ellipsoid_mask(point: [f32; 3]) -> f32 {
    let dx = point[0] / 110.0;
    let dy = point[1] / 46.0;
    let dz = point[2] / 110.0;
    1.0 - dx * dx - dy * dy - dz * dz
}

fn smootherstep(t: f32) -> f32 {
    t * t * t * (t * (t * 6.0 - 15.0) + 10.0)
}

fn lerp(a: f32, b: f32, t: f32) -> f32 {
    a + (b - a) * t
}

fn value_noise(seed: u64, point: [f32; 3]) -> f32 {
    let base = point.map(f32::floor);
    let (u, v, w) = (
        smootherstep(point[0] - base[0]),
        smootherstep(point[1] - base[1]),
        smootherstep(point[2] - base[2]),
    );
    let corner = |dx: i32, dy: i32, dz: i32| {
        let bits = lattice(seed, base[0] as i32 + dx, base[1] as i32 + dy, base[2] as i32 + dz);
        bits as f32 / (1u32 << 23) as f32 - 1.0
    };
    let x00 = lerp(corner(0, 0, 0), corner(1, 0, 0), u);
    let x10 = lerp(corner(0, 1, 0), corner(1, 1, 0), u);
    let x01 = lerp(corner(0, 0, 1), corner(1, 0, 1), u);
    let x11 = lerp(corner(0, 1, 1), corner(1, 1, 1), u);
    lerp(lerp(x00, x10, v), lerp(x01, x11, v), w)
}

fn fbm(seed: u64, point: [f32; 3]) -> f32 {
    let (mut frequency, mut amplitude, mut sum, mut norm) = (1.0f32, 1.0f32, 0.0f32, 0.0f32);
    for octave in 0..4 {
        sum += value_noise(layer_seed(seed, octave), point.map(|p| p * frequency)) * amplitude;
        norm += amplitude;
        frequency *= 2.0;
        amplitude *= 0.5;
    }
    sum / norm
}

fn may_contain_blocks(origin: [i32; 3]) -> bool {
    let closest = origin.map(|o| 0.0f32.clamp(o as f32, o as f32 + CHUNK_SIZE as f32));
    ellipsoid_mask(closest) * 4.0 + 0.5 > 0.0
}

fn density_field(seed: u64, pos: ChunkPos) -> Vec<bool> {
    let origin = pos.origin();
    let mut field = vec![false; DENSITY_VOLUME];
    if !may_contain_blocks(origin) {
        return field;
    }
    for y in 0..DENSITY_LAYERS {
        for z in 0..CHUNK_SIZE {
            for x in 0..CHUNK_SIZE {
                let point = [
                    (origin[0] + x as i32) as f32,
                    (origin[1] + y as i32) as f32,
                    (origin[2] + z as i32) as f32,
                ];
                let mask = ellipsoid_mask(point) * 4.0;
                // Noise stays within half a unit of the mask.
                let solid = if mask > 0.5 {
                    true
                } else if mask < -0.5 {
                    false
                } else {
                    mask + fbm(seed, point.map(|p| p * (1.0 / 24.0))) * 0.5 > 0.0
                };
                field[density_index(x, y, z)] = solid;
            }
        }
    }
    field
}

fn setup() -> (BlockRegistry, BlockPalette) {
    let mut registry = BlockRegistry::new();
    let mut register = |key: &'static str, tile: u16| {
        registry.register(BlockDef { key, solid: true, tiles: FaceTiles::uniform(tile) })
    };
    let stone = register("stone", 1);
    let dirt = register("dirt", 2);
    let grass = register("grass", 3);
    (registry, BlockPalette { stone, dirt, grass })
}

fn generator(seed: u64) -> IslandGenerator {
    IslandGenerator::new(seed, setup().1)
}

fn generate(generator: &IslandGenerator, pos: ChunkPos) -> Chunk {
    generator.generate(pos, &density_field(generator.seed(), pos))
}

#[test]
fn same_seed_same_chunk() {
    let a = generate(&generator(7), ChunkPos::new(0, 0, 0));
    let b = generate(&generator(7), ChunkPos::new(0, 0, 0));
    assert_eq!(a.blocks(), b.blocks());
    assert!(a.non_air() > 0);
}

#[test]
fn different_seed_different_island() {
    let a = generate(&generator(1), ChunkPos::new(0, 1, 0));
    let b = generate(&generator(2), ChunkPos::new(0, 1, 0));
    assert_ne!(a.blocks(), b.blocks());
}

#[test]
fn far_chunks_are_empty() {
    let generator = generator(7);
    assert!(generate(&generator, ChunkPos::new(64, 0, 0)).is_empty());
    assert!(generate(&generator, ChunkPos::new(0, 0, -64)).is_empty());
    assert!(generate(&generator, ChunkPos::new(-37, 0, 22)).is_empty());
}

#[test]
fn island_stays_within_declared_layers() {
    let generator = generator(7);
    let non_air_at = |y: i32| {
        let mut total = 0;
        for x in 0..12 {
            for z in 0..12 {
                total += generate(&generator, ChunkPos::new(x, y, z)).non_air();
            }
        }
        total
    };

    let inside: u32 = (ISLAND_MIN_CHUNK_Y..=ISLAND_MAX_CHUNK_Y).map(non_air_at).sum();
    assert!(inside > 0);
    assert_eq!(non_air_at(ISLAND_MIN_CHUNK_Y - 1), 0);
    assert_eq!(non_air_at(ISLAND_MAX_CHUNK_Y + 1), 0);
}

#[test]
fn surface_is_grass_and_core_is_stone() {
    let (registry, palette) = setup();
    let generator = IslandGenerator::new(7, palette);
    let count = |pos: ChunkPos, wanted: BlockId| {
        generate(&generator, pos).blocks().iter().filter(|id| **id == wanted).count()
    };

    assert!(count(ChunkPos::new(0, 0, 0), palette.stone) > 0);
    assert!(count(ChunkPos::new(0, 1, 0), palette.grass) > 0);
    assert_eq!(registry.get(palette.grass).key, "grass");
}

// Streaming.

fn world_and_generator(seed: u64) -> (World, IslandGenerator) {
    let (registry, palette) = setup();
    (World::new(registry), IslandGenerator::new(seed, palette))
}

fn run_jobs(
    jobs: StreamJobs,
    generator: &IslandGenerator,
    blocks: &BlockRegistry,
) -> (Vec<Arc<Chunk>>, Vec<ChunkMesh>) {
    let generated = jobs.generate.iter().map(|pos| Arc::new(generate(generator, *pos))).collect();
    let meshed = jobs.mesh.iter().map(|job| mesh_chunk(&job.neighborhood, blocks)).collect();
    (generated, meshed)
}

fn settle(
    streamer: &mut ChunkStreamer,
    world: &mut World,
    focus: ChunkPos,
) -> StreamOutput {
    let mut merged = StreamOutput::new();
    let (mut generated, mut meshed) = (Vec::new(), Vec::new());
    loop {
        let mut output = StreamOutput::new();
        let jobs = streamer.update(world, focus, generated, meshed, &mut output);
        merged.meshed.extend(output.meshed);
        merged.unloaded.extend(output.unloaded);
        if jobs.generate.is_empty() && jobs.mesh.is_empty() {
            return merged;
        }
        (generated, meshed) = run_jobs(jobs, streamer.generator(), world.registry());
    }
}

#[test]
fn fills_bounds_and_settles_every_chunk() {
    let (mut world, generator) = world_and_generator(7);
    let bounds = StreamBounds { radius: 1, min_y: 0, max_y: 0 };
    let mut streamer = ChunkStreamer::new(bounds, generator);
    let focus = ChunkPos::new(0, 0, 0);

    let output = settle(&mut streamer, &mut world, focus);

    assert_eq!(streamer.tracked_count(), bounds.chunk_count());
    assert_eq!(world.chunk_count(), bounds.chunk_count());
    for x in -1..=1 {
        for z in -1..=1 {
            assert_eq!(streamer.state_of(ChunkPos::new(x, 0, z)), Some(SlotState::Ready));
        }
    }
    assert!(!output.meshed.is_empty());
    assert!(output.meshed.iter().all(|mesh| bounds.contains(focus, mesh.pos)));
    assert!(output.unloaded.is_empty());
}

#[test]
fn chunks_beyond_bounds_are_treated_as_air() {
    let (mut world, generator) = world_and_generator(7);
    let bounds = StreamBounds { radius: 0, min_y: -1, max_y: -1 };
    let mut streamer = ChunkStreamer::new(bounds, generator);
    let focus = ChunkPos::new(0, -1, 0);

    let output = settle(&mut streamer, &mut world, focus);

    assert_eq!(streamer.tracked_count(), 1);
    assert_eq!(streamer.state_of(focus), Some(SlotState::Ready));
    let mesh = output.meshed.first().unwrap();
    assert_eq!(mesh.pos, focus);
    assert_eq!(mesh.indices.len() / 6, 6);
}

#[test]
fn leaving_the_bounds_unloads_everything() {
    let (mut world, generator) = world_and_generator(7);
    let bounds = StreamBounds { radius: 1, min_y: 0, max_y: 0 };
    let mut streamer = ChunkStreamer::new(bounds, generator);
    settle(&mut streamer, &mut world, ChunkPos::new(0, 0, 0));

    let mut output = StreamOutput::new();
    let focus = ChunkPos::new(8, 0, 0);
    streamer.update(&mut world, focus, Vec::new(), Vec::new(), &mut output);

    assert_eq!(output.unloaded.len(), bounds.chunk_count());
    assert_eq!(world.chunk_count(), 0);
    assert_eq!(streamer.tracked_count(), bounds.chunk_count());
}

#[test]
fn spawn_budget_limits_one_frame() {
    let (mut world, generator) = world_and_generator(7);
    let bounds = StreamBounds { radius: 4, min_y: 0, max_y: 0 };
    let mut streamer = ChunkStreamer::new(bounds, generator);
    let focus = ChunkPos::new(0, 0, 0);

    let mut output = StreamOutput::new();
    streamer.update(&mut world, focus, Vec::new(), Vec::new(), &mut output);
    assert_eq!(streamer.tracked_count(), SPAWN_BUDGET);

    assert_eq!(streamer.state_of(ChunkPos::new(4, 0, 4)), None);
}

#[test]
fn reload_after_unload_restores_the_same_terrain() {
    let (mut world, generator) = world_and_generator(7);
    let bounds = StreamBounds { radius: 1, min_y: 1, max_y: 1 };
    let mut streamer = ChunkStreamer::new(bounds, generator);
    let home = ChunkPos::new(0, 0, 0);
    let sample = ChunkPos::new(0, 1, 0);
    settle(&mut streamer, &mut world, home);
    let before = world.chunk(sample).unwrap().blocks().to_vec();

    settle(&mut streamer, &mut world, ChunkPos::new(32, 0, 32));
    assert!(world.chunk(sample).is_none());
    settle(&mut streamer, &mut world, home);

    let after = world.chunk(sample).unwrap().blocks();
    assert_eq!(before, after);
}

#[test]
fn a_mesh_that_is_out_of_date_is_dropped_and_made_again() {
    let (mut world, generator) = world_and_generator(7);
    let bounds = StreamBounds { radius: 0, min_y: -1, max_y: -1 };
    let mut streamer = ChunkStreamer::new(bounds, generator);
    let focus = ChunkPos::new(0, -1, 0);
    let mut output = StreamOutput::new();
    let jobs = streamer.update(&mut world, focus, Vec::new(), Vec::new(), &mut output);
    let (generated, _) = run_jobs(jobs, &generator, world.registry());
    let jobs = streamer.update(&mut world, focus, generated, Vec::new(), &mut output);
    assert_eq!(streamer.state_of(focus), Some(SlotState::Meshing));
    let (_, meshed) = run_jobs(jobs, &generator, world.registry());
    let touched = world.set_block([3, -3, 3], BlockId::air());
    streamer.mark_dirty(&touched);
    assert_eq!(streamer.state_of(focus), Some(SlotState::Stale));
    let jobs = streamer.update(&mut world, focus, Vec::new(), meshed, &mut output);
    assert!(output.meshed.is_empty());
    assert_eq!(jobs.mesh.len(), 1);
}

#[test]
fn the_count_is_the_number_of_positions_in_range() {
    for (bounds, expected) in [
        (StreamBounds { radius: 1, min_y: 0, max_y: 0 }, 9),
        (StreamBounds { radius: 2, min_y: -1, max_y: 2 }, 100),
        (StreamBounds { radius: 1, min_y: 1, max_y: 0 }, 0),
        (StreamBounds { radius: 0, min_y: 3, max_y: 3 }, 1),
    ] {
        assert_eq!(bounds.chunk_count(), expected);
        for focus in [ChunkPos::new(0, 0, 0), ChunkPos::new(7, -3, -5)] {
            let mut inside = 0;
            for x in -10..=10 {
                for y in -10..=10 {
                    for z in -10..=10 {
                        inside += usize::from(bounds.contains(focus, ChunkPos::new(x, y, z)));
                    }
                }
            }
            assert_eq!(inside, expected);
        }
    }
}

#[test]
fn a_frame_tracks_what_stays_and_what_the_budget_allows() {
    let (mut world, generator) = world_and_generator(7);
    let bounds = StreamBounds { radius: 4, min_y: 0, max_y: 0 };
    let mut streamer = ChunkStreamer::new(bounds, generator);
    let mut output = StreamOutput::new();
    let mut counts = Vec::new();
    for focus in [0, 0, 0, 0, 2, 2].map(|x| ChunkPos::new(x, 0, 0)) {
        streamer.update(&mut world, focus, Vec::new(), Vec::new(), &mut output);
        counts.push(streamer.tracked_count());
    }
    assert_eq!(counts, [32, 64, 81, 81, 81, 81]);
    streamer.update(&mut world, ChunkPos::new(9, 0, 0), Vec::new(), Vec::new(), &mut output);
    assert_eq!(output.unloaded.len(), 63);
    assert_eq!(streamer.tracked_count(), 18 + SPAWN_BUDGET);
}

#[test]
fn every_frame_brings_the_pipeline_nearer_to_its_end() {
    let (mut world, generator) = world_and_generator(7);
    let bounds = StreamBounds { radius: 1, min_y: 0, max_y: 0 };
    let mut streamer = ChunkStreamer::new(bounds, generator);
    let focus = ChunkPos::new(0, 0, 0);
    let mut output = StreamOutput::new();
    let mut states = Vec::new();
    let mut handed_on = Vec::new();
    let (mut generated, mut meshed) = (Vec::new(), Vec::new());
    for _ in 0..4 {
        let jobs = streamer.update(&mut world, focus, generated, meshed, &mut output);
        states.push(streamer.state_of(ChunkPos::new(1, 0, -1)));
        handed_on.push(output.meshed.len());
        (generated, meshed) = run_jobs(jobs, &generator, world.registry());
    }
    let expected = [SlotState::Generating, SlotState::Meshing, SlotState::Ready, SlotState::Ready];
    assert_eq!(states, expected.map(Some));
    assert_eq!(streamer.tracked_count(), 9);
    assert_eq!(handed_on, [0, 0, 9, 0]);
}

#[test]
fn a_late_result_does_not_move_a_done_chunk_back() {
    let (mut world, generator) = world_and_generator(7);
    let bounds = StreamBounds { radius: 0, min_y: -1, max_y: -1 };
    let mut streamer = ChunkStreamer::new(bounds, generator);
    let focus = ChunkPos::new(0, -1, 0);
    let output = settle(&mut streamer, &mut world, focus);
    let late = std::sync::Arc::new(generate(&generator, focus));
    let mut again = StreamOutput::new();
    let jobs = streamer.update(&mut world, focus, vec![late], output.meshed, &mut again);
    assert_eq!(streamer.state_of(focus), Some(SlotState::Ready));
    assert!(again.meshed.is_empty());
    assert!(jobs.mesh.is_empty());
}

// The demo.

#[test]
fn the_open_panel_takes_the_keyboard_and_the_view() {
    assert!(!ui_owns_control(false));
    assert!(ui_owns_control(true));
}

#[test]
fn a_click_lands_on_the_ui_only_when_the_pointer_is_over_the_open_panel() {
    let mut tree: UiTree<(), [f64; 4]> = UiTree::new();
    tree.add(Widget::new(UiId(1), Anchor::TopLeft, ()));
    tree.layout(&[[0.0, 0.0, 200.0, 100.0]]);
    let owns = |open: bool, point: [f64; 2]| {
        let inside: Vec<bool> = tree
            .placed()
            .iter()
            .map(|placed| point[0] < placed.rect[2] && point[1] < placed.rect[3])
            .collect();
        ui_owns_click(open, &tree, &inside)
    };

    assert!(!owns(false, [10.0, 10.0]));
    assert!(owns(true, [10.0, 10.0]));
    assert!(!owns(true, [500.0, 300.0]));
}

fn hud_rect(widget: &Widget<HudShape<[f64; 2]>>) -> [f64; 4] {
    let ([width, height], [x, y]) = match widget.shape {
        HudShape::Bar { width, height } => ([f64::from(width), f64::from(height)], [0.0, 0.0]),
        HudShape::Panel { size, x, y } => (size, [f64::from(x), f64::from(y)]),
    };
    let [fx, fy] = widget.anchor.halves();
    let left = (1000.0 - width) * f64::from(fx) / 2.0 + x;
    let top = (600.0 - height) * f64::from(fy) / 2.0 + y;
    [left, top, left + width, top + height]
}

fn hits(hud: &Hud<[f64; 2], [f64; 4]>, point: [f64; 2]) -> Vec<bool> {
    hud.tree()
        .placed()
        .iter()
        .map(|placed| {
            let [left, top, right, bottom] = placed.rect;
            (left..right).contains(&point[0]) && (top..bottom).contains(&point[1])
        })
        .collect()
}

#[test]
fn the_open_panel_covers_the_crosshair_at_the_center() {
    let mut hud = Hud::new();
    let center = [500.0, 300.0];
    for (help, expected) in [(None, HUD_CROSSHAIR_V), (Some([300.0, 70.0]), HUD_HELP)] {
        hud.build([120.0, 88.0], help);
        let rects: Vec<[f64; 4]> = hud.tree().widgets().iter().map(hud_rect).collect();
        hud.place(&rects);
        let inside = hits(&hud, center);
        assert_eq!(hud.tree().hit_test(&inside), Some(UiId(expected)));
        assert_eq!(ui_owns_click(help.is_some(), hud.tree(), &inside), help.is_some());
    }
}

#[test]
fn the_display_is_drawn_from_the_bottom_up() {
    let mut hud: Hud<(), i32> = Hud::new();
    hud.build((), Some(()));
    hud.place(&[1, 2, 3, 4]);
    let parts = hud.parts(true);
    assert_eq!(parts.len(), 6);
    assert!(matches!(parts[0], HudPart::Fill(quad) if quad.rect == 1 && quad.color == CROSSHAIR_COLOR));
    assert!(matches!(parts[2], HudPart::Fill(quad) if quad.rect == 3 && quad.color == HUD_PANEL_COLOR));
    assert_eq!(parts[3], HudPart::Numbers(3));
    assert_eq!(parts[5], HudPart::Help(4));
    assert_eq!(hud.parts(false).len(), 4);
}

#[test]
fn texts_of_the_display() {
    assert_eq!(help_lines()[1], "Shift 加速 / 左键破坏 / 右键放置");
    assert_eq!(count_lines(3, 12), ("GPU 区块 3".to_owned(), "世界区块 12".to_owned()));
    assert_eq!(title_tail(3, 12, 40), " fps | GPU 区块 3 | 世界 12 | 流式 40");
}

#[test]
fn frames_are_reported_once_a_second() {
    let mut counter = FrameCounter::new();
    assert!(counter.count());
    assert!(!counter.count());
    assert_eq!(counter.report(999_999_999), None);
    assert_eq!(
        counter.report(1_500_000_000),
        Some(Report { frames: 2, since: 1_500_000_000 })
    );
    assert_eq!((counter.frames, counter.last_report), (0, 1_500_000_000));
    assert_eq!(counter.report(2_400_000_000), None);
}

#[test]
fn one_core_is_left_to_the_demo() {
    assert_eq!(worker_count(None), 4);
    assert_eq!(worker_count(Some(1)), 1);
    assert_eq!(worker_count(Some(2)), 1);
    assert_eq!(worker_count(Some(8)), 7);
}

#[test]
fn the_declared_keys_steer() {
    let keymap = default_keymap();
    assert_eq!(keymap.lookup(InputSource::Key(Key::Escape)), Some(Intent::Quit));
    assert_eq!(keymap.lookup(InputSource::Mouse(MouseButton::Right)), Some(Intent::Place));
    assert_eq!(keymap.lookup(InputSource::Key(Key::Tab)), None);
    let mut intents = IntentState::new();
    intents.handle(&keymap, InputSource::Key(Key::W), true);
    intents.handle(&keymap, InputSource::Key(Key::Control), true);
    intents.handle(&keymap, InputSource::Key(Key::Shift), true);
    assert_eq!(
        camera_input(&intents),
        CameraAxes { forward: 1, right: 0, up: -1, boost: true }
    );
    intents.handle(&keymap, InputSource::Key(Key::S), true);
    assert_eq!(camera_input(&intents).forward, 0);
}

#[test]
fn the_last_binding_of_a_source_counts() {
    let keymap = Keymap::new()
        .bind(InputSource::Key(Key::Q), Intent::Quit)
        .bind(InputSource::Key(Key::Q), Intent::Boost);
    assert_eq!(keymap.lookup(InputSource::Key(Key::Q)), Some(Intent::Boost));
    let mut intents = IntentState::new();
    intents.handle(&keymap, InputSource::Key(Key::Q), true);
    assert!(intents.is_held(Intent::Boost));
    intents.handle(&keymap, InputSource::Key(Key::Q), false);
    assert!(!intents.is_held(Intent::Boost));
}

fn key(key: Key, pressed: bool, repeat: bool) -> Event<i32> {
    Event::KeyboardInput { window: WindowId(0), key, pressed, repeat }
}

fn quiet() -> Reply<i32> {
    Reply { exit: false, grab: None, look: None }
}

#[test]
fn the_panel_opens_and_closes_and_lets_go_of_everything() {
    let mut controls = Controls::new([0, 0]);
    assert_eq!(controls.handle_event(&key(Key::W, true, false), false), quiet());
    assert_eq!(controls.camera_axes().forward, 1);
    assert_eq!(
        controls.handle_event(&key(Key::Tab, true, false), false),
        Reply { grab: Some(false), ..quiet() }
    );
    assert!(controls.is_panel_open());
    assert_eq!(controls.camera_axes().forward, 0);
    assert_eq!(controls.handle_event(&key(Key::W, true, false), false), quiet());
    assert_eq!(controls.camera_axes().forward, 0);
    assert_eq!(
        controls.handle_event(&Event::MouseMotion { delta: [3, 4] }, false),
        quiet()
    );
    assert_eq!(
        controls.handle_event(&key(Key::Escape, true, false), false),
        Reply { grab: Some(true), ..quiet() }
    );
    assert!(!controls.is_panel_open());
    assert!(controls.take_actions().is_empty());
    assert_eq!(
        controls.handle_event(&Event::MouseMotion { delta: [3, 4] }, false),
        Reply { look: Some([3, 4]), ..quiet() }
    );
    controls.handle_event(&key(Key::Escape, true, false), false);
    assert_eq!(controls.take_actions(), vec![Intent::Quit]);
}

#[test]
fn holding_tab_toggles_once() {
    let mut controls = Controls::new([0, 0]);
    controls.handle_event(&key(Key::Tab, true, false), false);
    for _ in 0..5 {
        assert_eq!(controls.handle_event(&key(Key::Tab, true, true), false), quiet());
        assert!(controls.is_panel_open());
    }
    controls.handle_event(&key(Key::Tab, false, false), false);
    controls.handle_event(&key(Key::Tab, true, false), false);
    assert!(!controls.is_panel_open());
    assert_eq!(controls.handle_event(&key(Key::Tab, true, true), false), quiet());
}

#[test]
fn clicks_go_to_the_world_unless_the_open_panel_is_hit() {
    let click =
        Event::MouseButton { window: WindowId(0), button: MouseButton::Left, pressed: true };
    let mut controls: Controls<i32> = Controls::new([0, 0]);
    controls.handle_event(&click, true);
    assert_eq!(controls.take_actions(), vec![Intent::Break]);
    controls.set_panel_open(true);
    controls.handle_event(&click, true);
    assert!(controls.take_actions().is_empty());
    controls.handle_event(&click, false);
    assert_eq!(controls.take_actions(), vec![Intent::Break]);
}

#[test]
fn focus_and_cursor() {
    let focus = |focused: bool| Event::Focused { window: WindowId(0), focused };
    let mut controls = Controls::new([0, 0]);
    controls.handle_event(&key(Key::D, true, false), false);
    assert_eq!(controls.handle_event(&focus(false), false).grab, Some(false));
    assert_eq!(controls.camera_axes().right, 0);
    assert_eq!(controls.handle_event(&focus(true), false).grab, Some(true));
    controls.set_panel_open(true);
    assert_eq!(controls.handle_event(&focus(true), false).grab, Some(false));
    let moved = Event::CursorMoved { window: WindowId(0), position: [7, 8] };
    assert_eq!(controls.handle_event(&moved, false), quiet());
    assert_eq!(controls.cursor(), [7, 8]);
    let closed = Event::CloseRequested { window: WindowId(0) };
    assert!(controls.handle_event(&closed, false).exit);
}

#[test]
fn digging_and_building_change_the_world_and_the_stream() {
    let mut game = Game::new();
    let registry = game.world().registry();
    assert_eq!(registry.len(), 4);
    let palette = *game.streamer().generator().palette();
    assert_eq!(registry.get(palette.dirt).key, "dirt");
    assert_eq!(game.streamer().generator().seed(), SEED);

    // A chunk of solid ground in the middle of the island.
    let ground = ChunkPos::new(0, -1, 0);
    let focus = ChunkPos::new(0, 0, 0);
    let mut jobs = game.advance(focus, Vec::new(), Vec::new());
    while !jobs.generate.contains(&ground) {
        jobs = game.advance(focus, Vec::new(), Vec::new());
    }
    let chunk = game.streamer().generator().generate(ground, &vec![true; DENSITY_VOLUME]);
    game.advance(focus, vec![Arc::new(chunk)], Vec::new());
    assert_eq!(game.world().chunk_count(), 1);

    let start = [4, 2, 4];
    let down = [Crossing { axis: 1, forward: false }; 6];
    assert_eq!(
        game.command_for(Intent::Break, start, &down),
        Some(Command::Break { pos: [4, -1, 4] })
    );
    assert_eq!(
        game.command_for(Intent::Place, start, &down),
        Some(Command::Place { pos: [4, 0, 4], block: palette.grass })
    );
    assert_eq!(game.command_for(Intent::Quit, start, &down), None);
    assert_eq!(game.command_for(Intent::Break, start, &down[..2]), None);

    let outcome = game.run_actions(&[Intent::Break, Intent::Quit, Intent::Break], start, &down);
    assert!(outcome.exit);
    assert_eq!(outcome.commands, vec![Command::Break { pos: [4, -1, 4] }; 2]);
    assert!(game.world().block_at([4, -1, 4]).is_air());
    assert!(!game.world().block_at([4, -2, 4]).is_air());
    let line = command_line(&outcome.commands);
    assert_eq!(line, format!("{0} | {0}", outcome.commands[0].display()));
    assert_eq!(command_line(&[]), "");

    let outcome = game.run_actions(&[Intent::Place], start, &down);
    assert_eq!(
        outcome.commands,
        vec![Command::Place { pos: [4, -1, 4], block: palette.grass }]
    );
    assert!(!outcome.exit);
    assert_eq!(game.world().block_at([4, -1, 4]), palette.grass);
}
