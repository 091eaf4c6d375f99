//! Streaming: which chunks should be loaded, and where each of them stands in the pipeline.
//!
//! ```text
//!   requested -> Generating -> PendingMesh -> Meshing -> Ready -> unloaded
//!                                                ^          |
//!                                                +-- dirty -+
//! ```
//!
//! The jobs themselves run elsewhere. Once per frame, [`ChunkStreamer::update`] takes the results
//! that have come in, changes the world and answers with the jobs to cancel and to start.

use crate::meshing::ChunkMesh;
use crate::world::block::Face;
use crate::world::chunk::{Chunk, ChunkNeighborhood, ChunkPos};
use crate::world::terrain::IslandGenerator;
use crate::world::World;
use std::sync::Arc;
use vstd::prelude::*;

verus! {

/// How many chunks are requested in one frame at most.
pub const SPAWN_BUDGET: usize = 32;

/// The range of chunks to load around a focus.
#[derive(Debug, Clone, Copy, PartialEq, Eq)]
pub struct StreamBounds {
    /// Horizontal radius in chunks: the square around the focus has edge `2 * radius + 1`.
    pub radius: i32,
    /// Lowest layer.
    pub min_y: i32,
    /// Highest layer.
    pub max_y: i32,
}

/// Distance of two coordinates.
pub open spec fn apart(a: int, b: int) -> int {
    if a < b {
        b - a
    } else {
        a - b
    }
}

/// Squared distance of two chunk positions.
pub open spec fn distance_sq(a: ChunkPos, b: ChunkPos) -> int {
    (a.x - b.x) * (a.x - b.x) + (a.y - b.y) * (a.y - b.y) + (a.z - b.z) * (a.z - b.z)
}

fn chunk_distance_sq(a: ChunkPos, b: ChunkPos) -> (d: i128)
    ensures
        d == distance_sq(a, b),
{
    let dx: i128 = a.x as i128 - b.x as i128;
    let dy: i128 = a.y as i128 - b.y as i128;
    let dz: i128 = a.z as i128 - b.z as i128;
    assert(-0x1_0000_0000 < dx < 0x1_0000_0000 && -0x1_0000_0000 < dy < 0x1_0000_0000
        && -0x1_0000_0000 < dz < 0x1_0000_0000);
    assert(0 <= dx * dx <= 0x1_0000_0000_0000_0000) by (nonlinear_arith)
        requires
            -0x1_0000_0000 < dx < 0x1_0000_0000,
    ;
    assert(0 <= dy * dy <= 0x1_0000_0000_0000_0000) by (nonlinear_arith)
        requires
            -0x1_0000_0000 < dy < 0x1_0000_0000,
    ;
    assert(0 <= dz * dz <= 0x1_0000_0000_0000_0000) by (nonlinear_arith)
        requires
            -0x1_0000_0000 < dz < 0x1_0000_0000,
    ;
    dx * dx + dy * dy + dz * dz
}

impl StreamBounds {
    /// Whether `pos` is in range of the focus.
    pub open spec fn covers(self, focus: ChunkPos, pos: ChunkPos) -> bool {
        &&& apart(pos.x as int, focus.x as int) <= self.radius
        &&& apart(pos.z as int, focus.z as int) <= self.radius
        &&& self.min_y <= pos.y <= self.max_y
    }

    /// Number of layers.
    pub open spec fn layers(self) -> int {
        if self.max_y < self.min_y {
            0
        } else {
            self.max_y - self.min_y + 1
        }
    }

    /// Number of chunks in range.
    pub open spec fn volume(self) -> int {
        (2 * self.radius + 1) * (2 * self.radius + 1) * self.layers()
    }

    /// Number of chunks in range.
    pub fn chunk_count(&self) -> (n: usize)
        requires
            0 <= self.radius,
            2 * self.radius + 1 <= i32::MAX,
            i32::MIN <= self.max_y - self.min_y,
            self.max_y - self.min_y + 1 <= i32::MAX,
            (2 * self.radius + 1) * (2 * self.radius + 1) <= usize::MAX,
            self.volume() <= usize::MAX,
        ensures
            n == self.volume(),
    {
        let side: usize = (2 * self.radius + 1) as usize;
        let span: i32 = self.max_y - self.min_y + 1;
        let layers: usize = if span < 0 { 0 } else { span as usize };
        side * side * layers
    }

    /// Whether `pos` is in range of the focus.
    pub fn contains(&self, focus: ChunkPos, pos: ChunkPos) -> (inside: bool)
        ensures
            inside == self.covers(focus, pos),
    {
        let dx: i64 = pos.x as i64 - focus.x as i64;
        let dz: i64 = pos.z as i64 - focus.z as i64;
        let r: i64 = self.radius as i64;
        let in_plane = dx <= r && -dx <= r && dz <= r && -dz <= r;
        in_plane && pos.y >= self.min_y && pos.y <= self.max_y
    }

    /// Whether every chunk in range of the focus, and each of its neighbours, has a representable
    /// position.
    pub open spec fn fits(self, focus: ChunkPos) -> bool {
        &&& i32::MIN < focus.x - self.radius && focus.x + self.radius < i32::MAX
        &&& i32::MIN < focus.z - self.radius && focus.z + self.radius < i32::MAX
        &&& i32::MIN < self.min_y && self.max_y < i32::MAX
    }
}

/// Where a chunk stands in the pipeline.
#[derive(Debug, Clone, Copy, PartialEq, Eq, Structural)]
pub enum SlotState {
    /// Its blocks are being generated.
    Generating,
    /// It is in the world and waits to be meshed.
    PendingMesh,
    /// It is being meshed.
    Meshing,
    /// It is being meshed, but was changed since: the result will be out of date.
    Stale,
    /// World and renderer both have it.
    Ready,
}

/// A chunk in the pipeline.
#[derive(Debug, Clone, Copy, PartialEq, Eq, Structural)]
pub struct Slot {
    pub pos: ChunkPos,
    pub state: SlotState,
}

/// What a frame hands to the renderer.
#[derive(Debug, PartialEq, Eq)]
pub struct StreamOutput {
    /// Meshes to upload. An empty one frees what was there.
    pub meshed: Vec<ChunkMesh>,
    /// Chunks whose resources are to be freed.
    pub unloaded: Vec<ChunkPos>,
}

impl StreamOutput {
    pub fn new() -> (output: Self)
        ensures
            output.meshed@.len() == 0,
            output.unloaded@.len() == 0,
    {
        StreamOutput { meshed: Vec::new(), unloaded: Vec::new() }
    }
}

impl Default for StreamOutput {
    fn default() -> (output: Self)
        ensures
            output.meshed@.len() == 0,
            output.unloaded@.len() == 0,
    {
        StreamOutput::new()
    }
}

/// A chunk to be meshed, with the snapshot to mesh it from.
pub struct MeshJob {
    pub pos: ChunkPos,
    pub neighborhood: ChunkNeighborhood,
}

/// The jobs that a frame asks for.
pub struct StreamJobs {
    /// Chunks whose running job is to be cancelled.
    pub cancelled: Vec<ChunkPos>,
    /// Chunks to generate, nearest first.
    pub generate: Vec<ChunkPos>,
    /// Chunks to mesh.
    pub mesh: Vec<MeshJob>,
}

// ---------------------------------------------------------------------------------------------
// The pipeline as a mathematical value.

/// Whether `pos` is in the pipeline.
pub open spec fn tracks(slots: Seq<Slot>, pos: ChunkPos) -> bool {
    exists|i: int| 0 <= i < slots.len() && (#[trigger] slots[i]).pos == pos
}

/// No position is in the pipeline twice.
pub open spec fn distinct(slots: Seq<Slot>) -> bool {
    forall|i: int, j: int|
        0 <= i < slots.len() && 0 <= j < slots.len() && (#[trigger] slots[i]).pos == (
        #[trigger] slots[j]).pos ==> i == j
}

/// The pipeline with the chunk at `pos` moved on: from state `from` to state `to`.
pub open spec fn moved_on(slots: Seq<Slot>, pos: ChunkPos, from: SlotState, to: SlotState) -> Seq<Slot> {
    slots.map_values(
        |slot: Slot|
            if slot.pos == pos && slot.state == from {
                Slot { pos, state: to }
            } else {
                slot
            },
    )
}

/// Whether the chunk at `pos` is in state `state`.
pub open spec fn is_in(slots: Seq<Slot>, pos: ChunkPos, state: SlotState) -> bool {
    exists|i: int| 0 <= i < slots.len() && #[trigger] slots[i] == (Slot { pos, state })
}

/// The pipeline after `n` generated chunks have come in.
pub open spec fn after_generated(slots: Seq<Slot>, chunks: Seq<Arc<Chunk>>, n: int) -> Seq<Slot>
    decreases n,
{
    if n <= 0 {
        slots
    } else {
        moved_on(
            after_generated(slots, chunks, n - 1),
            chunks[n - 1].at(),
            SlotState::Generating,
            SlotState::PendingMesh,
        )
    }
}

/// The world after `n` generated chunks have come in: one that nobody waits for is dropped.
pub open spec fn world_after_generated(
    world: Map<ChunkPos, Chunk>,
    slots: Seq<Slot>,
    chunks: Seq<Arc<Chunk>>,
    n: int,
) -> Map<ChunkPos, Chunk>
    decreases n,
{
    if n <= 0 {
        world
    } else {
        let before = world_after_generated(world, slots, chunks, n - 1);
        let chunk = chunks[n - 1];
        if is_in(after_generated(slots, chunks, n - 1), chunk.at(), SlotState::Generating) {
            before.insert(chunk.at(), *chunk)
        } else {
            before
        }
    }
}

/// The pipeline after `n` meshes have come in.
pub open spec fn after_meshed(slots: Seq<Slot>, meshes: Seq<ChunkMesh>, n: int) -> Seq<Slot>
    decreases n,
{
    if n <= 0 {
        slots
    } else {
        let before = after_meshed(slots, meshes, n - 1);
        let pos = meshes[n - 1].pos;
        moved_on(
            moved_on(before, pos, SlotState::Meshing, SlotState::Ready),
            pos,
            SlotState::Stale,
            SlotState::PendingMesh,
        )
    }
}

/// The meshes among the first `n` that go to the renderer: those that are still up to date.
pub open spec fn fresh_meshes(slots: Seq<Slot>, meshes: Seq<ChunkMesh>, n: int) -> Seq<ChunkMesh>
    decreases n,
{
    if n <= 0 {
        Seq::empty()
    } else {
        let before = fresh_meshes(slots, meshes, n - 1);
        if is_in(after_meshed(slots, meshes, n - 1), meshes[n - 1].pos, SlotState::Meshing) {
            before.push(meshes[n - 1])
        } else {
            before
        }
    }
}

/// The slots in range of the focus.
pub open spec fn kept(slots: Seq<Slot>, bounds: StreamBounds, focus: ChunkPos) -> Seq<Slot>
    decreases slots.len(),
{
    if slots.len() == 0 {
        Seq::empty()
    } else {
        let before = kept(slots.drop_last(), bounds, focus);
        if bounds.covers(focus, slots.last().pos) {
            before.push(slots.last())
        } else {
            before
        }
    }
}

/// The positions out of range of the focus.
pub open spec fn left_behind(slots: Seq<Slot>, bounds: StreamBounds, focus: ChunkPos) -> Seq<ChunkPos>
    decreases slots.len(),
{
    if slots.len() == 0 {
        Seq::empty()
    } else {
        let before = left_behind(slots.drop_last(), bounds, focus);
        if bounds.covers(focus, slots.last().pos) {
            before
        } else {
            before.push(slots.last().pos)
        }
    }
}

/// Whether a job runs for a chunk in this state.
pub open spec fn has_job(state: SlotState) -> bool {
    state == SlotState::Generating || state == SlotState::Meshing || state == SlotState::Stale
}

/// The positions out of range that a job still runs for.
pub open spec fn to_cancel(slots: Seq<Slot>, bounds: StreamBounds, focus: ChunkPos) -> Seq<ChunkPos>
    decreases slots.len(),
{
    if slots.len() == 0 {
        Seq::empty()
    } else {
        let before = to_cancel(slots.drop_last(), bounds, focus);
        if !bounds.covers(focus, slots.last().pos) && has_job(slots.last().state) {
            before.push(slots.last().pos)
        } else {
            before
        }
    }
}

/// The chunks of the world that are not among the positions.
pub open spec fn world_without(world: Map<ChunkPos, Chunk>, gone: Seq<ChunkPos>) -> Map<ChunkPos, Chunk> {
    world.remove_keys(gone.to_set())
}

/// The positions in range that are not in the pipeline, in scan order from `(x, y, z)` on: `x` runs
/// fastest, then `z`, then `y`.
pub open spec fn missing_from(
    slots: Seq<Slot>,
    bounds: StreamBounds,
    focus: ChunkPos,
    x: int,
    y: int,
    z: int,
) -> Seq<ChunkPos>
    decreases
            bounds.max_y + 1 - y,
            focus.z + bounds.radius + 1 - z,
            focus.x + bounds.radius + 1 - x,
{
    if y > bounds.max_y {
        Seq::empty()
    } else if z > focus.z + bounds.radius {
        missing_from(
            slots,
            bounds,
            focus,
            focus.x - bounds.radius,
            y + 1,
            focus.z - bounds.radius,
        )
    } else if x > focus.x + bounds.radius {
        missing_from(slots, bounds, focus, focus.x - bounds.radius, y, z + 1)
    } else {
        let pos = ChunkPos { x: x as i32, y: y as i32, z: z as i32 };
        let rest = missing_from(slots, bounds, focus, x + 1, y, z);
        if tracks(slots, pos) {
            rest
        } else {
            seq![pos] + rest
        }
    }
}

/// The positions in range that are not in the pipeline, in scan order.
pub open spec fn missing(slots: Seq<Slot>, bounds: StreamBounds, focus: ChunkPos) -> Seq<ChunkPos> {
    missing_from(
        slots,
        bounds,
        focus,
        focus.x - bounds.radius,
        bounds.min_y as int,
        focus.z - bounds.radius,
    )
}

/// Where a position goes in a list sorted by distance: behind all that are not farther.
pub open spec fn place_for(focus: ChunkPos, sorted: Seq<ChunkPos>, pos: ChunkPos) -> int
    decreases sorted.len(),
{
    if sorted.len() == 0 {
        0
    } else if distance_sq(focus, sorted.last()) <= distance_sq(focus, pos) {
        sorted.len() as int
    } else {
        place_for(focus, sorted.drop_last(), pos)
    }
}

/// The first `n` positions of a list, nearest first; of two as near, the earlier one first.
pub open spec fn by_distance(focus: ChunkPos, list: Seq<ChunkPos>, n: int) -> Seq<ChunkPos>
    decreases n,
{
    if n <= 0 {
        Seq::empty()
    } else {
        let before = by_distance(focus, list, n - 1);
        before.insert(place_for(focus, before, list[n - 1]), list[n - 1])
    }
}

/// The chunks to request: the nearest missing ones, as many as the budget allows.
pub open spec fn to_request(slots: Seq<Slot>, bounds: StreamBounds, focus: ChunkPos) -> Seq<ChunkPos> {
    let gaps = missing(slots, bounds, focus);
    let sorted = by_distance(focus, gaps, gaps.len() as int);
    if sorted.len() <= 32 {
        sorted
    } else {
        sorted.take(32)
    }
}

/// The pipeline with new chunks in it.
pub open spec fn with_requested(slots: Seq<Slot>, list: Seq<ChunkPos>) -> Seq<Slot> {
    slots + list.map_values(|pos: ChunkPos| Slot { pos, state: SlotState::Generating })
}

/// Whether the neighbours of the chunk at `pos` are in place: each is in the world or out of range.
pub open spec fn neighbors_in_place(
    world: Map<ChunkPos, Chunk>,
    bounds: StreamBounds,
    focus: ChunkPos,
    pos: ChunkPos,
) -> bool {
    forall|i: int|
        0 <= i < 6 ==> {
            let neighbor = World::across(pos, #[trigger] Face::nth(i));
            world.contains_key(neighbor) || !bounds.covers(focus, neighbor)
        }
}

/// Whether the chunk of a slot is to be meshed now.
pub open spec fn can_mesh(
    world: Map<ChunkPos, Chunk>,
    bounds: StreamBounds,
    focus: ChunkPos,
    slot: Slot,
) -> bool {
    &&& slot.state == SlotState::PendingMesh
    &&& neighbors_in_place(world, bounds, focus, slot.pos)
    &&& world.contains_key(slot.pos)
}

/// The pipeline with those chunks being meshed that can be.
pub open spec fn with_meshing(
    slots: Seq<Slot>,
    world: Map<ChunkPos, Chunk>,
    bounds: StreamBounds,
    focus: ChunkPos,
) -> Seq<Slot> {
    slots.map_values(
        |slot: Slot|
            if can_mesh(world, bounds, focus, slot) {
                Slot { pos: slot.pos, state: SlotState::Meshing }
            } else {
                slot
            },
    )
}

/// The positions among the first `n` slots that are to be meshed now.
pub open spec fn to_mesh(
    slots: Seq<Slot>,
    world: Map<ChunkPos, Chunk>,
    bounds: StreamBounds,
    focus: ChunkPos,
    n: int,
) -> Seq<ChunkPos>
    decreases n,
{
    if n <= 0 {
        Seq::empty()
    } else {
        let before = to_mesh(slots, world, bounds, focus, n - 1);
        if can_mesh(world, bounds, focus, slots[n - 1]) {
            before.push(slots[n - 1].pos)
        } else {
            before
        }
    }
}

/// Whether every chunk of the pipeline is in range of the focus.
pub open spec fn all_in_range(slots: Seq<Slot>, bounds: StreamBounds, focus: ChunkPos) -> bool {
    forall|i: int| 0 <= i < slots.len() ==> bounds.covers(focus, (#[trigger] slots[i]).pos)
}

/// The pipeline once the results have come in.
pub open spec fn slots_after_results(
    slots: Seq<Slot>,
    generated: Seq<Arc<Chunk>>,
    meshed: Seq<ChunkMesh>,
) -> Seq<Slot> {
    after_meshed(
        after_generated(slots, generated, generated.len() as int),
        meshed,
        meshed.len() as int,
    )
}

/// The pipeline once what is out of range has left it and what is missing is requested.
pub open spec fn slots_in_place(slots: Seq<Slot>, bounds: StreamBounds, focus: ChunkPos) -> Seq<Slot> {
    let near = kept(slots, bounds, focus);
    with_requested(near, to_request(near, bounds, focus))
}

/// The world after a frame.
pub open spec fn world_after_update(
    world: Map<ChunkPos, Chunk>,
    slots: Seq<Slot>,
    bounds: StreamBounds,
    focus: ChunkPos,
    generated: Seq<Arc<Chunk>>,
    meshed: Seq<ChunkMesh>,
) -> Map<ChunkPos, Chunk> {
    world_without(
        world_after_generated(world, slots, generated, generated.len() as int),
        left_behind(slots_after_results(slots, generated, meshed), bounds, focus),
    )
}

/// The pipeline after a frame.
pub open spec fn slots_after_update(
    world: Map<ChunkPos, Chunk>,
    slots: Seq<Slot>,
    bounds: StreamBounds,
    focus: ChunkPos,
    generated: Seq<Arc<Chunk>>,
    meshed: Seq<ChunkMesh>,
) -> Seq<Slot> {
    with_meshing(
        slots_in_place(slots_after_results(slots, generated, meshed), bounds, focus),
        world_after_update(world, slots, bounds, focus, generated, meshed),
        bounds,
        focus,
    )
}

/// Whether the jobs are those for the positions, each with a snapshot of the world.
pub open spec fn are_jobs_for(jobs: Seq<MeshJob>, world: &World, list: Seq<ChunkPos>) -> bool {
    &&& jobs.len() == list.len()
    &&& forall|i: int|
        0 <= i < jobs.len() ==> {
            &&& (#[trigger] jobs[i]).pos == list[i]
            &&& jobs[i].neighborhood.wf()
            &&& world.is_snapshot(&jobs[i].neighborhood, list[i])
        }
}

/// The pipeline with the changed chunks in line for meshing again.
pub open spec fn with_dirty(slots: Seq<Slot>, dirty: Seq<ChunkPos>) -> Seq<Slot> {
    slots.map_values(
        |slot: Slot|
            if dirty.contains(slot.pos) {
                Slot { pos: slot.pos, state: made_dirty(slot.state) }
            } else {
                slot
            },
    )
}

/// A changed chunk is meshed again; if it is being meshed, the result will be out of date.
pub open spec fn made_dirty(state: SlotState) -> SlotState {
    match state {
        SlotState::Ready => SlotState::PendingMesh,
        SlotState::Meshing => SlotState::Stale,
        other => other,
    }
}

// ---------------------------------------------------------------------------------------------
// What is missing, and in which order it is requested.

pub(crate) proof fn missing_facts(
    slots: Seq<Slot>,
    bounds: StreamBounds,
    focus: ChunkPos,
    x: int,
    y: int,
    z: int,
)
    requires
        bounds.fits(focus),
        focus.x - bounds.radius <= x,
        bounds.min_y <= y,
        focus.z - bounds.radius <= z,
    ensures
        ({
            let list = missing_from(slots, bounds, focus, x, y, z);
            &&& list.no_duplicates()
            &&& forall|i: int|
                0 <= i < list.len() ==> {
                    let p = #[trigger] list[i];
                    &&& bounds.covers(focus, p)
                    &&& !tracks(slots, p)
                    &&& p.y > y || (p.y == y && (p.z > z || (p.z == z && p.x >= x)))
                }
        }),
    decreases
            bounds.max_y + 1 - y,
            focus.z + bounds.radius + 1 - z,
            focus.x + bounds.radius + 1 - x,
{
    if y > bounds.max_y {
    } else if z > focus.z + bounds.radius {
        missing_facts(
            slots,
            bounds,
            focus,
            focus.x - bounds.radius,
            y + 1,
            focus.z - bounds.radius,
        );
    } else if x > focus.x + bounds.radius {
        missing_facts(slots, bounds, focus, focus.x - bounds.radius, y, z + 1);
    } else {
        missing_facts(slots, bounds, focus, x + 1, y, z);
        let pos = ChunkPos { x: x as i32, y: y as i32, z: z as i32 };
        let rest = missing_from(slots, bounds, focus, x + 1, y, z);
        let list = missing_from(slots, bounds, focus, x, y, z);
        if !tracks(slots, pos) {
            assert(list == seq![pos] + rest);
            assert forall|i: int, j: int| 0 <= i < list.len() && 0 <= j < list.len() && i
                != j implies list[i] != list[j] by {
                if i == 0 {
                    assert(list[j] == rest[j - 1]);
                } else if j == 0 {
                    assert(list[i] == rest[i - 1]);
                } else {
                    assert(list[i] == rest[i - 1] && list[j] == rest[j - 1]);
                }
            }
            assert forall|i: int| 0 <= i < list.len() implies {
                let p = #[trigger] list[i];
                &&& bounds.covers(focus, p)
                &&& !tracks(slots, p)
                &&& p.y > y || (p.y == y && (p.z > z || (p.z == z && p.x >= x)))
            } by {
                if i > 0 {
                    assert(list[i] == rest[i - 1]);
                }
            }
        }
    }
}

proof fn place_in_range(focus: ChunkPos, sorted: Seq<ChunkPos>, pos: ChunkPos)
    ensures
        0 <= place_for(focus, sorted, pos) <= sorted.len(),
    decreases sorted.len(),
{
    if sorted.len() > 0 && distance_sq(focus, sorted.last()) > distance_sq(focus, pos) {
        place_in_range(focus, sorted.drop_last(), pos);
    }
}

/// Sorting by distance neither loses nor invents nor repeats a position.
pub proof fn sorting_keeps_the_positions(focus: ChunkPos, list: Seq<ChunkPos>, n: int)
    requires
        0 <= n <= list.len(),
        list.no_duplicates(),
    ensures
        by_distance(focus, list, n).len() == n,
        by_distance(focus, list, n).no_duplicates(),
        forall|p: ChunkPos| #[trigger]
            by_distance(focus, list, n).contains(p) <==> list.take(n).contains(p),
    decreases n,
{
    if n > 0 {
        sorting_keeps_the_positions(focus, list, n - 1);
        let before = by_distance(focus, list, n - 1);
        let p = list[n - 1];
        let k = place_for(focus, before, p);
        place_in_range(focus, before, p);
        let after = before.insert(k, p);
        assert(!list.take(n - 1).contains(p));
        assert(!before.contains(p));
        assert forall|i: int, j: int| 0 <= i < after.len() && 0 <= j < after.len() && i
            != j implies after[i] != after[j] by {
            let a = if i < k {
                i
            } else {
                i - 1
            };
            let b = if j < k {
                j
            } else {
                j - 1
            };
            if i == k {
                assert(after[j] == before[b]);
                assert(before.contains(before[b]));
            } else if j == k {
                assert(after[i] == before[a]);
                assert(before.contains(before[a]));
            } else {
                assert(after[i] == before[a] && after[j] == before[b]);
            }
        }
        assert forall|q: ChunkPos| #[trigger] after.contains(q) <==> list.take(n).contains(q) by {
            if after.contains(q) {
                let i = choose|i: int| 0 <= i < after.len() && after[i] == q;
                if i == k {
                    assert(list.take(n)[n - 1] == q);
                } else {
                    let a = if i < k {
                        i
                    } else {
                        i - 1
                    };
                    assert(before[a] == q);
                    assert(before.contains(q));
                    let front = list.take(n - 1);
                    let m = choose|m: int| 0 <= m < front.len() && #[trigger] front[m] == q;
                    assert(list.take(n)[m] == q);
                }
            }
            if list.take(n).contains(q) {
                let whole = list.take(n);
                let m = choose|m: int| 0 <= m < whole.len() && #[trigger] whole[m] == q;
                if m == n - 1 {
                    assert(after[k] == q);
                } else {
                    assert(list.take(n - 1)[m] == q);
                    assert(before.contains(q));
                    let a = choose|a: int| 0 <= a < before.len() && before[a] == q;
                    if a < k {
                        assert(after[a] == q);
                    } else {
                        assert(after[a + 1] == q);
                    }
                }
            }
        }
    }
}

proof fn place_splits(focus: ChunkPos, sorted: Seq<ChunkPos>, pos: ChunkPos)
    requires
        forall|i: int, j: int|
            0 <= i <= j < sorted.len() ==> distance_sq(focus, #[trigger] sorted[i])
                <= distance_sq(focus, #[trigger] sorted[j]),
    ensures
        ({
            let k = place_for(focus, sorted, pos);
            &&& 0 <= k <= sorted.len()
            &&& forall|i: int|
                0 <= i < k ==> distance_sq(focus, #[trigger] sorted[i]) <= distance_sq(focus, pos)
            &&& forall|i: int|
                k <= i < sorted.len() ==> distance_sq(focus, #[trigger] sorted[i]) > distance_sq(
                    focus,
                    pos,
                )
        }),
    decreases sorted.len(),
{
    if sorted.len() > 0 {
        if distance_sq(focus, sorted.last()) <= distance_sq(focus, pos) {
            assert forall|i: int| 0 <= i < sorted.len() implies distance_sq(
                focus,
                #[trigger] sorted[i],
            ) <= distance_sq(focus, pos) by {
                assert(distance_sq(focus, sorted[i]) <= distance_sq(
                    focus,
                    sorted[sorted.len() - 1],
                ));
            }
        } else {
            let front = sorted.drop_last();
            assert forall|i: int, j: int| 0 <= i <= j < front.len() implies distance_sq(
                focus,
                #[trigger] front[i],
            ) <= distance_sq(focus, #[trigger] front[j]) by {
                assert(front[i] == sorted[i] && front[j] == sorted[j]);
            }
            place_splits(focus, front, pos);
            let k = place_for(focus, front, pos);
            assert forall|i: int| 0 <= i < k implies distance_sq(focus, #[trigger] sorted[i])
                <= distance_sq(focus, pos) by {
                assert(front[i] == sorted[i]);
            }
            assert forall|i: int| k <= i < sorted.len() implies distance_sq(
                focus,
                #[trigger] sorted[i],
            ) > distance_sq(focus, pos) by {
                if i < front.len() {
                    assert(front[i] == sorted[i]);
                }
            }
        }
    }
}

/// Sorting by distance puts nearer positions first.
pub proof fn sorting_puts_nearer_first(focus: ChunkPos, list: Seq<ChunkPos>, n: int)
    requires
        0 <= n <= list.len(),
    ensures
        forall|i: int, j: int|
            0 <= i <= j < by_distance(focus, list, n).len() ==> distance_sq(
                focus,
                #[trigger] by_distance(focus, list, n)[i],
            ) <= distance_sq(focus, #[trigger] by_distance(focus, list, n)[j]),
    decreases n,
{
    if n > 0 {
        sorting_puts_nearer_first(focus, list, n - 1);
        let before = by_distance(focus, list, n - 1);
        let p = list[n - 1];
        let k = place_for(focus, before, p);
        place_splits(focus, before, p);
        let after = before.insert(k, p);
        assert forall|i: int, j: int| 0 <= i <= j < after.len() implies distance_sq(
            focus,
            #[trigger] after[i],
        ) <= distance_sq(focus, #[trigger] after[j]) by {
            let a = if i < k {
                i
            } else {
                i - 1
            };
            let b = if j < k {
                j
            } else {
                j - 1
            };
            if i < k {
                assert(after[i] == before[a]);
            }
            if i > k {
                assert(after[i] == before[a]);
            }
            if j < k {
                assert(after[j] == before[b]);
            }
            if j > k {
                assert(after[j] == before[b]);
            }
        }
    }
}

/// A frame requests no more chunks than the budget allows.
pub proof fn requests_stay_in_budget(slots: Seq<Slot>, bounds: StreamBounds, focus: ChunkPos)
    ensures
        to_request(slots, bounds, focus).len() <= SPAWN_BUDGET,
{
}

/// A frame requests only chunks in range, none twice and none that is already in the pipeline.
pub proof fn requests_are_new_and_in_range(slots: Seq<Slot>, bounds: StreamBounds, focus: ChunkPos)
    requires
        bounds.fits(focus),
    ensures
        to_request(slots, bounds, focus).no_duplicates(),
        forall|i: int|
            0 <= i < to_request(slots, bounds, focus).len() ==> bounds.covers(
                focus,
                #[trigger] to_request(slots, bounds, focus)[i],
            ) && !tracks(slots, to_request(slots, bounds, focus)[i]),
{
    let gaps = missing(slots, bounds, focus);
    missing_facts(
        slots,
        bounds,
        focus,
        focus.x - bounds.radius,
        bounds.min_y as int,
        focus.z - bounds.radius,
    );
    let n = gaps.len() as int;
    sorting_keeps_the_positions(focus, gaps, n);
    let sorted = by_distance(focus, gaps, n);
    assert(gaps.take(n) =~= gaps);
    let list = to_request(slots, bounds, focus);
    assert forall|i: int| 0 <= i < list.len() implies bounds.covers(focus, #[trigger] list[i])
        && !tracks(slots, list[i]) by {
        assert(list[i] == sorted[i]);
        assert(sorted.contains(sorted[i]));
        assert(gaps.contains(list[i]));
    }
    assert forall|i: int, j: int| 0 <= i < list.len() && 0 <= j < list.len() && i != j implies list[i]
        != list[j] by {
        assert(list[i] == sorted[i] && list[j] == sorted[j]);
    }
}

/// A chunk that is not requested though it is missing is no nearer than any that is.
pub proof fn nearest_chunks_come_first(slots: Seq<Slot>, bounds: StreamBounds, focus: ChunkPos, i: int, pos: ChunkPos)
    requires
        bounds.fits(focus),
        0 <= i < to_request(slots, bounds, focus).len(),
        missing(slots, bounds, focus).contains(pos),
        !to_request(slots, bounds, focus).contains(pos),
    ensures
        distance_sq(focus, to_request(slots, bounds, focus)[i]) <= distance_sq(focus, pos),
{
    let gaps = missing(slots, bounds, focus);
    missing_facts(
        slots,
        bounds,
        focus,
        focus.x - bounds.radius,
        bounds.min_y as int,
        focus.z - bounds.radius,
    );
    let n = gaps.len() as int;
    sorting_keeps_the_positions(focus, gaps, n);
    sorting_puts_nearer_first(focus, gaps, n);
    let sorted = by_distance(focus, gaps, n);
    let list = to_request(slots, bounds, focus);
    assert(gaps.take(n) =~= gaps);
    assert(sorted.contains(pos));
    let j = choose|j: int| 0 <= j < sorted.len() && sorted[j] == pos;
    assert(list[i] == sorted[i]);
    if j < list.len() {
        assert(list[j] == pos);
    }
}

// ---------------------------------------------------------------------------------------------
// The executable side.

fn find_slot(slots: &Vec<Slot>, pos: ChunkPos) -> (index: Option<usize>)
    ensures
        index is Some == tracks(slots@, pos),
        index matches Some(i) ==> i < slots@.len() && slots@[i as int].pos == pos,
{
    let mut i: usize = 0;
    while i < slots.len()
        invariant
            i <= slots@.len(),
            forall|j: int| 0 <= j < i ==> (#[trigger] slots@[j]).pos != pos,
        decreases slots@.len() - i,
    {
        if slots[i].pos == pos {
            return Some(i);
        }
        i += 1;
    }
    None
}

fn move_on(slots: &mut Vec<Slot>, pos: ChunkPos, from: SlotState, to: SlotState) -> (moved: bool)
    requires
        distinct(old(slots)@),
    ensures
        final(slots)@ == moved_on(old(slots)@, pos, from, to),
        distinct(final(slots)@),
        moved == is_in(old(slots)@, pos, from),
{
    let found = find_slot(slots, pos);
    match found {
        None => {
            assert(slots@ =~= moved_on(slots@, pos, from, to));
            false
        },
        Some(i) => {
            if slots[i].state == from {
                let ghost before = slots@;
                slots.set(i, Slot { pos, state: to });
                proof {
                    assert(before[i as int] == (Slot { pos, state: from }));
                    assert(slots@ =~= moved_on(before, pos, from, to));
                }
                true
            } else {
                assert(slots@ =~= moved_on(slots@, pos, from, to));
                false
            }
        },
    }
}

fn collect_missing(slots: &Vec<Slot>, bounds: StreamBounds, focus: ChunkPos) -> (list: Vec<ChunkPos>)
    requires
        bounds.fits(focus),
    ensures
        list@ == missing(slots@, bounds, focus),
{
    let mut list: Vec<ChunkPos> = Vec::new();
    if bounds.radius < 0 {
        proof {
            nothing_in_negative_range(
                slots@,
                bounds,
                focus,
                focus.x - bounds.radius,
                bounds.min_y as int,
                focus.z - bounds.radius,
            );
        }
        return list;
    }
    let x0: i32 = focus.x - bounds.radius;
    let x1: i32 = focus.x + bounds.radius;
    let z0: i32 = focus.z - bounds.radius;
    let z1: i32 = focus.z + bounds.radius;
    let ghost whole = missing(slots@, bounds, focus);
    let mut y: i32 = bounds.min_y;
    assert(list@ + whole =~= whole);
    while y <= bounds.max_y
        invariant
            bounds.fits(focus),
            bounds.radius >= 0,
            x0 == focus.x - bounds.radius,
            x1 == focus.x + bounds.radius,
            z0 == focus.z - bounds.radius,
            z1 == focus.z + bounds.radius,
            y >= bounds.min_y,
            whole == list@ + missing_from(slots@, bounds, focus, x0 as int, y as int, z0 as int),
        decreases bounds.max_y + 1 - y,
    {
        let mut z: i32 = z0;
        while z <= z1
            invariant
                bounds.fits(focus),
                bounds.radius >= 0,
                x0 == focus.x - bounds.radius,
                x1 == focus.x + bounds.radius,
                z0 == focus.z - bounds.radius,
                z1 == focus.z + bounds.radius,
                y <= bounds.max_y,
                z0 <= z <= z1 + 1,
                whole == list@ + missing_from(slots@, bounds, focus, x0 as int, y as int, z as int),
            decreases z1 + 1 - z,
        {
            let mut x: i32 = x0;
            while x <= x1
                invariant
                    bounds.fits(focus),
                    bounds.radius >= 0,
                    x0 == focus.x - bounds.radius,
                    x1 == focus.x + bounds.radius,
                    z0 == focus.z - bounds.radius,
                    z1 == focus.z + bounds.radius,
                    y <= bounds.max_y,
                    z0 <= z <= z1,
                    x0 <= x <= x1 + 1,
                    whole == list@ + missing_from(
                        slots@,
                        bounds,
                        focus,
                        x as int,
                        y as int,
                        z as int,
                    ),
                decreases x1 + 1 - x,
            {
                let pos = ChunkPos::new(x, y, z);
                let ghost rest = missing_from(slots@, bounds, focus, x + 1, y as int, z as int);
                if find_slot(slots, pos).is_none() {
                    let ghost before = list@;
                    list.push(pos);
                    assert(before + (seq![pos] + rest) =~= list@ + rest);
                }
                x += 1;
            }
            z += 1;
        }
        y += 1;
    }
    assert(list@ =~= whole);
    list
}

proof fn nothing_in_negative_range(
    slots: Seq<Slot>,
    bounds: StreamBounds,
    focus: ChunkPos,
    x: int,
    y: int,
    z: int,
)
    requires
        bounds.radius < 0,
        z == focus.z - bounds.radius,
    ensures
        missing_from(slots, bounds, focus, x, y, z) == Seq::<ChunkPos>::empty(),
    decreases bounds.max_y + 1 - y,
{
    if y <= bounds.max_y {
        nothing_in_negative_range(slots, bounds, focus, focus.x - bounds.radius, y + 1, z);
    }
}

fn sort_by_distance(focus: ChunkPos, list: &Vec<ChunkPos>) -> (sorted: Vec<ChunkPos>)
    ensures
        sorted@ == by_distance(focus, list@, list@.len() as int),
{
    let mut sorted: Vec<ChunkPos> = Vec::new();
    let mut n: usize = 0;
    while n < list.len()
        invariant
            n <= list@.len(),
            sorted@ == by_distance(focus, list@, n as int),
        decreases list@.len() - n,
    {
        let pos = list[n];
        let d: i128 = chunk_distance_sq(focus, pos);
        let mut k: usize = sorted.len();
        assert(sorted@.take(k as int) =~= sorted@);
        while k > 0 && chunk_distance_sq(focus, sorted[k - 1]) > d
            invariant
                k <= sorted@.len(),
                d == distance_sq(focus, pos),
                place_for(focus, sorted@, pos) == place_for(focus, sorted@.take(k as int), pos),
            decreases k,
        {
            assert(sorted@.take(k as int).drop_last() =~= sorted@.take(k - 1));
            assert(sorted@.take(k as int).last() == sorted@[k - 1]);
            k -= 1;
        }
        proof {
            if k > 0 {
                assert(sorted@.take(k as int).last() == sorted@[k - 1]);
            }
        }
        sorted.insert(k, pos);
        n += 1;
    }
    sorted
}

/// Decides which chunks should be loaded.
pub struct ChunkStreamer {
    bounds: StreamBounds,
    generator: IslandGenerator,
    slots: Vec<Slot>,
}

impl View for ChunkStreamer {
    type V = Seq<Slot>;

    closed spec fn view(&self) -> Seq<Slot> {
        self.slots@
    }
}

impl ChunkStreamer {
    /// The range that is loaded.
    pub closed spec fn range(&self) -> StreamBounds {
        self.bounds
    }

    /// The generator of the chunks.
    pub closed spec fn source(&self) -> IslandGenerator {
        self.generator
    }

    /// No position is in the pipeline twice.
    pub open spec fn wf(&self) -> bool {
        distinct(self@)
    }

    pub fn new(bounds: StreamBounds, generator: IslandGenerator) -> (streamer: Self)
        ensures
            streamer.wf(),
            streamer.range() == bounds,
            streamer.source() == generator,
            streamer@ == Seq::<Slot>::empty(),
    {
        ChunkStreamer { bounds, generator, slots: Vec::new() }
    }

    pub fn bounds(&self) -> (bounds: StreamBounds)
        ensures
            bounds == self.range(),
    {
        self.bounds
    }

    pub fn generator(&self) -> (generator: &IslandGenerator)
        ensures
            *generator == self.source(),
    {
        &self.generator
    }

    /// Number of chunks in the pipeline.
    pub fn tracked_count(&self) -> (n: usize)
        ensures
            n == self@.len(),
    {
        self.slots.len()
    }

    /// Where the chunk at `pos` stands, if it is in the pipeline.
    pub fn state_of(&self, pos: ChunkPos) -> (state: Option<SlotState>)
        ensures
            state is Some == tracks(self@, pos),
            state matches Some(state) ==> is_in(self@, pos, state),
    {
        match find_slot(&self.slots, pos) {
            Some(i) => {
                let slot = self.slots[i];
                assert(self.slots@[i as int] == (Slot { pos, state: slot.state }));
                Some(slot.state)
            },
            None => None,
        }
    }

    /// Puts changed chunks in line for meshing again.
    pub fn mark_dirty(&mut self, dirty: &[ChunkPos])
        requires
            old(self).wf(),
        ensures
            final(self).wf(),
            final(self).range() == old(self).range(),
            final(self).source() == old(self).source(),
            final(self)@ == with_dirty(old(self)@, dirty@),
    {
        let mut i: usize = 0;
        while i < self.slots.len()
            invariant
                i <= self.slots@.len(),
                self.slots@.len() == old(self).slots@.len(),
                self.bounds == old(self).bounds,
                self.generator == old(self).generator,
                forall|j: int|
                    0 <= j < self.slots@.len() ==> #[trigger] self.slots@[j] == (if j < i {
                        with_dirty(old(self).slots@, dirty@)[j]
                    } else {
                        old(self).slots@[j]
                    }),
            decreases self.slots@.len() - i,
        {
            let slot = self.slots[i];
            let mut hit = false;
            let mut k: usize = 0;
            while k < dirty.len() && !hit
                invariant
                    k <= dirty@.len(),
                    hit ==> dirty@.contains(slot.pos),
                    !hit ==> forall|j: int| 0 <= j < k ==> dirty@[j] != slot.pos,
                decreases dirty@.len() - k,
            {
                if dirty[k] == slot.pos {
                    assert(dirty@[k as int] == slot.pos);
                    hit = true;
                }
                k += 1;
            }
            if hit {
                let state = match slot.state {
                    SlotState::Ready => SlotState::PendingMesh,
                    SlotState::Meshing => SlotState::Stale,
                    other => other,
                };
                self.slots.set(i, Slot { pos: slot.pos, state });
            }
            i += 1;
        }
        assert(self.slots@ =~= with_dirty(old(self).slots@, dirty@));
        proof {
            assert forall|a: int, b: int|
                0 <= a < self.slots@.len() && 0 <= b < self.slots@.len() && (
                #[trigger] self.slots@[a]).pos == (#[trigger] self.slots@[b]).pos implies a == b by {
                assert(old(self).slots@[a].pos == self.slots@[a].pos);
                assert(old(self).slots@[b].pos == self.slots@[b].pos);
            }
        }
    }

    /// Takes results in: generated chunks enter the world, meshes go to the renderer. A result that
    /// nobody waits for any more is dropped; a mesh that is out of date is dropped too, and its
    /// chunk waits to be meshed again.
    fn reap(
        &mut self,
        world: &mut World,
        generated: Vec<Arc<Chunk>>,
        meshed: Vec<ChunkMesh>,
        output: &mut StreamOutput,
    )
        requires
            old(self).wf(),
            old(world).wf(),
            forall|i: int| 0 <= i < generated@.len() ==> (#[trigger] generated@[i]).wf(),
            old(output).meshed@.len() == 0,
        ensures
            final(self).wf(),
            final(self).range() == old(self).range(),
            final(self).source() == old(self).source(),
            final(world).wf(),
            final(world).blocks() == old(world).blocks(),
            final(world)@ == world_after_generated(
                old(world)@,
                old(self)@,
                generated@,
                generated@.len() as int,
            ),
            final(output).unloaded == old(output).unloaded,
            ({
                let entered = after_generated(old(self)@, generated@, generated@.len() as int);
                &&& final(self)@ == after_meshed(entered, meshed@, meshed@.len() as int)
                &&& final(output).meshed@ == fresh_meshes(entered, meshed@, meshed@.len() as int)
            }),
    {
        let ghost start = self.slots@;
        let mut k: usize = 0;
        while k < generated.len()
            invariant
                k <= generated@.len(),
                forall|i: int| 0 <= i < generated@.len() ==> (#[trigger] generated@[i]).wf(),
                distinct(self.slots@),
                self.bounds == old(self).bounds,
                self.generator == old(self).generator,
                world.wf(),
                world.blocks() == old(world).blocks(),
                self.slots@ == after_generated(start, generated@, k as int),
                world@ == world_after_generated(old(world)@, start, generated@, k as int),
            decreases generated@.len() - k,
        {
            let chunk = crate::shared::share(&generated[k]);
            let pos = chunk.pos();
            let entered = move_on(
                &mut self.slots,
                pos,
                SlotState::Generating,
                SlotState::PendingMesh,
            );
            if entered {
                world.insert(chunk);
            }
            k += 1;
        }
        let ghost entered = self.slots@;
        let ghost meshes = meshed@;
        assert(output.meshed@ =~= fresh_meshes(entered, meshes, 0));
        for mesh in it: meshed
            invariant
                it.seq() == meshes,
                distinct(self.slots@),
                self.bounds == old(self).bounds,
                self.generator == old(self).generator,
                self.slots@ == after_meshed(entered, meshes, it.index() as int),
                output.meshed@ == fresh_meshes(entered, meshes, it.index() as int),
                output.unloaded == old(output).unloaded,
        {
            let pos = mesh.pos;
            let fresh = move_on(&mut self.slots, pos, SlotState::Meshing, SlotState::Ready);
            move_on(&mut self.slots, pos, SlotState::Stale, SlotState::PendingMesh);
            if fresh {
                output.meshed.push(mesh);
            }
        }
    }

    /// Drops the chunks out of range: out of the pipeline and out of the world. Answers with those
    /// whose job is to be cancelled.
    fn unload(&mut self, world: &mut World, focus: ChunkPos, output: &mut StreamOutput) -> (cancelled:
        Vec<ChunkPos>)
        requires
            old(self).wf(),
            old(world).wf(),
            old(output).unloaded@.len() == 0,
        ensures
            final(self).wf(),
            final(self).range() == old(self).range(),
            final(self).source() == old(self).source(),
            final(self)@ == kept(old(self)@, old(self).range(), focus),
            final(world).wf(),
            final(world).blocks() == old(world).blocks(),
            final(world)@ == world_without(
                old(world)@,
                left_behind(old(self)@, old(self).range(), focus),
            ),
            final(output).meshed == old(output).meshed,
            final(output).unloaded@ == left_behind(old(self)@, old(self).range(), focus),
            cancelled@ == to_cancel(old(self)@, old(self).range(), focus),
    {
        let ghost start = self.slots@;
        let ghost range = self.bounds;
        let mut cancelled: Vec<ChunkPos> = Vec::new();
        let mut stay: Vec<Slot> = Vec::new();
        let mut i: usize = 0;
        proof {
            assert(start.take(0) =~= Seq::<Slot>::empty());
            assert(world@ =~= world_without(old(world)@, Seq::<ChunkPos>::empty()));
        }
        while i < self.slots.len()
            invariant
                i <= self.slots@.len(),
                self.slots@ == start,
                self.bounds == range,
                self.bounds == old(self).bounds,
                self.generator == old(self).generator,
                world.wf(),
                world.blocks() == old(world).blocks(),
                stay@ == kept(start.take(i as int), range, focus),
                cancelled@ == to_cancel(start.take(i as int), range, focus),
                output.meshed == old(output).meshed,
                output.unloaded@ == left_behind(start.take(i as int), range, focus),
                world@ == world_without(old(world)@, output.unloaded@),
            decreases self.slots@.len() - i,
        {
            let slot = self.slots[i];
            let ghost gone = output.unloaded@;
            proof {
                assert(start.take(i + 1).drop_last() =~= start.take(i as int));
                assert(start.take(i + 1).last() == slot);
            }
            if self.bounds.contains(focus, slot.pos) {
                stay.push(slot);
            } else {
                match slot.state {
                    SlotState::Generating | SlotState::Meshing | SlotState::Stale => {
                        cancelled.push(slot.pos);
                    },
                    SlotState::PendingMesh | SlotState::Ready => {},
                }
                world.remove(slot.pos);
                output.unloaded.push(slot.pos);
                proof {
                    let now = gone.push(slot.pos);
                    assert forall|pos: ChunkPos| now.contains(pos) implies (gone.contains(pos) || pos
                        == slot.pos) by {
                        let j = choose|j: int| 0 <= j < now.len() && now[j] == pos;
                        if j < gone.len() {
                            assert(gone[j] == pos);
                        }
                    }
                    assert forall|pos: ChunkPos| gone.contains(pos) implies now.contains(pos) by {
                        let j = choose|j: int| 0 <= j < gone.len() && gone[j] == pos;
                        assert(now[j] == pos);
                    }
                    assert(now[gone.len() as int] == slot.pos);
                    assert(world@ =~= world_without(old(world)@, now));
                }
            }
            i += 1;
        }
        proof {
            assert(start.take(i as int) =~= start);
            kept_stays_distinct(start, range, focus);
        }
        self.slots = stay;
        cancelled
    }

    /// Asks for missing chunks, the nearest first.
    fn request(&mut self, focus: ChunkPos) -> (list: Vec<ChunkPos>)
        requires
            old(self).wf(),
            old(self).range().fits(focus),
        ensures
            final(self).wf(),
            final(self).range() == old(self).range(),
            final(self).source() == old(self).source(),
            list@ == to_request(old(self)@, old(self).range(), focus),
            final(self)@ == with_requested(old(self)@, list@),
    {
        let ghost start = self.slots@;
        let gaps = collect_missing(&self.slots, self.bounds, focus);
        let mut list = sort_by_distance(focus, &gaps);
        if list.len() > SPAWN_BUDGET {
            list.truncate(SPAWN_BUDGET);
        }
        assert(list@ =~= to_request(start, self.bounds, focus));
        let mut i: usize = 0;
        while i < list.len()
            invariant
                i <= list@.len(),
                self.bounds == old(self).bounds,
                self.generator == old(self).generator,
                self.slots@ == with_requested(start, list@.take(i as int)),
            decreases list@.len() - i,
        {
            self.slots.push(Slot { pos: list[i], state: SlotState::Generating });
            assert(self.slots@ =~= with_requested(start, list@.take(i + 1)));
            i += 1;
        }
        proof {
            assert(list@.take(i as int) =~= list@);
            requests_are_new_and_in_range(start, self.bounds, focus);
            requested_stays_distinct(start, list@);
        }
        list
    }

    /// Whether the neighbours of the chunk at `pos` are in place.
    fn neighbors_ready(&self, world: &World, focus: ChunkPos, pos: ChunkPos) -> (ready: bool)
        requires
            world.wf(),
            World::surrounded(pos),
        ensures
            ready == neighbors_in_place(world@, self.range(), focus, pos),
    {
        let faces = Face::all();
        let mut i: usize = 0;
        while i < 6
            invariant
                i <= 6,
                world.wf(),
                World::surrounded(pos),
                faces@.len() == 6,
                forall|k: int| 0 <= k < 6 ==> faces@[k] == #[trigger] Face::nth(k),
                forall|k: int|
                    0 <= k < i ==> {
                        let neighbor = World::across(pos, #[trigger] Face::nth(k));
                        world@.contains_key(neighbor) || !self.bounds.covers(focus, neighbor)
                    },
            decreases 6 - i,
        {
            let face = faces[i];
            assert(face == Face::nth(i as int));
            let neighbor = pos.offset(face.step());
            assert(neighbor == World::across(pos, Face::nth(i as int)));
            if world.chunk(neighbor).is_none() && self.bounds.contains(focus, neighbor) {
                return false;
            }
            i += 1;
        }
        true
    }

    /// Starts meshing the chunks whose neighbours are in place.
    fn mesh_ready(&mut self, world: &World, focus: ChunkPos) -> (jobs: Vec<MeshJob>)
        requires
            old(self).wf(),
            world.wf(),
            old(self).range().fits(focus),
            all_in_range(old(self)@, old(self).range(), focus),
        ensures
            final(self).wf(),
            final(self).range() == old(self).range(),
            final(self).source() == old(self).source(),
            final(self)@ == with_meshing(old(self)@, world@, old(self).range(), focus),
            are_jobs_for(
                jobs@,
                world,
                to_mesh(old(self)@, world@, old(self).range(), focus, old(self)@.len() as int),
            ),
    {
        let ghost start = self.slots@;
        let ghost range = self.bounds;
        let mut jobs: Vec<MeshJob> = Vec::new();
        let mut i: usize = 0;
        while i < self.slots.len()
            invariant
                i <= self.slots@.len(),
                self.slots@.len() == start.len(),
                self.bounds == range,
                self.bounds == old(self).bounds,
                self.generator == old(self).generator,
                range.fits(focus),
                all_in_range(start, range, focus),
                world.wf(),
                forall|j: int|
                    0 <= j < start.len() ==> #[trigger] self.slots@[j] == (if j < i {
                        with_meshing(start, world@, range, focus)[j]
                    } else {
                        start[j]
                    }),
                are_jobs_for(jobs@, world, to_mesh(start, world@, range, focus, i as int)),
            decreases self.slots@.len() - i,
        {
            let slot = self.slots[i];
            assert(slot == start[i as int]);
            if slot.state == SlotState::PendingMesh && self.neighbors_ready(world, focus, slot.pos) {
                match world.neighborhood(slot.pos) {
                    Some(neighborhood) => {
                        jobs.push(MeshJob { pos: slot.pos, neighborhood });
                        self.slots.set(i, Slot { pos: slot.pos, state: SlotState::Meshing });
                    },
                    None => {},
                }
            }
            i += 1;
        }
        assert(self.slots@ =~= with_meshing(start, world@, range, focus));
        proof {
            meshing_stays_distinct(start, world@, range, focus);
        }
        jobs
    }

    /// One frame: takes the results in, drops what is out of range, asks for what is missing and
    /// starts meshing what is ready.
    ///
    /// The order matters: a chunk that comes in now can be meshed now, if its neighbours are in
    /// place.
    pub fn update(
        &mut self,
        world: &mut World,
        focus: ChunkPos,
        generated: Vec<Arc<Chunk>>,
        meshed: Vec<ChunkMesh>,
        output: &mut StreamOutput,
    ) -> (jobs: StreamJobs)
        requires
            old(self).wf(),
            old(world).wf(),
            old(self).range().fits(focus),
            forall|i: int| 0 <= i < generated@.len() ==> (#[trigger] generated@[i]).wf(),
        ensures
            final(self).wf(),
            final(self).range() == old(self).range(),
            final(self).source() == old(self).source(),
            final(world).wf(),
            final(world).blocks() == old(world).blocks(),
            all_in_range(final(self)@, final(self).range(), focus),
            final(self)@ == slots_after_update(
                old(world)@,
                old(self)@,
                old(self).range(),
                focus,
                generated@,
                meshed@,
            ),
            final(world)@ == world_after_update(
                old(world)@,
                old(self)@,
                old(self).range(),
                focus,
                generated@,
                meshed@,
            ),
            ({
                let entered = after_generated(old(self)@, generated@, generated@.len() as int);
                let settled = slots_after_results(old(self)@, generated@, meshed@);
                let placed = slots_in_place(settled, old(self).range(), focus);
                &&& final(output).meshed@ == fresh_meshes(entered, meshed@, meshed@.len() as int)
                &&& final(output).unloaded@ == left_behind(settled, old(self).range(), focus)
                &&& jobs.cancelled@ == to_cancel(settled, old(self).range(), focus)
                &&& jobs.generate@ == to_request(
                    kept(settled, old(self).range(), focus),
                    old(self).range(),
                    focus,
                )
                &&& are_jobs_for(
                    jobs.mesh@,
                    final(world),
                    to_mesh(
                        placed,
                        final(world)@,
                        old(self).range(),
                        focus,
                        placed.len() as int,
                    ),
                )
            }),
    {
        output.meshed.clear();
        output.unloaded.clear();
        self.reap(world, generated, meshed, output);
        let ghost settled = self.slots@;
        let cancelled = self.unload(world, focus, output);
        let ghost near = self.slots@;
        let generate = self.request(focus);
        let ghost placed = self.slots@;
        proof {
            kept_stays_distinct(settled, self.bounds, focus);
            requests_are_new_and_in_range(near, self.bounds, focus);
            assert forall|i: int| 0 <= i < placed.len() implies self.bounds.covers(
                focus,
                (#[trigger] placed[i]).pos,
            ) by {
                if i < near.len() {
                    assert(placed[i] == near[i]);
                } else {
                    assert(placed[i].pos == generate@[i - near.len()]);
                }
            }
        }
        let mesh = self.mesh_ready(world, focus);
        proof {
            assert forall|i: int| 0 <= i < self.slots@.len() implies self.bounds.covers(
                focus,
                (#[trigger] self.slots@[i]).pos,
            ) by {
                assert(self.slots@[i].pos == placed[i].pos);
            }
        }
        StreamJobs { cancelled, generate, mesh }
    }
}

/// What stays in range stays distinct, and is part of what was there.
pub(crate) proof fn kept_stays_distinct(slots: Seq<Slot>, bounds: StreamBounds, focus: ChunkPos)
    requires
        distinct(slots),
    ensures
        distinct(kept(slots, bounds, focus)),
        forall|i: int|
            0 <= i < kept(slots, bounds, focus).len() ==> slots.contains(
                #[trigger] kept(slots, bounds, focus)[i],
            ) && bounds.covers(focus, kept(slots, bounds, focus)[i].pos),
    decreases slots.len(),
{
    if slots.len() > 0 {
        let less = slots.drop_last();
        let before = kept(less, bounds, focus);
        let after = kept(slots, bounds, focus);
        kept_stays_distinct(less, bounds, focus);
        assert forall|i: int| 0 <= i < after.len() implies slots.contains(#[trigger] after[i])
            && bounds.covers(focus, after[i].pos) by {
            if i < before.len() {
                assert(less.contains(before[i]));
                let j = choose|j: int| 0 <= j < less.len() && less[j] == before[i];
                assert(slots[j] == after[i]);
            } else {
                assert(slots[slots.len() - 1] == after[i]);
            }
        }
        assert forall|i: int, j: int|
            0 <= i < after.len() && 0 <= j < after.len() && (#[trigger] after[i]).pos == (
            #[trigger] after[j]).pos implies i == j by {
            if i < before.len() && j < before.len() {
                assert(before[i].pos == before[j].pos);
            } else if i != j {
                let k = if i < j { i } else { j };
                assert(less.contains(before[k]));
                let m = choose|m: int| 0 <= m < less.len() && less[m] == before[k];
                assert(slots[m].pos == slots[slots.len() - 1].pos);
            }
        }
    }
}

proof fn requested_stays_distinct(slots: Seq<Slot>, list: Seq<ChunkPos>)
    requires
        distinct(slots),
        forall|i: int| 0 <= i < list.len() ==> !tracks(slots, #[trigger] list[i]),
        list.no_duplicates(),
    ensures
        distinct(with_requested(slots, list)),
{
    let after = with_requested(slots, list);
    assert forall|i: int, j: int|
        0 <= i < after.len() && 0 <= j < after.len() && (#[trigger] after[i]).pos == (
        #[trigger] after[j]).pos implies i == j by {
        let n = slots.len();
        if i < n && j < n {
            assert(slots[i].pos == slots[j].pos);
        } else if i < n {
            assert(slots[i].pos == list[j - n]);
            assert(tracks(slots, list[j - n]));
        } else if j < n {
            assert(slots[j].pos == list[i - n]);
            assert(tracks(slots, list[i - n]));
        } else {
            assert(list[i - n] == list[j - n]);
        }
    }
}

proof fn meshing_stays_distinct(
    slots: Seq<Slot>,
    world: Map<ChunkPos, Chunk>,
    bounds: StreamBounds,
    focus: ChunkPos,
)
    requires
        distinct(slots),
    ensures
        distinct(with_meshing(slots, world, bounds, focus)),
{
    let after = with_meshing(slots, world, bounds, focus);
    assert forall|i: int, j: int|
        0 <= i < after.len() && 0 <= j < after.len() && (#[trigger] after[i]).pos == (
        #[trigger] after[j]).pos implies i == j by {
        assert(slots[i].pos == after[i].pos);
        assert(slots[j].pos == after[j].pos);
    }
}

} // verus!
