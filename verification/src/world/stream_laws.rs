//! What holds of the streaming pipeline from frame to frame.

use crate::meshing::ChunkMesh;
use crate::shared::pushed_contains;
use crate::world::block::Face;
use crate::world::chunk::{Chunk, ChunkPos};
use crate::world::stream::{
    after_generated, after_meshed, all_in_range, can_mesh, distance_sq, distinct, fresh_meshes, is_in, kept,
    left_behind, missing, missing_from, moved_on, neighbors_in_place, slots_after_results, slots_after_update,
    slots_in_place, to_cancel, to_mesh, to_request, tracks, with_dirty, with_meshing, with_requested,
    world_after_generated, world_after_update, world_without, Slot, SlotState, StreamBounds,
};
use crate::world::World;
use std::sync::Arc;
use vstd::prelude::*;

verus! {

/// Whether the chunk at `pos` is in the pipeline and past generation.
pub open spec fn is_past_generation(slots: Seq<Slot>, pos: ChunkPos) -> bool {
    exists|i: int|
        0 <= i < slots.len() && (#[trigger] slots[i]).pos == pos && slots[i].state
            != SlotState::Generating
}

/// The world holds exactly the chunks of the pipeline that are past generation.
pub open spec fn in_step(slots: Seq<Slot>, world: Map<ChunkPos, Chunk>) -> bool {
    forall|pos: ChunkPos| #[trigger] world.contains_key(pos) == is_past_generation(slots, pos)
}

proof fn moving_on_keeps_presence(slots: Seq<Slot>, pos: ChunkPos, from: SlotState, to: SlotState, p: ChunkPos)
    requires
        to != SlotState::Generating,
    ensures
        from != SlotState::Generating ==> is_past_generation(moved_on(slots, pos, from, to), p)
            == is_past_generation(slots, p),
        from == SlotState::Generating ==> is_past_generation(moved_on(slots, pos, from, to), p) == (
        is_past_generation(slots, p) || (p == pos && is_in(slots, pos, from))),
{
    let after = moved_on(slots, pos, from, to);
    if is_past_generation(slots, p) {
        let i = choose|i: int|
            0 <= i < slots.len() && (#[trigger] slots[i]).pos == p && slots[i].state
                != SlotState::Generating;
        assert(after[i].pos == p && after[i].state != SlotState::Generating);
    }
    if is_past_generation(after, p) {
        let i = choose|i: int|
            0 <= i < after.len() && (#[trigger] after[i]).pos == p && after[i].state
                != SlotState::Generating;
        assert(slots[i].pos == p);
        if slots[i].state == SlotState::Generating {
            assert(slots[i] == (Slot { pos, state: from }));
        }
    }
    if is_in(slots, pos, from) {
        let i = choose|i: int| 0 <= i < slots.len() && #[trigger] slots[i] == (Slot { pos, state: from });
        assert(after[i].pos == pos && after[i].state == to);
    }
}

proof fn generated_keeps_step(
    slots: Seq<Slot>,
    world: Map<ChunkPos, Chunk>,
    chunks: Seq<Arc<Chunk>>,
    n: int,
)
    requires
        in_step(slots, world),
        0 <= n <= chunks.len(),
    ensures
        in_step(after_generated(slots, chunks, n), world_after_generated(world, slots, chunks, n)),
    decreases n,
{
    if n > 0 {
        generated_keeps_step(slots, world, chunks, n - 1);
        let before = after_generated(slots, chunks, n - 1);
        let pos = chunks[n - 1].at();
        let after = world_after_generated(world, slots, chunks, n);
        assert forall|p: ChunkPos| #[trigger] after.contains_key(p) == is_past_generation(
            after_generated(slots, chunks, n),
            p,
        ) by {
            moving_on_keeps_presence(before, pos, SlotState::Generating, SlotState::PendingMesh, p);
            assert(world_after_generated(world, slots, chunks, n - 1).contains_key(p)
                == is_past_generation(before, p));
        }
    }
}

proof fn meshed_keeps_presence(slots: Seq<Slot>, meshes: Seq<ChunkMesh>, n: int, p: ChunkPos)
    requires
        0 <= n <= meshes.len(),
    ensures
        is_past_generation(after_meshed(slots, meshes, n), p) == is_past_generation(slots, p),
    decreases n,
{
    if n > 0 {
        meshed_keeps_presence(slots, meshes, n - 1, p);
        let before = after_meshed(slots, meshes, n - 1);
        let pos = meshes[n - 1].pos;
        moving_on_keeps_presence(before, pos, SlotState::Meshing, SlotState::Ready, p);
        moving_on_keeps_presence(
            moved_on(before, pos, SlotState::Meshing, SlotState::Ready),
            pos,
            SlotState::Stale,
            SlotState::PendingMesh,
            p,
        );
    }
}

/// A frame sorts the pipeline by range: what is in range stays, with its state; what is not is
/// reported as unloaded.
pub proof fn a_frame_sorts_by_range(slots: Seq<Slot>, bounds: StreamBounds, focus: ChunkPos)
    ensures
        forall|slot: Slot| #[trigger] kept(slots, bounds, focus).contains(slot) <==> slots.contains(slot)
            && bounds.covers(focus, slot.pos),
        forall|pos: ChunkPos| #[trigger] left_behind(slots, bounds, focus).contains(pos) <==> tracks(
            slots,
            pos,
        ) && !bounds.covers(focus, pos),
        kept(slots, bounds, focus).len() + left_behind(slots, bounds, focus).len() == slots.len(),
    decreases slots.len(),
{
    if slots.len() > 0 {
        let less = slots.drop_last();
        let last = slots.last();
        a_frame_sorts_by_range(less, bounds, focus);
        let near = kept(slots, bounds, focus);
        let gone = left_behind(slots, bounds, focus);
        assert(slots =~= less.push(last));
        assert forall|slot: Slot| #[trigger] near.contains(slot) <==> slots.contains(slot)
            && bounds.covers(focus, slot.pos) by {
            pushed_contains(less, last, slot);
            pushed_contains(kept(less, bounds, focus), last, slot);
            assert(kept(less, bounds, focus).contains(slot) <==> less.contains(slot) && bounds.covers(
                focus,
                slot.pos,
            ));
        }
        assert forall|pos: ChunkPos| #[trigger] gone.contains(pos) <==> tracks(slots, pos)
            && !bounds.covers(focus, pos) by {
            pushed_contains(left_behind(less, bounds, focus), last.pos, pos);
            assert(left_behind(less, bounds, focus).contains(pos) <==> tracks(less, pos)
                && !bounds.covers(focus, pos));
            if tracks(less, pos) {
                let i = choose|i: int| 0 <= i < less.len() && (#[trigger] less[i]).pos == pos;
                assert(slots[i].pos == pos);
            }
            if tracks(slots, pos) && pos != last.pos {
                let i = choose|i: int| 0 <= i < slots.len() && (#[trigger] slots[i]).pos == pos;
                assert(less[i].pos == pos);
            }
            if pos == last.pos {
                assert(slots[slots.len() - 1].pos == pos);
            }
        }
    }
}

proof fn unloading_keeps_step(
    slots: Seq<Slot>,
    world: Map<ChunkPos, Chunk>,
    bounds: StreamBounds,
    focus: ChunkPos,
)
    requires
        in_step(slots, world),
    ensures
        in_step(
            kept(slots, bounds, focus),
            world_without(world, left_behind(slots, bounds, focus)),
        ),
{
    a_frame_sorts_by_range(slots, bounds, focus);
    let near = kept(slots, bounds, focus);
    let gone = left_behind(slots, bounds, focus);
    let after = world_without(world, gone);
    assert forall|p: ChunkPos| #[trigger] after.contains_key(p) == is_past_generation(near, p) by {
        assert(world.contains_key(p) == is_past_generation(slots, p));
        assert(gone.contains(p) <==> tracks(slots, p) && !bounds.covers(focus, p));
        if is_past_generation(slots, p) {
            let i = choose|i: int|
                0 <= i < slots.len() && (#[trigger] slots[i]).pos == p && slots[i].state
                    != SlotState::Generating;
            assert(tracks(slots, p));
            if bounds.covers(focus, p) {
                assert(slots.contains(slots[i]));
                assert(near.contains(slots[i]));
                let j = choose|j: int| 0 <= j < near.len() && near[j] == slots[i];
                assert(near[j].pos == p);
            }
        }
        if is_past_generation(near, p) {
            let i = choose|i: int|
                0 <= i < near.len() && (#[trigger] near[i]).pos == p && near[i].state
                    != SlotState::Generating;
            assert(near.contains(near[i]));
            assert(slots.contains(near[i]));
            let j = choose|j: int| 0 <= j < slots.len() && slots[j] == near[i];
            assert(slots[j].pos == p);
        }
    }
}

proof fn requesting_keeps_presence(slots: Seq<Slot>, list: Seq<ChunkPos>, p: ChunkPos)
    ensures
        is_past_generation(with_requested(slots, list), p) == is_past_generation(slots, p),
{
    let after = with_requested(slots, list);
    if is_past_generation(slots, p) {
        let i = choose|i: int|
            0 <= i < slots.len() && (#[trigger] slots[i]).pos == p && slots[i].state
                != SlotState::Generating;
        assert(after[i] == slots[i]);
    }
    if is_past_generation(after, p) {
        let i = choose|i: int|
            0 <= i < after.len() && (#[trigger] after[i]).pos == p && after[i].state
                != SlotState::Generating;
        assert(i < slots.len());
        assert(after[i] == slots[i]);
    }
}

proof fn meshing_keeps_presence(
    slots: Seq<Slot>,
    world: Map<ChunkPos, Chunk>,
    bounds: StreamBounds,
    focus: ChunkPos,
    p: ChunkPos,
)
    ensures
        is_past_generation(with_meshing(slots, world, bounds, focus), p) == is_past_generation(slots, p),
{
    let after = with_meshing(slots, world, bounds, focus);
    if is_past_generation(slots, p) {
        let i = choose|i: int|
            0 <= i < slots.len() && (#[trigger] slots[i]).pos == p && slots[i].state
                != SlotState::Generating;
        assert(after[i].pos == p && after[i].state != SlotState::Generating);
    }
    if is_past_generation(after, p) {
        let i = choose|i: int|
            0 <= i < after.len() && (#[trigger] after[i]).pos == p && after[i].state
                != SlotState::Generating;
        assert(slots[i].pos == p && slots[i].state != SlotState::Generating);
    }
}

/// A frame keeps pipeline and world in step: the world holds exactly the chunks of the pipeline that
/// are past generation. A late result brings no chunk in, and none is left behind out of range.
pub proof fn a_frame_keeps_pipeline_and_world_in_step(
    world: Map<ChunkPos, Chunk>,
    slots: Seq<Slot>,
    bounds: StreamBounds,
    focus: ChunkPos,
    generated: Seq<Arc<Chunk>>,
    meshed: Seq<ChunkMesh>,
)
    requires
        in_step(slots, world),
    ensures
        in_step(
            slots_after_update(world, slots, bounds, focus, generated, meshed),
            world_after_update(world, slots, bounds, focus, generated, meshed),
        ),
{
    let n = generated.len() as int;
    let m = meshed.len() as int;
    generated_keeps_step(slots, world, generated, n);
    let entered = after_generated(slots, generated, n);
    let arrived = world_after_generated(world, slots, generated, n);
    let settled = slots_after_results(slots, generated, meshed);
    assert forall|p: ChunkPos| #[trigger] arrived.contains_key(p) == is_past_generation(settled, p) by {
        meshed_keeps_presence(entered, meshed, m, p);
    }
    unloading_keeps_step(settled, arrived, bounds, focus);
    let after = world_after_update(world, slots, bounds, focus, generated, meshed);
    let near = kept(settled, bounds, focus);
    let placed = slots_in_place(settled, bounds, focus);
    let done = slots_after_update(world, slots, bounds, focus, generated, meshed);
    assert forall|p: ChunkPos| #[trigger] after.contains_key(p) == is_past_generation(done, p) by {
        requesting_keeps_presence(near, to_request(near, bounds, focus), p);
        meshing_keeps_presence(placed, after, bounds, focus, p);
    }
}

/// Marking chunks as changed keeps pipeline and world in step.
pub proof fn marking_dirty_keeps_pipeline_and_world_in_step(
    slots: Seq<Slot>,
    world: Map<ChunkPos, Chunk>,
    dirty: Seq<ChunkPos>,
)
    requires
        in_step(slots, world),
    ensures
        in_step(with_dirty(slots, dirty), world),
{
    let after = with_dirty(slots, dirty);
    assert forall|p: ChunkPos| #[trigger] world.contains_key(p) == is_past_generation(after, p) by {
        assert(world.contains_key(p) == is_past_generation(slots, p));
        if is_past_generation(slots, p) {
            let i = choose|i: int|
                0 <= i < slots.len() && (#[trigger] slots[i]).pos == p && slots[i].state
                    != SlotState::Generating;
            assert(after[i].pos == p && after[i].state != SlotState::Generating);
        }
        if is_past_generation(after, p) {
            let i = choose|i: int|
                0 <= i < after.len() && (#[trigger] after[i]).pos == p && after[i].state
                    != SlotState::Generating;
            assert(slots[i].pos == p && slots[i].state != SlotState::Generating);
        }
    }
}

/// A chunk that changes while it is being meshed is meshed again: the result that is on its way is
/// not handed on, and the chunk goes back in line.
pub proof fn a_mesh_that_is_out_of_date_is_dropped(
    slots: Seq<Slot>,
    dirty: Seq<ChunkPos>,
    mesh: ChunkMesh,
)
    requires
        distinct(slots),
        is_in(slots, mesh.pos, SlotState::Meshing),
        dirty.contains(mesh.pos),
    ensures
        fresh_meshes(with_dirty(slots, dirty), seq![mesh], 1) == Seq::<ChunkMesh>::empty(),
        is_in(after_meshed(with_dirty(slots, dirty), seq![mesh], 1), mesh.pos, SlotState::PendingMesh),
{
    let marked = with_dirty(slots, dirty);
    let pos = mesh.pos;
    let i = choose|i: int|
        0 <= i < slots.len() && #[trigger] slots[i] == (Slot { pos, state: SlotState::Meshing });
    assert(marked[i] == (Slot { pos, state: SlotState::Stale }));
    reveal_with_fuel(fresh_meshes, 2);
    reveal_with_fuel(after_meshed, 2);
    let meshes = seq![mesh];
    if is_in(marked, pos, SlotState::Meshing) {
        let j = choose|j: int|
            0 <= j < marked.len() && #[trigger] marked[j] == (Slot { pos, state: SlotState::Meshing });
        assert(slots[j].pos == slots[i].pos);
    }
    let after = after_meshed(marked, meshes, 1);
    assert(after[i] == (Slot { pos, state: SlotState::PendingMesh }));
}

/// A chunk that did not change while it was being meshed is done when its mesh comes in, and the
/// mesh is handed on.
pub proof fn a_mesh_that_is_up_to_date_is_handed_on(slots: Seq<Slot>, mesh: ChunkMesh)
    requires
        is_in(slots, mesh.pos, SlotState::Meshing),
    ensures
        fresh_meshes(slots, seq![mesh], 1) == seq![mesh],
        is_in(after_meshed(slots, seq![mesh], 1), mesh.pos, SlotState::Ready),
{
    let pos = mesh.pos;
    let i = choose|i: int|
        0 <= i < slots.len() && #[trigger] slots[i] == (Slot { pos, state: SlotState::Meshing });
    reveal_with_fuel(fresh_meshes, 2);
    reveal_with_fuel(after_meshed, 2);
    assert(fresh_meshes(slots, seq![mesh], 1) =~= seq![mesh]);
    assert(after_meshed(slots, seq![mesh], 1)[i] == (Slot { pos, state: SlotState::Ready }));
}

/// Every chunk in range that is not in the pipeline is missing.
pub proof fn what_is_not_there_is_missing(
    slots: Seq<Slot>,
    bounds: StreamBounds,
    focus: ChunkPos,
    pos: ChunkPos,
)
    requires
        bounds.fits(focus),
        bounds.covers(focus, pos),
        !tracks(slots, pos),
    ensures
        missing(slots, bounds, focus).contains(pos),
{
    scan_reaches(
        slots,
        bounds,
        focus,
        focus.x - bounds.radius,
        bounds.min_y as int,
        focus.z - bounds.radius,
        pos,
    );
}

proof fn scan_reaches(
    slots: Seq<Slot>,
    bounds: StreamBounds,
    focus: ChunkPos,
    x: int,
    y: int,
    z: int,
    pos: ChunkPos,
)
    requires
        bounds.fits(focus),
        bounds.covers(focus, pos),
        !tracks(slots, pos),
        focus.x - bounds.radius <= x,
        bounds.min_y <= y,
        focus.z - bounds.radius <= z,
        y < pos.y || (y == pos.y && (z < pos.z || (z == pos.z && x <= pos.x))),
    ensures
        missing_from(slots, bounds, focus, x, y, z).contains(pos),
    decreases
            bounds.max_y + 1 - y,
            focus.z + bounds.radius + 1 - z,
            focus.x + bounds.radius + 1 - x,
{
    let x0 = focus.x - bounds.radius;
    let z0 = focus.z - bounds.radius;
    if z > focus.z + bounds.radius {
        scan_reaches(slots, bounds, focus, x0, y + 1, z0, pos);
    } else if x > focus.x + bounds.radius {
        scan_reaches(slots, bounds, focus, x0, y, z + 1, pos);
    } else {
        let here = ChunkPos { x: x as i32, y: y as i32, z: z as i32 };
        let rest = missing_from(slots, bounds, focus, x + 1, y, z);
        let all = missing_from(slots, bounds, focus, x, y, z);
        if here == pos {
            assert(all[0] == pos);
        } else {
            scan_reaches(slots, bounds, focus, x + 1, y, z, pos);
            let i = choose|i: int| 0 <= i < rest.len() && rest[i] == pos;
            if !tracks(slots, here) {
                assert(all[i + 1] == pos);
            } else {
                assert(all[i] == pos);
            }
        }
    }
}

/// A pipeline that is complete rests: where every chunk in range is there and done, a frame without
/// results changes nothing and asks for nothing.
pub proof fn a_complete_pipeline_rests(
    world: Map<ChunkPos, Chunk>,
    slots: Seq<Slot>,
    bounds: StreamBounds,
    focus: ChunkPos,
)
    requires
        all_in_range(slots, bounds, focus),
        missing(slots, bounds, focus).len() == 0,
        forall|i: int| 0 <= i < slots.len() ==> (#[trigger] slots[i]).state == SlotState::Ready,
    ensures
        ({
            let none = Seq::<Arc<Chunk>>::empty();
            let no_mesh = Seq::<ChunkMesh>::empty();
            &&& slots_after_update(world, slots, bounds, focus, none, no_mesh) == slots
            &&& world_after_update(world, slots, bounds, focus, none, no_mesh) == world
            &&& left_behind(slots, bounds, focus) == Seq::<ChunkPos>::empty()
            &&& to_cancel(slots, bounds, focus) == Seq::<ChunkPos>::empty()
            &&& to_request(slots, bounds, focus) == Seq::<ChunkPos>::empty()
            &&& to_mesh(slots, world, bounds, focus, slots.len() as int) == Seq::<ChunkPos>::empty()
        }),
{
    let none = Seq::<Arc<Chunk>>::empty();
    let no_mesh = Seq::<ChunkMesh>::empty();
    all_stay(slots, bounds, focus);
    assert(slots_after_results(slots, none, no_mesh) == slots);
    assert(to_request(slots, bounds, focus) =~= Seq::<ChunkPos>::empty());
    assert(with_requested(slots, to_request(slots, bounds, focus)) =~= slots);
    let after = world_after_update(world, slots, bounds, focus, none, no_mesh);
    assert(after =~= world);
    assert(with_meshing(slots, world, bounds, focus) =~= slots);
    nothing_to_mesh(slots, world, bounds, focus, slots.len() as int);
}

pub(crate) proof fn all_stay(slots: Seq<Slot>, bounds: StreamBounds, focus: ChunkPos)
    requires
        all_in_range(slots, bounds, focus),
    ensures
        kept(slots, bounds, focus) == slots,
        left_behind(slots, bounds, focus) == Seq::<ChunkPos>::empty(),
        to_cancel(slots, bounds, focus) == Seq::<ChunkPos>::empty(),
    decreases slots.len(),
{
    if slots.len() > 0 {
        let less = slots.drop_last();
        assert forall|i: int| 0 <= i < less.len() implies bounds.covers(focus, (#[trigger] less[i]).pos) by {
            assert(less[i] == slots[i]);
        }
        all_stay(less, bounds, focus);
        assert(bounds.covers(focus, slots[slots.len() - 1].pos));
        assert(less.push(slots.last()) =~= slots);
    } else {
        assert(kept(slots, bounds, focus) =~= slots);
    }
}

proof fn nothing_to_mesh(
    slots: Seq<Slot>,
    world: Map<ChunkPos, Chunk>,
    bounds: StreamBounds,
    focus: ChunkPos,
    n: int,
)
    requires
        0 <= n <= slots.len(),
        forall|i: int| 0 <= i < slots.len() ==> (#[trigger] slots[i]).state == SlotState::Ready,
    ensures
        to_mesh(slots, world, bounds, focus, n) == Seq::<ChunkPos>::empty(),
    decreases n,
{
    if n > 0 {
        nothing_to_mesh(slots, world, bounds, focus, n - 1);
        assert(slots[n - 1].state == SlotState::Ready);
    }
}

/// Whether the chunk next to `pos`, at these offsets, is in the world, or out of range so that none will
/// come.
pub open spec fn settled_at(
    world: Map<ChunkPos, Chunk>,
    bounds: StreamBounds,
    focus: ChunkPos,
    pos: ChunkPos,
    dx: int,
    dy: int,
    dz: int,
) -> bool {
    let next = ChunkPos { x: (pos.x + dx) as i32, y: (pos.y + dy) as i32, z: (pos.z + dz) as i32 };
    world.contains_key(next) || !bounds.covers(focus, next)
}

/// Whether the six chunks across the faces of the one at `pos` are settled.
pub open spec fn all_around_settled(
    world: Map<ChunkPos, Chunk>,
    bounds: StreamBounds,
    focus: ChunkPos,
    pos: ChunkPos,
) -> bool {
    &&& settled_at(world, bounds, focus, pos, 1, 0, 0)
    &&& settled_at(world, bounds, focus, pos, -1, 0, 0)
    &&& settled_at(world, bounds, focus, pos, 0, 1, 0)
    &&& settled_at(world, bounds, focus, pos, 0, -1, 0)
    &&& settled_at(world, bounds, focus, pos, 0, 0, 1)
    &&& settled_at(world, bounds, focus, pos, 0, 0, -1)
}

/// Meshing waits for the chunks around: of the first `n` slots, exactly those are meshed that wait for it,
/// are in the world, and have every one of the six chunks across their faces in the world or out of range.
pub proof fn meshing_waits_for_the_neighbors(
    slots: Seq<Slot>,
    world: Map<ChunkPos, Chunk>,
    bounds: StreamBounds,
    focus: ChunkPos,
    n: int,
    pos: ChunkPos,
)
    requires
        0 <= n <= slots.len(),
    ensures
        to_mesh(slots, world, bounds, focus, n).contains(pos) <==> {
            &&& exists|i: int|
                0 <= i < n && #[trigger] slots[i] == (Slot { pos, state: SlotState::PendingMesh })
            &&& world.contains_key(pos)
            &&& all_around_settled(world, bounds, focus, pos)
        },
    decreases n,
{
    let list = to_mesh(slots, world, bounds, focus, n);
    if n > 0 {
        meshing_waits_for_the_neighbors(slots, world, bounds, focus, n - 1, pos);
        let before = to_mesh(slots, world, bounds, focus, n - 1);
        let slot = slots[n - 1];
        settled_all_around(world, bounds, focus, slot.pos);
        if can_mesh(world, bounds, focus, slot) {
            assert(list == before.push(slot.pos));
            pushed_contains(before, slot.pos, pos);
            if slot.pos == pos {
                assert(slots[n - 1] == (Slot { pos, state: SlotState::PendingMesh }));
            }
        }
        if exists|i: int| 0 <= i < n && #[trigger] slots[i] == (Slot { pos, state: SlotState::PendingMesh }) {
            let i = choose|i: int|
                0 <= i < n && #[trigger] slots[i] == (Slot { pos, state: SlotState::PendingMesh });
            if i < n - 1 {
                assert(slots[i] == (Slot { pos, state: SlotState::PendingMesh }));
            }
        }
    }
}

proof fn settled_all_around(
    world: Map<ChunkPos, Chunk>,
    bounds: StreamBounds,
    focus: ChunkPos,
    pos: ChunkPos,
)
    ensures
        neighbors_in_place(world, bounds, focus, pos) == all_around_settled(world, bounds, focus, pos),
{
    let at = |i: int| World::across(pos, Face::nth(i));
    assert(at(0) == ChunkPos { x: (pos.x + 1) as i32, y: (pos.y + 0) as i32, z: (pos.z + 0) as i32 });
    assert(at(1) == ChunkPos { x: (pos.x + -1) as i32, y: (pos.y + 0) as i32, z: (pos.z + 0) as i32 });
    assert(at(2) == ChunkPos { x: (pos.x + 0) as i32, y: (pos.y + 1) as i32, z: (pos.z + 0) as i32 });
    assert(at(3) == ChunkPos { x: (pos.x + 0) as i32, y: (pos.y + -1) as i32, z: (pos.z + 0) as i32 });
    assert(at(4) == ChunkPos { x: (pos.x + 0) as i32, y: (pos.y + 0) as i32, z: (pos.z + 1) as i32 });
    assert(at(5) == ChunkPos { x: (pos.x + 0) as i32, y: (pos.y + 0) as i32, z: (pos.z + -1) as i32 });
    if neighbors_in_place(world, bounds, focus, pos) {
        let _ = (Face::nth(0), Face::nth(1), Face::nth(2), Face::nth(3), Face::nth(4), Face::nth(5));
        assert(world.contains_key(at(0)) || !bounds.covers(focus, at(0)));
        assert(world.contains_key(at(1)) || !bounds.covers(focus, at(1)));
        assert(world.contains_key(at(2)) || !bounds.covers(focus, at(2)));
        assert(world.contains_key(at(3)) || !bounds.covers(focus, at(3)));
        assert(world.contains_key(at(4)) || !bounds.covers(focus, at(4)));
        assert(world.contains_key(at(5)) || !bounds.covers(focus, at(5)));
    }
    if all_around_settled(world, bounds, focus, pos) {
        assert forall|i: int| 0 <= i < 6 implies {
            let neighbor = World::across(pos, #[trigger] Face::nth(i));
            world.contains_key(neighbor) || !bounds.covers(focus, neighbor)
        } by {
            assert(at(i) == World::across(pos, Face::nth(i)));
        }
    }
}

/// What is cancelled is exactly what is out of range and still being worked on.
pub proof fn running_jobs_out_of_range_are_cancelled(
    slots: Seq<Slot>,
    bounds: StreamBounds,
    focus: ChunkPos,
    pos: ChunkPos,
)
    ensures
        to_cancel(slots, bounds, focus).contains(pos) <==> exists|i: int|
            0 <= i < slots.len() && (#[trigger] slots[i]).pos == pos && !bounds.covers(focus, pos) && (
            slots[i].state == SlotState::Generating || slots[i].state == SlotState::Meshing || slots[i].state
                == SlotState::Stale),
    decreases slots.len(),
{
    if slots.len() > 0 {
        let rest = slots.drop_last();
        let last = slots.last();
        let n = slots.len() - 1;
        running_jobs_out_of_range_are_cancelled(rest, bounds, focus, pos);
        let before = to_cancel(rest, bounds, focus);
        pushed_contains(before, last.pos, pos);
        let hit = |s: Slot|
            s.pos == pos && !bounds.covers(focus, pos) && (s.state == SlotState::Generating || s.state
                == SlotState::Meshing || s.state == SlotState::Stale);
        if before.contains(pos) {
            let i = choose|i: int| 0 <= i < rest.len() && (#[trigger] rest[i]).pos == pos && hit(rest[i]);
            assert(slots[i] == rest[i]);
        }
        if hit(last) {
            assert(slots[n] == last);
        }
        if exists|i: int| 0 <= i < slots.len() && hit(#[trigger] slots[i]) {
            let i = choose|i: int| 0 <= i < slots.len() && hit(#[trigger] slots[i]);
            if i < n {
                assert(rest[i] == slots[i]);
            }
        }
    }
}

/// A chunk is in range if it is no farther from the focus than the radius along both horizontal axes, either
/// way, and within the layers; how high the focus is does not matter.
pub proof fn the_range_is_a_square_column(bounds: StreamBounds, focus: ChunkPos, other: ChunkPos, pos: ChunkPos)
    requires
        other.x == focus.x && other.z == focus.z,
    ensures
        bounds.covers(focus, pos) <==> {
            &&& -bounds.radius <= pos.x - focus.x <= bounds.radius
            &&& -bounds.radius <= pos.z - focus.z <= bounds.radius
            &&& bounds.min_y <= pos.y <= bounds.max_y
        },
        bounds.covers(focus, pos) == bounds.covers(other, pos),
{
}

/// Distances are straight: along one axis the distance is the square of the difference, whichever way, and
/// those along the axes add up.
pub proof fn distances_add_up_along_the_axes(a: ChunkPos, b: ChunkPos)
    ensures
        ({
            let across = ChunkPos { x: b.x, ..a };
            let up = ChunkPos { y: b.y, ..across };
            &&& distance_sq(a, across) == (b.x - a.x) * (b.x - a.x)
            &&& distance_sq(across, up) == (b.y - a.y) * (b.y - a.y)
            &&& distance_sq(up, b) == (b.z - a.z) * (b.z - a.z)
            &&& distance_sq(a, b) == distance_sq(a, across) + distance_sq(across, up) + distance_sq(up, b)
            &&& distance_sq(a, b) == distance_sq(b, a)
        }),
{
    let (x, y, z) = (a.x - b.x, a.y - b.y, a.z - b.z);
    assert(x * x == (b.x - a.x) * (b.x - a.x)) by (nonlinear_arith)
        requires
            x == a.x - b.x,
    ;
    assert(y * y == (b.y - a.y) * (b.y - a.y)) by (nonlinear_arith)
        requires
            y == a.y - b.y,
    ;
    assert(z * z == (b.z - a.z) * (b.z - a.z)) by (nonlinear_arith)
        requires
            z == a.z - b.z,
    ;
}

/// A chunk that has changed is meshed again: one that was ready waits for it, the mesh of one that is being meshed
/// will be out of date, and one that waits, or is not there yet, stays as it is. No other chunk is affected.
pub proof fn a_changed_chunk_is_meshed_again(slots: Seq<Slot>, dirty: Seq<ChunkPos>, i: int)
    requires
        0 <= i < slots.len(),
    ensures
        with_dirty(slots, dirty).len() == slots.len(),
        with_dirty(slots, dirty)[i].pos == slots[i].pos,
        !dirty.contains(slots[i].pos) ==> with_dirty(slots, dirty)[i] == slots[i],
        dirty.contains(slots[i].pos) && slots[i].state == SlotState::Ready ==> with_dirty(slots, dirty)[i].state
            == SlotState::PendingMesh,
        dirty.contains(slots[i].pos) && slots[i].state == SlotState::Meshing ==> with_dirty(slots, dirty)[i].state
            == SlotState::Stale,
        slots[i].state == SlotState::Generating || slots[i].state == SlotState::PendingMesh || slots[i].state
            == SlotState::Stale ==> with_dirty(slots, dirty)[i] == slots[i],
{
}

/// A generated chunk that is waited for comes into the world as it is and waits for its mesh; one that nobody
/// waits for changes nothing, so what was done to a chunk in the meantime is not undone.
pub proof fn a_generated_chunk_comes_in_if_it_is_waited_for(
    world: Map<ChunkPos, Chunk>,
    slots: Seq<Slot>,
    chunk: Arc<Chunk>,
    other: ChunkPos,
)
    ensures
        ({
            let came = seq![chunk];
            let pos = chunk.at();
            let after = world_after_generated(world, slots, came, 1);
            let moved = after_generated(slots, came, 1);
            &&& is_in(slots, pos, SlotState::Generating) ==> after.contains_key(pos) && after[pos] == *chunk && is_in(
                moved,
                pos,
                SlotState::PendingMesh,
            )
            &&& !is_in(slots, pos, SlotState::Generating) ==> after == world && moved == slots
            &&& other != pos ==> after.contains_key(other) == world.contains_key(other) && (world.contains_key(other)
                ==> after[other] == world[other])
        }),
{
    let came = seq![chunk];
    let pos = chunk.at();
    assert(after_generated(slots, came, 0) == slots);
    assert(world_after_generated(world, slots, came, 0) == world);
    let moved = after_generated(slots, came, 1);
    assert(moved == moved_on(slots, pos, SlotState::Generating, SlotState::PendingMesh));
    if is_in(slots, pos, SlotState::Generating) {
        let i = choose|i: int|
            0 <= i < slots.len() && #[trigger] slots[i] == (Slot { pos, state: SlotState::Generating });
        assert(moved[i] == (Slot { pos, state: SlotState::PendingMesh }));
    } else {
        assert forall|i: int| 0 <= i < slots.len() implies moved[i] == slots[i] by {
            if slots[i].pos == pos && slots[i].state == SlotState::Generating {
                assert(slots[i] == (Slot { pos, state: SlotState::Generating }));
            }
        }
        assert(moved =~= slots);
    }
}

/// What is requested is in the pipeline from then on, being generated, behind what was there.
pub proof fn what_is_requested_is_being_generated(slots: Seq<Slot>, list: Seq<ChunkPos>, i: int)
    ensures
        with_requested(slots, list).len() == slots.len() + list.len(),
        0 <= i < slots.len() ==> with_requested(slots, list)[i] == slots[i],
        0 <= i < list.len() ==> with_requested(slots, list)[slots.len() + i] == (Slot {
            pos: list[i],
            state: SlotState::Generating,
        }),
{
}

/// The chunks that are handed out to be meshed are the ones that are being meshed from then on; all others stay as
/// they are.
pub proof fn what_is_handed_out_is_being_meshed(
    slots: Seq<Slot>,
    world: Map<ChunkPos, Chunk>,
    bounds: StreamBounds,
    focus: ChunkPos,
    i: int,
)
    requires
        distinct(slots),
        0 <= i < slots.len(),
    ensures
        ({
            let handed = to_mesh(slots, world, bounds, focus, slots.len() as int).contains(slots[i].pos);
            let after = with_meshing(slots, world, bounds, focus);
            &&& after.len() == slots.len()
            &&& handed ==> slots[i].state == SlotState::PendingMesh && after[i] == (Slot {
                pos: slots[i].pos,
                state: SlotState::Meshing,
            })
            &&& !handed ==> after[i] == slots[i]
        }),
{
    let pos = slots[i].pos;
    meshing_waits_for_the_neighbors(slots, world, bounds, focus, slots.len() as int, pos);
    settled_all_around(world, bounds, focus, pos);
    if to_mesh(slots, world, bounds, focus, slots.len() as int).contains(pos) {
        let k = choose|k: int|
            0 <= k < slots.len() && #[trigger] slots[k] == (Slot { pos, state: SlotState::PendingMesh });
        assert(slots[k].pos == slots[i].pos);
        assert(k == i);
    } else if can_mesh(world, bounds, focus, slots[i]) {
        assert(slots[i] == (Slot { pos, state: SlotState::PendingMesh }));
    }
}

} // verus!
