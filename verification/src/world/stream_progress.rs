//! How the streaming pipeline comes to rest.

use crate::meshing::ChunkMesh;
use crate::world::block::Face;
use crate::world::chunk::{Chunk, ChunkPos};
use crate::world::stream::{
    after_generated, after_meshed, all_in_range, apart, by_distance, can_mesh, distinct, kept,
    missing, place_for, requests_are_new_and_in_range, slots_after_results, slots_after_update,
    slots_in_place, to_request, tracks, world_after_update, Slot, SlotState, StreamBounds,
};
use crate::world::stream_laws::{
    a_frame_keeps_pipeline_and_world_in_step, a_frame_sorts_by_range, all_stay, in_step,
    is_past_generation, what_is_not_there_is_missing,
};
use crate::world::World;
use std::sync::Arc;
use vstd::prelude::*;

verus! {

/// How many steps a chunk in this state has to go at most.
pub open spec fn steps_left(state: SlotState) -> int {
    match state {
        SlotState::Generating => 4,
        SlotState::Stale => 3,
        SlotState::PendingMesh => 2,
        SlotState::Meshing => 1,
        SlotState::Ready => 0,
    }
}

/// How many steps the first `n` chunks of the pipeline have to go at most.
pub open spec fn steps_of(slots: Seq<Slot>, n: int) -> int
    decreases n,
{
    if n <= 0 {
        0
    } else {
        steps_of(slots, n - 1) + steps_left(slots[n - 1].state)
    }
}

/// How many steps are left until every chunk in range is there and done: one more for each that is
/// not in the pipeline yet.
pub open spec fn work_left(slots: Seq<Slot>, bounds: StreamBounds) -> int {
    5 * (bounds.volume() - slots.len()) + steps_of(slots, slots.len() as int)
}

/// Whether every chunk in range is there and done.
pub open spec fn is_complete(slots: Seq<Slot>, bounds: StreamBounds, focus: ChunkPos) -> bool {
    &&& missing(slots, bounds, focus).len() == 0
    &&& forall|i: int| 0 <= i < slots.len() ==> (#[trigger] slots[i]).state == SlotState::Ready
}

/// Whether a chunk has come in for the position.
pub open spec fn came_in(generated: Seq<Arc<Chunk>>, n: int, pos: ChunkPos) -> bool {
    exists|g: int| 0 <= g < n && (#[trigger] generated[g]).at() == pos
}

/// Whether a mesh has come in for the position.
pub open spec fn was_meshed(meshed: Seq<ChunkMesh>, n: int, pos: ChunkPos) -> bool {
    exists|m: int| 0 <= m < n && (#[trigger] meshed[m]).pos == pos
}

/// Whether every job that runs for the pipeline has delivered.
pub open spec fn all_delivered(
    slots: Seq<Slot>,
    generated: Seq<Arc<Chunk>>,
    meshed: Seq<ChunkMesh>,
) -> bool {
    forall|i: int|
        0 <= i < slots.len() ==> match (#[trigger] slots[i]).state {
            SlotState::Generating => came_in(generated, generated.len() as int, slots[i].pos),
            SlotState::Meshing | SlotState::Stale => was_meshed(meshed, meshed.len() as int, slots[i].pos),
            _ => true,
        }
}

/// Where a chunk stands once a generated chunk has come in for it, or not.
spec fn entered(slot: Slot, arrived: bool) -> Slot {
    if slot.state == SlotState::Generating && arrived {
        Slot { pos: slot.pos, state: SlotState::PendingMesh }
    } else {
        slot
    }
}

/// Where a chunk stands once a mesh has come in for it, or not.
spec fn finished(slot: Slot, arrived: bool) -> Slot {
    if slot.state == SlotState::Meshing && arrived {
        Slot { pos: slot.pos, state: SlotState::Ready }
    } else if slot.state == SlotState::Stale && arrived {
        Slot { pos: slot.pos, state: SlotState::PendingMesh }
    } else {
        slot
    }
}

proof fn generated_by_slot(slots: Seq<Slot>, chunks: Seq<Arc<Chunk>>, n: int)
    requires
        0 <= n <= chunks.len(),
    ensures
        after_generated(slots, chunks, n).len() == slots.len(),
        forall|i: int|
            0 <= i < slots.len() ==> #[trigger] after_generated(slots, chunks, n)[i] == entered(
                slots[i],
                came_in(chunks, n, slots[i].pos),
            ),
    decreases n,
{
    if n > 0 {
        generated_by_slot(slots, chunks, n - 1);
        let before = after_generated(slots, chunks, n - 1);
        let after = after_generated(slots, chunks, n);
        assert forall|i: int| 0 <= i < slots.len() implies #[trigger] after[i] == entered(
            slots[i],
            came_in(chunks, n, slots[i].pos),
        ) by {
            assert(before[i] == entered(slots[i], came_in(chunks, n - 1, slots[i].pos)));
            if came_in(chunks, n, slots[i].pos) && chunks[n - 1].at() != slots[i].pos {
                let g = choose|g: int| 0 <= g < n && (#[trigger] chunks[g]).at() == slots[i].pos;
                assert(chunks[g].at() == slots[i].pos);
            }
        }
    }
}

proof fn meshed_by_slot(slots: Seq<Slot>, meshes: Seq<ChunkMesh>, n: int)
    requires
        0 <= n <= meshes.len(),
    ensures
        after_meshed(slots, meshes, n).len() == slots.len(),
        forall|i: int|
            0 <= i < slots.len() ==> #[trigger] after_meshed(slots, meshes, n)[i] == finished(
                slots[i],
                was_meshed(meshes, n, slots[i].pos),
            ),
    decreases n,
{
    if n > 0 {
        meshed_by_slot(slots, meshes, n - 1);
        let before = after_meshed(slots, meshes, n - 1);
        let after = after_meshed(slots, meshes, n);
        assert forall|i: int| 0 <= i < slots.len() implies #[trigger] after[i] == finished(
            slots[i],
            was_meshed(meshes, n, slots[i].pos),
        ) by {
            assert(before[i] == finished(slots[i], was_meshed(meshes, n - 1, slots[i].pos)));
            if was_meshed(meshes, n, slots[i].pos) && meshes[n - 1].pos != slots[i].pos {
                let m = choose|m: int| 0 <= m < n && (#[trigger] meshes[m]).pos == slots[i].pos;
                assert(meshes[m].pos == slots[i].pos);
            }
        }
    }
}

/// Where each chunk stands once the results are in.
proof fn results_by_slot(slots: Seq<Slot>, generated: Seq<Arc<Chunk>>, meshed: Seq<ChunkMesh>)
    ensures
        slots_after_results(slots, generated, meshed).len() == slots.len(),
        forall|i: int|
            0 <= i < slots.len() ==> #[trigger] slots_after_results(slots, generated, meshed)[i]
                == finished(
                entered(slots[i], came_in(generated, generated.len() as int, slots[i].pos)),
                was_meshed(meshed, meshed.len() as int, slots[i].pos),
            ),
{
    let g = generated.len() as int;
    let m = meshed.len() as int;
    generated_by_slot(slots, generated, g);
    let middle = after_generated(slots, generated, g);
    meshed_by_slot(middle, meshed, m);
    let after = slots_after_results(slots, generated, meshed);
    assert forall|i: int| 0 <= i < slots.len() implies #[trigger] after[i] == finished(
        entered(slots[i], came_in(generated, g, slots[i].pos)),
        was_meshed(meshed, m, slots[i].pos),
    ) by {
        assert(middle[i] == entered(slots[i], came_in(generated, g, slots[i].pos)));
        assert(after[i] == finished(middle[i], was_meshed(meshed, m, middle[i].pos)));
    }
}

/// In a frame that leaves no chunk behind, the chunks of the pipeline keep their places, and the new
/// ones stand behind them.
proof fn frame_by_slot(
    world: Map<ChunkPos, Chunk>,
    slots: Seq<Slot>,
    bounds: StreamBounds,
    focus: ChunkPos,
    generated: Seq<Arc<Chunk>>,
    meshed: Seq<ChunkMesh>,
)
    requires
        all_in_range(slots, bounds, focus),
    ensures
        ({
            let settled = slots_after_results(slots, generated, meshed);
            let new = to_request(settled, bounds, focus);
            let around = world_after_update(world, slots, bounds, focus, generated, meshed);
            let after = slots_after_update(world, slots, bounds, focus, generated, meshed);
            &&& after.len() == slots.len() + new.len()
            &&& forall|i: int|
                0 <= i < slots.len() ==> #[trigger] after[i] == (if can_mesh(
                    around,
                    bounds,
                    focus,
                    settled[i],
                ) {
                    Slot { pos: settled[i].pos, state: SlotState::Meshing }
                } else {
                    settled[i]
                })
            &&& forall|i: int|
                slots.len() <= i < after.len() ==> #[trigger] after[i] == (Slot {
                    pos: new[i - slots.len()],
                    state: SlotState::Generating,
                })
        }),
{
    results_by_slot(slots, generated, meshed);
    let settled = slots_after_results(slots, generated, meshed);
    assert forall|i: int| 0 <= i < settled.len() implies bounds.covers(focus, (#[trigger] settled[i]).pos) by {
        assert(settled[i].pos == slots[i].pos);
        assert(bounds.covers(focus, slots[i].pos));
    }
    all_stay(settled, bounds, focus);
}

/// A chunk that is done stays done: while it is in range and nobody marks it, no frame moves it back,
/// whatever results come in.
pub proof fn a_done_chunk_stays_done(
    world: Map<ChunkPos, Chunk>,
    slots: Seq<Slot>,
    bounds: StreamBounds,
    focus: ChunkPos,
    generated: Seq<Arc<Chunk>>,
    meshed: Seq<ChunkMesh>,
    i: int,
)
    requires
        0 <= i < slots.len(),
        slots[i].state == SlotState::Ready,
        bounds.covers(focus, slots[i].pos),
    ensures
        slots_after_update(world, slots, bounds, focus, generated, meshed).contains(slots[i]),
{
    results_by_slot(slots, generated, meshed);
    let settled = slots_after_results(slots, generated, meshed);
    assert(settled[i] == slots[i]);
    assert(settled.contains(slots[i]));
    a_frame_sorts_by_range(settled, bounds, focus);
    let near = kept(settled, bounds, focus);
    assert(near.contains(slots[i]));
    let j = choose|j: int| 0 <= j < near.len() && near[j] == slots[i];
    let placed = slots_in_place(settled, bounds, focus);
    assert(placed[j] == near[j]);
    let after = slots_after_update(world, slots, bounds, focus, generated, meshed);
    assert(after[j] == slots[i]);
}

proof fn fewer_steps(a: Seq<Slot>, b: Seq<Slot>, n: int, at: int)
    requires
        0 <= n <= a.len(),
        n <= b.len(),
        forall|i: int| #![trigger a[i]] 0 <= i < n ==> steps_left(a[i].state) <= steps_left(b[i].state),
        0 <= at < n ==> steps_left(a[at].state) < steps_left(b[at].state),
    ensures
        steps_of(a, n) <= steps_of(b, n),
        0 <= at < n ==> steps_of(a, n) < steps_of(b, n),
    decreases n,
{
    if n > 0 {
        fewer_steps(a, b, n - 1, at);
        assert(steps_left(a[n - 1].state) <= steps_left(b[n - 1].state));
    }
}

proof fn new_steps(slots: Seq<Slot>, from: int, n: int)
    requires
        0 <= from <= n <= slots.len(),
        forall|i: int| from <= i < n ==> (#[trigger] slots[i]).state == SlotState::Generating,
    ensures
        steps_of(slots, n) == steps_of(slots, from) + 4 * (n - from),
    decreases n,
{
    if n > from {
        new_steps(slots, from, n - 1);
        assert(slots[n - 1].state == SlotState::Generating);
    }
}

proof fn steps_are_not_negative(slots: Seq<Slot>, n: int)
    ensures
        0 <= steps_of(slots, n),
    decreases n,
{
    if n > 0 {
        steps_are_not_negative(slots, n - 1);
    }
}

/// Something is requested where something is missing.
proof fn a_gap_is_requested(slots: Seq<Slot>, bounds: StreamBounds, focus: ChunkPos)
    ensures
        to_request(slots, bounds, focus).len() == 0 ==> missing(slots, bounds, focus).len() == 0,
{
    let gaps = missing(slots, bounds, focus);
    requested_len(focus, gaps, gaps.len() as int);
}

pub(crate) proof fn requested_len(focus: ChunkPos, list: Seq<ChunkPos>, n: int)
    requires
        0 <= n <= list.len(),
    ensures
        by_distance(focus, list, n).len() == n,
    decreases n,
{
    if n > 0 {
        requested_len(focus, list, n - 1);
        place_fits(focus, by_distance(focus, list, n - 1), list[n - 1]);
    }
}

proof fn place_fits(focus: ChunkPos, sorted: Seq<ChunkPos>, pos: ChunkPos)
    ensures
        0 <= place_for(focus, sorted, pos) <= sorted.len(),
    decreases sorted.len(),
{
    if sorted.len() > 0 {
        place_fits(focus, sorted.drop_last(), pos);
    }
}

/// In a pipeline without gaps and with nothing under way, a chunk that waits to be meshed can be.
proof fn what_waits_can_be_meshed(
    world: Map<ChunkPos, Chunk>,
    slots: Seq<Slot>,
    bounds: StreamBounds,
    focus: ChunkPos,
    i: int,
)
    requires
        bounds.fits(focus),
        in_step(slots, world),
        missing(slots, bounds, focus).len() == 0,
        forall|j: int| 0 <= j < slots.len() ==> (#[trigger] slots[j]).state != SlotState::Generating,
        0 <= i < slots.len(),
        slots[i].state == SlotState::PendingMesh,
    ensures
        can_mesh(world, bounds, focus, slots[i]),
{
    let pos = slots[i].pos;
    assert(is_past_generation(slots, pos));
    assert(world.contains_key(pos));
    assert forall|f: int| 0 <= f < 6 implies {
        let neighbor = World::across(pos, #[trigger] Face::nth(f));
        world.contains_key(neighbor) || !bounds.covers(focus, neighbor)
    } by {
        let neighbor = World::across(pos, Face::nth(f));
        if bounds.covers(focus, neighbor) {
            if !tracks(slots, neighbor) {
                what_is_not_there_is_missing(slots, bounds, focus, neighbor);
            }
            let j = choose|j: int| 0 <= j < slots.len() && (#[trigger] slots[j]).pos == neighbor;
            assert(slots[j].state != SlotState::Generating);
            assert(is_past_generation(slots, neighbor));
            assert(world.contains_key(neighbor));
        }
    }
}

/// Every frame in which all running jobs deliver brings the pipeline nearer to its end, until every
/// chunk in range is there and done. No chunk ever waits for good.
pub proof fn a_frame_makes_progress(
    world: Map<ChunkPos, Chunk>,
    slots: Seq<Slot>,
    bounds: StreamBounds,
    focus: ChunkPos,
    generated: Seq<Arc<Chunk>>,
    meshed: Seq<ChunkMesh>,
)
    requires
        bounds.fits(focus),
        all_in_range(slots, bounds, focus),
        in_step(slots, world),
        all_delivered(slots, generated, meshed),
        !is_complete(slots, bounds, focus),
    ensures
        work_left(slots_after_update(world, slots, bounds, focus, generated, meshed), bounds)
            < work_left(slots, bounds),
{
    let settled = slots_after_results(slots, generated, meshed);
    let around = world_after_update(world, slots, bounds, focus, generated, meshed);
    let after = slots_after_update(world, slots, bounds, focus, generated, meshed);
    let n = slots.len() as int;
    results_by_slot(slots, generated, meshed);
    frame_by_slot(world, slots, bounds, focus, generated, meshed);
    assert forall|i: int| #![trigger after[i]] 0 <= i < n implies steps_left(after[i].state) <= steps_left(
        slots[i].state,
    ) && (slots[i].state != SlotState::PendingMesh && slots[i].state != SlotState::Ready ==> steps_left(
        after[i].state,
    ) < steps_left(slots[i].state)) by {
        assert(settled[i] == finished(
            entered(slots[i], came_in(generated, generated.len() as int, slots[i].pos)),
            was_meshed(meshed, meshed.len() as int, slots[i].pos),
        ));
    }
    new_steps(after, n, after.len() as int);
    if exists|i: int|
        0 <= i < n && (#[trigger] slots[i]).state != SlotState::PendingMesh && slots[i].state
            != SlotState::Ready {
        let i = choose|i: int|
            0 <= i < n && (#[trigger] slots[i]).state != SlotState::PendingMesh && slots[i].state
                != SlotState::Ready;
        assert(steps_left(after[i].state) < steps_left(slots[i].state));
        fewer_steps(after, slots, n, i);
    } else {
        assert forall|i: int| 0 <= i < n implies settled[i] == slots[i] by {
            assert(slots[i].state == SlotState::PendingMesh || slots[i].state == SlotState::Ready);
            assert(settled[i] == finished(
                entered(slots[i], came_in(generated, generated.len() as int, slots[i].pos)),
                was_meshed(meshed, meshed.len() as int, slots[i].pos),
            ));
        }
        assert(settled =~= slots);
        a_gap_is_requested(slots, bounds, focus);
        fewer_steps(after, slots, n, -1);
        if missing(slots, bounds, focus).len() == 0 {
            let i = choose|i: int| 0 <= i < n && (#[trigger] slots[i]).state != SlotState::Ready;
            assert(slots[i].state == SlotState::PendingMesh);
            a_frame_keeps_pipeline_and_world_in_step(world, slots, bounds, focus, generated, meshed);
            assert forall|p: ChunkPos| #[trigger] around.contains_key(p) == is_past_generation(slots, p) by {
                same_presence(slots, after, p);
            }
            what_waits_can_be_meshed(around, slots, bounds, focus, i);
            assert(after[i].state == SlotState::Meshing);
            fewer_steps(after, slots, n, i);
        }
    }
}

/// Where the chunks keep their places and the new ones are being generated, the same chunks are past
/// generation.
proof fn same_presence(slots: Seq<Slot>, after: Seq<Slot>, p: ChunkPos)
    requires
        slots.len() <= after.len(),
        forall|i: int|
            #![trigger after[i]]
            0 <= i < slots.len() ==> after[i].pos == slots[i].pos && (after[i].state
                == SlotState::Generating) == (slots[i].state == SlotState::Generating),
        forall|i: int| slots.len() <= i < after.len() ==> (#[trigger] after[i]).state == SlotState::Generating,
    ensures
        is_past_generation(after, p) == is_past_generation(slots, p),
{
    if is_past_generation(slots, p) {
        let i = choose|i: int|
            0 <= i < slots.len() && (#[trigger] slots[i]).pos == p && slots[i].state
                != SlotState::Generating;
        assert(after[i].pos == p && after[i].state != SlotState::Generating);
    }
    if is_past_generation(after, p) {
        let i = choose|i: int|
            0 <= i < after.len() && (#[trigger] after[i]).pos == p && after[i].state
                != SlotState::Generating;
        assert(slots[i].pos == p);
    }
}

// ---------------------------------------------------------------------------------------------
// How much there can be at most.

/// The number of a position in range, layer by layer and row by row.
spec fn number_in_range(bounds: StreamBounds, focus: ChunkPos, pos: ChunkPos) -> int {
    let side = 2 * bounds.radius + 1;
    ((pos.y - bounds.min_y) * side + (pos.z - focus.z + bounds.radius)) * side + (pos.x - focus.x
        + bounds.radius)
}

proof fn two_places(side: int, a: int, b: int, c: int, d: int)
    by (nonlinear_arith)
    requires
        0 <= b < side,
        0 <= d < side,
        a * side + b == c * side + d,
    ensures
        a == c,
        b == d,
{
}

proof fn numbers_differ(bounds: StreamBounds, focus: ChunkPos, p: ChunkPos, q: ChunkPos)
    requires
        bounds.covers(focus, p),
        bounds.covers(focus, q),
        number_in_range(bounds, focus, p) == number_in_range(bounds, focus, q),
    ensures
        p == q,
{
    let side = 2 * bounds.radius + 1;
    let row_p = (p.y - bounds.min_y) * side + (p.z - focus.z + bounds.radius);
    let row_q = (q.y - bounds.min_y) * side + (q.z - focus.z + bounds.radius);
    assert(apart(p.x as int, focus.x as int) <= bounds.radius);
    two_places(side, row_p, p.x - focus.x + bounds.radius, row_q, q.x - focus.x + bounds.radius);
    two_places(
        side,
        p.y - bounds.min_y,
        p.z - focus.z + bounds.radius,
        q.y - bounds.min_y,
        q.z - focus.z + bounds.radius,
    );
}

proof fn numbers_stay_below(side: int, layers: int, x: int, y: int, z: int)
    by (nonlinear_arith)
    requires
        0 <= x < side,
        0 <= z < side,
        0 <= y < layers,
    ensures
        0 <= (y * side + z) * side + x < side * side * layers,
{
    assert(0 <= y * side);
    assert((y + 1) * side <= layers * side);
    assert(0 <= y * side + z < layers * side);
    assert((y * side + z + 1) * side <= layers * side * side);
    assert(0 <= (y * side + z) * side);
}

/// The pipeline never holds more chunks than there are in range.
pub proof fn the_range_bounds_the_pipeline(slots: Seq<Slot>, bounds: StreamBounds, focus: ChunkPos)
    requires
        distinct(slots),
        all_in_range(slots, bounds, focus),
    ensures
        slots.len() <= bounds.volume(),
{
    let numbers = Seq::new(slots.len(), |i: int| number_in_range(bounds, focus, slots[i].pos));
    let volume = bounds.volume();
    assert forall|i: int| 0 <= i < numbers.len() implies 0 <= #[trigger] numbers[i] < volume by {
        let pos = slots[i].pos;
        assert(bounds.covers(focus, pos));
        numbers_stay_below(
            2 * bounds.radius + 1,
            bounds.layers(),
            pos.x - focus.x + bounds.radius,
            pos.y - bounds.min_y,
            pos.z - focus.z + bounds.radius,
        );
    }
    assert forall|i: int, j: int|
        0 <= i < numbers.len() && 0 <= j < numbers.len() && i != j implies numbers[i] != numbers[j] by {
        if numbers[i] == numbers[j] {
            numbers_differ(bounds, focus, slots[i].pos, slots[j].pos);
        }
    }
    if slots.len() == 0 {
        let side = 2 * bounds.radius + 1;
        let layers = bounds.layers();
        assert(0 <= side * side * layers) by (nonlinear_arith)
            requires
                0 <= layers,
        ;
    } else {
        assert(0 <= numbers[0] < volume);
        vstd::set_lib::lemma_int_range(0, volume);
        let all = vstd::set_lib::set_int_range(0, volume);
        assert forall|n: int| numbers.to_set().contains(n) implies all.contains(n) by {
            let i = choose|i: int| 0 <= i < numbers.len() && numbers[i] == n;
            assert(0 <= numbers[i] < volume);
        }
        vstd::set_lib::lemma_len_subset(numbers.to_set(), all);
        numbers.unique_seq_to_set();
    }
}

/// There is work left as long as the pipeline is not complete, and never less than none.
pub proof fn work_is_left_until_the_end(slots: Seq<Slot>, bounds: StreamBounds, focus: ChunkPos)
    requires
        bounds.fits(focus),
        distinct(slots),
        all_in_range(slots, bounds, focus),
    ensures
        0 <= work_left(slots, bounds),
        !is_complete(slots, bounds, focus) ==> 0 < work_left(slots, bounds),
{
    the_range_bounds_the_pipeline(slots, bounds, focus);
    let n = slots.len() as int;
    steps_are_not_negative(slots, n);
    if missing(slots, bounds, focus).len() > 0 {
        let new = to_request(slots, bounds, focus);
        a_gap_is_requested(slots, bounds, focus);
        requests_are_new_and_in_range(slots, bounds, focus);
        assert(bounds.covers(focus, new[0]) && !tracks(slots, new[0]));
        let more = slots.push(Slot { pos: new[0], state: SlotState::Generating });
        assert forall|i: int, j: int|
            0 <= i < more.len() && 0 <= j < more.len() && (#[trigger] more[i]).pos == (
            #[trigger] more[j]).pos implies i == j by {
            if i < n && j < n {
                assert(slots[i].pos == slots[j].pos);
            } else if i < n {
                assert(slots[i].pos == new[0]);
            } else if j < n {
                assert(slots[j].pos == new[0]);
            }
        }
        assert forall|i: int| 0 <= i < more.len() implies bounds.covers(focus, (#[trigger] more[i]).pos) by {
            if i < n {
                assert(bounds.covers(focus, slots[i].pos));
            }
        }
        the_range_bounds_the_pipeline(more, bounds, focus);
    } else if !is_complete(slots, bounds, focus) {
        let i = choose|i: int| 0 <= i < n && (#[trigger] slots[i]).state != SlotState::Ready;
        let done = Seq::new(slots.len(), |j: int| Slot { pos: slots[j].pos, state: SlotState::Ready });
        assert(0 < steps_left(slots[i].state));
        fewer_steps(done, slots, n, i);
        steps_are_not_negative(done, n);
    }
}

// ---------------------------------------------------------------------------------------------
// Frame after frame.

/// Whether one frame, in which all running jobs deliver, leads from the one pipeline and world to the
/// other.
pub open spec fn is_full_frame(
    before: (Seq<Slot>, Map<ChunkPos, Chunk>),
    after: (Seq<Slot>, Map<ChunkPos, Chunk>),
    bounds: StreamBounds,
    focus: ChunkPos,
) -> bool {
    exists|generated: Seq<Arc<Chunk>>, meshed: Seq<ChunkMesh>| #[trigger]
        all_delivered(before.0, generated, meshed) && after == (
            slots_after_update(before.1, before.0, bounds, focus, generated, meshed),
            world_after_update(before.1, before.0, bounds, focus, generated, meshed),
        )
}

/// A frame that leaves no chunk behind keeps the pipeline in range and its chunks apart.
pub proof fn a_frame_stays_in_range(
    world: Map<ChunkPos, Chunk>,
    slots: Seq<Slot>,
    bounds: StreamBounds,
    focus: ChunkPos,
    generated: Seq<Arc<Chunk>>,
    meshed: Seq<ChunkMesh>,
)
    requires
        bounds.fits(focus),
        distinct(slots),
        all_in_range(slots, bounds, focus),
    ensures
        distinct(slots_after_update(world, slots, bounds, focus, generated, meshed)),
        all_in_range(slots_after_update(world, slots, bounds, focus, generated, meshed), bounds, focus),
{
    let settled = slots_after_results(slots, generated, meshed);
    let new = to_request(settled, bounds, focus);
    let after = slots_after_update(world, slots, bounds, focus, generated, meshed);
    let n = slots.len() as int;
    results_by_slot(slots, generated, meshed);
    frame_by_slot(world, slots, bounds, focus, generated, meshed);
    requests_are_new_and_in_range(settled, bounds, focus);
    assert forall|i: int| 0 <= i < after.len() implies bounds.covers(focus, (#[trigger] after[i]).pos) && (
    i < n ==> after[i].pos == settled[i].pos && settled[i].pos == slots[i].pos) && (n <= i ==> after[i].pos
        == new[i - n]) by {
        if i < n {
            assert(settled[i].pos == slots[i].pos);
            assert(bounds.covers(focus, slots[i].pos));
        } else {
            assert(bounds.covers(focus, new[i - n]));
        }
    }
    assert forall|i: int, j: int|
        0 <= i < after.len() && 0 <= j < after.len() && (#[trigger] after[i]).pos == (
        #[trigger] after[j]).pos implies i == j by {
        if i < n && j < n {
            assert(slots[i].pos == slots[j].pos);
        } else if i < n {
            assert(!tracks(settled, new[j - n]));
            assert(settled[i].pos == new[j - n]);
        } else if j < n {
            assert(!tracks(settled, new[i - n]));
            assert(settled[j].pos == new[i - n]);
        } else {
            assert(new[i - n] == new[j - n]);
        }
    }
}

proof fn work_shrinks_frame_by_frame(
    states: Seq<(Seq<Slot>, Map<ChunkPos, Chunk>)>,
    bounds: StreamBounds,
    focus: ChunkPos,
    n: int,
)
    requires
        bounds.fits(focus),
        0 <= n < states.len(),
        distinct(states[0].0),
        all_in_range(states[0].0, bounds, focus),
        in_step(states[0].0, states[0].1),
        forall|j: int|
            #![trigger states[j]]
            0 <= j < states.len() - 1 ==> is_full_frame(states[j], states[j + 1], bounds, focus),
        forall|j: int| 0 <= j < n ==> !is_complete((#[trigger] states[j]).0, bounds, focus),
    ensures
        distinct(states[n].0),
        all_in_range(states[n].0, bounds, focus),
        in_step(states[n].0, states[n].1),
        work_left(states[n].0, bounds) <= work_left(states[0].0, bounds) - n,
    decreases n,
{
    if n > 0 {
        work_shrinks_frame_by_frame(states, bounds, focus, n - 1);
        let before = states[n - 1];
        assert(is_full_frame(before, states[n], bounds, focus));
        let (generated, meshed) = choose|generated: Seq<Arc<Chunk>>, meshed: Seq<ChunkMesh>| #[trigger]
            all_delivered(before.0, generated, meshed) && states[n] == (
                slots_after_update(before.1, before.0, bounds, focus, generated, meshed),
                world_after_update(before.1, before.0, bounds, focus, generated, meshed),
            );
        a_frame_makes_progress(before.1, before.0, bounds, focus, generated, meshed);
        a_frame_stays_in_range(before.1, before.0, bounds, focus, generated, meshed);
        a_frame_keeps_pipeline_and_world_in_step(before.1, before.0, bounds, focus, generated, meshed);
    }
}

/// The pipeline settles: while the focus rests and every running job delivers, every chunk in range is
/// there and done after at most as many frames as there was work left.
pub proof fn the_pipeline_settles(
    states: Seq<(Seq<Slot>, Map<ChunkPos, Chunk>)>,
    bounds: StreamBounds,
    focus: ChunkPos,
)
    requires
        bounds.fits(focus),
        states.len() > 0,
        distinct(states[0].0),
        all_in_range(states[0].0, bounds, focus),
        in_step(states[0].0, states[0].1),
        forall|j: int|
            #![trigger states[j]]
            0 <= j < states.len() - 1 ==> is_full_frame(states[j], states[j + 1], bounds, focus),
        work_left(states[0].0, bounds) < states.len(),
    ensures
        exists|j: int|
            0 <= j <= work_left(states[0].0, bounds) && is_complete(
                (#[trigger] states[j]).0,
                bounds,
                focus,
            ),
{
    let w = work_left(states[0].0, bounds);
    work_is_left_until_the_end(states[0].0, bounds, focus);
    if forall|j: int| 0 <= j <= w ==> !is_complete((#[trigger] states[j]).0, bounds, focus) {
        work_shrinks_frame_by_frame(states, bounds, focus, w);
        work_is_left_until_the_end(states[w].0, bounds, focus);
        assert(!is_complete(states[w].0, bounds, focus));
    }
}

} // verus!
