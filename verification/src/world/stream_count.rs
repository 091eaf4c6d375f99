//! How many chunks there are in range, and how many of them a frame brings into the pipeline.

use crate::meshing::ChunkMesh;
use crate::world::chunk::{Chunk, ChunkPos};
use crate::world::stream::{
    after_generated, after_meshed, all_in_range, apart, by_distance, distinct, kept,
    kept_stays_distinct, left_behind, missing, missing_facts, moved_on, slots_after_results,
    slots_after_update, to_request, tracks, world_after_update, Slot, SlotState, StreamBounds,
    SPAWN_BUDGET,
};
use crate::world::stream_laws::{a_frame_sorts_by_range, what_is_not_there_is_missing};
use crate::world::stream_progress::requested_len;
use std::sync::Arc;
use vstd::prelude::*;
use vstd::relations::injective_on;
use vstd::set_lib::{lemma_int_range, lemma_map_size, set_int_range};

verus! {

/// The positions in range of a focus.
pub open spec fn positions(bounds: StreamBounds, focus: ChunkPos) -> Set<ChunkPos> {
    Set::new(|pos: ChunkPos| bounds.covers(focus, pos))
}

/// The position with number `k`, layer by layer and row by row.
spec fn position(bounds: StreamBounds, focus: ChunkPos, k: int) -> ChunkPos {
    let side = 2 * bounds.radius + 1;
    ChunkPos {
        x: (focus.x - bounds.radius + k % side) as i32,
        y: (bounds.min_y + k / side / side) as i32,
        z: (focus.z - bounds.radius + (k / side) % side) as i32,
    }
}

proof fn places_of_a_number(side: int, layers: int, k: int)
    requires
        side > 0,
        0 <= k < side * side * layers,
    ensures
        0 <= k % side < side,
        0 <= (k / side) % side < side,
        0 <= k / side / side < layers,
        k == (k / side / side * side + (k / side) % side) * side + k % side,
{
    let row = k / side;
    vstd::arithmetic::div_mod::lemma_fundamental_div_mod(k, side);
    vstd::arithmetic::div_mod::lemma_fundamental_div_mod(row, side);
    let layer = row / side;
    assert(0 <= k % side < side && 0 <= row % side < side) by (nonlinear_arith)
        requires
            side > 0,
    ;
    assert(0 <= row) by (nonlinear_arith)
        requires
            side > 0,
            0 <= k,
            row == k / side,
    ;
    assert(0 <= layer) by (nonlinear_arith)
        requires
            side > 0,
            0 <= row,
            layer == row / side,
    ;
    assert(k == (layer * side + row % side) * side + k % side) by (nonlinear_arith)
        requires
            k == side * row + k % side,
            row == side * layer + row % side,
    ;
    assert(layer < layers) by (nonlinear_arith)
        requires
            side > 0,
            k == (layer * side + row % side) * side + k % side,
            0 <= k % side,
            0 <= row % side,
            k < side * side * layers,
    {
        if layer >= layers {
            assert(layer * side * side >= layers * side * side);
            assert((row % side) * side >= 0);
        }
    }
}

proof fn number_of_places(side: int, layers: int, x: int, y: int, z: int)
    requires
        0 <= x < side,
        0 <= z < side,
        0 <= y < layers,
    ensures
        ({
            let k = (y * side + z) * side + x;
            &&& 0 <= k < side * side * layers
            &&& k % side == x
            &&& (k / side) % side == z
            &&& k / side / side == y
        }),
{
    let row = y * side + z;
    let k = row * side + x;
    vstd::arithmetic::div_mod::lemma_fundamental_div_mod_converse(k, side, row, x);
    vstd::arithmetic::div_mod::lemma_fundamental_div_mod_converse(row, side, y, z);
    assert(0 <= k < side * side * layers) by (nonlinear_arith)
        requires
            k == (y * side + z) * side + x,
            0 <= x < side,
            0 <= z < side,
            0 <= y < layers,
    {
        assert(0 <= y * side);
        assert((y + 1) * side <= layers * side);
        assert(0 <= y * side + z < layers * side);
        assert((y * side + z + 1) * side <= layers * side * side);
        assert(0 <= (y * side + z) * side);
    }
}

/// Whether the positions in range of a focus can all be written down.
pub open spec fn writable(bounds: StreamBounds, focus: ChunkPos) -> bool {
    &&& i32::MIN <= focus.x - bounds.radius && focus.x + bounds.radius <= i32::MAX
    &&& i32::MIN <= focus.z - bounds.radius && focus.z + bounds.radius <= i32::MAX
}

/// The count of chunks is the number of positions in range, the same for every focus.
pub proof fn the_count_is_the_number_in_range(bounds: StreamBounds, focus: ChunkPos)
    requires
        0 <= bounds.radius,
        writable(bounds, focus),
    ensures
        positions(bounds, focus).finite(),
        positions(bounds, focus).len() == bounds.volume(),
        bounds.max_y < bounds.min_y ==> bounds.volume() == 0,
{
    let side = 2 * bounds.radius + 1;
    let layers = bounds.layers();
    let volume = bounds.volume();
    assert(0 <= volume) by (nonlinear_arith)
        requires
            volume == side * side * layers,
            0 <= layers,
    ;
    if layers == 0 {
        assert(volume == 0) by (nonlinear_arith)
            requires
                volume == side * side * layers,
                layers == 0,
        ;
    }
    lemma_int_range(0, volume);
    let numbers = set_int_range(0, volume);
    let all = positions(bounds, focus);
    let f = |k: int| position(bounds, focus, k);
    assert forall|a: int, b: int| numbers.contains(a) && numbers.contains(b) && #[trigger] f(a)
        == #[trigger] f(b) implies a == b by {
        places_of_a_number(side, layers, a);
        places_of_a_number(side, layers, b);
    }
    assert(injective_on(f, numbers));
    assert forall|pos: ChunkPos| #[trigger] numbers.map(f).contains(pos) == all.contains(pos) by {
        if numbers.map(f).contains(pos) {
            let k = choose|k: int| numbers.contains(k) && f(k) == pos;
            places_of_a_number(side, layers, k);
        }
        if all.contains(pos) {
            let x = pos.x - focus.x + bounds.radius;
            let y = pos.y - bounds.min_y;
            let z = pos.z - focus.z + bounds.radius;
            assert(apart(pos.x as int, focus.x as int) <= bounds.radius);
            number_of_places(side, layers, x, y, z);
            let k = (y * side + z) * side + x;
            assert(f(k) == pos);
            assert(numbers.contains(k));
        }
    }
    assert(numbers.map(f) =~= all);
    lemma_map_size(numbers, all, f);
}

/// The positions of a pipeline.
spec fn held(slots: Seq<Slot>) -> Set<ChunkPos> {
    Set::new(|pos: ChunkPos| tracks(slots, pos))
}

proof fn as_many_as_slots(slots: Seq<Slot>)
    requires
        distinct(slots),
    ensures
        held(slots).finite(),
        held(slots).len() == slots.len(),
{
    let list = Seq::new(slots.len(), |i: int| slots[i].pos);
    assert forall|i: int, j: int| 0 <= i < list.len() && 0 <= j < list.len() && i != j implies list[i]
        != list[j] by {
        if list[i] == list[j] {
            assert(slots[i].pos == slots[j].pos);
        }
    }
    list.unique_seq_to_set();
    assert forall|pos: ChunkPos| #[trigger] list.to_set().contains(pos) == held(slots).contains(pos) by {
        if list.to_set().contains(pos) {
            let i = choose|i: int| 0 <= i < list.len() && list[i] == pos;
            assert(slots[i].pos == pos);
        }
        if tracks(slots, pos) {
            let i = choose|i: int| 0 <= i < slots.len() && (#[trigger] slots[i]).pos == pos;
            assert(list[i] == pos);
        }
    }
    assert(list.to_set() =~= held(slots));
    vstd::seq_lib::seq_to_set_is_finite(list);
}

/// As many chunks are missing as there are in range and not in the pipeline.
pub proof fn the_missing_are_counted(slots: Seq<Slot>, bounds: StreamBounds, focus: ChunkPos)
    requires
        0 <= bounds.radius,
        bounds.fits(focus),
        distinct(slots),
        all_in_range(slots, bounds, focus),
    ensures
        missing(slots, bounds, focus).len() == bounds.volume() - slots.len(),
{
    let gaps = missing(slots, bounds, focus);
    let all = positions(bounds, focus);
    let here = held(slots);
    the_count_is_the_number_in_range(bounds, focus);
    as_many_as_slots(slots);
    missing_facts(
        slots,
        bounds,
        focus,
        focus.x - bounds.radius,
        bounds.min_y as int,
        focus.z - bounds.radius,
    );
    gaps.unique_seq_to_set();
    assert forall|pos: ChunkPos| #[trigger] gaps.to_set().contains(pos) == all.difference(here).contains(
        pos,
    ) by {
        if gaps.contains(pos) {
            let i = choose|i: int| 0 <= i < gaps.len() && gaps[i] == pos;
            assert(bounds.covers(focus, gaps[i]));
        }
        if all.contains(pos) && !here.contains(pos) {
            what_is_not_there_is_missing(slots, bounds, focus, pos);
        }
    }
    assert(gaps.to_set() =~= all.difference(here));
    assert forall|pos: ChunkPos| here.contains(pos) implies #[trigger] all.contains(pos) by {
        let i = choose|i: int| 0 <= i < slots.len() && (#[trigger] slots[i]).pos == pos;
        assert(bounds.covers(focus, slots[i].pos));
    }
    vstd::set_lib::lemma_set_difference_len(all, here);
    assert(all.intersect(here) =~= here);
}

proof fn moving_on_keeps_positions(slots: Seq<Slot>, generated: Seq<Arc<Chunk>>, n: int)
    requires
        0 <= n <= generated.len(),
    ensures
        after_generated(slots, generated, n).len() == slots.len(),
        forall|i: int|
            0 <= i < slots.len() ==> (#[trigger] after_generated(slots, generated, n)[i]).pos
                == slots[i].pos,
    decreases n,
{
    if n > 0 {
        moving_on_keeps_positions(slots, generated, n - 1);
        let before = after_generated(slots, generated, n - 1);
        let after = after_generated(slots, generated, n);
        assert forall|i: int| 0 <= i < slots.len() implies (#[trigger] after[i]).pos == slots[i].pos by {
            assert(before[i].pos == slots[i].pos);
        }
    }
}

proof fn meshing_keeps_positions(slots: Seq<Slot>, meshed: Seq<ChunkMesh>, n: int)
    requires
        0 <= n <= meshed.len(),
    ensures
        after_meshed(slots, meshed, n).len() == slots.len(),
        forall|i: int|
            0 <= i < slots.len() ==> (#[trigger] after_meshed(slots, meshed, n)[i]).pos == slots[i].pos,
    decreases n,
{
    if n > 0 {
        meshing_keeps_positions(slots, meshed, n - 1);
        let before = after_meshed(slots, meshed, n - 1);
        let after = after_meshed(slots, meshed, n);
        assert forall|i: int| 0 <= i < slots.len() implies (#[trigger] after[i]).pos == slots[i].pos by {
            assert(before[i].pos == slots[i].pos);
            let pos = meshed[n - 1].pos;
            let middle = moved_on(before, pos, SlotState::Meshing, SlotState::Ready);
            assert(middle[i].pos == before[i].pos);
        }
    }
}

/// Results move chunks on, but bring none into the pipeline and take none out of it.
proof fn results_keep_positions(slots: Seq<Slot>, generated: Seq<Arc<Chunk>>, meshed: Seq<ChunkMesh>)
    ensures
        slots_after_results(slots, generated, meshed).len() == slots.len(),
        forall|i: int|
            0 <= i < slots.len() ==> (#[trigger] slots_after_results(slots, generated, meshed)[i]).pos
                == slots[i].pos,
{
    moving_on_keeps_positions(slots, generated, generated.len() as int);
    let middle = after_generated(slots, generated, generated.len() as int);
    meshing_keeps_positions(middle, meshed, meshed.len() as int);
    let after = slots_after_results(slots, generated, meshed);
    assert forall|i: int| 0 <= i < slots.len() implies (#[trigger] after[i]).pos == slots[i].pos by {
        assert(middle[i].pos == slots[i].pos);
    }
}

/// Which chunks stay and which are left behind depends on their positions alone.
proof fn range_goes_by_position(a: Seq<Slot>, b: Seq<Slot>, bounds: StreamBounds, focus: ChunkPos)
    requires
        a.len() == b.len(),
        forall|i: int| #![trigger a[i]] 0 <= i < a.len() ==> a[i].pos == b[i].pos,
    ensures
        kept(a, bounds, focus).len() == kept(b, bounds, focus).len(),
        left_behind(a, bounds, focus) == left_behind(b, bounds, focus),
    decreases a.len(),
{
    if a.len() > 0 {
        assert(a[a.len() - 1].pos == b[b.len() - 1].pos);
        assert forall|i: int| #![trigger a.drop_last()[i]] 0 <= i < a.drop_last().len() implies a.drop_last()[i].pos
            == b.drop_last()[i].pos by {
            assert(a[i].pos == b[i].pos);
        }
        range_goes_by_position(a.drop_last(), b.drop_last(), bounds, focus);
    }
}

/// How many chunks a pipeline holds after a frame: those that are still in range, and as many of the
/// missing as the budget allows.
pub proof fn a_frame_tracks_what_the_budget_allows(
    world: Map<ChunkPos, Chunk>,
    slots: Seq<Slot>,
    bounds: StreamBounds,
    focus: ChunkPos,
    generated: Seq<Arc<Chunk>>,
    meshed: Seq<ChunkMesh>,
)
    requires
        0 <= bounds.radius,
        bounds.fits(focus),
        distinct(slots),
    ensures
        ({
            let stay = kept(slots, bounds, focus).len() as int;
            let gaps = bounds.volume() - stay;
            slots_after_update(world, slots, bounds, focus, generated, meshed).len() == stay + (if gaps
                <= SPAWN_BUDGET {
                gaps
            } else {
                SPAWN_BUDGET as int
            })
        }),
{
    let settled = slots_after_results(slots, generated, meshed);
    results_keep_positions(slots, generated, meshed);
    range_goes_by_position(settled, slots, bounds, focus);
    assert forall|i: int, j: int|
        0 <= i < settled.len() && 0 <= j < settled.len() && (#[trigger] settled[i]).pos == (
        #[trigger] settled[j]).pos implies i == j by {
        assert(slots[i].pos == slots[j].pos);
    }
    kept_stays_distinct(settled, bounds, focus);
    let near = kept(settled, bounds, focus);
    the_missing_are_counted(near, bounds, focus);
    let gaps = missing(near, bounds, focus);
    requested_len(focus, gaps, gaps.len() as int);
    assert(by_distance(focus, gaps, gaps.len() as int).len() == gaps.len());
    assert(to_request(near, bounds, focus).len() == if gaps.len() <= 32 {
        gaps.len()
    } else {
        32
    });
}

proof fn left_behind_once(slots: Seq<Slot>, bounds: StreamBounds, focus: ChunkPos)
    requires
        distinct(slots),
    ensures
        left_behind(slots, bounds, focus).no_duplicates(),
    decreases slots.len(),
{
    if slots.len() > 0 {
        let less = slots.drop_last();
        assert(distinct(less)) by {
            assert forall|i: int, j: int|
                0 <= i < less.len() && 0 <= j < less.len() && (#[trigger] less[i]).pos == (
                #[trigger] less[j]).pos implies i == j by {
                assert(slots[i].pos == slots[j].pos);
            }
        }
        left_behind_once(less, bounds, focus);
        a_frame_sorts_by_range(less, bounds, focus);
        let before = left_behind(less, bounds, focus);
        let last = slots.last().pos;
        if before.contains(last) {
            let i = choose|i: int| 0 <= i < less.len() && (#[trigger] less[i]).pos == last;
            assert(slots[i].pos == slots[slots.len() - 1].pos);
        }
        assert(before.push(last).no_duplicates()) by {
            assert forall|i: int, j: int|
                0 <= i < before.len() + 1 && 0 <= j < before.len() + 1 && i != j && !before.contains(last)
                    implies before.push(last)[i] != before.push(last)[j] by {
                if i < before.len() {
                    assert(before.contains(before[i]));
                }
                if j < before.len() {
                    assert(before.contains(before[j]));
                }
            }
        }
    }
}

/// What goes out of range is reported as unloaded, each chunk once and nothing else, and the world
/// holds none of it any more.
pub proof fn what_is_left_behind_is_gone(
    world: Map<ChunkPos, Chunk>,
    slots: Seq<Slot>,
    bounds: StreamBounds,
    focus: ChunkPos,
    generated: Seq<Arc<Chunk>>,
    meshed: Seq<ChunkMesh>,
)
    requires
        distinct(slots),
    ensures
        ({
            let gone = left_behind(slots_after_results(slots, generated, meshed), bounds, focus);
            let after = world_after_update(world, slots, bounds, focus, generated, meshed);
            &&& gone.no_duplicates()
            &&& forall|pos: ChunkPos| #[trigger] gone.contains(pos) <==> tracks(slots, pos)
                && !bounds.covers(focus, pos)
            &&& forall|pos: ChunkPos| #[trigger] gone.contains(pos) ==> !after.contains_key(pos)
        }),
{
    let settled = slots_after_results(slots, generated, meshed);
    results_keep_positions(slots, generated, meshed);
    range_goes_by_position(settled, slots, bounds, focus);
    left_behind_once(slots, bounds, focus);
    a_frame_sorts_by_range(slots, bounds, focus);
}

} // verus!
