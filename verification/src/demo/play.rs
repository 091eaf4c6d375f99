//! The world of the demo: what is dug up and put down, and what is streamed in around the camera.

use crate::contract::command::{Command, Intent};
use crate::meshing::ChunkMesh;
use crate::world::block::{
    air_is_index_zero, block_is_its_index, BlockDef, BlockId, BlockPalette, BlockRegistry, FaceTiles,
};
use crate::world::chunk::{block_index, in_chunk, layout_is_in_range, local_coord, Chunk, ChunkPos};
use crate::world::laws::{
    a_known_block_keeps_the_world_known, write_changes_no_other_block, write_is_read_back,
};
use crate::world::raycast::{
    cell_after, coordinate_after, meets_at, meets_nothing, raycast, stays_in_space,
    the_face_looks_back, Crossing,
};
use crate::world::store::touched_by;
use crate::world::stream::{
    after_generated, are_jobs_for, fresh_meshes, is_in, kept, left_behind, slots_after_results,
    slots_after_update, slots_in_place, to_cancel, to_mesh, to_request, with_dirty,
    world_after_generated, world_after_update, ChunkStreamer, Slot, SlotState, StreamBounds, StreamJobs,
    StreamOutput,
};
use crate::world::terrain::{filled, material, IslandGenerator, ISLAND_MAX_CHUNK_Y, ISLAND_MIN_CHUNK_Y};
use crate::world::World;
use std::sync::Arc;
use vstd::prelude::*;
use vstd::string::StringExecFns;

verus! {

/// How far chunks are loaded around the camera, in chunks.
pub const VIEW_RADIUS: i32 = 5;

/// The seed of the island.
pub const SEED: u64 = 0x1A1A_2026;

/// Number of worker threads: one core is left to the main thread; four if the number of cores is not
/// known.
pub fn worker_count(cores: Option<usize>) -> (n: usize)
    ensures
        n == match cores {
            None => 4,
            Some(cores) => if cores <= 2 {
                1
            } else {
                cores - 1
            },
        },
{
    match cores {
        None => 4,
        Some(cores) => {
            if cores <= 2 {
                1
            } else {
                cores - 1
            }
        },
    }
}

/// Whether an intent is carried out as this command: what is broken is the first block that the ray
/// meets, and what is placed goes in front of the face that it meets.
pub open spec fn is_command_for(
    world: &World,
    intent: Intent,
    start: Seq<i32>,
    crossings: Seq<Crossing>,
    place: BlockId,
    command: Option<Command>,
) -> bool {
    if meets_nothing(world, start, crossings) {
        command is None
    } else {
        exists|i: int| #[trigger]
            meets_at(world, start, crossings, i) && match intent {
                Intent::Break => command matches Some(Command::Break { pos }) && pos@ == cell_after(
                    start,
                    crossings,
                    i + 1,
                ),
                Intent::Place => command matches Some(Command::Place { pos, block }) && pos@
                    == cell_after(start, crossings, i) && block == place,
                _ => command is None,
            }
    }
}

/// Whether these are the commands for the first `n` intents, in order.
pub open spec fn are_commands_for(
    world: &World,
    actions: Seq<Intent>,
    n: int,
    start: Seq<i32>,
    crossings: Seq<Crossing>,
    place: BlockId,
    commands: Seq<Command>,
) -> bool
    decreases n,
{
    if n <= 0 {
        commands.len() == 0
    } else if (actions[n - 1] == Intent::Break || actions[n - 1] == Intent::Place) && !meets_nothing(
        world,
        start,
        crossings,
    ) {
        &&& commands.len() > 0
        &&& is_command_for(world, actions[n - 1], start, crossings, place, Some(commands.last()))
        &&& are_commands_for(world, actions, n - 1, start, crossings, place, commands.drop_last())
    } else {
        are_commands_for(world, actions, n - 1, start, crossings, place, commands)
    }
}

/// Whether the second world is the first after a command, and these are the chunks that it touched.
pub open spec fn carried_out(before: World, after: World, command: Command, touched: Seq<ChunkPos>) -> bool {
    &&& after.blocks() == before.blocks()
    &&& match before.asked(command) {
        Some((w, id)) => if before.writes(w, id) {
            touched == touched_by(w) && World::written(before@, after@, w, id)
        } else {
            touched == Seq::<ChunkPos>::empty() && after@ == before@
        },
        None => touched == Seq::<ChunkPos>::empty() && after@ == before@,
    }
}

/// The first `n` reports in one list.
pub open spec fn joined(reports: Seq<Seq<ChunkPos>>, n: int) -> Seq<ChunkPos>
    decreases n,
{
    if n <= 0 {
        Seq::empty()
    } else {
        joined(reports, n - 1) + reports[n - 1]
    }
}

/// Whether the worlds lead from the first to the last by carrying the commands out one after the
/// other, with these reports.
pub open spec fn is_history(worlds: Seq<World>, commands: Seq<Command>, reports: Seq<Seq<ChunkPos>>) -> bool {
    &&& worlds.len() == commands.len() + 1
    &&& reports.len() == commands.len()
    &&& forall|i: int|
        0 <= i < commands.len() ==> carried_out(
            worlds[i],
            worlds[i + 1],
            commands[i],
            #[trigger] reports[i],
        )
}

/// The commands on one line.
pub open spec fn shown_line(commands: Seq<Command>, n: int) -> Seq<char>
    decreases n,
{
    if n <= 0 {
        Seq::empty()
    } else if n == 1 {
        commands[0].shown()
    } else {
        shown_line(commands, n - 1) + " | "@ + commands[n - 1].shown()
    }
}

/// The commands on one line.
pub fn command_line(commands: &[Command]) -> (line: String)
    ensures
        line@ == shown_line(commands@, commands@.len() as int),
{
    let mut line = "".to_owned();
    proof {
        reveal_strlit("");
        assert(line@ =~= Seq::<char>::empty());
    }
    let mut i: usize = 0;
    while i < commands.len()
        invariant
            i <= commands@.len(),
            line@ == shown_line(commands@, i as int),
        decreases commands@.len() - i,
    {
        if i > 0 {
            line.append(" | ");
        }
        line.append(commands[i].display().as_str());
        assert(line@ =~= shown_line(commands@, i + 1));
        i += 1;
    }
    line
}

/// Whether every block of a chunk is in the registry.
pub open spec fn is_known(chunk: Chunk, blocks: BlockRegistry) -> bool {
    forall|i: int|
        0 <= i < chunk@.len() ==> (#[trigger] chunk@[i]).is_air() || blocks.defines(chunk@[i])
}

/// Whether a frame of the stream gave this and asks for these jobs.
pub open spec fn is_frame_of(
    slots: Seq<Slot>,
    range: StreamBounds,
    focus: ChunkPos,
    generated: Seq<Arc<Chunk>>,
    meshed: Seq<ChunkMesh>,
    world: &World,
    output: StreamOutput,
    jobs: StreamJobs,
) -> bool {
    let entered = after_generated(slots, generated, generated.len() as int);
    let settled = slots_after_results(slots, generated, meshed);
    let placed = slots_in_place(settled, range, focus);
    &&& output.meshed@ == fresh_meshes(entered, meshed, meshed.len() as int)
    &&& output.unloaded@ == left_behind(settled, range, focus)
    &&& jobs.cancelled@ == to_cancel(settled, range, focus)
    &&& jobs.generate@ == to_request(kept(settled, range, focus), range, focus)
    &&& are_jobs_for(jobs.mesh@, world, to_mesh(placed, world@, range, focus, placed.len() as int))
}

/// What one frame of actions came to.
#[derive(Debug, PartialEq, Eq)]
pub struct Outcome {
    /// Whether the user wants to leave.
    pub exit: bool,
    /// The commands, in the order in which they were carried out.
    pub commands: Vec<Command>,
}

/// The world of the demo with its stream of chunks.
pub struct Game {
    world: World,
    streamer: ChunkStreamer,
    output: StreamOutput,
    place_block: BlockId,
}

impl Game {
    /// The world.
    pub closed spec fn land(&self) -> World {
        self.world
    }

    /// The stream of chunks.
    pub closed spec fn stream(&self) -> ChunkStreamer {
        self.streamer
    }

    /// What the last frame of the stream gave.
    pub closed spec fn given(&self) -> StreamOutput {
        self.output
    }

    /// The block that is placed.
    pub closed spec fn placed(&self) -> BlockId {
        self.place_block
    }

    /// The world is sound and made of known blocks, and so is what is placed.
    pub open spec fn wf(&self) -> bool {
        &&& self.land().wf()
        &&& self.land().knows_its_blocks()
        &&& self.land().blocks().defines(self.placed())
        &&& self.stream().wf()
    }

    /// An empty world with stone, dirt and grass, and the island to come.
    pub fn new() -> (game: Self)
        ensures
            game.wf(),
            game.land()@ == Map::<ChunkPos, Chunk>::empty(),
            game.land().blocks()@.len() == 4,
            game.land().blocks().holds_air(),
            ({
                let palette = game.stream().source().spec_palette();
                let blocks = game.land().blocks()@;
                &&& palette.stone.id() == 1 && palette.dirt.id() == 2 && palette.grass.id() == 3
                &&& blocks[1].key@ == "stone"@ && blocks[2].key@ == "dirt"@ && blocks[3].key@ == "grass"@
                &&& blocks[1].solid && blocks[2].solid && blocks[3].solid
                &&& forall|face: crate::world::block::Face| #![auto]
                    blocks[1].tiles.tile(face) == 1 && blocks[2].tiles.tile(face) == 2
                        && blocks[3].tiles.tile(face) == 3
                &&& game.placed() == palette.grass
            }),
            game.stream().source().spec_seed() == SEED,
            game.stream()@.len() == 0,
            game.given().meshed@.len() == 0,
            game.given().unloaded@.len() == 0,
            game.stream().range() == (StreamBounds {
                radius: VIEW_RADIUS,
                min_y: ISLAND_MIN_CHUNK_Y,
                max_y: ISLAND_MAX_CHUNK_Y,
            }),
    {
        let mut registry = BlockRegistry::new();
        let stone = registry.register(
            BlockDef { key: "stone", solid: true, tiles: FaceTiles::uniform(1) },
        );
        let dirt = registry.register(
            BlockDef { key: "dirt", solid: true, tiles: FaceTiles::uniform(2) },
        );
        let grass = registry.register(
            BlockDef { key: "grass", solid: true, tiles: FaceTiles::uniform(3) },
        );
        let palette = BlockPalette { stone, dirt, grass };
        let bounds = StreamBounds {
            radius: VIEW_RADIUS,
            min_y: ISLAND_MIN_CHUNK_Y,
            max_y: ISLAND_MAX_CHUNK_Y,
        };
        let world = World::new(registry);
        proof {
            crate::world::block::air_is_index_zero();
            assert forall|w: Seq<i32>| w.len() == 3 implies #[trigger] world.known_at(w) by {
                assert(world.world_block(w) == BlockId::air());
            }
        }
        Game {
            world,
            streamer: ChunkStreamer::new(bounds, IslandGenerator::new(SEED, palette)),
            output: StreamOutput::new(),
            place_block: grass,
        }
    }

    pub fn world(&self) -> (world: &World)
        ensures
            *world == self.land(),
    {
        &self.world
    }

    pub fn streamer(&self) -> (streamer: &ChunkStreamer)
        ensures
            *streamer == self.stream(),
    {
        &self.streamer
    }

    /// What the last frame of the stream gave.
    pub fn output(&self) -> (output: &StreamOutput)
        ensures
            *output == self.given(),
    {
        &self.output
    }

    /// The command for an intent, where the camera looks along the ray.
    pub fn command_for(&self, intent: Intent, start: [i32; 3], crossings: &[Crossing]) -> (command: Option<
        Command,
    >)
        requires
            self.wf(),
            stays_in_space(start@, crossings@),
            forall|i: int| 0 <= i < crossings@.len() ==> (#[trigger] crossings@[i]).axis < 3,
        ensures
            is_command_for(&self.land(), intent, start@, crossings@, self.placed(), command),
    {
        match raycast(&self.world, start, crossings) {
            None => None,
            Some(hit) => {
                let ghost i = hit.crossing as int;
                proof {
                    the_face_looks_back(&self.world, start@, crossings@, i);
                    assert(!meets_nothing(&self.world, start@, crossings@));
                    assert(coordinate_after(start@, crossings@, i, 0) == coordinate_after(
                        start@,
                        crossings@,
                        i + 1,
                        0,
                    ) + hit.face.normal_at(0));
                    assert(coordinate_after(start@, crossings@, i, 1) == coordinate_after(
                        start@,
                        crossings@,
                        i + 1,
                        1,
                    ) + hit.face.normal_at(1));
                    assert(coordinate_after(start@, crossings@, i, 2) == coordinate_after(
                        start@,
                        crossings@,
                        i + 1,
                        2,
                    ) + hit.face.normal_at(2));
                }
                match intent {
                    Intent::Break => Some(Command::Break { pos: hit.block }),
                    Intent::Place => {
                        let step = hit.face.step();
                        proof {
                            assert(step@[0] == hit.face.normal_at(0));
                            assert(step@[1] == hit.face.normal_at(1));
                            assert(step@[2] == hit.face.normal_at(2));
                            assert(hit.block@[0] == coordinate_after(start@, crossings@, i + 1, 0));
                            assert(hit.block@[1] == coordinate_after(start@, crossings@, i + 1, 1));
                            assert(hit.block@[2] == coordinate_after(start@, crossings@, i + 1, 2));
                        }
                        let pos = [
                            hit.block[0] + step[0],
                            hit.block[1] + step[1],
                            hit.block[2] + step[2],
                        ];
                        assert(pos@ =~= cell_after(start@, crossings@, i));
                        Some(Command::Place { pos, block: self.place_block })
                    },
                    _ => None,
                }
            },
        }
    }
}

impl Game {
    /// Carries out what the user did in this frame, where the camera looks along the ray: the actions
    /// become commands, and the commands change the world one after the other. What they change is
    /// put in line for meshing again.
    pub fn run_actions(&mut self, actions: &[Intent], start: [i32; 3], crossings: &[Crossing]) -> (outcome:
        Outcome)
        requires
            old(self).wf(),
            stays_in_space(start@, crossings@),
            forall|i: int| 0 <= i < crossings@.len() ==> (#[trigger] crossings@[i]).axis < 3,
        ensures
            final(self).wf(),
            final(self).given() == old(self).given(),
            final(self).placed() == old(self).placed(),
            final(self).stream().range() == old(self).stream().range(),
            final(self).stream().source() == old(self).stream().source(),
            outcome.exit == actions@.contains(Intent::Quit),
            are_commands_for(
                &old(self).land(),
                actions@,
                actions@.len() as int,
                start@,
                crossings@,
                old(self).placed(),
                outcome.commands@,
            ),
            exists|worlds: Seq<World>, reports: Seq<Seq<ChunkPos>>| #[trigger]
                is_history(worlds, outcome.commands@, reports) && worlds[0] == old(self).land()
                    && worlds.last() == final(self).land() && final(self).stream()@ == with_dirty(
                    old(self).stream()@,
                    joined(reports, reports.len() as int),
                ),
    {
        let mut exit = false;
        let mut commands: Vec<Command> = Vec::new();
        let mut i: usize = 0;
        while i < actions.len()
            invariant
                i <= actions@.len(),
                *self == *old(self),
                self.wf(),
                stays_in_space(start@, crossings@),
                forall|k: int| 0 <= k < crossings@.len() ==> (#[trigger] crossings@[k]).axis < 3,
                exit == actions@.take(i as int).contains(Intent::Quit),
                are_commands_for(
                    &self.land(),
                    actions@,
                    i as int,
                    start@,
                    crossings@,
                    self.placed(),
                    commands@,
                ),
                forall|k: int|
                    0 <= k < commands@.len() ==> is_safe(#[trigger] commands@[k], self.placed()),
            decreases actions@.len() - i,
        {
            let intent = actions[i];
            proof {
                assert(actions@.take(i + 1) =~= actions@.take(i as int).push(intent));
                crate::shared::pushed_contains(actions@.take(i as int), intent, Intent::Quit);
            }
            match intent {
                Intent::Quit => {
                    exit = true;
                },
                Intent::Break | Intent::Place => {
                    let ghost before = commands@;
                    let found = self.command_for(intent, start, crossings);
                    if let Some(command) = found {
                        commands.push(command);
                        assert(commands@.drop_last() =~= before);
                    }
                },
                _ => {},
            }
            i += 1;
        }
        assert(actions@.take(i as int) =~= actions@);
        let dirty = self.carry_out(commands.as_slice());
        self.streamer.mark_dirty(dirty.as_slice());
        Outcome { exit, commands }
    }

    fn carry_out(&mut self, commands: &[Command]) -> (dirty: Vec<ChunkPos>)
        requires
            old(self).wf(),
            forall|k: int|
                0 <= k < commands@.len() ==> is_safe(#[trigger] commands@[k], old(self).placed()),
        ensures
            final(self).wf(),
            final(self).given() == old(self).given(),
            final(self).placed() == old(self).placed(),
            final(self).stream() == old(self).stream(),
            exists|worlds: Seq<World>, reports: Seq<Seq<ChunkPos>>| #[trigger]
                is_history(worlds, commands@, reports) && worlds[0] == old(self).land()
                    && worlds.last() == final(self).land() && dirty@ == joined(
                    reports,
                    reports.len() as int,
                ),
    {
        let mut dirty: Vec<ChunkPos> = Vec::new();
        let ghost mut worlds: Seq<World> = seq![self.world];
        let ghost mut reports: Seq<Seq<ChunkPos>> = Seq::empty();
        let mut i: usize = 0;
        assert(commands@.take(0) =~= Seq::<Command>::empty());
        while i < commands.len()
            invariant
                i <= commands@.len(),
                self.wf(),
                self.given() == old(self).given(),
                self.placed() == old(self).placed(),
                self.stream() == old(self).stream(),
                forall|k: int|
                    0 <= k < commands@.len() ==> is_safe(#[trigger] commands@[k], self.placed()),
                is_history(worlds, commands@.take(i as int), reports),
                worlds[0] == old(self).land(),
                worlds.last() == self.land(),
                reports.len() == i,
                dirty@ == joined(reports, i as int),
            decreases commands@.len() - i,
        {
            let ghost before = self.world;
            let command = &commands[i];
            let touched = self.world.apply(command);
            proof {
                let after = self.world;
                assert(is_safe(commands@[i as int], self.placed()));
                assert(carried_out(before, after, *command, touched@));
                stays_known(before, after, *command, touched@, self.placed());
                let old_worlds = worlds;
                let old_reports = reports;
                worlds = worlds.push(after);
                reports = reports.push(touched@);
                assert(is_history(worlds, commands@.take(i + 1), reports)) by {
                    let done = commands@.take(i + 1);
                    assert forall|k: int| 0 <= k < done.len() implies carried_out(
                        worlds[k],
                        worlds[k + 1],
                        done[k],
                        #[trigger] reports[k],
                    ) by {
                        if k < i {
                            assert(reports[k] == old_reports[k]);
                            assert(worlds[k] == old_worlds[k] && worlds[k + 1] == old_worlds[k + 1]);
                            assert(commands@.take(i as int)[k] == done[k]);
                        }
                    }
                }
                same_joined(old_reports, reports, i as int);
            }
            let ghost so_far = dirty@;
            let mut j: usize = 0;
            while j < touched.len()
                invariant
                    j <= touched@.len(),
                    dirty@ == so_far + touched@.take(j as int),
                decreases touched@.len() - j,
            {
                dirty.push(touched[j]);
                assert(dirty@ =~= so_far + touched@.take(j + 1));
                j += 1;
            }
            assert(touched@.take(j as int) =~= touched@);
            assert(dirty@ == joined(reports, i + 1));
            i += 1;
        }
        assert(commands@.take(i as int) =~= commands@);
        dirty
    }

    /// One frame of the stream around the camera. What was generated and meshed since the last frame
    /// comes in, and the answer says what is to be done next.
    pub fn advance(&mut self, focus: ChunkPos, generated: Vec<Arc<Chunk>>, meshed: Vec<ChunkMesh>) -> (jobs:
        StreamJobs)
        requires
            old(self).wf(),
            old(self).stream().range().fits(focus),
            forall|i: int|
                0 <= i < generated@.len() ==> (#[trigger] generated@[i]).wf() && is_known(
                    *generated@[i],
                    old(self).land().blocks(),
                ),
        ensures
            final(self).wf(),
            final(self).placed() == old(self).placed(),
            final(self).stream().range() == old(self).stream().range(),
            final(self).stream().source() == old(self).stream().source(),
            final(self).land().blocks() == old(self).land().blocks(),
            final(self).stream()@ == slots_after_update(
                old(self).land()@,
                old(self).stream()@,
                old(self).stream().range(),
                focus,
                generated@,
                meshed@,
            ),
            final(self).land()@ == world_after_update(
                old(self).land()@,
                old(self).stream()@,
                old(self).stream().range(),
                focus,
                generated@,
                meshed@,
            ),
            is_frame_of(
                old(self).stream()@,
                old(self).stream().range(),
                focus,
                generated@,
                meshed@,
                &final(self).land(),
                final(self).given(),
                jobs,
            ),
    {
        let ghost before = self.world;
        let ghost slots = self.streamer@;
        let ghost chunks = generated@;
        let jobs = self.streamer.update(
            &mut self.world,
            focus,
            generated,
            meshed,
            &mut self.output,
        );
        proof {
            assert forall|w: Seq<i32>| w.len() == 3 implies #[trigger] self.world.known_at(w) by {
                let pos = ChunkPos::of_world(w);
                if self.world@.contains_key(pos) {
                    comes_from(before@, slots, chunks, chunks.len() as int, pos);
                    let chunk = self.world@[pos];
                    if before@.contains_key(pos) && chunk == before@[pos] {
                        assert(before.known_at(w));
                    } else {
                        let i = choose|i: int| 0 <= i < chunks.len() && *#[trigger] chunks[i] == chunk;
                        assert(chunks[i].wf());
                        chunk.wf_means_full();
                        layout_is_in_range(
                            local_coord(w[0] as int),
                            local_coord(w[1] as int),
                            local_coord(w[2] as int),
                        );
                        let at = block_index(
                            local_coord(w[0] as int),
                            local_coord(w[1] as int),
                            local_coord(w[2] as int),
                        );
                        assert(chunk@[at].is_air() || before.blocks().defines(chunk@[at]));
                    }
                } else {
                    crate::world::block::air_is_index_zero();
                }
            }
        }
        jobs
    }
}

/// What the generator makes of known blocks is known: it can be taken into the world.
pub proof fn generated_chunks_are_known(
    chunk: Chunk,
    palette: BlockPalette,
    field: Seq<bool>,
    blocks: BlockRegistry,
)
    requires
        chunk.wf(),
        filled(chunk, palette, field),
        blocks.defines(palette.stone),
        blocks.defines(palette.dirt),
        blocks.defines(palette.grass),
    ensures
        is_known(chunk, blocks),
{
    crate::world::block::air_is_index_zero();
    chunk.wf_means_full();
    assert forall|i: int| 0 <= i < chunk@.len() implies (#[trigger] chunk@[i]).is_air()
        || blocks.defines(chunk@[i]) by {
        let x = i % 32;
        let z = i / 32 % 32;
        let y = i / 1024;
        assert(block_index(x, y, z) == i);
        assert(in_chunk(x, y, z));
        assert(chunk.block(x, y, z) == material(palette, field, x, y, z));
    }
}

/// Whether a command writes nothing but air or the block that is placed.
spec fn is_safe(command: Command, place: BlockId) -> bool {
    match command {
        Command::Place { block, .. } => block == place,
        _ => true,
    }
}

proof fn stays_known(before: World, after: World, command: Command, touched: Seq<ChunkPos>, place: BlockId)
    requires
        before.wf(),
        before.knows_its_blocks(),
        before.blocks().defines(place),
        is_safe(command, place),
        carried_out(before, after, command, touched),
    ensures
        after.knows_its_blocks(),
{
    crate::world::block::air_is_index_zero();
    match before.asked(command) {
        Some((w, id)) => {
            if before.writes(w, id) {
                before.filed_chunks_are_sound(ChunkPos::of_world(w));
                a_known_block_keeps_the_world_known(before, after, w, id);
            } else {
                same_world_is_known(before, after);
            }
        },
        None => {
            same_world_is_known(before, after);
        },
    }
}

proof fn same_world_is_known(before: World, after: World)
    requires
        before.knows_its_blocks(),
        after@ == before@,
        after.blocks() == before.blocks(),
    ensures
        after.knows_its_blocks(),
{
    assert forall|w: Seq<i32>| w.len() == 3 implies #[trigger] after.known_at(w) by {
        assert(before.known_at(w));
    }
}

proof fn same_joined(a: Seq<Seq<ChunkPos>>, b: Seq<Seq<ChunkPos>>, n: int)
    requires
        0 <= n <= a.len(),
        a.len() <= b.len(),
        forall|i: int| 0 <= i < a.len() ==> a[i] == b[i],
    ensures
        joined(a, n) == joined(b, n),
    decreases n,
{
    if n > 0 {
        same_joined(a, b, n - 1);
    }
}

proof fn comes_from(
    world: Map<ChunkPos, Chunk>,
    slots: Seq<Slot>,
    chunks: Seq<Arc<Chunk>>,
    n: int,
    pos: ChunkPos,
)
    requires
        0 <= n <= chunks.len(),
        world_after_generated(world, slots, chunks, n).contains_key(pos),
    ensures
        ({
            let chunk = world_after_generated(world, slots, chunks, n)[pos];
            ||| world.contains_key(pos) && chunk == world[pos]
            ||| exists|i: int| 0 <= i < chunks.len() && *#[trigger] chunks[i] == chunk
        }),
    decreases n,
{
    if n > 0 {
        let before = world_after_generated(world, slots, chunks, n - 1);
        let chunk = chunks[n - 1];
        if is_in(after_generated(slots, chunks, n - 1), chunk.at(), SlotState::Generating) && pos
            == chunk.at() {
            assert(*chunks[n - 1] == world_after_generated(world, slots, chunks, n)[pos]);
        } else {
            comes_from(world, slots, chunks, n - 1, pos);
        }
    }
}

/// What is broken is a solid block, and what is placed goes into a cell that is not solid, next to a solid
/// block. Without such a block, and for every other intent, there is no command.
pub proof fn a_command_fits_what_is_pointed_at(
    world: &World,
    intent: Intent,
    start: Seq<i32>,
    crossings: Seq<Crossing>,
    place: BlockId,
    command: Command,
)
    requires
        start.len() == 3,
        stays_in_space(start, crossings),
        forall|i: int| 0 <= i < crossings.len() ==> (#[trigger] crossings[i]).axis < 3,
        is_command_for(world, intent, start, crossings, place, Some(command)),
    ensures
        intent == Intent::Break || intent == Intent::Place,
        intent == Intent::Break ==> (command matches Command::Break { pos } && world.solid_at(pos@)),
        intent == Intent::Place ==> (command matches Command::Place { pos, block } && block == place
            && !world.solid_at(pos@) && exists|beside: Seq<i32>|
            beside.len() == 3 && #[trigger] world.solid_at(beside) && (beside[0] - pos@[0]) * (beside[0] - pos@[0])
                + (beside[1] - pos@[1]) * (beside[1] - pos@[1]) + (beside[2] - pos@[2]) * (beside[2] - pos@[2])
                == 1),
{
    let i = choose|i: int| #[trigger] meets_at(world, start, crossings, i) && match intent {
        Intent::Break => command matches Command::Break { pos } && pos@ == cell_after(start, crossings, i + 1),
        Intent::Place => command matches Command::Place { pos, block } && pos@ == cell_after(start, crossings, i)
            && block == place,
        _ => false,
    };
    let here = cell_after(start, crossings, i);
    let next = cell_after(start, crossings, i + 1);
    assert(!world.solid_at(here));
    assert(world.solid_at(next));
    assert forall|axis: int| 0 <= axis < 3 implies next[axis] - here[axis] == crossings[i].shift(axis) by {
        assert(i32::MIN <= coordinate_after(start, crossings, i, axis) <= i32::MAX);
        assert(i32::MIN <= coordinate_after(start, crossings, i + 1, axis) <= i32::MAX);
    }
    let (dx, dy, dz) = (next[0] - here[0], next[1] - here[1], next[2] - here[2]);
    assert(crossings[i].axis < 3);
    assert(dx * dx + dy * dy + dz * dz == 1) by (nonlinear_arith)
        requires
            (dx == 1 || dx == -1) && dy == 0 && dz == 0 || (dy == 1 || dy == -1) && dx == 0 && dz == 0 || (dz
                == 1 || dz == -1) && dx == 0 && dy == 0,
    ;
}

/// Breaking takes away a block that is there and nothing else; placing fills a cell of air and nothing
/// else. Where there is nothing to break, no air to fill or no chunk, nothing changes and no chunk is
/// reported.
pub proof fn commands_change_what_they_are_meant_to(
    before: World,
    after: World,
    command: Command,
    touched: Seq<ChunkPos>,
    other: Seq<i32>,
)
    requires
        before.wf(),
        carried_out(before, after, command, touched),
        other.len() == 3,
    ensures
        command matches Command::Break { pos } ==> {
            &&& after.world_block(pos@) == BlockId::air()
            &&& before.world_block(pos@) != BlockId::air() <==> touched.len() > 0
            &&& other != pos@ ==> after.world_block(other) == before.world_block(other)
        },
        command matches Command::Place { pos, block } ==> {
            let free = before.world_block(pos@) == BlockId::air() && before@.contains_key(ChunkPos::of_world(pos@));
            &&& free ==> after.world_block(pos@) == block
            &&& !free ==> after.world_block(pos@) == before.world_block(pos@)
            &&& free && block != BlockId::air() <==> touched.len() > 0
            &&& other != pos@ ==> after.world_block(other) == before.world_block(other)
        },
        command is Entity ==> after@ == before@ && touched.len() == 0,
        touched.len() == 0 ==> after@ == before@,
{
    air_is_index_zero();
    let air = BlockId::air();
    match command {
        Command::Break { pos } => {
            if before.world_block(pos@).id() == 0 {
                block_is_its_index(before.world_block(pos@), air);
            } else {
                assert(before.writes(pos@, air));
                before.filed_chunks_are_sound(ChunkPos::of_world(pos@));
                write_is_read_back(before, after, pos@, air);
                if other != pos@ {
                    write_changes_no_other_block(before, after, pos@, air, other);
                }
            }
        },
        Command::Place { pos, block } => {
            if before.world_block(pos@).id() == 0 {
                block_is_its_index(before.world_block(pos@), air);
                if before.writes(pos@, block) {
                    before.filed_chunks_are_sound(ChunkPos::of_world(pos@));
                    write_is_read_back(before, after, pos@, block);
                    if other != pos@ {
                        write_changes_no_other_block(before, after, pos@, block, other);
                    }
                }
            }
        },
        Command::Entity(_) => {},
    }
}

/// Actions become commands in their order: an action is left out only if it neither breaks nor places or if
/// nothing is pointed at, and what stays is of its kind.
pub proof fn commands_follow_the_actions(
    world: &World,
    actions: Seq<Intent>,
    n: int,
    start: Seq<i32>,
    crossings: Seq<Crossing>,
    place: BlockId,
    commands: Seq<Command>,
)
    requires
        0 <= n <= actions.len(),
        are_commands_for(world, actions, n, start, crossings, place, commands),
    ensures
        ({
            let builds = |intent: Intent| intent == Intent::Break || intent == Intent::Place;
            let kept = actions.take(n).filter(builds);
            &&& meets_nothing(world, start, crossings) ==> commands.len() == 0
            &&& !meets_nothing(world, start, crossings) ==> commands.len() == kept.len() && forall|i: int|
                0 <= i < commands.len() ==> (kept[i] == Intent::Break <==> (#[trigger] commands[i]) is Break)
        }),
    decreases n,
{
    let builds = |intent: Intent| intent == Intent::Break || intent == Intent::Place;
    reveal(Seq::filter);
    if n > 0 {
        let before = actions.take(n - 1);
        let all = actions.take(n);
        assert(all.drop_last() =~= before);
        assert(all.last() == actions[n - 1]);
        if builds(actions[n - 1]) && !meets_nothing(world, start, crossings) {
            commands_follow_the_actions(world, actions, n - 1, start, crossings, place, commands.drop_last());
            let kept = all.filter(builds);
            assert(kept == before.filter(builds).push(actions[n - 1]));
            assert forall|i: int| 0 <= i < commands.len() implies (kept[i] == Intent::Break <==> (
            #[trigger] commands[i]) is Break) by {
                if i < commands.len() - 1 {
                    assert(commands.drop_last()[i] == commands[i]);
                    assert(kept[i] == before.filter(builds)[i]);
                } else {
                    assert(commands.last() == commands[i]);
                }
            }
        } else {
            commands_follow_the_actions(world, actions, n - 1, start, crossings, place, commands);
        }
    } else {
        assert(actions.take(0) =~= Seq::<Intent>::empty());
    }
}

} // verus!
