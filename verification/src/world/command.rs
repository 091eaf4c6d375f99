//! The executor that carries commands out on a world.

use crate::contract::command::Command;
use crate::runtime::command::CommandExecutor;
use crate::world::chunk::ChunkPos;
use crate::world::store::touched_by;
use crate::world::World;
use vstd::prelude::*;

verus! {

/// A borrowed world that commands are carried out on. Entity commands are left to others.
pub struct WorldExecutor<'a> {
    pub world: &'a mut World,
    pub history: Ghost<Seq<(Command, Seq<ChunkPos>)>>,
}

impl<'a> WorldExecutor<'a> {
    /// The world as it is now.
    pub open spec fn target(&self) -> World {
        *self.world
    }

    pub fn new(world: &'a mut World) -> (executor: Self)
        ensures
            executor.target() == *old(world),
            *final(executor.world) == *final(world),
            executor.log() == Seq::<(Command, Seq<ChunkPos>)>::empty(),
    {
        WorldExecutor { world, history: Ghost(Seq::empty()) }
    }

    /// The world, to read or to change.
    pub fn world_mut(&mut self) -> (world: &mut World)
        ensures
            *world == old(self).target(),
            final(self).target() == *final(world),
            final(self).log() == old(self).log(),
            *final(final(self).world) == *final(old(self).world),
    {
        self.world
    }
}

impl<'a> CommandExecutor for WorldExecutor<'a> {
    open spec fn log(&self) -> Seq<(Command, Seq<ChunkPos>)> {
        self.history@
    }

    open spec fn ready(&self) -> bool {
        self.world.wf()
    }

    fn execute(&mut self, command: &Command) -> (touched: Vec<ChunkPos>)
        ensures
            *final(final(self).world) == *final(old(self).world),
            final(self).target().blocks() == old(self).target().blocks(),
            (match old(self).target().asked(*command) {
                Some((w, id)) => if old(self).target().writes(w, id) {
                    &&& touched@ == touched_by(w)
                    &&& World::written(old(self).target()@, final(self).target()@, w, id)
                } else {
                    &&& touched@ == Seq::<ChunkPos>::empty()
                    &&& final(self).target()@ == old(self).target()@
                },
                None => {
                    &&& touched@ == Seq::<ChunkPos>::empty()
                    &&& final(self).target()@ == old(self).target()@
                },
            }),
    {
        let touched = if matches!(command, Command::Entity(_)) {
            Vec::new()
        } else {
            self.world.apply(command)
        };
        proof {
            self.history@ = self.history@.push((*command, touched@));
        }
        touched
    }
}

} // verus!
