//! Intents and commands.
//!
//! An intent knows neither a device nor a world coordinate. A command is plain data with its
//! target resolved: it can be recorded, replayed and sent.

use crate::text::{decimal, push_decimal, push_signed, signed_decimal};
use crate::world::block::BlockId;
use vstd::prelude::*;
use vstd::string::StringExecFns;

verus! {

/// What the user wants, independent of the device it came from.
#[derive(Debug, Clone, Copy, PartialEq, Eq, Hash, Structural)]
pub enum Intent {
    MoveForward,
    MoveBackward,
    MoveRight,
    MoveLeft,
    Ascend,
    Descend,
    Boost,
    /// Break the block under the crosshair.
    Break,
    /// Place a block on the face under the crosshair.
    Place,
    /// Leave the application.
    Quit,
}

impl Intent {
    /// Actions fire once when pressed; every other intent is an axis and holds while pressed.
    pub open spec fn acts(self) -> bool {
        self == Intent::Break || self == Intent::Place || self == Intent::Quit
    }

    /// Whether this is an axis intent: in effect while held, and no command by itself.
    pub fn is_axis(self) -> (axis: bool)
        ensures
            axis == !self.acts(),
    {
        matches!(
            self,
            Intent::MoveForward
                | Intent::MoveBackward
                | Intent::MoveRight
                | Intent::MoveLeft
                | Intent::Ascend
                | Intent::Descend
                | Intent::Boost
        )
    }
}

/// Identity of an entity.
#[derive(Debug, Clone, Copy, PartialEq, Eq, Hash, PartialOrd, Ord, Structural)]
pub struct EntityId(pub u64);

/// Commands that concern entities, not blocks. Positions are whole blocks.
#[derive(Debug, Clone, Copy, PartialEq, Eq)]
pub enum EntityCommand {
    Spawn { id: EntityId, kind: u32, pos: [i32; 3] },
    Despawn { id: EntityId },
}

/// A command: plain data with its target resolved.
#[derive(Debug, Clone, Copy, PartialEq, Eq)]
pub enum Command {
    /// Turn the block at `pos` into air.
    Break { pos: [i32; 3] },
    /// Put `block` at `pos`.
    Place { pos: [i32; 3], block: BlockId },
    /// Something for the entity store.
    Entity(EntityCommand),
}

/// `(x, y, z)`.
pub open spec fn shown_triple(pos: Seq<i32>) -> Seq<char> {
    seq!['('] + signed_decimal(pos[0] as int) + seq![',', ' '] + signed_decimal(pos[1] as int)
        + seq![',', ' '] + signed_decimal(pos[2] as int) + seq![')']
}

fn push_triple(s: &mut String, pos: [i32; 3])
    ensures
        final(s)@ == old(s)@ + shown_triple(pos@),
{
    s.push('(');
    push_signed(s, pos[0] as i64);
    s.push(',');
    s.push(' ');
    push_signed(s, pos[1] as i64);
    s.push(',');
    s.push(' ');
    push_signed(s, pos[2] as i64);
    s.push(')');
    proof {
        let a = signed_decimal(pos@[0] as int);
        let b = signed_decimal(pos@[1] as int);
        let c = signed_decimal(pos@[2] as int);
        assert(s@ =~= old(s)@ + (seq!['('] + a + seq![',', ' '] + b + seq![',', ' '] + c + seq![
            ')',
        ]));
    }
}

impl EntityCommand {
    /// One line: `spawn #ID kind=K at (x, y, z)` or `despawn #ID`.
    pub open spec fn shown(self) -> Seq<char> {
        match self {
            EntityCommand::Spawn { id, kind, pos } => "spawn #"@ + decimal(id.0 as nat) + " kind="@
                + decimal(kind as nat) + " at "@ + shown_triple(pos@),
            EntityCommand::Despawn { id } => "despawn #"@ + decimal(id.0 as nat),
        }
    }

    /// The command on one line.
    pub fn display(&self) -> (s: String)
        ensures
            s@ == self.shown(),
    {
        match *self {
            EntityCommand::Spawn { id, kind, pos } => {
                let mut s = "spawn #".to_owned();
                push_decimal(&mut s, id.0);
                s.append(" kind=");
                push_decimal(&mut s, kind as u64);
                s.append(" at ");
                push_triple(&mut s, pos);
                s
            },
            EntityCommand::Despawn { id } => {
                let mut s = "despawn #".to_owned();
                push_decimal(&mut s, id.0);
                s
            },
        }
    }
}

impl Command {
    /// One line: `break (x, y, z)`, `place (x, y, z) block#N`, or the entity command's line.
    pub open spec fn shown(self) -> Seq<char> {
        match self {
            Command::Break { pos } => "break "@ + shown_triple(pos@),
            Command::Place { pos, block } => "place "@ + shown_triple(pos@) + " "@ + block.shown(),
            Command::Entity(entity) => entity.shown(),
        }
    }

    /// The command on one line.
    pub fn display(&self) -> (s: String)
        ensures
            s@ == self.shown(),
    {
        match *self {
            Command::Break { pos } => {
                let mut s = "break ".to_owned();
                push_triple(&mut s, pos);
                s
            },
            Command::Place { pos, block } => {
                let mut s = "place ".to_owned();
                push_triple(&mut s, pos);
                s.append(" ");
                let shown = block.display();
                s.append(shown.as_str());
                s
            },
            Command::Entity(entity) => entity.display(),
        }
    }
}

} // verus!
