//! Intents, commands and the bus that dispatches them.

use lxlake::contract::command::{Command, EntityCommand, EntityId, Intent};
use lxlake::runtime::command::{CommandBus, CommandExecutor};
use lxlake::world::block::BlockId;
use lxlake::world::chunk::ChunkPos;

/// Claims the commands whose line starts with `accepts`.
struct Recorder {
    accepts: &'static str,
    seen: Vec<String>,
}

impl CommandExecutor for Recorder {
    fn execute(&mut self, command: &Command) -> Vec<ChunkPos> {
        let text = command.display();
        if !text.starts_with(self.accepts) {
            return Vec::new();
        }
        self.seen.push(text);
        vec![ChunkPos::new(0, 0, 0)]
    }
}

/// Claims nothing.
struct Refuser;

impl CommandExecutor for Refuser {
    fn execute(&mut self, _command: &Command) -> Vec<ChunkPos> {
        Vec::new()
    }
}

#[test]
fn axis_and_action_intents_are_separated() {
    assert!(Intent::MoveForward.is_axis());
    assert!(Intent::Boost.is_axis());
    for action in [Intent::Break, Intent::Place, Intent::Quit] {
        assert!(!action.is_axis(), "{action:?} is an action");
    }
}

#[test]
fn commands_print_as_one_line_each() {
    assert_eq!(Command::Break { pos: [1, -2, 3] }.display(), "break (1, -2, 3)");
    assert_eq!(
        Command::Place { pos: [1, -2, 3], block: BlockId::air() }.display(),
        "place (1, -2, 3) block#0"
    );
}

#[test]
fn entity_commands_print_as_one_line_each() {
    assert_eq!(
        Command::Entity(EntityCommand::Spawn { id: EntityId(7), kind: 3, pos: [1, -2, 30] }).display(),
        "spawn #7 kind=3 at (1, -2, 30)"
    );
    assert_eq!(
        Command::Entity(EntityCommand::Despawn { id: EntityId(u64::MAX) }).display(),
        "despawn #18446744073709551615"
    );
    assert_eq!(
        Command::Break { pos: [i32::MIN, 0, i32::MAX] }.display(),
        "break (-2147483648, 0, 2147483647)"
    );
}

#[test]
fn the_bus_keeps_what_was_queued_until_flushed() {
    let mut bus = CommandBus::new();
    assert!(bus.is_empty());

    bus.enqueue(Command::Break { pos: [1, 2, 3] });
    bus.enqueue(Command::Entity(EntityCommand::Despawn { id: EntityId(1) }));

    assert_eq!(bus.len(), 2);
    assert_eq!(bus.describe(), "break (1, 2, 3) | despawn #1");

    let mut recorder = Recorder { accepts: "break", seen: Vec::new() };
    let touched = bus.flush(&mut [&mut recorder]);

    assert_eq!(touched.len(), 1);
    assert_eq!(recorder.seen, vec!["break (1, 2, 3)".to_owned()]);
    assert!(bus.is_empty());
}

#[test]
fn commands_are_dispatched_in_the_order_they_were_queued() {
    let mut bus = CommandBus::new();
    for z in 0..5 {
        bus.enqueue(Command::Place { pos: [0, 0, z], block: BlockId::air() });
    }

    let mut recorder = Recorder { accepts: "place", seen: Vec::new() };
    bus.flush(&mut [&mut recorder]);

    assert_eq!(
        recorder.seen,
        (0..5).map(|z| format!("place (0, 0, {z}) block#0")).collect::<Vec<_>>()
    );
}

#[test]
fn unrecognized_commands_fall_through_to_the_next_executor() {
    let mut bus = CommandBus::new();
    bus.enqueue(Command::Entity(EntityCommand::Spawn { id: EntityId(2), kind: 1, pos: [0, 0, 0] }));
    bus.enqueue(Command::Break { pos: [0, 0, 0] });

    let mut refuser = Refuser;
    let mut entity = Recorder { accepts: "spawn", seen: Vec::new() };
    let touched = bus.flush(&mut [&mut refuser, &mut entity]);

    assert_eq!(entity.seen, vec!["spawn #2 kind=1 at (0, 0, 0)".to_owned()]);
    assert_eq!(touched.len(), 1);

    bus.enqueue(Command::Entity(EntityCommand::Despawn { id: EntityId(3) }));
    assert!(bus.flush(&mut [&mut refuser]).is_empty());
}

#[test]
fn the_first_executor_that_claims_a_command_wins() {
    let mut bus = CommandBus::new();
    bus.enqueue(Command::Break { pos: [0, 0, 0] });

    let mut first = Recorder { accepts: "break", seen: Vec::new() };
    let mut second = Recorder { accepts: "break", seen: Vec::new() };
    bus.flush(&mut [&mut first, &mut second]);

    assert_eq!(first.seen.len(), 1);
    assert!(second.seen.is_empty());
}

#[test]
fn flushing_an_empty_bus_does_nothing() {
    let mut bus = CommandBus::new();
    let mut recorder = Recorder { accepts: "", seen: Vec::new() };

    assert!(bus.flush(&mut [&mut recorder]).is_empty());
    assert!(recorder.seen.is_empty());

    bus.enqueue(Command::Break { pos: [0, 0, 0] });
    bus.clear();
    assert!(bus.is_empty());
}

#[test]
fn an_empty_bus_describes_itself_as_nothing() {
    assert_eq!(CommandBus::default().describe(), "");
}
