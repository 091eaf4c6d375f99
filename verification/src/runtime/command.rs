//! The command bus: commands gather during a frame and are carried out in order at its end.
//!
//! The bus owns no executor. They are handed over when the queue is flushed, in order of priority.

use crate::contract::command::Command;
use crate::world::chunk::ChunkPos;
use vstd::prelude::*;
use vstd::string::StringExecFns;

verus! {

/// Carries commands out.
///
/// An executor that does not know a command, or has nothing to change for it, answers with
/// nothing: the bus then asks the next one.
pub trait CommandExecutor {
    /// The commands that the executor was asked to carry out, each with its answer.
    open spec fn log(&self) -> Seq<(Command, Seq<ChunkPos>)> {
        arbitrary()
    }

    /// Whether the executor can carry commands out.
    open spec fn ready(&self) -> bool {
        true
    }

    /// Carries a command out and returns the chunks whose geometry can change with it.
    fn execute(&mut self, command: &Command) -> (touched: Vec<ChunkPos>)
        requires
            old(self).ready(),
        ensures
            final(self).ready(),
            final(self).log() == old(self).log().push((*command, touched@)),
    ;
}

/// Whether these are the answers to one command from the first of `n` executors: they are asked in
/// turn until one answers with something.
pub open spec fn asked_in_turn(answers: Seq<Seq<ChunkPos>>, n: nat) -> bool {
    &&& answers.len() <= n
    &&& forall|i: int| 0 <= i < answers.len() - 1 ==> (#[trigger] answers[i]).len() == 0
    &&& answers.len() < n ==> answers.len() > 0 && answers.last().len() > 0
}

/// What came of one command: the last answer, since all before it are empty.
pub open spec fn outcome(answers: Seq<Seq<ChunkPos>>) -> Seq<ChunkPos> {
    if answers.len() == 0 {
        Seq::empty()
    } else {
        answers.last()
    }
}

/// What came of all commands, in order.
pub open spec fn outcomes(answers: Seq<Seq<Seq<ChunkPos>>>) -> Seq<ChunkPos>
    decreases answers.len(),
{
    if answers.len() == 0 {
        Seq::empty()
    } else {
        outcomes(answers.drop_last()) + outcome(answers.last())
    }
}

/// What executor `i` hears of the commands: those that it is asked about, in order, each with its
/// answer.
pub open spec fn heard(
    commands: Seq<Command>,
    answers: Seq<Seq<Seq<ChunkPos>>>,
    i: int,
) -> Seq<(Command, Seq<ChunkPos>)>
    decreases answers.len(),
{
    if answers.len() == 0 {
        Seq::empty()
    } else {
        let before = heard(commands, answers.drop_last(), i);
        let last = answers.last();
        if i < last.len() {
            before.push((commands[answers.len() - 1], last[i]))
        } else {
            before
        }
    }
}

/// Whether flushing `commands` to executors with these logs gave these answers.
pub open spec fn dispatched(
    commands: Seq<Command>,
    answers: Seq<Seq<Seq<ChunkPos>>>,
    before: Seq<Seq<(Command, Seq<ChunkPos>)>>,
    after: Seq<Seq<(Command, Seq<ChunkPos>)>>,
) -> bool {
    &&& answers.len() == commands.len()
    &&& after.len() == before.len()
    &&& forall|k: int| 0 <= k < answers.len() ==> asked_in_turn(#[trigger] answers[k], before.len())
    &&& forall|i: int|
        0 <= i < before.len() ==> #[trigger] after[i] == before[i] + heard(commands, answers, i)
}

/// The logs of a list of executors.
pub open spec fn logs(executors: Seq<&mut dyn CommandExecutor>) -> Seq<
    Seq<(Command, Seq<ChunkPos>)>,
> {
    Seq::new(executors.len(), |i: int| (*executors[i]).log())
}

/// Whether all executors of a list can carry commands out.
pub open spec fn all_ready(executors: Seq<&mut dyn CommandExecutor>) -> bool {
    forall|i: int| 0 <= i < executors.len() ==> (*#[trigger] executors[i]).ready()
}

/// The lines of the first `n` commands, separated by ` | `.
pub open spec fn described(commands: Seq<Command>, n: int) -> Seq<char>
    decreases n,
{
    if n <= 0 {
        Seq::empty()
    } else if n == 1 {
        commands[0].shown()
    } else {
        described(commands, n - 1) + " | "@ + commands[n - 1].shown()
    }
}

/// Commands that wait for the end of the frame.
pub struct CommandBus {
    queued: Vec<Command>,
}

impl View for CommandBus {
    type V = Seq<Command>;

    closed spec fn view(&self) -> Seq<Command> {
        self.queued@
    }
}

impl Default for CommandBus {
    fn default() -> (bus: Self)
        ensures
            bus@ == Seq::<Command>::empty(),
    {
        CommandBus::new()
    }
}

impl CommandBus {
    pub fn new() -> (bus: Self)
        ensures
            bus@ == Seq::<Command>::empty(),
    {
        CommandBus { queued: Vec::new() }
    }

    /// Queues a command.
    pub fn enqueue(&mut self, command: Command)
        ensures
            final(self)@ == old(self)@.push(command),
    {
        self.queued.push(command);
    }

    /// Number of queued commands.
    pub fn len(&self) -> (n: usize)
        ensures
            n == self@.len(),
    {
        self.queued.len()
    }

    pub fn is_empty(&self) -> (empty: bool)
        ensures
            empty == (self@.len() == 0),
    {
        self.queued.len() == 0
    }

    /// Drops what is queued.
    pub fn clear(&mut self)
        ensures
            final(self)@ == Seq::<Command>::empty(),
    {
        self.queued.clear();
    }

    /// The queued commands on one line, separated by ` | `.
    pub fn describe(&self) -> (line: String)
        ensures
            line@ == described(self@, self@.len() as int),
    {
        let mut line = String::new();
        let mut i: usize = 0;
        while i < self.queued.len()
            invariant
                i <= self.queued@.len(),
                line@ == described(self.queued@, i as int),
            decreases self.queued@.len() - i,
        {
            if i > 0 {
                line.append(" | ");
            }
            let shown = self.queued[i].display();
            line.append(shown.as_str());
            assert(i == 0 ==> line@ =~= shown@);
            i += 1;
        }
        line
    }

    /// Hands the queued commands, in order, to the executors, and returns the chunks whose geometry
    /// can change.
    ///
    /// The first executor that answers with something has claimed the command; the others are not
    /// asked. A command that nobody claims is dropped. The queue is empty afterwards.
    pub fn flush(&mut self, executors: &mut [&mut dyn CommandExecutor]) -> (dirty: Vec<ChunkPos>)
        requires
            all_ready(old(executors)@),
        ensures
            all_ready(final(executors)@),
            final(self)@ == Seq::<Command>::empty(),
            exists|answers: Seq<Seq<Seq<ChunkPos>>>| #[trigger]
                dispatched(
                    old(self)@,
                    answers,
                    logs(old(executors)@),
                    logs(final(executors)@),
                ) && dirty@ == outcomes(answers),
    {
        let mut queued: Vec<Command> = Vec::new();
        std::mem::swap(&mut queued, &mut self.queued);
        let ghost commands = queued@;
        let ghost before = logs(executors@);
        let ghost mut answers: Seq<Seq<Seq<ChunkPos>>> = Seq::empty();
        let mut dirty: Vec<ChunkPos> = Vec::new();
        let mut k: usize = 0;
        while k < queued.len()
            invariant
                k <= queued@.len(),
                queued@ == commands,
                answers.len() == k,
                executors@.len() == before.len(),
                all_ready(executors@),
                forall|j: int|
                    0 <= j < answers.len() ==> asked_in_turn(#[trigger] answers[j], before.len()),
                forall|i: int|
                    0 <= i < before.len() ==> #[trigger] logs(executors@)[i] == before[i] + heard(
                        commands,
                        answers,
                        i,
                    ),
                dirty@ == outcomes(answers),
            decreases queued@.len() - k,
        {
            let command = queued[k];
            let ghost mark = logs(executors@);
            let ghost mut replies: Seq<Seq<ChunkPos>> = Seq::empty();
            let mut claimed = false;
            let mut i: usize = 0;
            while i < executors.len() && !claimed
                invariant
                    i <= executors@.len(),
                    executors@.len() == before.len(),
                    all_ready(executors@),
                    mark.len() == before.len(),
                    replies.len() == i,
                    forall|j: int|
                        0 <= j < replies.len() - 1 ==> (#[trigger] replies[j]).len() == 0,
                    claimed ==> replies.len() > 0 && replies.last().len() > 0,
                    !claimed ==> (replies.len() > 0 ==> replies.last().len() == 0),
                    forall|j: int|
                        0 <= j < before.len() ==> #[trigger] logs(executors@)[j] == (if j < i {
                            mark[j].push((command, replies[j]))
                        } else {
                            mark[j]
                        }),
                    dirty@ == outcomes(answers) + outcome(replies),
                decreases executors@.len() - i,
            {
                let ghost held = logs(executors@);
                let mut touched = executors[i].execute(&command);
                let ghost reply = touched@;
                proof {
                    replies = replies.push(reply);
                    assert forall|j: int| 0 <= j < before.len() implies #[trigger] logs(
                        executors@,
                    )[j] == (if j < i + 1 {
                        mark[j].push((command, replies[j]))
                    } else {
                        mark[j]
                    }) by {
                        assert(held[j] == (if j < i {
                            mark[j].push((command, replies[j]))
                        } else {
                            mark[j]
                        }));
                    }
                }
                if touched.len() > 0 {
                    dirty.append(&mut touched);
                    claimed = true;
                }
                assert(dirty@ =~= outcomes(answers) + outcome(replies));
                i += 1;
            }
            proof {
                let longer = answers.push(replies);
                assert(longer.drop_last() =~= answers);
                assert(asked_in_turn(replies, before.len()));
                assert forall|j: int| 0 <= j < before.len() implies #[trigger] logs(
                    executors@,
                )[j] == before[j] + heard(commands, longer, j) by {
                    assert(mark[j] == before[j] + heard(commands, answers, j));
                    if j < replies.len() {
                        assert((before[j] + heard(commands, answers, j)).push(
                            (command, replies[j]),
                        ) =~= before[j] + heard(commands, answers, j).push((command, replies[j])));
                    }
                }
                answers = longer;
            }
            k += 1;
        }
        proof {
            assert(commands == old(self)@);
            assert(before == logs(old(executors)@));
            assert(dispatched(old(self)@, answers, logs(old(executors)@), logs(executors@)));
            assert(dirty@ == outcomes(answers));
            assert(logs(executors@) == logs(final(executors)@));
        }
        dirty
    }
}

/// At most one executor changes anything for a command: no command is carried out twice.
pub proof fn a_command_is_claimed_once(answers: Seq<Seq<ChunkPos>>, n: nat, i: int, j: int)
    requires
        asked_in_turn(answers, n),
        0 <= i < answers.len(),
        0 <= j < answers.len(),
        answers[i].len() > 0,
        answers[j].len() > 0,
    ensures
        i == j,
        outcome(answers) == answers[i],
{
}

/// The first executor hears every command, in the order in which they were queued.
pub proof fn the_first_executor_hears_all_in_order(
    commands: Seq<Command>,
    answers: Seq<Seq<Seq<ChunkPos>>>,
    n: nat,
)
    requires
        n > 0,
        answers.len() <= commands.len(),
        forall|k: int| 0 <= k < answers.len() ==> asked_in_turn(#[trigger] answers[k], n),
    ensures
        heard(commands, answers, 0).len() == answers.len(),
        forall|k: int|
            0 <= k < answers.len() ==> (#[trigger] heard(commands, answers, 0)[k]).0 == commands[k],
    decreases answers.len(),
{
    if answers.len() > 0 {
        let before = answers.drop_last();
        assert forall|k: int| 0 <= k < before.len() implies asked_in_turn(
            #[trigger] before[k],
            n,
        ) by {
            assert(before[k] == answers[k]);
        }
        the_first_executor_hears_all_in_order(commands, before, n);
        assert(asked_in_turn(answers[answers.len() - 1], n));
    }
}

/// An executor hears a command only if all before it had nothing to answer.
pub proof fn a_later_executor_hears_what_is_left(answers: Seq<Seq<ChunkPos>>, n: nat, i: int, j: int)
    requires
        asked_in_turn(answers, n),
        0 <= i < j < answers.len(),
    ensures
        answers[i].len() == 0,
{
}

/// What comes of a queue is what comes of its first part, then of the rest.
pub proof fn outcomes_follow_the_queue(
    first: Seq<Seq<Seq<ChunkPos>>>,
    rest: Seq<Seq<Seq<ChunkPos>>>,
)
    ensures
        outcomes(first + rest) == outcomes(first) + outcomes(rest),
    decreases rest.len(),
{
    if rest.len() == 0 {
        assert(first + rest =~= first);
        assert(outcomes(first) + outcomes(rest) =~= outcomes(first));
    } else {
        let all = first + rest;
        assert(all.drop_last() =~= first + rest.drop_last());
        outcomes_follow_the_queue(first, rest.drop_last());
        assert((outcomes(first) + outcomes(rest.drop_last())) + outcome(rest.last()) =~= outcomes(
            first,
        ) + (outcomes(rest.drop_last()) + outcome(rest.last())));
    }
}

/// Commands are described one after the other with a bar between each two, and the description of a queue begins
/// with that of its first part.
pub proof fn commands_are_described_in_turn(commands: Seq<Command>, n: int, m: int)
    requires
        1 <= n <= m <= commands.len(),
    ensures
        described(commands, 1) == commands[0].shown(),
        n < commands.len() ==> described(commands, n + 1) == described(commands, n) + " | "@ + commands[n].shown(),
        described(commands, n).is_prefix_of(described(commands, m)),
    decreases m - n,
{
    if n < m {
        commands_are_described_in_turn(commands, n, m - 1);
        let (a, b, c) = (described(commands, n), described(commands, m - 1), described(commands, m));
        assert(c == b + " | "@ + commands[m - 1].shown());
        assert(a =~= c.take(a.len() as int)) by {
            assert(a =~= b.take(a.len() as int));
        }
    } else {
        let a = described(commands, n);
        assert(a =~= a.take(a.len() as int));
    }
}

} // verus!
