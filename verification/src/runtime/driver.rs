//! The driver of the event loop: what is to be done at each turn of it.
//!
//! The platform reports and the driver decides: which window a report is about, what applications
//! are told, when a frame is due, when to wake up next and when to leave. Making windows, calling
//! the application and waiting are left to the caller.

use crate::contract::event::{calls_for_a_frame, told, Event, RawEvent};
use crate::contract::window::{WindowId, WindowLabel};
use crate::runtime::clock::{advanced, due, has_room, since, Frame, FrameClock};
use crate::runtime::context::{any_due, deadlines, is_earliest, pumped_once, AppContext};
use crate::runtime::pump::Wakeup;
use crate::runtime::window::{consistent, no_windows, with_window, without_window, Window, Windows};
use vstd::prelude::*;

verus! {

/// What the platform calls a window, and what everyone else does.
#[derive(Debug, Clone, Copy, PartialEq, Eq, Structural)]
pub struct Translation {
    pub native: u64,
    pub id: WindowId,
}

/// What is to be done when the application comes to the front.
#[derive(Debug, Clone, Copy, PartialEq, Eq, Structural)]
pub struct Resume {
    /// Start the application up: only the first time.
    pub startup: bool,
    /// Make the declared windows: whenever there is none.
    pub create_windows: bool,
}

/// What is to be done about a report.
#[derive(Debug, Clone, Copy, PartialEq)]
pub enum Reaction<N> {
    /// Nothing.
    Ignore,
    /// Tell the application.
    Emit(Event<N>),
    /// Take the window down, tell the application, and see whether to leave.
    Close(WindowId),
}

/// When the event loop goes on.
#[derive(Debug, Clone, Copy, PartialEq, Eq, Structural)]
pub enum Flow {
    /// It ends.
    Exit,
    /// At once.
    Poll,
    /// At this moment, unless something happens before.
    WaitUntil(u64),
}

/// Drives an application through the event loop.
pub struct Driver<H, W> {
    context: AppContext<H, W>,
    clock: FrameClock,
    window_ids: Vec<Translation>,
    next_window_id: u64,
    started_once: bool,
    frame_pending: bool,
}

/// The window that the platform calls `native`.
pub open spec fn translated(table: Seq<Translation>, native: u64) -> Option<WindowId>
    decreases table.len(),
{
    if table.len() == 0 {
        None
    } else if table[0].native == native {
        Some(table[0].id)
    } else {
        translated(table.drop_first(), native)
    }
}

/// Whether a window has a translation.
pub open spec fn translates(table: Seq<Translation>, id: WindowId) -> bool {
    exists|i: int| 0 <= i < table.len() && (#[trigger] table[i]).id == id
}

/// The table without a window.
pub open spec fn forgotten(table: Seq<Translation>, id: WindowId) -> Seq<Translation>
    decreases table.len(),
{
    if table.len() == 0 {
        table
    } else {
        let before = forgotten(table.drop_last(), id);
        if table.last().id == id {
            before
        } else {
            before.push(table.last())
        }
    }
}

/// What is to be done about a report on the window that the platform calls `native`.
pub open spec fn reaction<N>(table: Seq<Translation>, native: u64, raw: RawEvent<N>) -> Reaction<N> {
    match translated(table, native) {
        None => Reaction::Ignore,
        Some(id) => if raw is CloseRequested {
            Reaction::Close(id)
        } else {
            match told(id, raw) {
                Some(event) => Reaction::Emit(event),
                None => Reaction::Ignore,
            }
        },
    }
}

/// When to wake up next: at the next frame or at the earliest deadline of a source, whichever comes
/// first; at once if frames are not paced.
pub open spec fn wakes_at(frame_due: Option<u64>, source_due: Option<u64>) -> Flow {
    match frame_due {
        None => Flow::Poll,
        Some(frame_due) => match source_due {
            Some(source_due) => Flow::WaitUntil(
                if source_due < frame_due {
                    source_due
                } else {
                    frame_due
                },
            ),
            None => Flow::WaitUntil(frame_due),
        },
    }
}

/// When to wake up next.
pub fn next_wake(frame_due: Option<u64>, source_due: Option<u64>) -> (flow: Flow)
    ensures
        flow == wakes_at(frame_due, source_due),
{
    match frame_due {
        None => Flow::Poll,
        Some(frame_due) => match source_due {
            Some(source_due) => Flow::WaitUntil(
                if source_due < frame_due {
                    source_due
                } else {
                    frame_due
                },
            ),
            None => Flow::WaitUntil(frame_due),
        },
    }
}

impl<H, W: Wakeup> Driver<H, W> {
    /// What the application and the runtime share.
    pub closed spec fn shared(&self) -> AppContext<H, W> {
        self.context
    }

    /// The frame clock.
    pub closed spec fn beat(&self) -> FrameClock {
        self.clock
    }

    /// The translations, in the order in which the windows were made.
    pub closed spec fn table(&self) -> Seq<Translation> {
        self.window_ids@
    }

    /// The identity of the next window.
    pub closed spec fn upcoming(&self) -> u64 {
        self.next_window_id
    }

    /// Whether the application was started up.
    pub closed spec fn started(&self) -> bool {
        self.started_once
    }

    /// Whether a frame is wanted at once.
    pub closed spec fn pending(&self) -> bool {
        self.frame_pending
    }

    /// The window tables are in order.
    pub open spec fn wf(&self) -> bool {
        self.shared().wf()
    }

    /// Everything but the flags and the clock is as in `other`.
    pub open spec fn same_windows(&self, other: &Self) -> bool {
        &&& self.shared() == other.shared()
        &&& self.table() == other.table()
        &&& self.upcoming() == other.upcoming()
    }

    pub fn new(context: AppContext<H, W>, interval: Option<u64>, now: u64) -> (driver: Self)
        requires
            context.wf(),
        ensures
            driver.wf(),
            driver.shared() == context,
            driver.beat()@.start == now,
            driver.beat()@.last == now,
            driver.beat()@.index == 0,
            driver.beat()@.next == now,
            driver.beat()@.target is Some == interval is Some,
            interval matches Some(target) ==> driver.beat()@.target == Some(target as int),
            driver.table() == Seq::<Translation>::empty(),
            driver.upcoming() == 0,
            !driver.started(),
            !driver.pending(),
    {
        Driver {
            context,
            clock: FrameClock::new(interval, now),
            window_ids: Vec::new(),
            next_window_id: 0,
            started_once: false,
            frame_pending: false,
        }
    }

    /// What the application and the runtime share.
    pub fn context(&self) -> (context: &AppContext<H, W>)
        ensures
            *context == self.shared(),
    {
        &self.context
    }

    /// What the application and the runtime share, to be changed.
    pub fn context_mut(&mut self) -> (context: &mut AppContext<H, W>)
        ensures
            *context == old(self).shared(),
            final(self).shared() == *final(context),
            final(self).beat() == old(self).beat(),
            final(self).table() == old(self).table(),
            final(self).upcoming() == old(self).upcoming(),
            final(self).started() == old(self).started(),
            final(self).pending() == old(self).pending(),
    {
        &mut self.context
    }

    /// The application comes to the front. Starting up happens once; windows are made whenever there
    /// is none, since going to the back may have taken them down.
    pub fn resumed(&mut self) -> (resume: Resume)
        requires
            old(self).wf(),
        ensures
            final(self).wf(),
            final(self).same_windows(old(self)),
            final(self).beat() == old(self).beat(),
            final(self).started(),
            final(self).pending(),
            resume.startup == !old(self).started(),
            resume.create_windows == (old(self).shared().registry()@.by_id.dom().len() == 0),
    {
        let startup = !self.started_once;
        self.started_once = true;
        self.frame_pending = true;
        Resume { startup, create_windows: self.context.window_count() == 0 }
    }

    /// The identity that the next window will have.
    pub fn next_id(&self) -> (id: WindowId)
        ensures
            id.0 == self.upcoming(),
    {
        WindowId(self.next_window_id)
    }

    /// A window was made: files it under its translation, its identity and its label.
    pub fn window_created(&mut self, native: u64, label: &WindowLabel, handle: H) -> (id: WindowId)
        requires
            old(self).wf(),
            old(self).upcoming() < u64::MAX,
        ensures
            final(self).wf(),
            id.0 == old(self).upcoming(),
            final(self).upcoming() == old(self).upcoming() + 1,
            final(self).table() == old(self).table().push(Translation { native, id }),
            final(self).shared().registry()@ == with_window(
                old(self).shared().registry()@,
                id,
                label@,
                handle,
            ),
            final(self).shared().sources() == old(self).shared().sources(),
            final(self).shared().waker() == old(self).shared().waker(),
            final(self).shared().leaving() == old(self).shared().leaving(),
            final(self).beat() == old(self).beat(),
            final(self).started() == old(self).started(),
            final(self).pending() == old(self).pending(),
    {
        let id = WindowId(self.next_window_id);
        self.next_window_id = self.next_window_id + 1;
        self.window_ids.push(Translation { native, id });
        self.context.insert_window(id, label, handle);
        id
    }

    /// First step of taking a window down: the platform's name for it means nothing any more. It is
    /// still registered, so that what hangs on it can be found and freed.
    pub fn forget_window(&mut self, id: WindowId)
        ensures
            final(self).table() == forgotten(old(self).table(), id),
            final(self).shared() == old(self).shared(),
            final(self).upcoming() == old(self).upcoming(),
            final(self).beat() == old(self).beat(),
            final(self).started() == old(self).started(),
            final(self).pending() == old(self).pending(),
    {
        let ghost table = self.window_ids@;
        let mut rest: Vec<Translation> = Vec::new();
        let mut i: usize = 0;
        assert(table.take(0) =~= Seq::<Translation>::empty());
        while i < self.window_ids.len()
            invariant
                i <= self.window_ids@.len(),
                *self == *old(self),
                self.window_ids@ == table,
                rest@ == forgotten(table.take(i as int), id),
            decreases self.window_ids@.len() - i,
        {
            let entry = self.window_ids[i];
            proof {
                assert(table.take(i + 1).drop_last() =~= table.take(i as int));
                assert(table.take(i + 1).last() == entry);
            }
            if entry.id != id {
                rest.push(entry);
            }
            i += 1;
        }
        assert(table.take(i as int) =~= table);
        self.window_ids = rest;
    }

    /// Second step of taking a window down: it is no longer registered.
    pub fn remove_window(&mut self, id: WindowId) -> (window: Option<Window<H>>)
        requires
            old(self).wf(),
        ensures
            final(self).wf(),
            final(self).shared().registry()@ == without_window(old(self).shared().registry()@, id),
            final(self).shared().sources() == old(self).shared().sources(),
            final(self).shared().waker() == old(self).shared().waker(),
            final(self).shared().leaving() == old(self).shared().leaving(),
            final(self).table() == old(self).table(),
            final(self).upcoming() == old(self).upcoming(),
            final(self).beat() == old(self).beat(),
            final(self).started() == old(self).started(),
            final(self).pending() == old(self).pending(),
            window is Some == old(self).shared().registry()@.by_id.contains_key(id),
            window matches Some(window) ==> {
                &&& window.ident() == id
                &&& (window.name(), window.native()) == old(self).shared().registry()@.by_id[id]
            },
    {
        self.context.remove_window(id)
    }

    /// Whether closing a window ends the event loop: only when it was the last one.
    pub fn exits_after_close(&self) -> (exit: bool)
        requires
            self.wf(),
        ensures
            exit == (self.shared().registry()@.by_id.dom().len() == 0),
    {
        self.context.window_count() == 0
    }

    /// The windows to take down when the application goes to the back, in the order in which they
    /// were made.
    pub fn suspended(&self) -> (ids: Vec<WindowId>)
        ensures
            ids@ == self.table().map_values(|entry: Translation| entry.id),
    {
        let mut ids: Vec<WindowId> = Vec::new();
        let mut i: usize = 0;
        while i < self.window_ids.len()
            invariant
                i <= self.window_ids@.len(),
                ids@ == self.window_ids@.take(i as int).map_values(|entry: Translation| entry.id),
            decreases self.window_ids@.len() - i,
        {
            ids.push(self.window_ids[i].id);
            assert(ids@ =~= self.window_ids@.take(i + 1).map_values(|entry: Translation| entry.id));
            i += 1;
        }
        assert(self.window_ids@.take(i as int) =~= self.window_ids@);
        ids
    }

    /// Takes every window down at the end.
    pub fn close_windows(&mut self)
        ensures
            final(self).wf(),
            final(self).table() == Seq::<Translation>::empty(),
            final(self).shared().registry()@ == no_windows::<H>(),
            final(self).shared().sources() == old(self).shared().sources(),
            final(self).shared().waker() == old(self).shared().waker(),
            final(self).shared().leaving() == old(self).shared().leaving(),
            final(self).upcoming() == old(self).upcoming(),
            final(self).beat() == old(self).beat(),
            final(self).started() == old(self).started(),
            final(self).pending() == old(self).pending(),
    {
        self.window_ids.clear();
        self.context.clear_windows();
    }

    fn translate(&self, native: u64) -> (id: Option<WindowId>)
        ensures
            id == translated(self.table(), native),
    {
        let ghost table = self.window_ids@;
        let mut i: usize = 0;
        assert(table.skip(0) =~= table);
        while i < self.window_ids.len()
            invariant
                i <= self.window_ids@.len(),
                table == self.window_ids@,
                translated(table, native) == translated(table.skip(i as int), native),
            decreases self.window_ids@.len() - i,
        {
            let entry = self.window_ids[i];
            proof {
                assert(table.skip(i as int)[0] == entry);
                assert(table.skip(i as int).drop_first() =~= table.skip(i + 1));
            }
            if entry.native == native {
                return Some(entry.id);
            }
            i += 1;
        }
        None
    }

    /// The platform reports something of a window. A report on a window that is not known is dropped;
    /// one that calls for a new picture asks for a frame at once.
    pub fn window_event<N>(&mut self, native: u64, event: RawEvent<N>) -> (todo: Reaction<N>)
        ensures
            todo == reaction(old(self).table(), native, event),
            final(self).same_windows(old(self)),
            final(self).beat() == old(self).beat(),
            final(self).started() == old(self).started(),
            final(self).pending() == (old(self).pending() || (translated(
                old(self).table(),
                native,
            ) is Some && calls_for_a_frame(event))),
    {
        match self.translate(native) {
            None => Reaction::Ignore,
            Some(id) => {
                if event.needs_frame() {
                    self.frame_pending = true;
                }
                let closes = matches!(event, RawEvent::CloseRequested);
                if closes {
                    Reaction::Close(id)
                } else {
                    match event.tell(id) {
                        Some(event) => Reaction::Emit(event),
                        None => Reaction::Ignore,
                    }
                }
            },
        }
    }

    fn pump_sources(&mut self, now: u64)
        ensures
            final(self).table() == old(self).table(),
            final(self).upcoming() == old(self).upcoming(),
            final(self).beat() == old(self).beat(),
            final(self).started() == old(self).started(),
            final(self).shared().registry() == old(self).shared().registry(),
            final(self).shared().waker() == old(self).shared().waker(),
            final(self).shared().leaving() == old(self).shared().leaving(),
            exists|answers: Seq<bool>| #[trigger]
                pumped_once(old(self).shared().sources(), final(self).shared().sources(), now, answers)
                    && final(self).pending() == (old(self).pending() || answers.contains(true)),
    {
        let ghost before = self.context.sources();
        let woke = self.context.pump_sources(now);
        proof {
            let answers = choose|answers: Seq<bool>| #[trigger]
                pumped_once(before, self.context.sources(), now, answers) && woke == answers.contains(true);
            assert(pumped_once(before, self.context.sources(), now, answers));
        }
        if woke {
            self.frame_pending = true;
        }
    }

    /// Another thread woke the event loop: a frame at once, and every source is pumped.
    pub fn user_event(&mut self, now: u64)
        ensures
            final(self).pending(),
            final(self).table() == old(self).table(),
            final(self).upcoming() == old(self).upcoming(),
            final(self).beat() == old(self).beat(),
            final(self).started() == old(self).started(),
            final(self).shared().registry() == old(self).shared().registry(),
            final(self).shared().waker() == old(self).shared().waker(),
            final(self).shared().leaving() == old(self).shared().leaving(),
            exists|answers: Seq<bool>| #[trigger]
                pumped_once(old(self).shared().sources(), final(self).shared().sources(), now, answers),
    {
        self.frame_pending = true;
        self.pump_sources(now);
    }

    /// Whether there is room for one more frame at `now`.
    pub fn can_advance(&self, now: u64) -> (yes: bool)
        ensures
            yes == has_room(self.beat()@, now as int),
    {
        self.clock.can_advance(now)
    }

    /// Nothing more to handle for now. If a source is due, every source is pumped; if then a frame is
    /// due, or wanted at once, it begins.
    pub fn about_to_wait(&mut self, now: u64) -> (frame: Option<Frame>)
        requires
            has_room(old(self).beat()@, now as int),
        ensures
            final(self).table() == old(self).table(),
            final(self).upcoming() == old(self).upcoming(),
            final(self).started() == old(self).started(),
            final(self).shared().registry() == old(self).shared().registry(),
            final(self).shared().waker() == old(self).shared().waker(),
            final(self).shared().leaving() == old(self).shared().leaving(),
            !final(self).pending(),
            !any_due(deadlines(old(self).shared().sources()), now) ==> {
                &&& final(self).shared().sources() == old(self).shared().sources()
                &&& frame is Some == (due(old(self).beat()@, now as int) || old(self).pending())
            },
            any_due(deadlines(old(self).shared().sources()), now) ==> exists|answers: Seq<bool>|
                {
                    &&& #[trigger] pumped_once(
                        old(self).shared().sources(),
                        final(self).shared().sources(),
                        now,
                        answers,
                    )
                    &&& frame is Some == (due(old(self).beat()@, now as int) || old(self).pending()
                        || answers.contains(true))
                },
            frame is None ==> final(self).beat() == old(self).beat(),
            frame matches Some(frame) ==> {
                &&& final(self).beat()@ == advanced(old(self).beat()@, now as int)
                &&& frame.index == old(self).beat()@.index
                &&& frame.delta == since(now as int, old(self).beat()@.last)
                &&& frame.elapsed == since(now as int, old(self).beat()@.start)
            },
    {
        if self.context.source_due(now) {
            self.pump_sources(now);
        }
        if self.clock.is_due(now) || self.frame_pending {
            self.frame_pending = false;
            Some(self.clock.advance(now))
        } else {
            None
        }
    }

    /// After the frame: leave, if that was asked for, or wait for what comes next.
    pub fn schedule(&mut self) -> (flow: Flow)
        ensures
            final(self).table() == old(self).table(),
            final(self).upcoming() == old(self).upcoming(),
            final(self).beat() == old(self).beat(),
            final(self).started() == old(self).started(),
            final(self).pending() == old(self).pending(),
            final(self).shared().registry() == old(self).shared().registry(),
            final(self).shared().sources() == old(self).shared().sources(),
            final(self).shared().waker() == old(self).shared().waker(),
            !final(self).shared().leaving(),
            old(self).shared().leaving() ==> flow == Flow::Exit,
            !old(self).shared().leaving() ==> exists|first: Option<u64>|
                {
                    &&& #[trigger] is_earliest(deadlines(old(self).shared().sources()), first)
                    &&& flow == wakes_at(
                        match old(self).beat()@.target {
                            Some(_) => Some(old(self).beat()@.next as u64),
                            None => None,
                        },
                        first,
                    )
                },
    {
        if self.context.take_exit_requested() {
            return Flow::Exit;
        }
        let first = self.context.next_source_deadline();
        assert(is_earliest(deadlines(old(self).shared().sources()), first));
        next_wake(self.clock.next_due(), first)
    }
}

/// Whether translations and registry speak of the same windows, all of them made already.
pub open spec fn windows_agree<H>(table: Seq<Translation>, windows: Windows<H>, upcoming: u64) -> bool {
    &&& forall|id: WindowId| #[trigger] windows.by_id.contains_key(id) == translates(table, id)
    &&& forall|id: WindowId| #[trigger] windows.by_id.contains_key(id) ==> id.0 < upcoming
}

proof fn forgetting_leaves_the_others(table: Seq<Translation>, id: WindowId, other: WindowId)
    ensures
        translates(forgotten(table, id), other) == (translates(table, other) && other != id),
    decreases table.len(),
{
    if table.len() > 0 {
        let less = table.drop_last();
        let last = table.last();
        forgetting_leaves_the_others(less, id, other);
        let before = forgotten(less, id);
        let after = forgotten(table, id);
        if translates(less, other) {
            let i = choose|i: int| 0 <= i < less.len() && (#[trigger] less[i]).id == other;
            assert(table[i].id == other);
        }
        if translates(before, other) {
            let i = choose|i: int| 0 <= i < before.len() && (#[trigger] before[i]).id == other;
            assert(after[i].id == other);
        }
        if last.id == other {
            assert(table[table.len() - 1].id == other);
            if last.id != id {
                assert(after[after.len() - 1].id == other);
            }
        }
        if translates(after, other) {
            let i = choose|i: int| 0 <= i < after.len() && (#[trigger] after[i]).id == other;
            if i < before.len() {
                assert(before[i].id == other);
            }
        }
        if translates(table, other) && last.id != other {
            let i = choose|i: int| 0 <= i < table.len() && (#[trigger] table[i]).id == other;
            assert(less[i].id == other);
        }
    }
}

/// A new window never takes the identity of one that is there, and making it keeps translations and
/// registry in agreement; with a label of its own, the registry stays consistent.
pub proof fn making_a_window_keeps_the_tables_in_agreement<H>(
    table: Seq<Translation>,
    windows: Windows<H>,
    upcoming: u64,
    native: u64,
    label: Seq<char>,
    handle: H,
)
    requires
        windows_agree(table, windows, upcoming),
        upcoming < u64::MAX,
    ensures
        ({
            let id = WindowId(upcoming);
            &&& !windows.by_id.contains_key(id)
            &&& windows_agree(
                table.push(Translation { native, id }),
                with_window(windows, id, label, handle),
                (upcoming + 1) as u64,
            )
            &&& consistent(windows) && !windows.by_label.contains_key(label) ==> consistent(
                with_window(windows, id, label, handle),
            )
        }),
{
    let id = WindowId(upcoming);
    let entry = Translation { native, id };
    let now = table.push(entry);
    let after = with_window(windows, id, label, handle);
    assert forall|other: WindowId| #[trigger] after.by_id.contains_key(other) == translates(now, other) by {
        assert(windows.by_id.contains_key(other) == translates(table, other));
        if translates(table, other) {
            let i = choose|i: int| 0 <= i < table.len() && (#[trigger] table[i]).id == other;
            assert(now[i].id == other);
        }
        if other == id {
            assert(now[table.len() as int].id == other);
        }
        if translates(now, other) {
            let i = choose|i: int| 0 <= i < now.len() && (#[trigger] now[i]).id == other;
            if i < table.len() {
                assert(table[i].id == other);
            }
        }
    }
    assert forall|other: WindowId| #[trigger] after.by_id.contains_key(other) implies other.0 < (upcoming
        + 1) as u64 by {
        if other != id {
            assert(windows.by_id.contains_key(other));
        }
    }
}

/// Taking a window down in both steps keeps translations and registry in agreement, and leaves no
/// trace of the window in either.
pub proof fn taking_a_window_down_leaves_no_trace<H>(
    table: Seq<Translation>,
    windows: Windows<H>,
    upcoming: u64,
    id: WindowId,
)
    requires
        windows_agree(table, windows, upcoming),
    ensures
        windows_agree(forgotten(table, id), without_window(windows, id), upcoming),
        !translates(forgotten(table, id), id),
        !without_window(windows, id).by_id.contains_key(id),
        consistent(windows) ==> consistent(without_window(windows, id)),
{
    let now = forgotten(table, id);
    let after = without_window(windows, id);
    assert forall|other: WindowId| #[trigger] after.by_id.contains_key(other) == translates(now, other) by {
        forgetting_leaves_the_others(table, id, other);
        assert(windows.by_id.contains_key(other) == translates(table, other));
    }
    forgetting_leaves_the_others(table, id, id);
    assert forall|other: WindowId| #[trigger] after.by_id.contains_key(other) implies other.0 < upcoming by {
        assert(windows.by_id.contains_key(other));
    }
    if consistent(windows) {
        crate::runtime::window::removing_keeps_the_tables_consistent(windows, id);
    }
}

/// The loop sleeps until the next frame or the earliest deadline of a source, whichever comes first, and
/// not at all if frames are not paced.
pub proof fn the_loop_wakes_for_what_comes_first(frame_due: Option<u64>, source_due: Option<u64>)
    ensures
        frame_due is None <==> wakes_at(frame_due, source_due) is Poll,
        frame_due is Some ==> (wakes_at(frame_due, source_due) matches Flow::WaitUntil(at) && at <= frame_due->0 && (
        source_due is Some ==> at <= source_due->0) && (at == frame_due->0 || source_due == Some(at))),
{
}

/// Reports on a window that is not known are ignored, a request to close one is answered by closing it, and
/// everything else that applications are told of reaches them under the identity of the window.
pub proof fn a_report_finds_its_window<N>(table: Seq<Translation>, native: u64, raw: RawEvent<N>)
    ensures
        (forall|i: int| 0 <= i < table.len() ==> (#[trigger] table[i]).native != native) ==> reaction(
            table,
            native,
            raw,
        ) is Ignore,
        forall|i: int|
            0 <= i < table.len() && (#[trigger] table[i]).native == native && (forall|j: int|
                0 <= j < i ==> (#[trigger] table[j]).native != native) ==> reaction(table, native, raw) == (if raw
                is CloseRequested {
                Reaction::Close(table[i].id)
            } else {
                match told(table[i].id, raw) {
                    Some(event) => Reaction::Emit(event),
                    None => Reaction::Ignore,
                }
            }),
{
    if forall|i: int| 0 <= i < table.len() ==> (#[trigger] table[i]).native != native {
        not_translated(table, native);
    }
    assert forall|i: int|
        0 <= i < table.len() && (#[trigger] table[i]).native == native && (forall|j: int|
            0 <= j < i ==> (#[trigger] table[j]).native != native) implies translated(table, native) == Some(
        table[i].id,
    ) by {
        first_translated(table, native, i);
    }
}

proof fn not_translated(table: Seq<Translation>, native: u64)
    requires
        forall|i: int| 0 <= i < table.len() ==> (#[trigger] table[i]).native != native,
    ensures
        translated(table, native) is None,
    decreases table.len(),
{
    if table.len() > 0 {
        let rest = table.drop_first();
        assert forall|i: int| 0 <= i < rest.len() implies (#[trigger] rest[i]).native != native by {
            assert(rest[i] == table[i + 1]);
        }
        not_translated(rest, native);
    }
}

proof fn first_translated(table: Seq<Translation>, native: u64, i: int)
    requires
        0 <= i < table.len(),
        table[i].native == native,
        forall|j: int| 0 <= j < i ==> (#[trigger] table[j]).native != native,
    ensures
        translated(table, native) == Some(table[i].id),
    decreases i,
{
    if i > 0 {
        let rest = table.drop_first();
        assert forall|j: int| 0 <= j < i - 1 implies (#[trigger] rest[j]).native != native by {
            assert(rest[j] == table[j + 1]);
        }
        assert(table[0].native != native);
        assert(rest[i - 1] == table[i]);
        first_translated(rest, native, i - 1);
    }
}

} // verus!
