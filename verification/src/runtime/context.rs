//! The context of an application: its windows, its event sources and whether it wants to leave.

use crate::contract::window::{WindowId, WindowLabel};
use crate::runtime::pump::{EventSource, NoWakeup, PumpContext, Wakeup};
use crate::runtime::window::{no_windows, with_window, without_window, Window, WindowRegistry};
use std::sync::Arc;
use vstd::prelude::*;

verus! {

/// What an application and the runtime share.
pub struct AppContext<H, W> {
    windows: WindowRegistry<H>,
    sources: Vec<Box<dyn EventSource>>,
    wakeup: Option<Arc<W>>,
    exit_requested: bool,
}

/// The deadlines of the sources.
pub open spec fn deadlines(sources: Seq<Box<dyn EventSource>>) -> Seq<Option<u64>> {
    sources.map_values(|source: Box<dyn EventSource>| source.deadline())
}

/// Whether a source is due at `now`.
pub open spec fn any_due(deadlines: Seq<Option<u64>>, now: u64) -> bool {
    exists|i: int| 0 <= i < deadlines.len() && (#[trigger] deadlines[i] matches Some(due) && due <= now)
}

/// Whether `first` is the earliest of the deadlines; none if there is no deadline.
pub open spec fn is_earliest(deadlines: Seq<Option<u64>>, first: Option<u64>) -> bool {
    match first {
        Some(first) => {
            &&& deadlines.contains(Some(first))
            &&& forall|i: int|
                0 <= i < deadlines.len() ==> (#[trigger] deadlines[i] matches Some(due) ==> first <= due)
        },
        None => forall|i: int| 0 <= i < deadlines.len() ==> #[trigger] deadlines[i] is None,
    }
}

/// Whether every source was pumped once, at the moment `now`, and `answers` is what they answered.
pub open spec fn pumped_once(
    before: Seq<Box<dyn EventSource>>,
    after: Seq<Box<dyn EventSource>>,
    now: u64,
    answers: Seq<bool>,
) -> bool {
    &&& after.len() == before.len()
    &&& answers.len() == before.len()
    &&& forall|i: int|
        0 <= i < before.len() ==> (#[trigger] after[i]).pumps() == before[i].pumps().push(
            (now, answers[i]),
        )
}

impl<H, W: Wakeup> AppContext<H, W> {
    /// The windows.
    pub closed spec fn registry(&self) -> WindowRegistry<H> {
        self.windows
    }

    /// The event sources.
    pub closed spec fn sources(&self) -> Seq<Box<dyn EventSource>> {
        self.sources@
    }

    /// Whether leaving was asked for.
    pub closed spec fn leaving(&self) -> bool {
        self.exit_requested
    }

    /// Whether there is an event loop to wake.
    pub open spec fn can_wake(&self) -> bool {
        self.waker() is Some
    }

    /// The window tables are in order.
    pub open spec fn wf(&self) -> bool {
        self.registry().wf()
    }

    pub fn new() -> (context: Self)
        ensures
            context.wf(),
            context.registry()@ == no_windows::<H>(),
            context.sources() == Seq::<Box<dyn EventSource>>::empty(),
            !context.can_wake(),
            !context.leaving(),
    {
        AppContext {
            windows: WindowRegistry::new(),
            sources: Vec::new(),
            wakeup: None,
            exit_requested: false,
        }
    }

    /// Sets what wakes the event loop, once there is one.
    pub fn set_wakeup(&mut self, wakeup: Arc<W>)
        ensures
            final(self).waker() == Some(wakeup),
            final(self).registry() == old(self).registry(),
            final(self).sources() == old(self).sources(),
            final(self).leaving() == old(self).leaving(),
    {
        self.wakeup = Some(wakeup);
    }

    /// Adds an event source.
    pub fn register_event_source(&mut self, source: Box<dyn EventSource>)
        ensures
            final(self).sources() == old(self).sources().push(source),
            final(self).registry() == old(self).registry(),
            final(self).waker() == old(self).waker(),
            final(self).leaving() == old(self).leaving(),
    {
        self.sources.push(source);
    }

    /// Whether a source is due.
    pub fn source_due(&self, now: u64) -> (due: bool)
        ensures
            due == any_due(deadlines(self.sources()), now),
    {
        let ghost list = deadlines(self.sources@);
        let mut i: usize = 0;
        while i < self.sources.len()
            invariant
                i <= self.sources@.len(),
                list == deadlines(self.sources@),
                forall|j: int| 0 <= j < i ==> !(#[trigger] list[j] matches Some(due) && due <= now),
            decreases self.sources@.len() - i,
        {
            let deadline = self.sources[i].next_deadline();
            assert(deadline == list[i as int]);
            match deadline {
                Some(due) => {
                    if due <= now {
                        return true;
                    }
                },
                None => {},
            }
            i += 1;
        }
        false
    }

    /// The earliest deadline of the sources.
    pub fn next_source_deadline(&self) -> (first: Option<u64>)
        ensures
            is_earliest(deadlines(self.sources()), first),
    {
        let ghost list = deadlines(self.sources@);
        let mut first: Option<u64> = None;
        let mut i: usize = 0;
        assert(list.take(0) =~= Seq::<Option<u64>>::empty());
        while i < self.sources.len()
            invariant
                i <= self.sources@.len(),
                list == deadlines(self.sources@),
                is_earliest(list.take(i as int), first),
            decreases self.sources@.len() - i,
        {
            let deadline = self.sources[i].next_deadline();
            assert(deadline == list[i as int]);
            let ghost seen = list.take(i as int);
            let ghost now_seen = list.take(i + 1);
            let ghost before = first;
            match deadline {
                Some(due) => {
                    match first {
                        Some(earliest) => {
                            if due < earliest {
                                first = Some(due);
                            }
                        },
                        None => {
                            first = Some(due);
                        },
                    }
                },
                None => {},
            }
            proof {
                assert(now_seen =~= seen.push(deadline));
                assert(now_seen[i as int] == deadline);
                match first {
                    Some(f) => {
                        crate::shared::pushed_contains(seen, deadline, Some(f));
                        assert forall|j: int| 0 <= j < now_seen.len() implies (#[trigger] now_seen[j] matches
                            Some(due) ==> f <= due) by {
                            if j < i {
                                assert(now_seen[j] == seen[j]);
                            }
                        }
                    },
                    None => {
                        assert forall|j: int| 0 <= j < now_seen.len() implies #[trigger] now_seen[j] is None by {
                            if j < i {
                                assert(now_seen[j] == seen[j]);
                            }
                        }
                    },
                }
            }
            i += 1;
        }
        assert(list.take(i as int) =~= list);
        first
    }

    /// Pumps every source once; true if any of them produced something.
    pub fn pump_sources(&mut self, now: u64) -> (woke: bool)
        ensures
            final(self).registry() == old(self).registry(),
            final(self).waker() == old(self).waker(),
            final(self).leaving() == old(self).leaving(),
            exists|answers: Seq<bool>| #[trigger]
                pumped_once(old(self).sources(), final(self).sources(), now, answers) && woke
                    == answers.contains(true),
    {
        let ghost before = self.sources@;
        let ghost mut answers = Seq::<bool>::empty();
        let none = NoWakeup;
        let mut woke = false;
        let mut i: usize = 0;
        while i < self.sources.len()
            invariant
                i <= self.sources@.len(),
                self.windows == old(self).windows,
                self.wakeup == old(self).wakeup,
                self.exit_requested == old(self).exit_requested,
                self.sources@.len() == before.len(),
                answers.len() == i,
                woke == answers.contains(true),
                forall|j: int|
                    0 <= j < i ==> (#[trigger] self.sources@[j]).pumps() == before[j].pumps().push(
                        (now, answers[j]),
                    ),
                forall|j: int| i <= j < before.len() ==> #[trigger] self.sources@[j] == before[j],
            decreases self.sources@.len() - i,
        {
            let produced = match &self.wakeup {
                Some(wakeup) => {
                    let mut cx = PumpContext::new(now, &**wakeup);
                    self.sources[i].pump(&mut cx)
                },
                None => {
                    let mut cx = PumpContext::new(now, &none);
                    self.sources[i].pump(&mut cx)
                },
            };
            proof {
                crate::shared::pushed_contains(answers, produced, true);
                answers = answers.push(produced);
            }
            woke = woke || produced;
            i += 1;
        }
        assert(pumped_once(old(self).sources(), self.sources(), now, answers));
        woke
    }

    /// A handle with which any thread can wake the event loop.
    pub fn wakeup(&self) -> (wakeup: Arc<W>)
        requires
            self.can_wake(),
        ensures
            Some(wakeup) == self.waker(),
    {
        match &self.wakeup {
            Some(wakeup) => crate::shared::share(wakeup),
            None => vstd::pervasive::unreached(),
        }
    }

    /// What wakes the event loop.
    pub closed spec fn waker(&self) -> Option<Arc<W>> {
        self.wakeup
    }

    /// Asks to leave: the event loop ends after the current frame or event.
    pub fn exit(&mut self)
        ensures
            final(self).leaving(),
            final(self).registry() == old(self).registry(),
            final(self).sources() == old(self).sources(),
            final(self).waker() == old(self).waker(),
    {
        self.exit_requested = true;
    }

    /// Whether leaving was asked for.
    pub fn exit_requested(&self) -> (leaving: bool)
        ensures
            leaving == self.leaving(),
    {
        self.exit_requested
    }

    /// Takes the request to leave, if there is one.
    pub fn take_exit_requested(&mut self) -> (leaving: bool)
        ensures
            leaving == old(self).leaving(),
            !final(self).leaving(),
            final(self).registry() == old(self).registry(),
            final(self).sources() == old(self).sources(),
            final(self).waker() == old(self).waker(),
    {
        let leaving = self.exit_requested;
        self.exit_requested = false;
        leaving
    }

    /// The main window.
    pub fn main_window(&self) -> (window: Option<&Window<H>>)
        requires
            self.wf(),
        ensures
            window is Some == (self.registry()@.main matches Some(id)
                && self.registry()@.by_id.contains_key(id)),
            window matches Some(window) ==> {
                &&& self.registry()@.main == Some(window.ident())
                &&& (window.name(), window.native()) == self.registry()@.by_id[window.ident()]
            },
    {
        self.windows.main()
    }

    /// The window of a label.
    pub fn window(&self, label: &str) -> (window: Option<&Window<H>>)
        requires
            self.wf(),
        ensures
            window is Some == (self.registry()@.by_label.contains_key(label@)
                && self.registry()@.by_id.contains_key(self.registry()@.by_label[label@])),
            window matches Some(window) ==> {
                &&& window.ident() == self.registry()@.by_label[label@]
                &&& (window.name(), window.native()) == self.registry()@.by_id[window.ident()]
            },
    {
        self.windows.by_label(label)
    }

    /// The window of an identity.
    pub fn window_by_id(&self, id: WindowId) -> (window: Option<&Window<H>>)
        requires
            self.wf(),
        ensures
            window is Some == self.registry()@.by_id.contains_key(id),
            window matches Some(window) ==> {
                &&& window.ident() == id
                &&& (window.name(), window.native()) == self.registry()@.by_id[id]
            },
    {
        self.windows.by_id(id)
    }

    /// Every window, in the order of creation.
    pub fn windows(&self) -> (windows: &[Window<H>])
        requires
            self.wf(),
        ensures
            windows@ == self.registry().listed(),
    {
        self.windows.list()
    }

    /// Number of windows.
    pub fn window_count(&self) -> (n: usize)
        requires
            self.wf(),
        ensures
            n == self.registry()@.by_id.dom().len(),
            self.registry()@.by_id.dom().finite(),
    {
        self.windows.len()
    }

    /// Registers a window.
    pub fn insert_window(&mut self, id: WindowId, label: &WindowLabel, handle: H)
        requires
            old(self).wf(),
        ensures
            final(self).wf(),
            final(self).registry()@ == with_window(old(self).registry()@, id, label@, handle),
            final(self).sources() == old(self).sources(),
            final(self).waker() == old(self).waker(),
            final(self).leaving() == old(self).leaving(),
    {
        self.windows.insert(id, label, handle);
    }

    /// Takes a window out.
    pub fn remove_window(&mut self, id: WindowId) -> (window: Option<Window<H>>)
        requires
            old(self).wf(),
        ensures
            final(self).wf(),
            final(self).registry()@ == without_window(old(self).registry()@, id),
            final(self).sources() == old(self).sources(),
            final(self).waker() == old(self).waker(),
            final(self).leaving() == old(self).leaving(),
            window is Some == old(self).registry()@.by_id.contains_key(id),
            window matches Some(window) ==> {
                &&& window.ident() == id
                &&& (window.name(), window.native()) == old(self).registry()@.by_id[id]
            },
    {
        self.windows.remove(id)
    }

    /// Takes every window out.
    pub fn clear_windows(&mut self)
        ensures
            final(self).wf(),
            final(self).registry()@ == no_windows::<H>(),
            final(self).sources() == old(self).sources(),
            final(self).waker() == old(self).waker(),
            final(self).leaving() == old(self).leaving(),
    {
        self.windows.clear();
    }
}

/// A source whose deadline has come is due from then on, and nothing is due before the earliest
/// deadline.
pub proof fn nothing_is_due_before_the_earliest_deadline(
    deadlines: Seq<Option<u64>>,
    first: Option<u64>,
    now: u64,
)
    requires
        is_earliest(deadlines, first),
    ensures
        any_due(deadlines, now) == (first matches Some(first) && first <= now),
{
    if let Some(first) = first {
        let i = choose|i: int| 0 <= i < deadlines.len() && deadlines[i] == Some(first);
        assert(deadlines[i] == Some(first));
    }
}

} // verus!
