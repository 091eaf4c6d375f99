//! The windows of an application, found by identity or by label.
//!
//! Applications speak of windows by label; identities only travel in events and inside the runtime.
//! The registry keeps one table for each, and [`consistent`] says that the two agree: whoever
//! registers windows with fresh identities and labels keeps it so.

use crate::contract::window::{WindowId, WindowLabel};
use crate::text::same_text;
use vstd::prelude::*;

verus! {

/// A window: its identity, its label and what the platform knows it by.
pub struct Window<H> {
    id: WindowId,
    label: WindowLabel,
    handle: H,
}

impl<H> Window<H> {
    /// The identity.
    pub closed spec fn ident(&self) -> WindowId {
        self.id
    }

    /// The label.
    pub closed spec fn name(&self) -> Seq<char> {
        self.label@
    }

    /// The handle of the platform.
    pub closed spec fn native(&self) -> H {
        self.handle
    }

    pub fn id(&self) -> (id: WindowId)
        ensures
            id == self.ident(),
    {
        self.id
    }

    pub fn label(&self) -> (label: &WindowLabel)
        ensures
            label@ == self.name(),
    {
        &self.label
    }

    /// The handle of the platform: title, cursor and rendering surface go through it.
    pub fn handle(&self) -> (handle: &H)
        ensures
            *handle == self.native(),
    {
        &self.handle
    }
}

/// The registry as a mathematical value.
#[verifier::ext_equal]
pub struct Windows<H> {
    /// The main window.
    pub main: Option<WindowId>,
    /// Label and handle of each window.
    pub by_id: Map<WindowId, (Seq<char>, H)>,
    /// The window behind each label.
    pub by_label: Map<Seq<char>, WindowId>,
}

/// The windows, each known under its identity and under its label.
pub struct WindowRegistry<H> {
    main: Option<WindowId>,
    windows: Vec<Window<H>>,
    labels: Vec<(String, WindowId)>,
}

spec fn ascending<H>(windows: Seq<Window<H>>) -> bool {
    forall|i: int, j: int| 0 <= i < j < windows.len() ==> windows[i].id.0 < windows[j].id.0
}

spec fn has_id<H>(windows: Seq<Window<H>>, id: WindowId) -> bool {
    exists|i: int| 0 <= i < windows.len() && (#[trigger] windows[i]).id == id
}

spec fn index_of<H>(windows: Seq<Window<H>>, id: WindowId) -> int {
    choose|i: int| 0 <= i < windows.len() && (#[trigger] windows[i]).id == id
}

spec fn id_table<H>(windows: Seq<Window<H>>) -> Map<WindowId, (Seq<char>, H)> {
    Map::new(
        |id: WindowId| has_id(windows, id),
        |id: WindowId|
            {
                let window = windows[index_of(windows, id)];
                (window.label@, window.handle)
            },
    )
}

spec fn labels_distinct(labels: Seq<(String, WindowId)>) -> bool {
    forall|i: int, j: int|
        0 <= i < labels.len() && 0 <= j < labels.len() && (#[trigger] labels[i]).0@ == (
        #[trigger] labels[j]).0@ ==> i == j
}

spec fn has_label(labels: Seq<(String, WindowId)>, label: Seq<char>) -> bool {
    exists|i: int| 0 <= i < labels.len() && (#[trigger] labels[i]).0@ == label
}

spec fn label_index(labels: Seq<(String, WindowId)>, label: Seq<char>) -> int {
    choose|i: int| 0 <= i < labels.len() && (#[trigger] labels[i]).0@ == label
}

spec fn label_table(labels: Seq<(String, WindowId)>) -> Map<Seq<char>, WindowId> {
    Map::new(
        |label: Seq<char>| has_label(labels, label),
        |label: Seq<char>| labels[label_index(labels, label)].1,
    )
}

proof fn id_entry<H>(windows: Seq<Window<H>>, i: int)
    requires
        ascending(windows),
        0 <= i < windows.len(),
    ensures
        has_id(windows, windows[i].id),
        index_of(windows, windows[i].id) == i,
        id_table(windows).contains_key(windows[i].id),
        id_table(windows)[windows[i].id] == (windows[i].label@, windows[i].handle),
{
    let id = windows[i].id;
    assert(has_id(windows, id));
    let j = index_of(windows, id);
    assert(windows[j].id == id);
    if i < j {
        assert(windows[i].id.0 < windows[j].id.0);
    } else if j < i {
        assert(windows[j].id.0 < windows[i].id.0);
    }
}

proof fn label_entry(labels: Seq<(String, WindowId)>, i: int)
    requires
        labels_distinct(labels),
        0 <= i < labels.len(),
    ensures
        has_label(labels, labels[i].0@),
        label_index(labels, labels[i].0@) == i,
        label_table(labels).contains_key(labels[i].0@),
        label_table(labels)[labels[i].0@] == labels[i].1,
{
    assert(has_label(labels, labels[i].0@));
}

impl<H> View for WindowRegistry<H> {
    type V = Windows<H>;

    closed spec fn view(&self) -> Windows<H> {
        Windows {
            main: self.main,
            by_id: id_table(self.windows@),
            by_label: label_table(self.labels@),
        }
    }
}

/// The registry after a window was registered: it is found under its identity and its label, in
/// place of any that was there, and is the main window if that is its label.
pub open spec fn with_window<H>(windows: Windows<H>, id: WindowId, label: Seq<char>, handle: H) -> Windows<H> {
    Windows {
        main: if label == "main"@ {
            Some(id)
        } else {
            windows.main
        },
        by_id: windows.by_id.insert(id, (label, handle)),
        by_label: windows.by_label.insert(label, id),
    }
}

/// The registry after a window was taken out.
pub open spec fn without_window<H>(windows: Windows<H>, id: WindowId) -> Windows<H> {
    if windows.by_id.contains_key(id) {
        Windows {
            main: if windows.main == Some(id) {
                None
            } else {
                windows.main
            },
            by_id: windows.by_id.remove(id),
            by_label: windows.by_label.remove(windows.by_id[id].0),
        }
    } else {
        windows
    }
}

/// The registry without any window.
pub open spec fn no_windows<H>() -> Windows<H> {
    Windows { main: None, by_id: Map::empty(), by_label: Map::empty() }
}

/// Whether the tables agree: every label leads to a window of that label and every window is found
/// under its label, and the main window is the one labelled `main`.
pub open spec fn consistent<H>(windows: Windows<H>) -> bool {
    &&& forall|label: Seq<char>| #[trigger]
        windows.by_label.contains_key(label) ==> windows.by_id.contains_key(windows.by_label[label])
            && windows.by_id[windows.by_label[label]].0 == label
    &&& forall|id: WindowId| #[trigger]
        windows.by_id.contains_key(id) ==> windows.by_label.contains_key(windows.by_id[id].0)
            && windows.by_label[windows.by_id[id].0] == id
    &&& windows.main == if windows.by_label.contains_key("main"@) {
        Some(windows.by_label["main"@])
    } else {
        None
    }
}

impl<H> WindowRegistry<H> {
    /// The tables are in order.
    pub closed spec fn wf(&self) -> bool {
        &&& ascending(self.windows@)
        &&& labels_distinct(self.labels@)
    }

    /// The windows in the order of their identities.
    pub closed spec fn listed(&self) -> Seq<Window<H>> {
        self.windows@
    }

    pub fn new() -> (registry: Self)
        ensures
            registry.wf(),
            registry@ == no_windows::<H>(),
    {
        let registry = WindowRegistry { main: None, windows: Vec::new(), labels: Vec::new() };
        assert(registry@.by_id =~= Map::<WindowId, (Seq<char>, H)>::empty());
        assert(registry@.by_label =~= Map::<Seq<char>, WindowId>::empty());
        registry
    }

    /// How many windows have a smaller identity.
    fn place_of(&self, id: WindowId) -> (i: usize)
        requires
            ascending(self.windows@),
        ensures
            i <= self.windows@.len(),
            forall|j: int| 0 <= j < i ==> (#[trigger] self.windows@[j]).id.0 < id.0,
            forall|j: int| i <= j < self.windows@.len() ==> (#[trigger] self.windows@[j]).id.0 >= id.0,
    {
        let mut i: usize = 0;
        while i < self.windows.len() && self.windows[i].id.0 < id.0
            invariant
                i <= self.windows@.len(),
                forall|j: int| 0 <= j < i ==> (#[trigger] self.windows@[j]).id.0 < id.0,
            decreases self.windows@.len() - i,
        {
            i += 1;
        }
        i
    }

    fn find_id(&self, id: WindowId) -> (found: Option<usize>)
        requires
            ascending(self.windows@),
        ensures
            found is Some == has_id(self.windows@, id),
            found matches Some(i) ==> i < self.windows@.len() && self.windows@[i as int].id == id,
    {
        let i = self.place_of(id);
        if i < self.windows.len() && self.windows[i].id.0 == id.0 {
            assert(self.windows@[i as int].id == id);
            Some(i)
        } else {
            assert forall|j: int| 0 <= j < self.windows@.len() implies (#[trigger] self.windows@[j]).id
                != id by {
                if i < j {
                    assert(self.windows@[i as int].id.0 < self.windows@[j].id.0);
                }
            }
            None
        }
    }

    fn find_label(&self, label: &str) -> (found: Option<usize>)
        ensures
            found is Some == has_label(self.labels@, label@),
            found matches Some(i) ==> i < self.labels@.len() && self.labels@[i as int].0@ == label@,
    {
        let mut i: usize = 0;
        while i < self.labels.len()
            invariant
                i <= self.labels@.len(),
                forall|j: int| 0 <= j < i ==> (#[trigger] self.labels@[j]).0@ != label@,
            decreases self.labels@.len() - i,
        {
            if same_text(self.labels[i].0.as_str(), label) {
                assert(self.labels@[i as int].0@ == label@);
                return Some(i);
            }
            i += 1;
        }
        None
    }

    /// Registers a window. The one labelled `main` is the main window.
    pub fn insert(&mut self, id: WindowId, label: &WindowLabel, handle: H)
        requires
            old(self).wf(),
        ensures
            final(self).wf(),
            final(self)@ == with_window(old(self)@, id, label@, handle),
    {
        if label.is_main() {
            self.main = Some(id);
        }
        self.file_label(label, id);
        self.file_window(Window { id, label: label.clone(), handle });
        assert(self@ =~= with_window(old(self)@, id, label@, handle));
    }

    fn file_label(&mut self, label: &WindowLabel, id: WindowId)
        requires
            labels_distinct(old(self).labels@),
        ensures
            final(self).main == old(self).main,
            final(self).windows == old(self).windows,
            labels_distinct(final(self).labels@),
            label_table(final(self).labels@) == label_table(old(self).labels@).insert(label@, id),
    {
        let ghost before = self.labels@;
        let found = self.find_label(label.as_str());
        let entry = (label.as_str().to_owned(), id);
        let ghost at: int = match found {
            Some(i) => i as int,
            None => before.len() as int,
        };
        match found {
            Some(i) => {
                self.labels.set(i, entry);
            },
            None => {
                self.labels.push(entry);
            },
        }
        proof {
            let after = self.labels@;
            assert(labels_distinct(after)) by {
                assert forall|i: int, j: int|
                    0 <= i < after.len() && 0 <= j < after.len() && (#[trigger] after[i]).0@ == (
                    #[trigger] after[j]).0@ implies i == j by {
                    if i != at && j != at {
                        assert(before[i].0@ == before[j].0@);
                    } else if i != j {
                        let other = if i == at { j } else { i };
                        assert(before[other].0@ == label@);
                        assert(has_label(before, label@));
                        assert(before[at].0@ == before[other].0@);
                    }
                }
            }
            let table = label_table(after);
            let expected = label_table(before).insert(label@, id);
            assert forall|l: Seq<char>| table.contains_key(l) == expected.contains_key(l) by {
                if has_label(after, l) {
                    let k = label_index(after, l);
                    if k != at {
                        assert(before[k].0@ == l);
                    }
                }
                if has_label(before, l) {
                    let k = label_index(before, l);
                    assert(after[k].0@ == l);
                }
                if l == label@ {
                    assert(after[at].0@ == l);
                }
            }
            assert forall|l: Seq<char>| table.contains_key(l) implies #[trigger] table[l] == expected[l] by {
                let k = label_index(after, l);
                if k == at {
                    assert(l == label@);
                } else {
                    label_entry(before, k);
                    if l == label@ {
                        assert(after[k].0@ == after[at].0@);
                    }
                }
            }
            assert(table =~= expected);
        }
    }

    fn file_window(&mut self, window: Window<H>)
        requires
            ascending(old(self).windows@),
        ensures
            final(self).main == old(self).main,
            final(self).labels == old(self).labels,
            ascending(final(self).windows@),
            id_table(final(self).windows@) == id_table(old(self).windows@).insert(
                window.id,
                (window.label@, window.handle),
            ),
    {
        let ghost before = self.windows@;
        let id = window.id;
        let ghost value = (window.label@, window.handle);
        let i = self.place_of(id);
        let there = i < self.windows.len() && self.windows[i].id.0 == id.0;
        if there {
            self.windows.set(i, window);
        } else {
            self.windows.insert(i, window);
        }
        proof {
            let after = self.windows@;
            assert(ascending(after)) by {
                assert forall|a: int, b: int| 0 <= a < b < after.len() implies after[a].id.0
                    < after[b].id.0 by {
                    if there {
                        let x = before[a];
                        let y = before[b];
                        assert(x.id.0 < y.id.0);
                    } else {
                        if a < i && b < i {
                            assert(before[a].id.0 < before[b].id.0);
                        } else if a < i && b == i {
                            assert(before[a].id.0 < id.0);
                        } else if a < i {
                            assert(before[a].id.0 < before[b - 1].id.0);
                        } else if a == i {
                            assert(before[b - 1].id.0 >= id.0);
                            if b - 1 > i {
                                assert(before[i as int].id.0 < before[b - 1].id.0);
                            }
                        } else {
                            assert(before[a - 1].id.0 < before[b - 1].id.0);
                        }
                    }
                }
            }
            id_entry(after, i as int);
            let table = id_table(after);
            let expected = id_table(before).insert(id, value);
            assert forall|w: WindowId| table.contains_key(w) == expected.contains_key(w) by {
                if has_id(after, w) {
                    let k = index_of(after, w);
                    if k != i {
                        let old_k = if there || k < i { k } else { k - 1 };
                        assert(before[old_k].id == w);
                    }
                }
                if has_id(before, w) {
                    let k = index_of(before, w);
                    let new_k = if there || k < i { k } else { k + 1 };
                    assert(after[new_k].id == w);
                }
            }
            assert forall|w: WindowId| table.contains_key(w) implies #[trigger] table[w] == expected[w] by {
                let k = index_of(after, w);
                if k == i {
                    assert(w == id);
                } else {
                    let old_k = if there || k < i { k } else { k - 1 };
                    id_entry(before, old_k);
                    id_entry(after, k);
                    assert(w != id);
                }
            }
            assert(table =~= expected);
        }
    }

    /// Takes a window out and returns it.
    pub fn remove(&mut self, id: WindowId) -> (window: Option<Window<H>>)
        requires
            old(self).wf(),
        ensures
            final(self).wf(),
            final(self)@ == without_window(old(self)@, id),
            window is Some == old(self)@.by_id.contains_key(id),
            window matches Some(window) ==> {
                &&& window.ident() == id
                &&& (window.name(), window.native()) == old(self)@.by_id[id]
            },
    {
        let found = self.find_id(id);
        match found {
            None => {
                assert(!self@.by_id.contains_key(id));
                None
            },
            Some(i) => {
                proof {
                    id_entry(self.windows@, i as int);
                }
                let window = self.unfile_window(i);
                self.unfile_label(window.label.as_str());
                match self.main {
                    Some(main) => {
                        if main.0 == id.0 {
                            self.main = None;
                        }
                    },
                    None => {},
                }
                assert(self@ =~= without_window(old(self)@, id));
                Some(window)
            },
        }
    }

    fn unfile_window(&mut self, i: usize) -> (window: Window<H>)
        requires
            ascending(old(self).windows@),
            i < old(self).windows@.len(),
        ensures
            final(self).main == old(self).main,
            final(self).labels == old(self).labels,
            ascending(final(self).windows@),
            window == old(self).windows@[i as int],
            id_table(final(self).windows@) == id_table(old(self).windows@).remove(window.id),
    {
        let ghost before = self.windows@;
        let window = self.windows.remove(i);
        proof {
            let after = self.windows@;
            assert(ascending(after)) by {
                assert forall|a: int, b: int| 0 <= a < b < after.len() implies after[a].id.0
                    < after[b].id.0 by {
                    let x = if a < i { a } else { a + 1 };
                    let y = if b < i { b } else { b + 1 };
                    assert(before[x].id.0 < before[y].id.0);
                }
            }
            let table = id_table(after);
            let expected = id_table(before).remove(window.id);
            assert forall|w: WindowId| table.contains_key(w) == expected.contains_key(w) by {
                if has_id(after, w) {
                    let k = index_of(after, w);
                    let old_k = if k < i { k } else { k + 1 };
                    assert(before[old_k].id == w);
                    id_entry(before, old_k);
                    id_entry(before, i as int);
                }
                if has_id(before, w) && w != window.id {
                    let k = index_of(before, w);
                    let new_k = if k < i { k } else { k - 1 };
                    assert(after[new_k].id == w);
                }
            }
            assert forall|w: WindowId| table.contains_key(w) implies #[trigger] table[w] == expected[w] by {
                let k = index_of(after, w);
                let old_k = if k < i { k } else { k + 1 };
                id_entry(after, k);
                id_entry(before, old_k);
            }
            assert(table =~= expected);
        }
        window
    }

    fn unfile_label(&mut self, label: &str)
        requires
            labels_distinct(old(self).labels@),
        ensures
            final(self).main == old(self).main,
            final(self).windows == old(self).windows,
            labels_distinct(final(self).labels@),
            label_table(final(self).labels@) == label_table(old(self).labels@).remove(label@),
    {
        let ghost before = self.labels@;
        match self.find_label(label) {
            None => {
                assert(label_table(before) =~= label_table(before).remove(label@));
            },
            Some(i) => {
                self.labels.remove(i);
                proof {
                    let after = self.labels@;
                    assert(labels_distinct(after)) by {
                        assert forall|a: int, b: int|
                            0 <= a < after.len() && 0 <= b < after.len() && (#[trigger] after[a]).0@
                                == (#[trigger] after[b]).0@ implies a == b by {
                            let x = if a < i { a } else { a + 1 };
                            let y = if b < i { b } else { b + 1 };
                            assert(before[x].0@ == before[y].0@);
                        }
                    }
                    let table = label_table(after);
                    let expected = label_table(before).remove(label@);
                    assert forall|l: Seq<char>| table.contains_key(l) == expected.contains_key(l) by {
                        if has_label(after, l) {
                            let k = label_index(after, l);
                            let old_k = if k < i { k } else { k + 1 };
                            assert(before[old_k].0@ == l);
                            if l == label@ {
                                assert(before[old_k].0@ == before[i as int].0@);
                            }
                        }
                        if has_label(before, l) && l != label@ {
                            let k = label_index(before, l);
                            let new_k = if k < i { k } else { k - 1 };
                            assert(after[new_k].0@ == l);
                        }
                    }
                    assert forall|l: Seq<char>| table.contains_key(l) implies #[trigger] table[l]
                        == expected[l] by {
                        let k = label_index(after, l);
                        let old_k = if k < i { k } else { k + 1 };
                        label_entry(before, old_k);
                    }
                    assert(table =~= expected);
                }
            },
        }
    }

    /// Takes every window out.
    pub fn clear(&mut self)
        ensures
            final(self).wf(),
            final(self)@ == no_windows::<H>(),
    {
        self.main = None;
        self.windows.clear();
        self.labels.clear();
        assert(self@.by_id =~= Map::<WindowId, (Seq<char>, H)>::empty());
        assert(self@.by_label =~= Map::<Seq<char>, WindowId>::empty());
    }

    /// The window of an identity.
    pub fn by_id(&self, id: WindowId) -> (window: Option<&Window<H>>)
        requires
            self.wf(),
        ensures
            window is Some == self@.by_id.contains_key(id),
            window matches Some(window) ==> {
                &&& window.ident() == id
                &&& (window.name(), window.native()) == self@.by_id[id]
            },
    {
        match self.find_id(id) {
            Some(i) => {
                proof {
                    id_entry(self.windows@, i as int);
                }
                Some(&self.windows[i])
            },
            None => None,
        }
    }

    /// The window of a label.
    pub fn by_label(&self, label: &str) -> (window: Option<&Window<H>>)
        requires
            self.wf(),
        ensures
            window is Some == (self@.by_label.contains_key(label@) && self@.by_id.contains_key(
                self@.by_label[label@],
            )),
            window matches Some(window) ==> {
                &&& window.ident() == self@.by_label[label@]
                &&& (window.name(), window.native()) == self@.by_id[window.ident()]
            },
    {
        match self.find_label(label) {
            Some(i) => {
                proof {
                    label_entry(self.labels@, i as int);
                }
                self.by_id(self.labels[i].1)
            },
            None => None,
        }
    }

    /// The main window.
    pub fn main(&self) -> (window: Option<&Window<H>>)
        requires
            self.wf(),
        ensures
            window is Some == (self@.main matches Some(id) && self@.by_id.contains_key(id)),
            window matches Some(window) ==> {
                &&& self@.main == Some(window.ident())
                &&& (window.name(), window.native()) == self@.by_id[window.ident()]
            },
    {
        match self.main {
            Some(id) => self.by_id(id),
            None => None,
        }
    }

    /// Every window, in the order of the identities, which is the order of creation.
    pub fn list(&self) -> (windows: &[Window<H>])
        requires
            self.wf(),
        ensures
            windows@ == self.listed(),
            forall|i: int, j: int|
                0 <= i < j < windows@.len() ==> (#[trigger] windows@[i]).ident().0 < (
                #[trigger] windows@[j]).ident().0,
            forall|i: int|
                0 <= i < windows@.len() ==> {
                    &&& self@.by_id.contains_key((#[trigger] windows@[i]).ident())
                    &&& self@.by_id[windows@[i].ident()] == (windows@[i].name(), windows@[i].native())
                },
            forall|id: WindowId| #[trigger]
                self@.by_id.contains_key(id) ==> exists|i: int|
                    0 <= i < windows@.len() && (#[trigger] windows@[i]).ident() == id,
    {
        proof {
            assert forall|i: int| 0 <= i < self.windows@.len() implies {
                &&& self@.by_id.contains_key((#[trigger] self.windows@[i]).ident())
                &&& self@.by_id[self.windows@[i].ident()] == (
                    self.windows@[i].name(),
                    self.windows@[i].native(),
                )
            } by {
                id_entry(self.windows@, i);
            }
            assert forall|id: WindowId| #[trigger] self@.by_id.contains_key(id) implies exists|i: int|
                0 <= i < self.windows@.len() && (#[trigger] self.windows@[i]).ident() == id by {
                let i = index_of(self.windows@, id);
                assert(self.windows@[i].ident() == id);
            }
        }
        self.windows.as_slice()
    }

    /// Number of windows.
    pub fn len(&self) -> (n: usize)
        requires
            self.wf(),
        ensures
            n == self@.by_id.dom().len(),
            self@.by_id.dom().finite(),
    {
        proof {
            table_size(self.windows@);
        }
        self.windows.len()
    }

    /// Whether there is no window.
    pub fn is_empty(&self) -> (empty: bool)
        requires
            self.wf(),
        ensures
            empty == (self@.by_id.dom() =~= Set::<WindowId>::empty()),
    {
        proof {
            if self.windows@.len() > 0 {
                id_entry(self.windows@, 0);
                assert(self@.by_id.dom().contains(self.windows@[0].id));
            }
        }
        self.windows.len() == 0
    }
}

proof fn table_size<H>(windows: Seq<Window<H>>)
    requires
        ascending(windows),
    ensures
        id_table(windows).dom().finite(),
        id_table(windows).dom().len() == windows.len(),
    decreases windows.len(),
{
    let dom = id_table(windows).dom();
    if windows.len() == 0 {
        assert(dom =~= Set::<WindowId>::empty());
    } else {
        let less = windows.drop_last();
        let last = windows.last();
        assert(ascending(less)) by {
            assert forall|i: int, j: int| 0 <= i < j < less.len() implies less[i].id.0 < less[j].id.0 by {
                assert(windows[i].id.0 < windows[j].id.0);
            }
        }
        table_size(less);
        let rest = id_table(less).dom();
        assert forall|id: WindowId| dom.contains(id) == rest.insert(last.id).contains(id) by {
            if has_id(windows, id) {
                let i = index_of(windows, id);
                if i < less.len() {
                    assert(less[i].id == id);
                }
            }
            if has_id(less, id) {
                let i = index_of(less, id);
                assert(windows[i].id == id);
            }
            if id == last.id {
                assert(windows[windows.len() - 1].id == id);
            }
        }
        assert(dom =~= rest.insert(last.id));
        if has_id(less, last.id) {
            let i = index_of(less, last.id);
            assert(windows[i].id.0 < windows[windows.len() - 1].id.0);
        }
    }
}

/// Registering a window under a fresh identity and a fresh label keeps the tables in agreement.
pub proof fn registering_keeps_the_tables_consistent<H>(
    windows: Windows<H>,
    id: WindowId,
    label: Seq<char>,
    handle: H,
)
    requires
        consistent(windows),
        !windows.by_id.contains_key(id),
        !windows.by_label.contains_key(label),
    ensures
        consistent(with_window(windows, id, label, handle)),
{
}

/// Taking a window out drops it from both tables: no label is left that leads nowhere.
pub proof fn removing_keeps_the_tables_consistent<H>(windows: Windows<H>, id: WindowId)
    requires
        consistent(windows),
    ensures
        consistent(without_window(windows, id)),
        !without_window(windows, id).by_id.contains_key(id),
        windows.by_id.contains_key(id) ==> !without_window(windows, id).by_label.contains_key(
            windows.by_id[id].0,
        ),
        windows.main == Some(id) ==> without_window(windows, id).main is None,
{
}

/// Registering a window and taking it out again leaves the registry as it was.
pub proof fn removing_undoes_registering<H>(
    windows: Windows<H>,
    id: WindowId,
    label: Seq<char>,
    handle: H,
)
    requires
        consistent(windows),
        !windows.by_id.contains_key(id),
        !windows.by_label.contains_key(label),
    ensures
        without_window(with_window(windows, id, label, handle), id) == windows,
{
    let after = without_window(with_window(windows, id, label, handle), id);
    assert(after.by_id =~= windows.by_id);
    assert(after.by_label =~= windows.by_label);
}

/// A window that was registered is found under its identity and under its label, and is the main window if that
/// is its label; every other window is found as before.
pub proof fn a_registered_window_is_found<H>(
    windows: Windows<H>,
    id: WindowId,
    label: Seq<char>,
    handle: H,
    other: WindowId,
    name: Seq<char>,
)
    ensures
        ({
            let after = with_window(windows, id, label, handle);
            &&& after.by_id.contains_key(id) && after.by_id[id] == (label, handle)
            &&& after.by_label.contains_key(label) && after.by_label[label] == id
            &&& label == "main"@ ==> after.main == Some(id)
            &&& label != "main"@ ==> after.main == windows.main
            &&& other != id ==> after.by_id.contains_key(other) == windows.by_id.contains_key(other)
            &&& other != id && windows.by_id.contains_key(other) ==> after.by_id[other] == windows.by_id[other]
            &&& name != label ==> after.by_label.contains_key(name) == windows.by_label.contains_key(name)
            &&& name != label && windows.by_label.contains_key(name) ==> after.by_label[name] == windows.by_label[name]
        }),
{
}

/// A window that was taken out is not found any more; every other one is found as before.
pub proof fn a_removed_window_is_gone<H>(windows: Windows<H>, id: WindowId, other: WindowId)
    requires
        consistent(windows),
    ensures
        ({
            let after = without_window(windows, id);
            &&& !after.by_id.contains_key(id)
            &&& forall|label: Seq<char>| #[trigger] after.by_label.contains_key(label) ==> after.by_label[label] != id
            &&& other != id && windows.by_id.contains_key(other) ==> {
                &&& after.by_id.contains_key(other) && after.by_id[other] == windows.by_id[other]
                &&& after.by_label.contains_key(windows.by_id[other].0)
                &&& after.by_label[windows.by_id[other].0] == other
                &&& windows.main == Some(other) ==> after.main == Some(other)
            }
        }),
{
    let after = without_window(windows, id);
    assert forall|label: Seq<char>| #[trigger] after.by_label.contains_key(label) implies after.by_label[label]
        != id by {
        assert(windows.by_label.contains_key(label));
    }
}

} // verus!
