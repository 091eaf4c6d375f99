//! The overlays of the windows, one table for all: the same identity may stand on several windows.

use crate::capability::webview::OverlayId;
use crate::contract::window::WindowId;
use vstd::prelude::*;

verus! {

/// What an overlay is found by.
#[derive(Debug, Clone, Copy, PartialEq, Eq, Structural)]
pub struct OverlayKey {
    pub window: WindowId,
    pub id: OverlayId,
}

impl OverlayKey {
    /// Whether this comes before `other`: by window, then by identity.
    pub open spec fn before(self, other: OverlayKey) -> bool {
        self.window.0 < other.window.0 || (self.window.0 == other.window.0 && self.id.0 < other.id.0)
    }

    fn precedes(self, other: OverlayKey) -> (yes: bool)
        ensures
            yes == self.before(other),
    {
        self.window.0 < other.window.0 || (self.window.0 == other.window.0 && self.id.0 < other.id.0)
    }
}

/// The overlays that are there. `V` is what stands for a native view.
pub struct OverlayTable<V> {
    keys: Vec<OverlayKey>,
    views: Vec<V>,
}

spec fn in_order(keys: Seq<OverlayKey>) -> bool {
    forall|i: int, j: int| 0 <= i < j < keys.len() ==> (#[trigger] keys[i]).before(#[trigger] keys[j])
}

spec fn position(keys: Seq<OverlayKey>, key: OverlayKey) -> int {
    choose|i: int| 0 <= i < keys.len() && keys[i] == key
}

impl<V> View for OverlayTable<V> {
    type V = Map<OverlayKey, V>;

    closed spec fn view(&self) -> Map<OverlayKey, V> {
        Map::new(
            |key: OverlayKey| self.keys@.contains(key),
            |key: OverlayKey| self.views@[position(self.keys@, key)],
        )
    }
}

impl<V> OverlayTable<V> {
    /// The table is in order.
    pub closed spec fn wf(&self) -> bool {
        &&& self.keys@.len() == self.views@.len()
        &&& in_order(self.keys@)
    }

    proof fn entry(&self, i: int)
        requires
            self.wf(),
            0 <= i < self.keys@.len(),
        ensures
            self@.contains_key(self.keys@[i]),
            self@[self.keys@[i]] == self.views@[i],
            position(self.keys@, self.keys@[i]) == i,
    {
        let key = self.keys@[i];
        assert(self.keys@.contains(key));
        let j = position(self.keys@, key);
        assert(self.keys@[j] == key);
        if i < j {
            assert(self.keys@[i].before(self.keys@[j]));
        } else if j < i {
            assert(self.keys@[j].before(self.keys@[i]));
        }
    }

    pub fn new() -> (table: Self)
        ensures
            table.wf(),
            table@ == Map::<OverlayKey, V>::empty(),
    {
        let table = OverlayTable { keys: Vec::new(), views: Vec::new() };
        assert(table@ =~= Map::<OverlayKey, V>::empty());
        table
    }

    fn place_of(&self, key: OverlayKey) -> (i: usize)
        requires
            self.wf(),
        ensures
            i <= self.keys@.len(),
            forall|j: int| 0 <= j < i ==> (#[trigger] self.keys@[j]).before(key),
            i < self.keys@.len() ==> !self.keys@[i as int].before(key),
            self.keys@.contains(key) == (i < self.keys@.len() && self.keys@[i as int] == key),
    {
        let mut i: usize = 0;
        while i < self.keys.len() && self.keys[i].precedes(key)
            invariant
                i <= self.keys@.len(),
                forall|j: int| 0 <= j < i ==> (#[trigger] self.keys@[j]).before(key),
            decreases self.keys@.len() - i,
        {
            i += 1;
        }
        proof {
            if self.keys@.contains(key) {
                let j = position(self.keys@, key);
                assert(self.keys@[j] == key);
                if j < i {
                    assert(self.keys@[j].before(key));
                } else if i < j {
                    assert(self.keys@[i as int].before(self.keys@[j]));
                }
            }
            if i < self.keys@.len() && self.keys@[i as int] == key {
                assert(self.keys@.contains(key));
            }
        }
        i
    }

    /// Files an overlay, in place of any of that key.
    pub fn insert(&mut self, key: OverlayKey, view: V)
        requires
            old(self).wf(),
        ensures
            final(self).wf(),
            final(self)@ == old(self)@.insert(key, view),
    {
        let i = self.place_of(key);
        let there = i < self.keys.len() && self.keys[i] == key;
        let ghost keys = self.keys@;
        if there {
            self.views.set(i, view);
        } else {
            self.keys.insert(i, key);
            self.views.insert(i, view);
        }
        proof {
            let now = self.keys@;
            assert(in_order(now)) by {
                assert forall|a: int, b: int| 0 <= a < b < now.len() implies (#[trigger] now[a]).before(
                    #[trigger] now[b],
                ) by {
                    if !there {
                        if a < i && b < i {
                            assert(keys[a].before(keys[b]));
                        } else if a < i && b == i {
                            assert(keys[a].before(key));
                        } else if a < i {
                            assert(keys[a].before(keys[b - 1]));
                        } else if a == i {
                            assert(!keys[i as int].before(key));
                            if b - 1 > i {
                                assert(keys[i as int].before(keys[b - 1]));
                            }
                        } else {
                            assert(keys[a - 1].before(keys[b - 1]));
                        }
                    }
                }
            }
            self.entry(i as int);
            let expected = old(self)@.insert(key, view);
            assert forall|k: OverlayKey| self@.contains_key(k) == expected.contains_key(k) by {
                if now.contains(k) {
                    let p = position(now, k);
                    if p != i {
                        let q = if there || p < i { p } else { p - 1 };
                        assert(keys[q] == k);
                    }
                }
                if keys.contains(k) {
                    let p = position(keys, k);
                    let q = if there || p < i { p } else { p + 1 };
                    assert(now[q] == k);
                }
            }
            assert forall|k: OverlayKey| self@.contains_key(k) implies #[trigger] self@[k] == expected[k] by {
                let p = position(now, k);
                if p != i {
                    let q = if there || p < i { p } else { p - 1 };
                    old(self).entry(q);
                    self.entry(p);
                    assert(k != key);
                }
            }
            assert(self@ =~= expected);
        }
    }

    /// The overlay of a key.
    pub fn get(&self, key: OverlayKey) -> (view: Option<&V>)
        requires
            self.wf(),
        ensures
            view is Some == self@.contains_key(key),
            view matches Some(view) ==> *view == self@[key],
    {
        let i = self.place_of(key);
        if i < self.keys.len() && self.keys[i] == key {
            proof {
                self.entry(i as int);
            }
            Some(&self.views[i])
        } else {
            None
        }
    }

    /// The overlay of a key, to be changed.
    pub fn get_mut(&mut self, key: OverlayKey) -> (view: Option<&mut V>)
        requires
            old(self).wf(),
        ensures
            view is Some == old(self)@.contains_key(key),
            view matches Some(view) ==> *view == old(self)@[key],
            final(self).wf(),
            final(self)@ == match view {
                Some(view) => old(self)@.insert(key, *final(view)),
                None => old(self)@,
            },
    {
        let i = self.place_of(key);
        if i < self.keys.len() && self.keys[i] == key {
            proof {
                self.entry(i as int);
            }
            proof {
                let keys = self.keys;
                let views = self.views@;
                let before = self@;
                assert forall|t: OverlayTable<V>, v: V|
                    #![trigger t@, views.update(i as int, v)]
                    t.keys == keys && t.views@ == views.update(i as int, v) implies t.wf() && t@
                    == before.insert(key, v) by {
                    assert forall|k: OverlayKey| t@.contains_key(k) implies #[trigger] t@[k]
                        == before.insert(key, v)[k] by {
                        self.entry(position(keys@, k));
                    }
                    assert(t@ =~= before.insert(key, v));
                }
            }
            let view = &mut self.views[i];
            Some(view)
        } else {
            None
        }
    }

    /// The identities of the overlays of a window, in ascending order.
    pub fn of_window(&self, window: WindowId) -> (ids: Vec<OverlayId>)
        requires
            self.wf(),
        ensures
            forall|id: OverlayId| #[trigger]
                ids@.contains(id) == self@.contains_key(OverlayKey { window, id }),
            forall|i: int, j: int|
                0 <= i < j < ids@.len() ==> (#[trigger] ids@[i]).0 < (#[trigger] ids@[j]).0,
    {
        let mut ids: Vec<OverlayId> = Vec::new();
        let mut i: usize = 0;
        let ghost keys = self.keys@;
        while i < self.keys.len()
            invariant
                i <= self.keys@.len(),
                self.wf(),
                keys == self.keys@,
                forall|id: OverlayId| #[trigger]
                    ids@.contains(id) == keys.take(i as int).contains(OverlayKey { window, id }),
                forall|a: int, b: int|
                    0 <= a < b < ids@.len() ==> (#[trigger] ids@[a]).0 < (#[trigger] ids@[b]).0,
            decreases self.keys@.len() - i,
        {
            let key = self.keys[i];
            let ghost seen = ids@;
            if key.window == window {
                proof {
                    assert forall|a: int| 0 <= a < seen.len() implies (#[trigger] seen[a]).0 < key.id.0 by {
                        assert(seen.contains(seen[a]));
                        let earlier = OverlayKey { window, id: seen[a] };
                        let p = choose|p: int|
                            0 <= p < i && keys.take(i as int)[p] == earlier;
                        assert(keys.take(i as int).contains(earlier));
                        assert(keys[p].before(keys[i as int]));
                    }
                }
                ids.push(key.id);
            }
            proof {
                assert(keys.take(i + 1) =~= keys.take(i as int).push(key));
                assert forall|id: OverlayId| #[trigger] ids@.contains(id) == keys.take(i + 1).contains(
                    OverlayKey { window, id },
                ) by {
                    crate::shared::pushed_contains(
                        keys.take(i as int),
                        key,
                        OverlayKey { window, id },
                    );
                    crate::shared::pushed_contains(seen, key.id, id);
                    assert(seen.contains(id) == keys.take(i as int).contains(OverlayKey { window, id }));
                }
            }
            i += 1;
        }
        assert(keys.take(i as int) =~= keys);
        ids
    }

    /// Takes out the overlays of a window.
    pub fn remove_window(&mut self, window: WindowId)
        requires
            old(self).wf(),
        ensures
            final(self).wf(),
            final(self)@ == old(self)@.restrict(
                Set::new(|key: OverlayKey| key.window != window).intersect(old(self)@.dom()),
            ),
    {
        let ghost before = *self;
        let mut i: usize = 0;
        while i < self.keys.len()
            invariant
                self.wf(),
                before.wf(),
                i <= self.keys@.len(),
                forall|j: int| 0 <= j < i ==> (#[trigger] self.keys@[j]).window != window,
                forall|k: OverlayKey| #[trigger]
                    self@.contains_key(k) ==> before@.contains_key(k) && self@[k] == before@[k],
                forall|k: OverlayKey| #[trigger]
                    before@.contains_key(k) && k.window != window ==> self@.contains_key(k),
            decreases self.keys@.len() - i,
        {
            if self.keys[i].window == window {
                self.drop_at(i);
            } else {
                i += 1;
            }
        }
        proof {
            let rest = Set::new(|key: OverlayKey| key.window != window).intersect(before@.dom());
            assert forall|k: OverlayKey| #[trigger] self@.contains_key(k) implies k.window != window by {
                let p = position(self.keys@, k);
                assert(self.keys@[p].window != window);
            }
            assert(self@ =~= before@.restrict(rest));
        }
    }

    fn drop_at(&mut self, i: usize)
        requires
            old(self).wf(),
            i < old(self).keys@.len(),
        ensures
            final(self).wf(),
            final(self).keys@ == old(self).keys@.remove(i as int),
            final(self)@ == old(self)@.remove(old(self).keys@[i as int]),
    {
        let ghost keys = self.keys@;
        self.keys.remove(i);
        self.views.remove(i);
        proof {
            let now = self.keys@;
            assert(in_order(now)) by {
                assert forall|a: int, b: int| 0 <= a < b < now.len() implies (#[trigger] now[a]).before(
                    #[trigger] now[b],
                ) by {
                    let x = if a < i { a } else { a + 1 };
                    let y = if b < i { b } else { b + 1 };
                    assert(keys[x].before(keys[y]));
                }
            }
            let gone = keys[i as int];
            let expected = old(self)@.remove(gone);
            old(self).entry(i as int);
            assert forall|k: OverlayKey| self@.contains_key(k) == expected.contains_key(k) by {
                if now.contains(k) {
                    let p = position(now, k);
                    let q = if p < i { p } else { p + 1 };
                    assert(keys[q] == k);
                    old(self).entry(q);
                }
                if keys.contains(k) && k != gone {
                    let p = position(keys, k);
                    let q = if p < i { p } else { p - 1 };
                    assert(now[q] == k);
                }
            }
            assert forall|k: OverlayKey| self@.contains_key(k) implies #[trigger] self@[k] == expected[k] by {
                let p = position(now, k);
                let q = if p < i { p } else { p + 1 };
                self.entry(p);
                old(self).entry(q);
            }
            assert(self@ =~= expected);
        }
    }

    /// Takes out every overlay.
    pub fn clear(&mut self)
        ensures
            final(self).wf(),
            final(self)@ == Map::<OverlayKey, V>::empty(),
    {
        self.keys.clear();
        self.views.clear();
        assert(self@ =~= Map::<OverlayKey, V>::empty());
    }
}

/// Overlays are ordered by window first and by identity within one: of two different ones exactly one comes before
/// the other, and the order goes on from one to the next.
pub proof fn overlays_are_ordered_by_window(a: OverlayKey, b: OverlayKey, c: OverlayKey)
    ensures
        !a.before(a),
        a != b ==> (a.before(b) <==> !b.before(a)),
        a.before(b) && b.before(c) ==> a.before(c),
        a.window.0 < b.window.0 ==> a.before(b),
        a.window == b.window ==> (a.before(b) <==> a.id.0 < b.id.0),
{
}

} // verus!
