//! Keys and buttons, and the mapping from them to intents.
//!
//! The set of keys is kept small on purpose: only what applications use.

use crate::contract::command::Intent;
use vstd::prelude::*;

verus! {

/// A key, by its position on the keyboard and not by the layout.
#[derive(Debug, Clone, Copy, PartialEq, Eq, Hash, Structural)]
pub enum Key {
    W,
    A,
    S,
    D,
    Q,
    E,
    Space,
    /// Either shift key.
    Shift,
    /// Either control key.
    Control,
    Tab,
    Escape,
}

/// A key as the platform tells keys apart.
#[derive(Debug, Clone, Copy, PartialEq, Eq, Structural)]
pub enum KeyCode {
    KeyW,
    KeyA,
    KeyS,
    KeyD,
    KeyQ,
    KeyE,
    Space,
    ShiftLeft,
    ShiftRight,
    ControlLeft,
    ControlRight,
    Tab,
    Escape,
    /// Any other key.
    Other,
}

/// The key that applications are told of, if they know it. The two shift keys are one to them, and so
/// are the two control keys.
pub open spec fn known_key(code: KeyCode) -> Option<Key> {
    match code {
        KeyCode::KeyW => Some(Key::W),
        KeyCode::KeyA => Some(Key::A),
        KeyCode::KeyS => Some(Key::S),
        KeyCode::KeyD => Some(Key::D),
        KeyCode::KeyQ => Some(Key::Q),
        KeyCode::KeyE => Some(Key::E),
        KeyCode::Space => Some(Key::Space),
        KeyCode::ShiftLeft => Some(Key::Shift),
        KeyCode::ShiftRight => Some(Key::Shift),
        KeyCode::ControlLeft => Some(Key::Control),
        KeyCode::ControlRight => Some(Key::Control),
        KeyCode::Tab => Some(Key::Tab),
        KeyCode::Escape => Some(Key::Escape),
        KeyCode::Other => None,
    }
}

/// The key that applications are told of.
pub fn translate_key(code: KeyCode) -> (key: Option<Key>)
    ensures
        key == known_key(code),
{
    match code {
        KeyCode::KeyW => Some(Key::W),
        KeyCode::KeyA => Some(Key::A),
        KeyCode::KeyS => Some(Key::S),
        KeyCode::KeyD => Some(Key::D),
        KeyCode::KeyQ => Some(Key::Q),
        KeyCode::KeyE => Some(Key::E),
        KeyCode::Space => Some(Key::Space),
        KeyCode::ShiftLeft | KeyCode::ShiftRight => Some(Key::Shift),
        KeyCode::ControlLeft | KeyCode::ControlRight => Some(Key::Control),
        KeyCode::Tab => Some(Key::Tab),
        KeyCode::Escape => Some(Key::Escape),
        KeyCode::Other => None,
    }
}

/// Every key that applications know can be pressed.
pub proof fn every_key_can_be_pressed(key: Key)
    ensures
        exists|code: KeyCode| #[trigger] known_key(code) == Some(key),
{
    let code = match key {
        Key::W => KeyCode::KeyW,
        Key::A => KeyCode::KeyA,
        Key::S => KeyCode::KeyS,
        Key::D => KeyCode::KeyD,
        Key::Q => KeyCode::KeyQ,
        Key::E => KeyCode::KeyE,
        Key::Space => KeyCode::Space,
        Key::Shift => KeyCode::ShiftLeft,
        Key::Control => KeyCode::ControlLeft,
        Key::Tab => KeyCode::Tab,
        Key::Escape => KeyCode::Escape,
    };
    assert(known_key(code) == Some(key));
}

/// A mouse button.
#[derive(Debug, Clone, Copy, PartialEq, Eq, Hash, Structural)]
pub enum MouseButton {
    Left,
    Right,
    Middle,
}

/// What an intent can be bound to.
#[derive(Debug, Clone, Copy, PartialEq, Eq, Hash, Structural)]
pub enum InputSource {
    Key(Key),
    Mouse(MouseButton),
}

/// One line of a keymap.
#[derive(Debug, Clone, Copy, PartialEq, Eq, Structural)]
pub struct Binding {
    pub source: InputSource,
    pub intent: Intent,
}

/// Which intent each source stands for: data, not code, so that an application declares its own.
#[derive(Debug)]
pub struct Keymap {
    bindings: Vec<Binding>,
}

/// The intent that a source is bound to: the last binding of it counts.
pub open spec fn bound(bindings: Seq<Binding>, source: InputSource) -> Option<Intent>
    decreases bindings.len(),
{
    if bindings.len() == 0 {
        None
    } else if bindings.last().source == source {
        Some(bindings.last().intent)
    } else {
        bound(bindings.drop_last(), source)
    }
}

impl View for Keymap {
    type V = Seq<Binding>;

    closed spec fn view(&self) -> Seq<Binding> {
        self.bindings@
    }
}

impl Keymap {
    /// The intent that a source stands for.
    pub open spec fn maps(&self, source: InputSource) -> Option<Intent> {
        bound(self@, source)
    }

    pub fn new() -> (keymap: Self)
        ensures
            keymap@ == Seq::<Binding>::empty(),
    {
        Keymap { bindings: Vec::new() }
    }

    /// The keymap with one more binding; an earlier one of the same source no longer counts.
    pub fn bind(self, source: InputSource, intent: Intent) -> (keymap: Self)
        ensures
            keymap@ == self@.push(Binding { source, intent }),
    {
        let mut keymap = self;
        keymap.bindings.push(Binding { source, intent });
        keymap
    }

    /// The intent that a source stands for.
    pub fn lookup(&self, source: InputSource) -> (intent: Option<Intent>)
        ensures
            intent == self.maps(source),
    {
        let mut i: usize = self.bindings.len();
        assert(self.bindings@.take(i as int) =~= self.bindings@);
        while i > 0
            invariant
                i <= self.bindings@.len(),
                bound(self.bindings@, source) == bound(self.bindings@.take(i as int), source),
            decreases i,
        {
            let binding = self.bindings[i - 1];
            proof {
                let rest = self.bindings@.take(i as int);
                assert(rest.drop_last() =~= self.bindings@.take(i - 1));
                assert(rest.last() == binding);
            }
            if binding.source == source {
                return Some(binding.intent);
            }
            i -= 1;
        }
        None
    }
}

impl Default for Keymap {
    fn default() -> (keymap: Self)
        ensures
            keymap@ == Seq::<Binding>::empty(),
    {
        Keymap::new()
    }
}

/// A binding counts from when it is made, and no other source is affected by it.
pub proof fn the_last_binding_counts(bindings: Seq<Binding>, binding: Binding, other: InputSource)
    ensures
        bound(bindings.push(binding), binding.source) == Some(binding.intent),
        other != binding.source ==> bound(bindings.push(binding), other) == bound(bindings, other),
{
    assert(bindings.push(binding).drop_last() =~= bindings);
}

/// Where the keymap leads: axis intents are held, action intents wait in line.
#[derive(Debug)]
pub struct IntentState {
    held: Vec<Intent>,
    actions: Vec<Intent>,
}

impl IntentState {
    /// The axis intents that are held.
    pub closed spec fn holds(&self) -> Set<Intent> {
        self.held@.to_set()
    }

    /// The action intents in line, in the order in which they came.
    pub closed spec fn waiting(&self) -> Seq<Intent> {
        self.actions@
    }

    /// What pressing or releasing the source of an intent does to the held intents.
    pub open spec fn held_after(held: Set<Intent>, intent: Option<Intent>, pressed: bool) -> Set<Intent> {
        match intent {
            Some(intent) => if intent.acts() {
                held
            } else if pressed {
                held.insert(intent)
            } else {
                held.remove(intent)
            },
            None => held,
        }
    }

    /// What pressing or releasing the source of an intent does to the line of actions.
    pub open spec fn waiting_after(line: Seq<Intent>, intent: Option<Intent>, pressed: bool) -> Seq<Intent> {
        match intent {
            Some(intent) => if intent.acts() && pressed {
                line.push(intent)
            } else {
                line
            },
            None => line,
        }
    }

    pub fn new() -> (state: Self)
        ensures
            state.holds() == Set::<Intent>::empty(),
            state.waiting() == Seq::<Intent>::empty(),
    {
        let state = IntentState { held: Vec::new(), actions: Vec::new() };
        assert(state.holds() =~= Set::<Intent>::empty());
        state
    }

    /// Whether an axis intent is held.
    pub fn is_held(&self, intent: Intent) -> (held: bool)
        ensures
            held == self.holds().contains(intent),
    {
        let mut i: usize = 0;
        while i < self.held.len()
            invariant
                i <= self.held@.len(),
                forall|j: int| 0 <= j < i ==> self.held@[j] != intent,
            decreases self.held@.len() - i,
        {
            if self.held[i] == intent {
                assert(self.held@[i as int] == intent);
                return true;
            }
            i += 1;
        }
        false
    }

    /// A source was pressed or released.
    pub fn handle(&mut self, keymap: &Keymap, source: InputSource, pressed: bool)
        ensures
            final(self).holds() == Self::held_after(old(self).holds(), keymap.maps(source), pressed),
            final(self).waiting() == Self::waiting_after(
                old(self).waiting(),
                keymap.maps(source),
                pressed,
            ),
    {
        match keymap.lookup(source) {
            Some(intent) => {
                if intent.is_axis() {
                    if pressed {
                        self.hold(intent);
                    } else {
                        self.release(intent);
                    }
                } else if pressed {
                    self.actions.push(intent);
                }
            },
            None => {},
        }
    }

    fn hold(&mut self, intent: Intent)
        ensures
            final(self).holds() == old(self).holds().insert(intent),
            final(self).waiting() == old(self).waiting(),
    {
        let ghost before = self.held@;
        self.held.push(intent);
        proof {
            assert forall|x: Intent| #[trigger] self.held@.contains(x) == (before.contains(x) || x
                == intent) by {
                crate::shared::pushed_contains(before, intent, x);
            }
            assert(self.holds() =~= old(self).holds().insert(intent));
        }
    }

    fn release(&mut self, intent: Intent)
        ensures
            final(self).holds() == old(self).holds().remove(intent),
            final(self).waiting() == old(self).waiting(),
    {
        let ghost before = self.held@;
        let mut rest: Vec<Intent> = Vec::new();
        let mut i: usize = 0;
        while i < self.held.len()
            invariant
                i <= self.held@.len(),
                self.held@ == before,
                self.actions == old(self).actions,
                forall|x: Intent|
                    #[trigger] rest@.contains(x) <==> (x != intent && before.take(i as int).contains(x)),
            decreases self.held@.len() - i,
        {
            let here = self.held[i];
            let ghost kept = rest@;
            if here != intent {
                rest.push(here);
            }
            proof {
                assert(before.take(i + 1) =~= before.take(i as int).push(here));
                assert forall|x: Intent| #[trigger] rest@.contains(x) <==> (x != intent && before.take(
                    i + 1,
                ).contains(x)) by {
                    crate::shared::pushed_contains(before.take(i as int), here, x);
                    crate::shared::pushed_contains(kept, here, x);
                    assert(kept.contains(x) <==> (x != intent && before.take(i as int).contains(x)));
                }
            }
            i += 1;
        }
        self.held = rest;
        proof {
            assert(before.take(i as int) =~= before);
            assert forall|x: Intent| self.held@.contains(x) == (x != intent && before.contains(x)) by {
                assert(rest@.contains(x) <==> (x != intent && before.take(i as int).contains(x)));
            }
            assert(self.holds() =~= old(self).holds().remove(intent));
        }
    }

    /// Takes the actions out of line, in the order in which they came.
    pub fn take_actions(&mut self) -> (actions: Vec<Intent>)
        ensures
            actions@ == old(self).waiting(),
            final(self).waiting() == Seq::<Intent>::empty(),
            final(self).holds() == old(self).holds(),
    {
        let mut actions: Vec<Intent> = Vec::new();
        std::mem::swap(&mut actions, &mut self.actions);
        actions
    }

    /// Lets go of everything: nothing is held and nothing is in line.
    pub fn clear(&mut self)
        ensures
            final(self).holds() == Set::<Intent>::empty(),
            final(self).waiting() == Seq::<Intent>::empty(),
    {
        self.held.clear();
        self.actions.clear();
        assert(self.holds() =~= Set::<Intent>::empty());
    }
}

impl Default for IntentState {
    fn default() -> (state: Self)
        ensures
            state.holds() == Set::<Intent>::empty(),
            state.waiting() == Seq::<Intent>::empty(),
    {
        IntentState::new()
    }
}

/// A key that is pressed and let go leaves no axis held that was not held before, and its action, if
/// it has one, is in line once.
pub proof fn press_and_release_cancel_out(held: Set<Intent>, line: Seq<Intent>, intent: Intent)
    requires
        !held.contains(intent),
    ensures
        ({
            let pressed = IntentState::held_after(held, Some(intent), true);
            IntentState::held_after(pressed, Some(intent), false) == held
        }),
        ({
            let pressed = IntentState::waiting_after(line, Some(intent), true);
            IntentState::waiting_after(pressed, Some(intent), false) == if intent.acts() {
                line.push(intent)
            } else {
                line
            }
        }),
{
    assert(held.insert(intent).remove(intent) =~= held);
}

/// Movements hold while their source is pressed and are never in line; breaking, placing and leaving come
/// in line once for each press and are never held.
pub proof fn movements_hold_and_actions_fire(held: Set<Intent>, line: Seq<Intent>, intent: Intent)
    ensures
        intent == Intent::Break || intent == Intent::Place || intent == Intent::Quit ==> {
            &&& IntentState::held_after(held, Some(intent), true) == held
            &&& IntentState::held_after(held, Some(intent), false) == held
            &&& IntentState::waiting_after(line, Some(intent), true) == line.push(intent)
            &&& IntentState::waiting_after(line, Some(intent), false) == line
        },
        intent != Intent::Break && intent != Intent::Place && intent != Intent::Quit ==> {
            &&& IntentState::held_after(held, Some(intent), true).contains(intent)
            &&& !IntentState::held_after(held, Some(intent), false).contains(intent)
            &&& IntentState::waiting_after(line, Some(intent), true) == line
            &&& IntentState::waiting_after(line, Some(intent), false) == line
        },
{
}

/// One intent does not disturb another, and a source that is bound to nothing does nothing.
pub proof fn intents_do_not_disturb_each_other(
    held: Set<Intent>,
    line: Seq<Intent>,
    intent: Intent,
    other: Intent,
    pressed: bool,
)
    requires
        intent != other,
    ensures
        IntentState::held_after(held, Some(intent), pressed).contains(other) == held.contains(other),
        IntentState::held_after(held, None, pressed) == held,
        IntentState::waiting_after(line, None, pressed) == line,
{
}

/// A source stands for what it was last bound to, and for nothing if it was never bound.
pub proof fn a_source_stands_for_its_last_binding(bindings: Seq<Binding>, source: InputSource)
    ensures
        match bound(bindings, source) {
            Some(intent) => exists|i: int|
                0 <= i < bindings.len() && (#[trigger] bindings[i]).source == source && bindings[i].intent == intent
                    && forall|j: int| i < j < bindings.len() ==> (#[trigger] bindings[j]).source != source,
            None => forall|i: int| 0 <= i < bindings.len() ==> (#[trigger] bindings[i]).source != source,
        },
    decreases bindings.len(),
{
    if bindings.len() > 0 {
        let n = bindings.len() - 1;
        if bindings.last().source == source {
            assert(bindings[n].intent == bound(bindings, source)->0);
        } else {
            let before = bindings.drop_last();
            a_source_stands_for_its_last_binding(before, source);
            if bound(bindings, source) is Some {
                let i = choose|i: int|
                    0 <= i < before.len() && (#[trigger] before[i]).source == source && before[i].intent == bound(
                        bindings,
                        source,
                    )->0 && forall|j: int| i < j < before.len() ==> (#[trigger] before[j]).source != source;
                assert(bindings[i] == before[i]);
                assert forall|j: int| i < j < bindings.len() implies (#[trigger] bindings[j]).source != source by {
                    if j < n {
                        assert(bindings[j] == before[j]);
                    }
                }
            } else {
                assert forall|i: int| 0 <= i < bindings.len() implies (#[trigger] bindings[i]).source != source by {
                    if i < n {
                        assert(bindings[i] == before[i]);
                    }
                }
            }
        }
    }
}

/// Two physical keys are one to applications only if both are shift keys or both are control keys.
pub proof fn keys_are_told_apart(a: KeyCode, b: KeyCode)
    requires
        known_key(a) is Some,
        known_key(a) == known_key(b),
    ensures
        a == b || known_key(a) == Some(Key::Shift) || known_key(a) == Some(Key::Control),
        known_key(a) == Some(Key::Shift) ==> a == KeyCode::ShiftLeft || a == KeyCode::ShiftRight,
        known_key(a) == Some(Key::Control) ==> a == KeyCode::ControlLeft || a == KeyCode::ControlRight,
{
}

} // verus!
