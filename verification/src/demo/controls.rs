//! Who gets the input: the world, or the panel while it is open.

use crate::contract::command::Intent;
use crate::contract::event::Event;
use crate::contract::input::{bound, Binding, InputSource, IntentState, Key, Keymap, MouseButton};
use crate::ui::tree::{topmost, UiTree};
use vstd::prelude::*;

verus! {

/// The keymap that the demo declares.
pub open spec fn declared_keys() -> Seq<Binding> {
    seq![
        Binding { source: InputSource::Key(Key::W), intent: Intent::MoveForward },
        Binding { source: InputSource::Key(Key::S), intent: Intent::MoveBackward },
        Binding { source: InputSource::Key(Key::A), intent: Intent::MoveLeft },
        Binding { source: InputSource::Key(Key::D), intent: Intent::MoveRight },
        Binding { source: InputSource::Key(Key::Space), intent: Intent::Ascend },
        Binding { source: InputSource::Key(Key::Control), intent: Intent::Descend },
        Binding { source: InputSource::Key(Key::Shift), intent: Intent::Boost },
        Binding { source: InputSource::Key(Key::Escape), intent: Intent::Quit },
        Binding { source: InputSource::Mouse(MouseButton::Left), intent: Intent::Break },
        Binding { source: InputSource::Mouse(MouseButton::Right), intent: Intent::Place },
    ]
}

/// The keymap that the demo declares.
pub fn default_keymap() -> (keymap: Keymap)
    ensures
        keymap@ == declared_keys(),
{
    let keymap = Keymap::new().bind(InputSource::Key(Key::W), Intent::MoveForward).bind(
        InputSource::Key(Key::S),
        Intent::MoveBackward,
    ).bind(InputSource::Key(Key::A), Intent::MoveLeft).bind(
        InputSource::Key(Key::D),
        Intent::MoveRight,
    ).bind(InputSource::Key(Key::Space), Intent::Ascend).bind(
        InputSource::Key(Key::Control),
        Intent::Descend,
    ).bind(InputSource::Key(Key::Shift), Intent::Boost).bind(
        InputSource::Key(Key::Escape),
        Intent::Quit,
    ).bind(InputSource::Mouse(MouseButton::Left), Intent::Break).bind(
        InputSource::Mouse(MouseButton::Right),
        Intent::Place,
    );
    assert(keymap@ =~= declared_keys());
    keymap
}

/// Which way the camera is to go.
#[derive(Debug, Clone, Copy, PartialEq, Eq, Structural)]
pub struct CameraAxes {
    /// 1 forward, -1 backward.
    pub forward: i8,
    /// 1 to the right, -1 to the left.
    pub right: i8,
    /// 1 up, -1 down.
    pub up: i8,
    pub boost: bool,
}

/// An axis with an intent for each way: both cancel out.
pub open spec fn axis(held: Set<Intent>, positive: Intent, negative: Intent) -> int {
    (if held.contains(positive) { 1int } else { 0 }) - (if held.contains(negative) { 1int } else { 0 })
}

fn axis_of(intents: &IntentState, positive: Intent, negative: Intent) -> (value: i8)
    ensures
        value == axis(intents.holds(), positive, negative),
{
    let mut value: i8 = 0;
    if intents.is_held(positive) {
        value = value + 1;
    }
    if intents.is_held(negative) {
        value = value - 1;
    }
    value
}

/// Which way the camera is to go, by the intents that are held.
pub fn camera_input(intents: &IntentState) -> (axes: CameraAxes)
    ensures
        axes.forward == axis(intents.holds(), Intent::MoveForward, Intent::MoveBackward),
        axes.right == axis(intents.holds(), Intent::MoveRight, Intent::MoveLeft),
        axes.up == axis(intents.holds(), Intent::Ascend, Intent::Descend),
        axes.boost == intents.holds().contains(Intent::Boost),
{
    CameraAxes {
        forward: axis_of(intents, Intent::MoveForward, Intent::MoveBackward),
        right: axis_of(intents, Intent::MoveRight, Intent::MoveLeft),
        up: axis_of(intents, Intent::Ascend, Intent::Descend),
        boost: intents.is_held(Intent::Boost),
    }
}

/// Whether keys and mouse movements are for the panel: whenever it is open.
pub fn ui_owns_control(panel_open: bool) -> (owns: bool)
    ensures
        owns == panel_open,
{
    panel_open
}

/// Whether a click is for the panel: if it is open and something of the display was hit. `inside`
/// says of each placed widget whether it holds the cursor.
pub fn ui_owns_click<S, R: Copy>(panel_open: bool, tree: &UiTree<S, R>, inside: &[bool]) -> (owns: bool)
    requires
        inside@.len() == tree.places().len(),
    ensures
        owns == (panel_open && topmost(tree.places(), inside@) is Some),
{
    panel_open && tree.hit_test(inside).is_some()
}

/// What the application has to do about an event.
#[derive(Debug, Clone, Copy, PartialEq, Eq)]
pub struct Reply<N> {
    pub exit: bool,
    /// Whether the cursor is to be caught and hidden, or let go and shown.
    pub grab: Option<bool>,
    /// By how much the view turns.
    pub look: Option<[N; 2]>,
}

/// What the input amounts to.
#[verifier::ext_equal]
pub struct Input<N> {
    pub held: Set<Intent>,
    pub waiting: Seq<Intent>,
    pub cursor: [N; 2],
    pub panel_open: bool,
}

/// Nothing to do.
pub open spec fn quiet<N>() -> Reply<N> {
    Reply { exit: false, grab: None, look: None }
}

/// The panel is opened or closed: whatever is held is let go, and the cursor is caught by the world
/// only while the panel is closed.
pub open spec fn with_panel<N>(input: Input<N>, open: bool) -> (Input<N>, Reply<N>) {
    if input.panel_open == open {
        (input, quiet())
    } else {
        (
            Input { held: Set::empty(), waiting: Seq::empty(), panel_open: open, ..input },
            Reply { grab: Some(!open), ..quiet() },
        )
    }
}

/// A source was pressed or released, and the world gets it.
pub open spec fn passed_on<N>(input: Input<N>, keys: Seq<Binding>, source: InputSource, pressed: bool) -> Input<N> {
    let intent = bound(keys, source);
    Input {
        held: IntentState::held_after(input.held, intent, pressed),
        waiting: IntentState::waiting_after(input.waiting, intent, pressed),
        ..input
    }
}

/// What an event does. `over_ui` is whether the cursor is over something of the display.
pub open spec fn after_event<N>(input: Input<N>, keys: Seq<Binding>, event: Event<N>, over_ui: bool) -> (
    Input<N>,
    Reply<N>,
) {
    match event {
        Event::CloseRequested { .. } => (input, Reply { exit: true, ..quiet() }),
        Event::KeyboardInput { key, pressed, repeat, .. } => if input.panel_open {
            if pressed && (key == Key::Escape || (key == Key::Tab && !repeat)) {
                with_panel(input, false)
            } else {
                (input, quiet())
            }
        } else if pressed && key == Key::Tab {
            if repeat {
                (input, quiet())
            } else {
                with_panel(input, true)
            }
        } else {
            (passed_on(input, keys, InputSource::Key(key), pressed), quiet())
        },
        Event::MouseButton { button, pressed, .. } => if input.panel_open && over_ui {
            (input, quiet())
        } else {
            (passed_on(input, keys, InputSource::Mouse(button), pressed), quiet())
        },
        Event::MouseMotion { delta } => if input.panel_open {
            (input, quiet())
        } else {
            (input, Reply { look: Some(delta), ..quiet() })
        },
        Event::CursorMoved { position, .. } => (Input { cursor: position, ..input }, quiet()),
        Event::Focused { focused, .. } => (
            if focused {
                input
            } else {
                Input { held: Set::empty(), waiting: Seq::empty(), ..input }
            },
            Reply { grab: Some(focused && !input.panel_open), ..quiet() },
        ),
        _ => (input, quiet()),
    }
}

/// The input of the demo.
#[derive(Debug)]
pub struct Controls<N> {
    keymap: Keymap,
    intents: IntentState,
    cursor: [N; 2],
    panel_open: bool,
}

impl<N> View for Controls<N> {
    type V = Input<N>;

    closed spec fn view(&self) -> Input<N> {
        Input {
            held: self.intents.holds(),
            waiting: self.intents.waiting(),
            cursor: self.cursor,
            panel_open: self.panel_open,
        }
    }
}

impl<N: Copy> Controls<N> {
    /// The keymap.
    pub closed spec fn keys(&self) -> Seq<Binding> {
        self.keymap@
    }

    /// The declared keymap, a closed panel and nothing held.
    pub fn new(cursor: [N; 2]) -> (controls: Self)
        ensures
            controls.keys() == declared_keys(),
            controls@ == (Input {
                held: Set::empty(),
                waiting: Seq::empty(),
                cursor,
                panel_open: false,
            }),
    {
        Controls {
            keymap: default_keymap(),
            intents: IntentState::new(),
            cursor,
            panel_open: false,
        }
    }

    pub fn is_panel_open(&self) -> (open: bool)
        ensures
            open == self@.panel_open,
    {
        self.panel_open
    }

    pub fn cursor(&self) -> (cursor: [N; 2])
        ensures
            cursor == self@.cursor,
    {
        self.cursor
    }

    /// Which way the camera is to go.
    pub fn camera_axes(&self) -> (axes: CameraAxes)
        ensures
            axes.forward == axis(self@.held, Intent::MoveForward, Intent::MoveBackward),
            axes.right == axis(self@.held, Intent::MoveRight, Intent::MoveLeft),
            axes.up == axis(self@.held, Intent::Ascend, Intent::Descend),
            axes.boost == self@.held.contains(Intent::Boost),
    {
        camera_input(&self.intents)
    }

    /// Takes the actions out of line, in the order in which they came.
    pub fn take_actions(&mut self) -> (actions: Vec<Intent>)
        ensures
            actions@ == old(self)@.waiting,
            final(self)@ == (Input { waiting: Seq::empty(), ..old(self)@ }),
            final(self).keys() == old(self).keys(),
    {
        self.intents.take_actions()
    }

    /// Opens or closes the panel.
    pub fn set_panel_open(&mut self, open: bool) -> (reply: Reply<N>)
        ensures
            (final(self)@, reply) == with_panel(old(self)@, open),
            final(self).keys() == old(self).keys(),
    {
        if self.panel_open == open {
            return Reply { exit: false, grab: None, look: None };
        }
        self.panel_open = open;
        self.intents.clear();
        Reply { exit: false, grab: Some(!open), look: None }
    }

    /// An event. `over_ui` is whether the cursor is over something of the display.
    pub fn handle_event(&mut self, event: &Event<N>, over_ui: bool) -> (reply: Reply<N>)
        ensures
            (final(self)@, reply) == after_event(old(self)@, old(self).keys(), *event, over_ui),
            final(self).keys() == old(self).keys(),
    {
        let quiet = Reply { exit: false, grab: None, look: None };
        match event {
            Event::CloseRequested { .. } => Reply { exit: true, grab: None, look: None },
            Event::KeyboardInput { key, pressed, repeat, .. } => {
                if ui_owns_control(self.panel_open) {
                    if *pressed && (*key == Key::Escape || (*key == Key::Tab && !*repeat)) {
                        return self.set_panel_open(false);
                    }
                    return quiet;
                }
                if *pressed && *key == Key::Tab {
                    if *repeat {
                        return quiet;
                    }
                    return self.set_panel_open(true);
                }
                self.intents.handle(&self.keymap, InputSource::Key(*key), *pressed);
                quiet
            },
            Event::MouseButton { button, pressed, .. } => {
                if !(self.panel_open && over_ui) {
                    self.intents.handle(&self.keymap, InputSource::Mouse(*button), *pressed);
                }
                quiet
            },
            Event::MouseMotion { delta } => {
                if ui_owns_control(self.panel_open) {
                    quiet
                } else {
                    Reply { exit: false, grab: None, look: Some(*delta) }
                }
            },
            Event::CursorMoved { position, .. } => {
                self.cursor = *position;
                quiet
            },
            Event::Focused { focused, .. } => {
                if !*focused {
                    self.intents.clear();
                }
                Reply { exit: false, grab: Some(*focused && !self.panel_open), look: None }
            },
            _ => quiet,
        }
    }
}

/// While the panel is open, no key moves the camera and no movement of the mouse turns the view;
/// closing it leaves nothing held.
pub proof fn the_open_panel_keeps_the_input<N>(input: Input<N>, keys: Seq<Binding>, event: Event<N>, over_ui: bool)
    requires
        input.panel_open,
        event is KeyboardInput || event is MouseMotion,
    ensures
        ({
            let (after, reply) = after_event(input, keys, event, over_ui);
            &&& reply.look is None
            &&& !reply.exit
            &&& after.panel_open ==> after == input
            &&& !after.panel_open ==> after.held == Set::<Intent>::empty() && after.waiting
                == Seq::<Intent>::empty()
        }),
{
}

/// While the panel is closed, every click reaches the world: nothing on the display, the crosshair
/// included, swallows it.
pub proof fn the_closed_panel_swallows_no_click<N>(
    input: Input<N>,
    keys: Seq<Binding>,
    event: Event<N>,
    over_ui: bool,
)
    requires
        !input.panel_open,
        event is MouseButton,
    ensures
        after_event(input, keys, event, over_ui) == after_event(input, keys, event, !over_ui),
        event matches Event::MouseButton { button, pressed, .. } ==> after_event(
            input,
            keys,
            event,
            over_ui,
        ).0 == passed_on(input, keys, InputSource::Mouse(button), pressed),
{
}

/// A key that is held down opens or closes the panel once: repeats of the key change nothing.
pub proof fn holding_the_key_toggles_once<N>(input: Input<N>, keys: Seq<Binding>, event: Event<N>, over_ui: bool)
    requires
        event matches Event::KeyboardInput { key, pressed, repeat, .. } && key == Key::Tab && pressed
            && repeat,
    ensures
        after_event(input, keys, event, over_ui) == (input, quiet::<N>()),
{
}

/// Leaving the window lets go of everything and of the cursor.
pub proof fn losing_the_focus_lets_go<N>(input: Input<N>, keys: Seq<Binding>, event: Event<N>, over_ui: bool)
    requires
        event matches Event::Focused { focused, .. } && !focused,
    ensures
        ({
            let (after, reply) = after_event(input, keys, event, over_ui);
            &&& after.held == Set::<Intent>::empty()
            &&& after.waiting == Seq::<Intent>::empty()
            &&& reply.grab == Some(false)
        }),
{
}

/// The key of the panel opens it if it is closed and closes it if it is open; whatever was held is let go
/// and nothing stays in line, and the cursor is caught only while the panel is closed.
pub proof fn the_key_turns_the_panel<N>(input: Input<N>, keys: Seq<Binding>, event: Event<N>, over_ui: bool)
    requires
        event matches Event::KeyboardInput { key, pressed, repeat, .. } && key == Key::Tab && pressed && !repeat,
    ensures
        ({
            let (after, reply) = after_event(input, keys, event, over_ui);
            &&& after.panel_open == !input.panel_open
            &&& after.held == Set::<Intent>::empty()
            &&& after.waiting == Seq::<Intent>::empty()
            &&& after.cursor == input.cursor
            &&& reply.grab == Some(input.panel_open)
            &&& !reply.exit && reply.look is None
        }),
{
}

/// Leaving by the keyboard takes two steps while the panel is open: the key closes it first, and is an action
/// of the world only when it is closed.
pub proof fn the_panel_is_left_first<N>(input: Input<N>, event: Event<N>, over_ui: bool)
    requires
        event matches Event::KeyboardInput { key, pressed, .. } && key == Key::Escape && pressed,
    ensures
        ({
            let (after, reply) = after_event(input, declared_keys(), event, over_ui);
            &&& !after.panel_open
            &&& input.panel_open ==> after.waiting == Seq::<Intent>::empty() && reply.grab == Some(true)
            &&& !input.panel_open ==> after.waiting == input.waiting.push(Intent::Quit) && after.held == input.held
            &&& !reply.exit
        }),
{
    a_declared_key_is_bound(7);
}

/// Each source of the declared keymap is bound to its own intent.
pub proof fn a_declared_key_is_bound(i: int)
    requires
        0 <= i < 10,
    ensures
        bound(declared_keys(), declared_keys()[i].source) == Some(declared_keys()[i].intent),
{
    let keys = declared_keys();
    bound_by(keys, i, 10);
    assert(keys.take(10) =~= keys);
}

proof fn bound_by(keys: Seq<Binding>, i: int, n: int)
    requires
        keys == declared_keys(),
        0 <= i < n <= 10,
    ensures
        bound(keys.take(n), keys[i].source) == Some(keys[i].intent),
    decreases n,
{
    let list = keys.take(n);
    assert(list.last() == keys[n - 1]);
    assert(list.drop_last() =~= keys.take(n - 1));
    if i < n - 1 {
        assert(keys[i].source != keys[n - 1].source);
        bound_by(keys, i, n - 1);
    }
}

/// While the panel is closed the keys that go a way are held until they are let go, each for its own way, and
/// the two mouse buttons break and place, once for each press.
pub proof fn the_world_gets_keys_and_clicks<N>(input: Input<N>, event: Event<N>, over_ui: bool)
    requires
        !input.panel_open,
    ensures
        ({
            let (after, reply) = after_event(input, declared_keys(), event, over_ui);
            let way = |key: Key| if key == Key::W {
                Some(Intent::MoveForward)
            } else if key == Key::S {
                Some(Intent::MoveBackward)
            } else if key == Key::A {
                Some(Intent::MoveLeft)
            } else if key == Key::D {
                Some(Intent::MoveRight)
            } else if key == Key::Space {
                Some(Intent::Ascend)
            } else if key == Key::Control {
                Some(Intent::Descend)
            } else if key == Key::Shift {
                Some(Intent::Boost)
            } else {
                None
            };
            &&& event matches Event::KeyboardInput { key, pressed, .. } ==> (way(key) is Some ==> after.held == (
            if pressed {
                input.held.insert(way(key)->0)
            } else {
                input.held.remove(way(key)->0)
            }) && after.waiting == input.waiting)
            &&& event matches Event::MouseButton { button, pressed, .. } ==> {
                &&& button == MouseButton::Left || button == MouseButton::Right ==> after.held == input.held
                &&& button == MouseButton::Left ==> after.waiting == (if pressed {
                    input.waiting.push(Intent::Break)
                } else {
                    input.waiting
                })
                &&& button == MouseButton::Right ==> after.waiting == (if pressed {
                    input.waiting.push(Intent::Place)
                } else {
                    input.waiting
                })
            }
            &&& event matches Event::MouseMotion { delta } ==> reply.look == Some(delta) && after == input
            &&& event is KeyboardInput || event is MouseButton || event is MouseMotion ==> !reply.exit
        }),
{
    a_declared_key_is_bound(0);
    a_declared_key_is_bound(1);
    a_declared_key_is_bound(2);
    a_declared_key_is_bound(3);
    a_declared_key_is_bound(4);
    a_declared_key_is_bound(5);
    a_declared_key_is_bound(6);
    a_declared_key_is_bound(8);
    a_declared_key_is_bound(9);
}

/// A click beside the open panel reaches the world, one on it does not; closing the window leaves, and coming
/// back to it catches the cursor unless the panel is open.
pub proof fn clicks_and_focus_go_where_they_belong<N>(
    input: Input<N>,
    keys: Seq<Binding>,
    event: Event<N>,
    over_ui: bool,
)
    ensures
        ({
            let (after, reply) = after_event(input, keys, event, over_ui);
            &&& event is MouseButton && input.panel_open && over_ui ==> after == input
            &&& event is MouseButton && input.panel_open && !over_ui ==> after == (Input {
                panel_open: true,
                ..after_event(Input { panel_open: false, ..input }, keys, event, over_ui).0
            })
            &&& reply.exit <==> event is CloseRequested
            &&& event matches Event::Focused { focused, .. } ==> (focused ==> after == input && reply.grab == Some(
                !input.panel_open,
            ))
            &&& event matches Event::CursorMoved { position, .. } ==> after.cursor == position
            &&& event !is CursorMoved ==> after.cursor == input.cursor
        }),
{
}

/// Opposite ways cancel out, and each way has its sign.
pub proof fn opposite_ways_cancel_out(held: Set<Intent>, positive: Intent, negative: Intent)
    ensures
        held.contains(positive) && held.contains(negative) ==> axis(held, positive, negative) == 0,
        held.contains(positive) && !held.contains(negative) ==> axis(held, positive, negative) == 1,
        !held.contains(positive) && held.contains(negative) ==> axis(held, positive, negative) == -1,
        !held.contains(positive) && !held.contains(negative) ==> axis(held, positive, negative) == 0,
        axis(held, positive, negative) == -axis(held, negative, positive),
{
}

} // verus!
