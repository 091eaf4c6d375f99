//! What the buttons of the editor do, and what it writes on them.

use crate::contract::widget::UiId;
use crate::text::{decimal, push_decimal};
use crate::ui::doc::{
    anchor_name, default_from, node_props, number_in, prop_bounds, prop_in, prop_row, DocNode, NodeId, Number,
    Prop, PropDefault, PropKind, PropValue,
};
use vstd::prelude::*;
use vstd::string::StringExecFns;

verus! {

/// Width of the list of nodes, in logical pixels.
pub const SIDEBAR_WIDTH: i32 = 240;

/// Width of the panel of properties.
pub const INSPECTOR_WIDTH: i32 = 280;

/// Height of a row, of nodes and of properties alike.
pub const ROW_HEIGHT: i32 = 28;

/// Width of a button that steps a number.
pub const BUTTON_WIDTH: i32 = 26;

/// Width of a button that holds the name of a choice.
pub const ENUM_BUTTON_WIDTH: i32 = 96;

/// Space between two buttons of a row.
pub const BUTTON_GAP: i32 = 4;

/// What sets the widgets of rows apart from those of nodes.
pub const ROW_ID_BIT: u32 = 0x8000_0000;

/// What a button does to a property.
#[derive(Debug, Clone, Copy, PartialEq, Eq, Structural)]
pub enum Action {
    /// One step down.
    Decrease,
    /// One step up.
    Increase,
    /// On to the next choice.
    Next,
}

impl Action {
    /// The number of the action.
    pub open spec fn number(self) -> int {
        match self {
            Action::Decrease => 0,
            Action::Increase => 1,
            Action::Next => 2,
        }
    }

    /// The number of the action.
    pub fn code(self) -> (code: u32)
        ensures
            code == self.number(),
    {
        match self {
            Action::Decrease => 0,
            Action::Increase => 1,
            Action::Next => 2,
        }
    }

    /// The action of a number.
    pub fn from_code(code: u32) -> (action: Option<Self>)
        ensures
            action is Some <==> code <= 2,
            action matches Some(action) ==> action.number() == code,
    {
        match code {
            0 => Some(Action::Decrease),
            1 => Some(Action::Increase),
            2 => Some(Action::Next),
            _ => None,
        }
    }
}

/// A button: the place of a property in the table, and what it does to it.
#[derive(Debug, Clone, Copy, PartialEq, Eq, Structural)]
pub struct Control {
    pub prop: usize,
    pub action: Action,
}

/// What was hit.
#[derive(Debug, Clone, Copy, PartialEq, Eq, Structural)]
pub enum Hit {
    /// A node, by its row or by itself.
    Node(NodeId),
    /// A button.
    Control(Control),
}

/// What is being looked at.
#[derive(Debug, Clone, Copy, PartialEq, Eq, Structural)]
pub struct EditorState {
    pub selected: Option<NodeId>,
    pub hovered: Option<NodeId>,
}

impl Default for EditorState {
    fn default() -> (state: Self)
        ensures
            state == (EditorState { selected: None, hovered: None }),
    {
        EditorState { selected: None, hovered: None }
    }
}

/// The widget of a node's row.
pub open spec fn row_of(id: NodeId) -> UiId {
    UiId(id.widget_id().0 ^ ROW_ID_BIT)
}

/// The widget of a node's row.
pub fn row_id(id: NodeId) -> (row: UiId)
    ensures
        row == row_of(id),
{
    UiId(id.ui_id().0 ^ ROW_ID_BIT)
}

/// Rows are told apart exactly as nodes are, and no row has the identity of its node.
pub proof fn rows_are_told_apart(a: NodeId, b: NodeId)
    ensures
        row_of(a) == row_of(b) <==> a.widget_id() == b.widget_id(),
        row_of(a) != a.widget_id(),
{
    let x = a.widget_id().0;
    let y = b.widget_id().0;
    assert(x ^ 0x8000_0000u32 == y ^ 0x8000_0000u32 <==> x == y) by (bit_vector);
    assert(x ^ 0x8000_0000u32 != x) by (bit_vector);
}

/// The widget of a button: the property above four bits of action.
pub open spec fn control_number(prop: int, action: Action) -> int {
    (prop % 0x1000_0000) * 16 + action.number()
}

/// The widget of a button.
pub fn control_id(prop: usize, action: Action) -> (id: UiId)
    ensures
        id.0 == control_number(prop as int, action),
{
    let wide: u64 = prop as u64;
    let low: u32 = wide as u32;
    let code: u32 = action.code();
    assert(low == wide % 0x1_0000_0000) by (bit_vector)
        requires
            low == wide as u32,
    ;
    assert((low << 4) | code == (low % 0x1000_0000) * 16 + code) by (bit_vector)
        requires
            code <= 2,
    ;
    UiId((low << 4) | code)
}

/// The button of a widget; none if the property is not in the table or the action is not known.
pub open spec fn control_for(id: UiId) -> Option<Control> {
    if id.0 / 16 >= 6 || id.0 % 16 > 2 {
        None
    } else {
        Some(
            Control {
                prop: (id.0 / 16) as usize,
                action: if id.0 % 16 == 0 {
                    Action::Decrease
                } else if id.0 % 16 == 1 {
                    Action::Increase
                } else {
                    Action::Next
                },
            },
        )
    }
}

/// The button of a widget.
pub fn control_of(id: UiId) -> (control: Option<Control>)
    ensures
        control == control_for(id),
{
    let n: u32 = id.0;
    assert(n >> 4 == n / 16 && n & 0xF == n % 16) by (bit_vector);
    let prop: usize = (n >> 4) as usize;
    match Action::from_code(n & 0xF) {
        Some(action) => {
            if prop < node_props().len() {
                Some(Control { prop, action })
            } else {
                None
            }
        },
        None => None,
    }
}

/// The button of a widget is the one that the widget was made for.
pub proof fn buttons_come_back(prop: usize, action: Action, id: UiId)
    requires
        id.0 == control_number(prop as int, action),
    ensures
        prop < 6 ==> control_for(id) == Some(Control { prop, action }),
        6 <= prop < 0x1000_0000 ==> control_for(id) is None,
{
}

/// The buttons of a property.
pub open spec fn actions_of(kind: PropKind) -> Seq<Action> {
    match kind {
        PropKind::Number { .. } => seq![Action::Decrease, Action::Increase],
        PropKind::Enum(_) => seq![Action::Next],
        PropKind::Text => seq![],
    }
}

/// The buttons of a property. Texts are shown and not changed.
pub fn prop_actions(kind: &PropKind) -> (actions: Vec<Action>)
    ensures
        actions@ == actions_of(*kind),
{
    match kind {
        PropKind::Number { .. } => vec![Action::Decrease, Action::Increase],
        PropKind::Enum(_) => vec![Action::Next],
        PropKind::Text => Vec::new(),
    }
}

/// What a button asks for.
#[derive(Debug, PartialEq, Eq)]
pub enum Change<N> {
    /// A new value.
    Value(PropValue<N>),
    /// A step from a number that is not whole, but not beyond a bound.
    Step { from: N, up: bool, step: i32, bound: i32 },
}

/// The larger of two numbers.
pub open spec fn larger(a: int, b: int) -> int {
    if a >= b {
        a
    } else {
        b
    }
}

/// The smaller of two numbers.
pub open spec fn smaller(a: int, b: int) -> int {
    if a <= b {
        a
    } else {
        b
    }
}

/// What a button asks for, on a number within bounds.
pub open spec fn number_change<N>(min: i32, max: i32, step: i32, action: Action, now: Number<N>) -> Option<
    Change<N>,
> {
    match (action, now) {
        (Action::Decrease, Number::Whole(value)) => Some(
            Change::Value(PropValue::Number(Number::Whole(larger(value - step, min as int) as i32))),
        ),
        (Action::Decrease, Number::Real(from)) => Some(
            Change::Step { from, up: false, step, bound: min },
        ),
        (Action::Increase, Number::Whole(value)) => Some(
            Change::Value(PropValue::Number(Number::Whole(smaller(value + step, max as int) as i32))),
        ),
        (Action::Increase, Number::Real(from)) => Some(
            Change::Step { from, up: true, step, bound: max },
        ),
        (Action::Next, _) => None,
    }
}

/// What a button asks for, by the place of the property in the table and by what was written of it.
/// Where nothing was, the table says; where something of another kind was, nothing happens.
pub open spec fn change_of<N>(prop: int, action: Action, written: Option<PropValue<N>>) -> Option<
    Change<N>,
> {
    match prop_bounds(prop) {
        Some((min, max, step)) => match written {
            Some(PropValue::Number(now)) => number_change(min, max, step, action, now),
            Some(_) => None,
            None => match prop_row(prop).2 {
                PropDefault::Number(value) => number_change(
                    min,
                    max,
                    step,
                    action,
                    Number::Whole(value),
                ),
                _ => None,
            },
        },
        None => if prop == 1 && action == Action::Next {
            match written {
                Some(PropValue::Variant(index)) => Some(
                    Change::Value(PropValue::Variant(((index + 1) % 9) as usize)),
                ),
                Some(_) => None,
                None => Some(Change::Value(PropValue::Variant(1))),
            }
        } else {
            None
        },
    }
}

fn step_number<N: Copy>(min: i32, max: i32, step: i32, action: Action, now: Number<N>) -> (change: Option<
    Change<N>,
>)
    requires
        0 <= step,
    ensures
        change == number_change(min, max, step, action, now),
{
    match (action, now) {
        (Action::Decrease, Number::Whole(value)) => {
            let next: i64 = value as i64 - step as i64;
            let bounded: i32 = if next >= min as i64 {
                next as i32
            } else {
                min
            };
            Some(Change::Value(PropValue::Number(Number::Whole(bounded))))
        },
        (Action::Decrease, Number::Real(from)) => Some(
            Change::Step { from, up: false, step, bound: min },
        ),
        (Action::Increase, Number::Whole(value)) => {
            let next: i64 = value as i64 + step as i64;
            let bounded: i32 = if next <= max as i64 {
                next as i32
            } else {
                max
            };
            Some(Change::Value(PropValue::Number(Number::Whole(bounded))))
        },
        (Action::Increase, Number::Real(from)) => Some(
            Change::Step { from, up: true, step, bound: max },
        ),
        (Action::Next, _) => None,
    }
}

pub fn next_value<N: Copy>(prop: usize, action: Action, written: Option<&PropValue<N>>) -> (change: Option<
    Change<N>,
>)
    requires
        prop < 6,
    ensures
        change == change_of(
            prop as int,
            action,
            match written {
                Some(value) => Some(*value),
                None => None,
            },
        ),
{
    let props = node_props();
    let desc = props[prop];
    assert(desc == props@[prop as int]);
    match desc.kind {
        PropKind::Number { min, max, step } => {
            match written {
                Some(PropValue::Number(now)) => step_number(min, max, step, action, *now),
                Some(_) => None,
                None => match desc.default {
                    PropDefault::Number(value) => step_number(
                        min,
                        max,
                        step,
                        action,
                        Number::Whole(value),
                    ),
                    _ => None,
                },
            }
        },
        PropKind::Enum(_) => {
            if action == Action::Next {
                match written {
                    Some(PropValue::Variant(index)) => {
                        let next: usize = (*index % 9 + 1) % 9;
                        assert((*index % 9 + 1) % 9 == (*index + 1) % 9);
                        Some(Change::Value(PropValue::Variant(next)))
                    },
                    Some(_) => None,
                    None => Some(Change::Value(PropValue::Variant(1))),
                }
            } else {
                None
            }
        },
        PropKind::Text => None,
    }
}

/// A number that is stepped within bounds stays within them, and moves by no more than a step.
pub proof fn stepping_stays_in_bounds<N>(prop: int, action: Action, value: i32)
    requires
        prop_bounds(prop) matches Some((min, max, _)) && min <= value <= max,
        action != Action::Next,
    ensures
        change_of::<N>(prop, action, Some(PropValue::Number(Number::Whole(value)))) matches Some(
            Change::Value(PropValue::Number(Number::Whole(next))),
        ) && {
            let (min, max, step) = prop_bounds(prop)->0;
            &&& min <= next <= max
            &&& -step <= next - value <= step
        },
{
}

/// A button asks the same of a property that was not written as of one that was written with its default.
pub proof fn an_unwritten_property_has_its_default<N>(prop: int, action: Action)
    ensures
        prop_row(prop).2 matches PropDefault::Number(value) ==> change_of::<N>(prop, action, None) == change_of::<
            N,
        >(prop, action, Some(PropValue::Number(Number::Whole(value)))),
        prop_row(prop).2 matches PropDefault::Variant(index) ==> change_of::<N>(prop, action, None)
            == change_of::<N>(prop, action, Some(PropValue::Variant(index))),
        prop_row(prop).2 matches PropDefault::Number(value) ==> shown_of::<N>(prop, None) == shown_of::<N>(
            prop,
            Some(PropValue::Number(Number::Whole(value))),
        ),
        prop_row(prop).2 matches PropDefault::Variant(index) ==> shown_of::<N>(prop, None) == shown_of::<N>(
            prop,
            Some(PropValue::Variant(index)),
        ),
{
}

/// A button steps from the number that the node shows, written or not: up by a step but not beyond the
/// upper bound, down by a step but not beyond the lower one. A number that is not whole is handed on as it
/// is, with the way to go, the step and the bound on that way. A third button is not there for numbers.
pub proof fn a_button_steps_from_what_is_shown<N>(props: Seq<Prop<N>>, prop: int)
    requires
        0 <= prop < 6,
        prop_bounds(prop) is Some,
        prop_in(props, prop_row(prop).0) matches Some(value) ==> value is Number,
    ensures
        ({
            let (min, max, step) = prop_bounds(prop)->0;
            let written = prop_in(props, prop_row(prop).0);
            let shown = number_in(props, prop_row(prop).0);
            let more = change_of(prop, Action::Increase, written);
            let less = change_of(prop, Action::Decrease, written);
            &&& step > 0 && min < max
            &&& change_of(prop, Action::Next, written) is None
            &&& shown matches Number::Whole(v) ==> {
                &&& more matches Some(Change::Value(PropValue::Number(Number::Whole(next)))) && (if v + step
                    <= max {
                    next == v + step
                } else {
                    next == max
                })
                &&& less matches Some(Change::Value(PropValue::Number(Number::Whole(next)))) && (if v - step
                    >= min {
                    next == v - step
                } else {
                    next == min
                })
            }
            &&& shown matches Number::Real(r) ==> {
                &&& more == Some(Change::Step { from: r, up: true, step, bound: max })
                &&& less == Some(Change::Step { from: r, up: false, step, bound: min })
            }
        }),
{
    the_table_is_found_by_key(prop);
}

proof fn the_table_is_found_by_key(prop: int)
    requires
        0 <= prop < 6,
    ensures
        default_from(0, prop_row(prop).0) == Some(prop_row(prop).2),
{
    reveal_strlit("name");
    reveal_strlit("anchor");
    reveal_strlit("x");
    reveal_strlit("y");
    reveal_strlit("width");
    reveal_strlit("height");
    assert("name"@.len() == 4 && "anchor"@.len() == 6 && "x"@.len() == 1 && "y"@.len() == 1 && "width"@.len()
        == 5 && "height"@.len() == 6);
    assert("x"@[0] != "y"@[0]);
    assert("anchor"@[0] != "height"@[0]);
    reveal_with_fuel(default_from, 7);
}

/// What a property of the table shows is what the node has: a number where it is one.
pub proof fn the_number_shown_is_that_of_the_node<N>(props: Seq<Prop<N>>, prop: int)
    requires
        0 <= prop < 6,
        prop_bounds(prop) is Some,
        prop_in(props, prop_row(prop).0) matches Some(value) ==> value is Number,
    ensures
        shown_of(prop, prop_in(props, prop_row(prop).0)) == Words::Number(number_in(props, prop_row(prop).0)),
{
    the_table_is_found_by_key(prop);
}

/// Something of another kind than the table's is left alone.
pub proof fn what_does_not_fit_is_left_alone<N>(prop: int, action: Action, value: PropValue<N>)
    requires
        0 <= prop < 6,
        prop_bounds(prop) is Some <==> value !is Number,
        prop == 1 ==> value !is Variant,
    ensures
        change_of(prop, action, Some(value)) is None,
{
}

/// The one button of a choice leads to the next candidate, and from the last back to the first.
pub proof fn a_choice_moves_to_the_next<N>(index: usize)
    requires
        index < 9,
    ensures
        change_of::<N>(1, Action::Next, Some(PropValue::Variant(index))) matches Some(
            Change::Value(PropValue::Variant(next)),
        ) && next == (if index == 8 {
            0
        } else {
            index + 1
        }),
        change_of::<N>(1, Action::Increase, Some(PropValue::Variant(index))) is None,
        change_of::<N>(1, Action::Decrease, Some(PropValue::Variant(index))) is None,
{
}

/// Where a choice stands after some steps.
pub open spec fn chosen_after(index: int, steps: nat) -> int
    decreases steps,
{
    if steps == 0 {
        index
    } else {
        chosen_after((index + 1) % 9, (steps - 1) as nat)
    }
}

/// Choices go round: a choice moves on by the steps, from the last to the first, and nine steps lead
/// back to it.
pub proof fn choices_go_round(index: int, steps: nat)
    requires
        0 <= index < 9,
    ensures
        chosen_after(index, steps) == (index + steps) % 9,
        steps == 9 ==> chosen_after(index, steps) == index,
    decreases steps,
{
    if steps > 0 {
        choices_go_round((index + 1) % 9, (steps - 1) as nat);
    }
}

/// What a property shows.
#[derive(Debug, PartialEq, Eq)]
pub enum Shown<N> {
    Text(String),
    Number(Number<N>),
}

/// What a property shows, as text where it is one.
pub enum Words<N> {
    Text(Seq<char>),
    Number(Number<N>),
}

impl<N> Shown<N> {
    /// What is shown.
    pub open spec fn words(self) -> Words<N> {
        match self {
            Shown::Text(text) => Words::Text(text@),
            Shown::Number(number) => Words::Number(number),
        }
    }
}

/// What a choice shows: its name, or its number where there is no such choice.
pub open spec fn choice_text(prop: int, index: int) -> Seq<char> {
    if prop == 1 && index < 9 {
        anchor_name(index)
    } else {
        decimal(index as nat)
    }
}

/// What a property shows: what was written of it, or what the table says.
pub open spec fn shown_of<N>(prop: int, written: Option<PropValue<N>>) -> Words<N> {
    match written {
        Some(PropValue::Number(number)) => Words::Number(number),
        Some(PropValue::Variant(index)) => Words::Text(choice_text(prop, index as int)),
        Some(PropValue::Text(text)) => Words::Text(text@),
        None => match prop_row(prop).2 {
            PropDefault::Number(value) => Words::Number(Number::Whole(value)),
            PropDefault::Variant(index) => Words::Text(choice_text(prop, index as int)),
            PropDefault::Text => Words::Text(""@),
        },
    }
}

fn choice_name(kind: &PropKind, index: usize) -> (name: String)
    ensures
        kind !is Enum || index >= 9 ==> name@ == decimal(index as nat),
        kind matches PropKind::Enum(names) ==> index < 9 ==> name@ == names@[index as int]@,
{
    match kind {
        PropKind::Enum(names) if index < 9 => names[index].to_owned(),
        _ => {
            let mut name = "".to_owned();
            proof {
                reveal_strlit("");
            }
            push_decimal(&mut name, index as u64);
            assert(name@ =~= decimal(index as nat));
            name
        },
    }
}

/// What a property of a node shows.
pub fn displayed_value<N: Copy>(node: &DocNode<N>, prop: usize) -> (shown: Shown<N>)
    requires
        prop < 6,
    ensures
        shown.words() == shown_of(prop as int, prop_in(node.written(), prop_row(prop as int).0)),
{
    let props = node_props();
    let desc = props[prop];
    assert(desc == props@[prop as int]);
    match node.prop(desc.key) {
        Some(PropValue::Number(number)) => Shown::Number(*number),
        Some(PropValue::Variant(index)) => Shown::Text(choice_name(&desc.kind, *index)),
        Some(PropValue::Text(text)) => Shown::Text(text.as_str().to_owned()),
        None => match desc.default {
            PropDefault::Number(value) => Shown::Number(Number::Whole(value)),
            PropDefault::Variant(index) => Shown::Text(choice_name(&desc.kind, index)),
            PropDefault::Text => Shown::Text("".to_owned()),
        },
    }
}

pub(crate) fn again<N: Copy>(shown: &Shown<N>) -> (result: Shown<N>)
    ensures
        result.words() == shown.words(),
{
    match shown {
        Shown::Text(text) => Shown::Text(text.as_str().to_owned()),
        Shown::Number(number) => Shown::Number(*number),
    }
}

/// What a button shows: a sign, or the value that it would leave behind.
pub open spec fn label_of<N>(action: Action, value: Words<N>) -> Words<N> {
    match action {
        Action::Decrease => Words::Text("-"@),
        Action::Increase => Words::Text("+"@),
        Action::Next => value,
    }
}

/// What a button shows.
pub fn button_label<N: Copy>(action: Action, value: &Shown<N>) -> (label: Shown<N>)
    ensures
        label.words() == label_of(action, value.words()),
{
    match action {
        Action::Decrease => Shown::Text("-".to_owned()),
        Action::Increase => Shown::Text("+".to_owned()),
        Action::Next => again(value),
    }
}

/// What a node is called: its kind, and its name if it has one.
pub open spec fn title_of<N>(node: DocNode<N>) -> Seq<char> {
    match prop_in(node.written(), "name"@) {
        Some(PropValue::Text(name)) => if name@.len() > 0 {
            node.sort() + " "@ + name@
        } else {
            node.sort()
        },
        _ => node.sort(),
    }
}

/// What a node is called.
pub fn row_label<N>(node: &DocNode<N>) -> (label: String)
    ensures
        label@ == title_of(*node),
{
    match node.prop("name") {
        Some(PropValue::Text(name)) => {
            let mut label = node.kind().to_owned();
            if name.as_str().unicode_len() > 0 {
                label.append(" ");
                label.append(name.as_str());
            }
            label
        },
        _ => node.kind().to_owned(),
    }
}

/// A node is called by its kind, and by its name behind that if it has one that is not empty.
pub proof fn a_node_is_called_by_kind_and_name<N>(node: DocNode<N>)
    ensures
        prop_in(node.written(), "name"@) matches Some(PropValue::Text(name)) ==> title_of(node) == (if name@.len()
            > 0 {
            node.sort() + " "@ + name@
        } else {
            node.sort()
        }),
        prop_in(node.written(), "name"@) is None ==> title_of(node) == node.sort(),
{
}

/// Numbers have a button for each way, choices one that shows what is chosen, and texts none.
pub proof fn buttons_suit_their_property<N>(kind: PropKind, shown: Words<N>)
    ensures
        kind is Number ==> actions_of(kind).len() == 2 && actions_of(kind).contains(Action::Decrease)
            && actions_of(kind).contains(Action::Increase),
        kind is Enum ==> actions_of(kind) == seq![Action::Next],
        kind is Text ==> actions_of(kind).len() == 0,
        label_of(Action::Next, shown) == shown,
        label_of(Action::Increase, shown) == Words::<N>::Text("+"@),
        label_of(Action::Decrease, shown) == Words::<N>::Text("-"@),
{
    assert(actions_of(kind).len() == 2 ==> actions_of(kind)[0] == Action::Decrease && actions_of(kind)[1]
        == Action::Increase);
}

/// A choice shows the name of its candidate, and its number where there is no such candidate; a text shows itself,
/// and one that was not written nothing.
pub proof fn what_was_chosen_is_named<N>(prop: int, index: usize, text: String)
    ensures
        index < 9 ==> shown_of::<N>(1, Some(PropValue::Variant(index))) == Words::<N>::Text(anchor_name(index as int)),
        index >= 9 ==> shown_of::<N>(1, Some(PropValue::Variant(index))) == Words::<N>::Text(decimal(index as nat)),
        shown_of::<N>(prop, Some(PropValue::Text(text))) == Words::<N>::Text(text@),
        shown_of::<N>(0, None) == Words::<N>::Text(""@),
{
}

} // verus!
