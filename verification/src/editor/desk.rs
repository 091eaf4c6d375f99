//! The editor itself. `N` is a real number and `R` a rectangle; turning shapes into rectangles, and
//! testing what holds a point, is left to the caller.

use crate::contract::event::Event;
use crate::contract::input::MouseButton;
use crate::contract::widget::{Anchor, UiId, Widget};
use crate::editor::controls::{
    a_button_steps_from_what_is_shown,
    actions_of, again, button_label, buttons_come_back, change_of, control_for, control_id, control_number, control_of,
    displayed_value, label_of, next_value, prop_actions, row_id, row_label, row_of, rows_are_told_apart, shown_of, title_of,
    Action, Change, Control, EditorState, Hit, Shown, Words, BUTTON_GAP, BUTTON_WIDTH,
    ENUM_BUTTON_WIDTH, ROW_HEIGHT, SIDEBAR_WIDTH,
};
use crate::ui::doc::{
    instantiate, node_index, node_props, number_in, prop_bounds, prop_in, prop_row, the_first_node_is_found, widget_for,
    DocNode, Document, NodeId, NodeShape, Number, PropKind, PropValue,
};
use crate::ui::draw::{Quad, QuadSource};
use crate::ui::tree::{paired, rect_for, topmost, Placed, UiTree};
use vstd::prelude::*;

verus! {

/// Color of the list, below its rows.
pub const SIDEBAR_COLOR: [u8; 4] = [26, 28, 34, 255];

/// Color of a row.
pub const ROW_COLOR: [u8; 4] = [32, 35, 42, 255];

/// Color of the row under the cursor.
pub const ROW_HOVERED_COLOR: [u8; 4] = [44, 49, 60, 255];

/// Color of the row of the selected node.
pub const ROW_SELECTED_COLOR: [u8; 4] = [56, 96, 160, 255];

/// Color of texts in rows and on buttons.
pub const ROW_TEXT_COLOR: [u8; 4] = [214, 218, 226, 255];

/// Color of values.
pub const VALUE_COLOR: [u8; 4] = [214, 218, 226, 255];

/// Color of the labels of properties.
pub const LABEL_COLOR: [u8; 4] = [148, 156, 170, 255];

/// Color of buttons.
pub const BUTTON_COLOR: [u8; 4] = [56, 62, 76, 255];

/// Color of the panel of properties, below its buttons.
pub const PANEL_COLOR: [u8; 4] = [26, 28, 34, 255];

/// Color behind the document.
pub const PREVIEW_COLOR: [u8; 4] = [18, 20, 24, 255];

/// Color of a node.
pub const NODE_COLOR: [u8; 4] = [46, 50, 62, 255];

/// Color of the outline of the selected node.
pub const STROKE_COLOR: [u8; 4] = [120, 190, 255, 255];

/// The first node that a widget stands for, by its row or by itself.
pub open spec fn node_behind<N>(nodes: Seq<DocNode<N>>, id: UiId, i: int) -> Option<NodeId>
    decreases nodes.len() - i,
{
    if i >= nodes.len() {
        None
    } else if nodes[i].ident().widget_id() == id || row_of(nodes[i].ident()) == id {
        Some(nodes[i].ident())
    } else {
        node_behind(nodes, id, i + 1)
    }
}

/// The node that a widget stands for.
pub fn node_of<N>(document: &Document<N>, id: UiId) -> (node: Option<NodeId>)
    ensures
        node == node_behind(document.content(), id, 0),
{
    let nodes = document.nodes();
    let mut i: usize = 0;
    while i < nodes.len()
        invariant
            i <= nodes@.len(),
            nodes@ == document.content(),
            node_behind(nodes@, id, 0) == node_behind(nodes@, id, i as int),
        decreases nodes@.len() - i,
    {
        let node = nodes[i].id();
        if node.ui_id() == id || row_id(node) == id {
            return Some(node);
        }
        i += 1;
    }
    None
}

/// Where a button stands: in the row of a property, so far from the row's right end.
#[derive(Debug, Clone, Copy, PartialEq, Eq, Structural)]
pub struct ButtonShape {
    pub row: usize,
    pub from_right: i32,
    pub width: i32,
}

/// A button of a property.
pub open spec fn button(prop: int, action: Action, from_right: i32, width: i32) -> Widget<ButtonShape> {
    Widget {
        id: UiId(control_number(prop, action) as u32),
        anchor: Anchor::TopLeft,
        shape: ButtonShape { row: prop as usize, from_right, width },
        overlay: false,
    }
}

/// The buttons of a property. The last one stands at the right end of the row, the others give way to
/// the left.
pub open spec fn buttons_of(prop: int) -> Seq<Widget<ButtonShape>> {
    if prop_bounds(prop) is Some {
        seq![
            button(prop, Action::Decrease, 56, BUTTON_WIDTH),
            button(prop, Action::Increase, 26, BUTTON_WIDTH),
        ]
    } else if prop == 1 {
        seq![button(prop, Action::Next, 96, ENUM_BUTTON_WIDTH)]
    } else {
        seq![]
    }
}

/// The buttons of the first `n` properties.
pub open spec fn buttons_up_to(n: int) -> Seq<Widget<ButtonShape>>
    decreases n,
{
    if n <= 0 {
        seq![]
    } else {
        buttons_up_to(n - 1) + buttons_of(n - 1)
    }
}

/// Width of a button.
pub open spec fn button_span(action: Action) -> int {
    match action {
        Action::Next => ENUM_BUTTON_WIDTH as int,
        _ => BUTTON_WIDTH as int,
    }
}

/// How far from the right end of the row a button begins: its own width and what stands to the right
/// of it.
pub open spec fn button_offset(actions: Seq<Action>, i: int) -> int
    decreases actions.len() - i,
{
    if i >= actions.len() - 1 {
        button_span(actions[i])
    } else {
        button_span(actions[i]) + BUTTON_GAP + button_offset(actions, i + 1)
    }
}

/// No two buttons of a row overlap, and none sticks out of it on the right.
pub proof fn buttons_do_not_overlap(prop: int, i: int, j: int)
    requires
        0 <= prop < 6,
        0 <= i < j < buttons_of(prop).len(),
    ensures
        ({
            let a = buttons_of(prop)[i].shape;
            let b = buttons_of(prop)[j].shape;
            &&& a.from_right - a.width >= b.from_right + BUTTON_GAP
            &&& b.from_right - b.width >= 0
        }),
{
}

fn button_width(action: Action) -> (width: i32)
    ensures
        width == button_span(action),
{
    match action {
        Action::Next => ENUM_BUTTON_WIDTH,
        _ => BUTTON_WIDTH,
    }
}

fn right_offset(actions: &Vec<Action>, at: usize) -> (offset: i32)
    requires
        at < actions@.len() <= 2,
    ensures
        offset == button_offset(actions@, at as int),
{
    let mut i: usize = actions.len() - 1;
    let mut offset: i32 = button_width(actions[i]);
    while i > at
        invariant
            at <= i < actions@.len() <= 2,
            offset == button_offset(actions@, i as int),
            0 <= offset <= 96 + (actions@.len() - 1 - i) * 100,
        decreases i,
    {
        i -= 1;
        offset = offset + BUTTON_GAP + button_width(actions[i]);
    }
    offset
}

fn push_buttons(buttons: &mut Vec<Widget<ButtonShape>>, prop: usize, kind: &PropKind)
    requires
        prop < 6,
        prop_bounds(prop as int) is Some <==> kind is Number,
        prop == 1 <==> kind is Enum,
    ensures
        final(buttons)@ == old(buttons)@ + buttons_of(prop as int),
{
    let actions = prop_actions(kind);
    let ghost done = buttons@;
    proof {
        reveal_with_fuel(button_offset, 3);
        assert forall|k: int| 0 <= k < actions@.len() implies 0 <= #[trigger] button_offset(
            actions@,
            k,
        ) <= 200 && buttons_of(prop as int)[k] == button(
            prop as int,
            actions@[k],
            button_offset(actions@, k) as i32,
            button_span(actions@[k]) as i32,
        ) by {
            assert(k == 0 || k == 1);
        }
    }
    let mut j: usize = 0;
    while j < actions.len()
        invariant
            prop < 6,
            j <= actions@.len() <= 2,
            actions@.len() == buttons_of(prop as int).len(),
            forall|k: int|
                0 <= k < actions@.len() ==> {
                    &&& 0 <= #[trigger] button_offset(actions@, k) <= 200
                    &&& buttons_of(prop as int)[k] == button(
                        prop as int,
                        actions@[k],
                        button_offset(actions@, k) as i32,
                        button_span(actions@[k]) as i32,
                    )
                },
            buttons@ == done + buttons_of(prop as int).take(j as int),
        decreases actions@.len() - j,
    {
        assert(0 <= button_offset(actions@, j as int) <= 200);
        let shape = ButtonShape {
            row: prop,
            from_right: right_offset(&actions, j),
            width: button_width(actions[j]),
        };
        buttons.push(Widget::new(control_id(prop, actions[j]), Anchor::TopLeft, shape));
        assert(buttons@ =~= done + buttons_of(prop as int).take(j + 1));
        j += 1;
    }
    assert(buttons_of(prop as int).take(j as int) =~= buttons_of(prop as int));
}

fn all_buttons() -> (buttons: Vec<Widget<ButtonShape>>)
    ensures
        buttons@ == buttons_up_to(6),
{
    let props = node_props();
    let mut buttons: Vec<Widget<ButtonShape>> = Vec::new();
    let mut i: usize = 0;
    while i < 6
        invariant
            i <= 6,
            forall|k: int|
                0 <= k < 6 ==> match prop_bounds(k) {
                    Some(_) => (#[trigger] props@[k]).kind is Number,
                    None => props@[k].kind !is Number,
                },
            props@[0].kind is Text,
            props@[1].kind is Enum,
            buttons@ == buttons_up_to(i as int),
        decreases 6 - i,
    {
        push_buttons(&mut buttons, i, &props[i].kind);
        i += 1;
    }
    buttons
}

/// The row of a node in the list.
pub open spec fn row_widget<N>(node: DocNode<N>, i: int) -> Widget<NodeShape<N>> {
    Widget {
        id: row_of(node.ident()),
        anchor: Anchor::TopLeft,
        shape: NodeShape {
            width: Number::Whole(SIDEBAR_WIDTH),
            height: Number::Whole(ROW_HEIGHT),
            x: Number::Whole(0),
            y: Number::Whole((i * ROW_HEIGHT) as i32),
        },
        overlay: false,
    }
}

/// Number of rows in the list: as many as there are nodes, but no more than fit.
pub open spec fn row_count(nodes: int, rows: int) -> int {
    if nodes <= rows {
        nodes
    } else {
        rows
    }
}

/// The list of nodes. Rows that do not fit stay out of it.
pub open spec fn rows_of<N>(nodes: Seq<DocNode<N>>, rows: int) -> Seq<Widget<NodeShape<N>>> {
    Seq::new(row_count(nodes.len() as int, rows) as nat, |i: int| row_widget(nodes[i], i))
}

/// What a point hit: the list first, then the buttons, then the document.
pub open spec fn hit_of<N>(
    nodes: Seq<DocNode<N>>,
    row: Option<UiId>,
    button: Option<UiId>,
    node: Option<UiId>,
) -> Option<Hit> {
    match row {
        Some(id) => match node_behind(nodes, id, 0) {
            Some(node) => Some(Hit::Node(node)),
            None => None,
        },
        None => match button {
            Some(id) => match control_for(id) {
                Some(control) => Some(Hit::Control(control)),
                None => None,
            },
            None => match node {
                Some(id) => match node_behind(nodes, id, 0) {
                    Some(node) => Some(Hit::Node(node)),
                    None => None,
                },
                None => None,
            },
        },
    }
}

/// A step that the caller has to take: the number is not whole.
#[derive(Debug, Clone, Copy, PartialEq, Eq)]
pub struct Step<N> {
    pub node: NodeId,
    /// Place of the property in the table.
    pub prop: usize,
    pub from: N,
    pub up: bool,
    pub step: i32,
    /// What the number may not go beyond.
    pub bound: i32,
}

/// What a press of a button asks of the document: which node, and what change.
pub open spec fn asked_of<N>(nodes: Seq<DocNode<N>>, selected: Option<NodeId>, control: Control) -> Option<
    (int, Change<N>),
> {
    match selected {
        Some(id) => match node_index(nodes, id, 0) {
            Some(i) => if control.prop < 6 {
                match change_of(
                    control.prop as int,
                    control.action,
                    prop_in(nodes[i].written(), prop_row(control.prop as int).0),
                ) {
                    Some(change) => Some((i, change)),
                    None => None,
                }
            } else {
                None
            },
            None => None,
        },
        None => None,
    }
}

/// Whether the nodes differ by one property of one node, which now has this value.
pub open spec fn written_at<N>(
    before: Seq<DocNode<N>>,
    after: Seq<DocNode<N>>,
    i: int,
    key: Seq<char>,
    value: PropValue<N>,
) -> bool {
    &&& after.len() == before.len()
    &&& 0 <= i < before.len()
    &&& forall|j: int| 0 <= j < before.len() && j != i ==> #[trigger] after[j] == before[j]
    &&& after[i].ident() == before[i].ident()
    &&& after[i].sort() == before[i].sort()
    &&& prop_in(after[i].written(), key) == Some(value)
    &&& forall|other: Seq<char>| #![auto]
        other != key ==> prop_in(after[i].written(), other) == prop_in(before[i].written(), other)
}

/// What the application has to do about an event.
#[derive(Debug, Clone, Copy, PartialEq, Eq, Structural)]
pub enum Response {
    Nothing,
    Exit,
    /// The left button went down where the cursor is.
    Click,
}

/// The three areas that are filled with color before anything else.
#[derive(Debug, Clone, Copy, PartialEq, Eq)]
pub struct Areas<R> {
    pub sidebar: R,
    pub inspector: R,
    pub preview: R,
}

/// Where a text stands.
#[derive(Debug, Clone, Copy, PartialEq, Eq)]
pub enum Spot<R> {
    /// In a row of the list.
    Row(R),
    /// Above the properties.
    Header,
    /// At the left end of the row of a property.
    Label(usize),
    /// In the column of values of the row of a property.
    Value(usize),
    /// On a button.
    Button(R),
}

/// A text to be set.
#[derive(Debug, PartialEq, Eq)]
pub struct Label<N, R> {
    pub text: Shown<N>,
    pub spot: Spot<R>,
    pub color: [u8; 4],
}

/// A text to be set, as words.
pub struct LabelView<N, R> {
    pub words: Words<N>,
    pub spot: Spot<R>,
    pub color: Seq<u8>,
}

impl<N, R> Label<N, R> {
    /// The text as words.
    pub open spec fn seen(self) -> LabelView<N, R> {
        LabelView { words: self.text.words(), spot: self.spot, color: self.color@ }
    }
}

/// The editor.
#[derive(Debug)]
pub struct Editor<N, R> {
    document: Document<N>,
    chrome: UiTree<NodeShape<N>, R>,
    inspector: UiTree<ButtonShape, R>,
    preview: UiTree<NodeShape<N>, R>,
    state: EditorState,
    cursor: [N; 2],
}

impl<N: Copy, R: Copy> Editor<N, R> {
    /// The nodes of the document.
    pub closed spec fn nodes(&self) -> Seq<DocNode<N>> {
        self.document.content()
    }

    /// What is selected and hovered.
    pub closed spec fn looks_at(&self) -> EditorState {
        self.state
    }

    /// Where the cursor is.
    pub closed spec fn points_at(&self) -> [N; 2] {
        self.cursor
    }

    /// The list of nodes.
    pub closed spec fn rows(&self) -> UiTree<NodeShape<N>, R> {
        self.chrome
    }

    /// The buttons of the properties.
    pub closed spec fn buttons(&self) -> UiTree<ButtonShape, R> {
        self.inspector
    }

    /// The document as it is shown.
    pub closed spec fn projection(&self) -> UiTree<NodeShape<N>, R> {
        self.preview
    }

    /// An editor of a document, with the cursor somewhere.
    pub fn new(document: Document<N>, cursor: [N; 2]) -> (editor: Self)
        ensures
            editor.nodes() == document.content(),
            editor.looks_at() == (EditorState { selected: None, hovered: None }),
            editor.points_at() == cursor,
            editor.rows().added().len() == 0,
            editor.buttons().added().len() == 0,
            editor.projection().added().len() == 0,
            editor.rows().places().len() == 0,
            editor.buttons().places().len() == 0,
            editor.projection().places().len() == 0,
    {
        Editor {
            document,
            chrome: UiTree::new(),
            inspector: UiTree::new(),
            preview: UiTree::new(),
            state: EditorState::default(),
            cursor,
        }
    }

    pub fn document(&self) -> (document: &Document<N>)
        ensures
            document.content() == self.nodes(),
    {
        &self.document
    }

    pub fn state(&self) -> (state: EditorState)
        ensures
            state == self.looks_at(),
    {
        self.state
    }

    pub fn cursor(&self) -> (cursor: [N; 2])
        ensures
            cursor == self.points_at(),
    {
        self.cursor
    }

    /// The list of nodes.
    pub fn chrome(&self) -> (tree: &UiTree<NodeShape<N>, R>)
        ensures
            *tree == self.rows(),
    {
        &self.chrome
    }

    /// The buttons of the properties.
    pub fn inspector(&self) -> (tree: &UiTree<ButtonShape, R>)
        ensures
            *tree == self.buttons(),
    {
        &self.inspector
    }

    /// The document as it is shown.
    pub fn preview(&self) -> (tree: &UiTree<NodeShape<N>, R>)
        ensures
            *tree == self.projection(),
    {
        &self.preview
    }

    /// Whether everything but the cursor is as it was.
    pub open spec fn only_points(&self, before: &Self) -> bool {
        &&& self.nodes() == before.nodes()
        &&& self.looks_at() == before.looks_at()
        &&& self.rows() == before.rows()
        &&& self.buttons() == before.buttons()
        &&& self.projection() == before.projection()
    }

    /// An event. A press of the left button is answered by the caller, who tests what it hit.
    pub fn handle_event(&mut self, event: &Event<N>) -> (response: Response)
        ensures
            final(self).only_points(old(self)),
            final(self).points_at() == match *event {
                Event::CursorMoved { position, .. } => position,
                _ => old(self).points_at(),
            },
            response == match *event {
                Event::CloseRequested { .. } => Response::Exit,
                Event::MouseButton { button, pressed, .. } => if button == MouseButton::Left && pressed {
                    Response::Click
                } else {
                    Response::Nothing
                },
                _ => Response::Nothing,
            },
    {
        match event {
            Event::CloseRequested { .. } => Response::Exit,
            Event::CursorMoved { position, .. } => {
                self.cursor = *position;
                Response::Nothing
            },
            Event::MouseButton { button, pressed, .. } => {
                if *button == MouseButton::Left && *pressed {
                    Response::Click
                } else {
                    Response::Nothing
                }
            },
            _ => Response::Nothing,
        }
    }

    /// What a point hit. The three lists say of each placed widget whether it holds the point.
    pub fn hit(&self, chrome: &[bool], inspector: &[bool], preview: &[bool]) -> (hit: Option<Hit>)
        requires
            chrome@.len() == self.rows().places().len(),
            inspector@.len() == self.buttons().places().len(),
            preview@.len() == self.projection().places().len(),
        ensures
            hit == hit_of(
                self.nodes(),
                topmost(self.rows().places(), chrome@),
                topmost(self.buttons().places(), inspector@),
                topmost(self.projection().places(), preview@),
            ),
    {
        if let Some(id) = self.chrome.hit_test(chrome) {
            return match node_of(&self.document, id) {
                Some(node) => Some(Hit::Node(node)),
                None => None,
            };
        }
        if let Some(id) = self.inspector.hit_test(inspector) {
            return match control_of(id) {
                Some(control) => Some(Hit::Control(control)),
                None => None,
            };
        }
        match self.preview.hit_test(preview) {
            Some(id) => match node_of(&self.document, id) {
                Some(node) => Some(Hit::Node(node)),
                None => None,
            },
            None => None,
        }
    }

    /// What a press of a button asks of the document.
    pub open spec fn asked(&self, control: Control) -> Option<(int, Change<N>)> {
        asked_of(self.nodes(), self.looks_at().selected, control)
    }

    /// A button was pressed: the document changes, or the caller is asked to take a step.
    pub fn apply_control(&mut self, control: Control) -> (step: Option<Step<N>>)
        ensures
            final(self).looks_at() == old(self).looks_at(),
            final(self).points_at() == old(self).points_at(),
            final(self).rows() == old(self).rows(),
            final(self).buttons() == old(self).buttons(),
            final(self).projection() == old(self).projection(),
            match old(self).asked(control) {
                None => step is None && final(self).nodes() == old(self).nodes(),
                Some((i, Change::Value(value))) => step is None && written_at(
                    old(self).nodes(),
                    final(self).nodes(),
                    i,
                    prop_row(control.prop as int).0,
                    value,
                ),
                Some((i, Change::Step { from, up, step: by, bound })) => final(self).nodes() == old(self).nodes() && step == Some(
                    Step {
                        node: old(self).looks_at().selected->0,
                        prop: control.prop,
                        from,
                        up,
                        step: by,
                        bound,
                    },
                ),
            },
    {
        let ghost before = self.document.content();
        let selected = match self.state.selected {
            Some(selected) => selected,
            None => {
                return None;
            },
        };
        if control.prop >= 6 {
            return None;
        }
        let props = node_props();
        let key = props[control.prop].key;
        assert(key@ == prop_row(control.prop as int).0) by {
            assert(props@[control.prop as int].key@ == prop_row(control.prop as int).0);
        }
        let change = match self.document.node_by_id(selected) {
            Some(node) => next_value(control.prop, control.action, node.prop(key)),
            None => None,
        };
        match change {
            Some(Change::Value(value)) => {
                self.write(selected, key, value);
                None
            },
            Some(Change::Step { from, up, step, bound }) => Some(
                Step { node: selected, prop: control.prop, from, up, step, bound },
            ),
            None => None,
        }
    }

    fn write(&mut self, id: NodeId, key: &str, value: PropValue<N>)
        requires
            node_index(old(self).nodes(), id, 0) is Some,
        ensures
            final(self).looks_at() == old(self).looks_at(),
            final(self).points_at() == old(self).points_at(),
            final(self).rows() == old(self).rows(),
            final(self).buttons() == old(self).buttons(),
            final(self).projection() == old(self).projection(),
            written_at(
                old(self).nodes(),
                final(self).nodes(),
                node_index(old(self).nodes(), id, 0)->0,
                key@,
                value,
            ),
    {
        proof {
            node_index_in_range(self.nodes(), id, 0);
        }
        if let Some(node) = self.document.node_mut(id) {
            node.set(key, value);
        }
    }

    /// The caller took a step: the number that it led to is written.
    pub fn take_step(&mut self, step: &Step<N>, value: N)
        ensures
            final(self).looks_at() == old(self).looks_at(),
            final(self).points_at() == old(self).points_at(),
            final(self).rows() == old(self).rows(),
            final(self).buttons() == old(self).buttons(),
            final(self).projection() == old(self).projection(),
            step.prop < 6 && node_index(old(self).nodes(), step.node, 0) is Some ==> written_at(
                old(self).nodes(),
                final(self).nodes(),
                node_index(old(self).nodes(), step.node, 0)->0,
                prop_row(step.prop as int).0,
                PropValue::Number(Number::Real(value)),
            ),
            !(step.prop < 6 && node_index(old(self).nodes(), step.node, 0) is Some) ==> final(self).nodes() == old(self).nodes(),
    {
        if step.prop < 6 && self.document.node_by_id(step.node).is_some() {
            let props = node_props();
            let key = props[step.prop].key;
            assert(key@ == prop_row(step.prop as int).0) by {
                assert(props@[step.prop as int].key@ == prop_row(step.prop as int).0);
            }
            self.write(step.node, key, PropValue::Number(Number::Real(value)));
        }
    }

    /// The left button went down: what was hit is selected, or pressed.
    pub fn click(&mut self, chrome: &[bool], inspector: &[bool], preview: &[bool]) -> (step: Option<Step<N>>)
        requires
            chrome@.len() == old(self).rows().places().len(),
            inspector@.len() == old(self).buttons().places().len(),
            preview@.len() == old(self).projection().places().len(),
        ensures
            ({
                let hit = hit_of(
                    old(self).nodes(),
                    topmost(old(self).rows().places(), chrome@),
                    topmost(old(self).buttons().places(), inspector@),
                    topmost(old(self).projection().places(), preview@),
                );
                &&& final(self).points_at() == old(self).points_at()
                &&& final(self).rows() == old(self).rows()
                &&& final(self).buttons() == old(self).buttons()
                &&& final(self).projection() == old(self).projection()
                &&& final(self).looks_at() == match hit {
                    Some(Hit::Node(node)) => EditorState {
                        selected: Some(node),
                        ..old(self).looks_at()
                    },
                    _ => old(self).looks_at(),
                }
                &&& match hit {
                    Some(Hit::Control(control)) => match old(self).asked(control) {
                        None => step is None && final(self).nodes() == old(self).nodes(),
                        Some((i, Change::Value(value))) => step is None && written_at(
                            old(self).nodes(),
                            final(self).nodes(),
                            i,
                            prop_row(control.prop as int).0,
                            value,
                        ),
                        Some((i, Change::Step { from, up, step: by, bound })) => final(self).nodes() == old(self).nodes() && step == Some(
                            Step {
                                node: old(self).looks_at().selected->0,
                                prop: control.prop,
                                from,
                                up,
                                step: by,
                                bound,
                            },
                        ),
                    },
                    _ => step is None && final(self).nodes() == old(self).nodes(),
                }
            }),
    {
        match self.hit(chrome, inspector, preview) {
            Some(Hit::Node(node)) => {
                self.state.selected = Some(node);
                None
            },
            Some(Hit::Control(control)) => self.apply_control(control),
            None => None,
        }
    }
}

impl<N: Copy, R: Copy> Editor<N, R> {
    /// Fills the three regions anew. `rows` is the number of rows that fit the list. Nothing is placed
    /// until the caller says where.
    pub fn relayout(&mut self, rows: usize)
        requires
            row_count(old(self).nodes().len() as int, rows as int) * ROW_HEIGHT <= i32::MAX,
        ensures
            final(self).nodes() == old(self).nodes(),
            final(self).looks_at() == old(self).looks_at(),
            final(self).points_at() == old(self).points_at(),
            final(self).projection().added() == old(self).nodes().map_values(
                |node: DocNode<N>| widget_for(node),
            ),
            final(self).rows().added() == rows_of(old(self).nodes(), rows as int),
            final(self).buttons().added() == if old(self).looks_at().selected is Some {
                buttons_up_to(6)
            } else {
                Seq::empty()
            },
            final(self).projection().places().len() == 0,
            final(self).rows().places().len() == 0,
            final(self).buttons().places().len() == 0,
    {
        self.preview = instantiate(&self.document);
        let ghost nodes = self.document.content();
        let all = self.document.nodes();
        let mut i: usize = 0;
        let mut chrome: UiTree<NodeShape<N>, R> = UiTree::new();
        while i < all.len() && i < rows
            invariant
                all@ == nodes,
                i <= row_count(nodes.len() as int, rows as int),
                row_count(nodes.len() as int, rows as int) * ROW_HEIGHT <= i32::MAX,
                chrome.added() == rows_of(nodes, rows as int).take(i as int),
                chrome.places().len() == 0,
            decreases all@.len() - i,
        {
            let shape = NodeShape {
                width: Number::Whole(SIDEBAR_WIDTH),
                height: Number::Whole(ROW_HEIGHT),
                x: Number::Whole(0),
                y: Number::Whole(i as i32 * ROW_HEIGHT),
            };
            chrome.add(Widget::new(row_id(all[i].id()), Anchor::TopLeft, shape));
            assert(chrome.added() =~= rows_of(nodes, rows as int).take(i + 1));
            i += 1;
        }
        assert(rows_of(nodes, rows as int).take(i as int) =~= rows_of(nodes, rows as int));
        self.chrome = chrome;
        self.relayout_inspector();
    }

    /// The buttons of the selected node's properties; none if nothing is selected.
    fn relayout_inspector(&mut self)
        ensures
            final(self).nodes() == old(self).nodes(),
            final(self).looks_at() == old(self).looks_at(),
            final(self).points_at() == old(self).points_at(),
            final(self).projection() == old(self).projection(),
            final(self).rows() == old(self).rows(),
            final(self).buttons().added() == if old(self).looks_at().selected is Some {
                buttons_up_to(6)
            } else {
                Seq::empty()
            },
            final(self).buttons().places().len() == 0,
    {
        let mut tree: UiTree<ButtonShape, R> = UiTree::new();
        if self.state.selected.is_some() {
            let buttons = all_buttons();
            let mut i: usize = 0;
            while i < buttons.len()
                invariant
                    i <= buttons@.len(),
                    buttons@ == buttons_up_to(6),
                    tree.added() == buttons_up_to(6).take(i as int),
                    tree.places().len() == 0,
                decreases buttons@.len() - i,
            {
                tree.add(buttons[i]);
                assert(tree.added() =~= buttons_up_to(6).take(i + 1));
                i += 1;
            }
            assert(buttons_up_to(6).take(i as int) =~= buttons_up_to(6));
        }
        self.inspector = tree;
    }
}

/// Color of a row: of the selected node, of the hovered one, or of any other.
pub open spec fn row_color(state: EditorState, node: NodeId) -> [u8; 4] {
    if state.selected == Some(node) {
        ROW_SELECTED_COLOR
    } else if state.hovered == Some(node) {
        ROW_HOVERED_COLOR
    } else {
        ROW_COLOR
    }
}

/// A quad of one color.
pub open spec fn plain<R>(rect: R, color: [u8; 4]) -> Quad<R> {
    Quad { rect, color, source: QuadSource::Solid }
}

/// A quad where there is a rectangle.
pub open spec fn plain_if<R>(rect: Option<R>, color: [u8; 4]) -> Seq<Quad<R>> {
    match rect {
        Some(rect) => seq![plain(rect, color)],
        None => seq![],
    }
}

/// The rows of the first `n` nodes, as far as they are in the list.
pub open spec fn row_quads<N, R>(
    nodes: Seq<DocNode<N>>,
    placed: Seq<Placed<R>>,
    state: EditorState,
    n: int,
) -> Seq<Quad<R>>
    decreases n,
{
    if n <= 0 {
        seq![]
    } else {
        let id = nodes[n - 1].ident();
        row_quads(nodes, placed, state, n - 1) + plain_if(
            rect_for(placed, row_of(id)),
            row_color(state, id),
        )
    }
}

/// The first `n` nodes as they are shown.
pub open spec fn node_quads<N, R>(nodes: Seq<DocNode<N>>, placed: Seq<Placed<R>>, n: int) -> Seq<Quad<R>>
    decreases n,
{
    if n <= 0 {
        seq![]
    } else {
        node_quads(nodes, placed, n - 1) + plain_if(
            rect_for(placed, nodes[n - 1].ident().widget_id()),
            NODE_COLOR,
        )
    }
}

/// The first `n` buttons, as far as they are placed.
pub open spec fn button_quads<R>(placed: Seq<Placed<R>>, n: int) -> Seq<Quad<R>>
    decreases n,
{
    if n <= 0 {
        seq![]
    } else {
        button_quads(placed, n - 1) + plain_if(
            rect_for(placed, buttons_up_to(6)[n - 1].id),
            BUTTON_COLOR,
        )
    }
}

/// The outline of the selected node, if there is one.
pub open spec fn outline_quads<R>(outline: Option<[R; 4]>) -> Seq<Quad<R>> {
    match outline {
        Some(outline) => Seq::new(4, |i: int| plain(outline@[i], STROKE_COLOR)),
        None => seq![],
    }
}

/// The titles of the first `n` nodes, as far as they are in the list.
pub open spec fn row_labels<N, R>(nodes: Seq<DocNode<N>>, placed: Seq<Placed<R>>, n: int) -> Seq<
    LabelView<N, R>,
>
    decreases n,
{
    if n <= 0 {
        seq![]
    } else {
        let before = row_labels(nodes, placed, n - 1);
        match rect_for(placed, row_of(nodes[n - 1].ident())) {
            Some(rect) => before.push(
                LabelView {
                    words: Words::Text(title_of(nodes[n - 1])),
                    spot: Spot::Row(rect),
                    color: ROW_TEXT_COLOR@,
                },
            ),
            None => before,
        }
    }
}

/// The texts on the first `n` buttons of a property, as far as they are placed.
pub open spec fn button_labels<N, R>(placed: Seq<Placed<R>>, prop: int, shown: Words<N>, n: int) -> Seq<
    LabelView<N, R>,
>
    decreases n,
{
    if n <= 0 {
        seq![]
    } else {
        let before = button_labels(placed, prop, shown, n - 1);
        let button = buttons_of(prop)[n - 1];
        match rect_for(placed, button.id) {
            Some(rect) => before.push(
                LabelView {
                    words: label_of(control_for(button.id)->0.action, shown),
                    spot: Spot::Button(rect),
                    color: ROW_TEXT_COLOR@,
                },
            ),
            None => before,
        }
    }
}

/// The texts of the first `n` properties of a node: label, value and buttons.
pub open spec fn prop_labels<N, R>(node: DocNode<N>, placed: Seq<Placed<R>>, n: int) -> Seq<LabelView<N, R>>
    decreases n,
{
    if n <= 0 {
        seq![]
    } else {
        let prop = n - 1;
        let shown = shown_of(prop, prop_in(node.written(), prop_row(prop).0));
        prop_labels(node, placed, prop) + seq![
            LabelView {
                words: Words::Text(prop_row(prop).1),
                spot: Spot::Label(prop as usize),
                color: LABEL_COLOR@,
            },
            LabelView { words: shown, spot: Spot::Value(prop as usize), color: VALUE_COLOR@ },
        ] + button_labels(placed, prop, shown, buttons_of(prop).len() as int)
    }
}

/// The texts of the panel: what is selected, and its properties.
pub open spec fn panel_labels<N, R>(
    nodes: Seq<DocNode<N>>,
    selected: Option<NodeId>,
    placed: Seq<Placed<R>>,
) -> Seq<LabelView<N, R>> {
    match selected {
        Some(id) => match node_index(nodes, id, 0) {
            Some(i) => seq![
                LabelView {
                    words: Words::Text(title_of(nodes[i])),
                    spot: Spot::Header,
                    color: VALUE_COLOR@,
                },
            ] + prop_labels(nodes[i], placed, 6),
            None => seq![],
        },
        None => seq![],
    }
}

/// Whether the labels are these.
pub open spec fn are_labels<N, R>(labels: Seq<Label<N, R>>, expected: Seq<LabelView<N, R>>) -> bool {
    &&& labels.len() == expected.len()
    &&& forall|i: int| 0 <= i < labels.len() ==> (#[trigger] labels[i]).seen() == expected[i]
}

fn push_plain<R: Copy>(quads: &mut Vec<Quad<R>>, rect: Option<R>, color: [u8; 4])
    ensures
        final(quads)@ == old(quads)@ + plain_if(rect, color),
{
    match rect {
        Some(rect) => {
            quads.push(Quad::solid(rect, color));
            assert(quads@ =~= old(quads)@ + plain_if(Some(rect), color));
        },
        None => {
            assert(quads@ =~= old(quads)@ + plain_if(rect, color));
        },
    }
}

fn push_button_labels<N: Copy, R: Copy>(
    labels: &mut Vec<Label<N, R>>,
    tree: &UiTree<ButtonShape, R>,
    prop: usize,
    kind: &PropKind,
    shown: &Shown<N>,
    Ghost(expected): Ghost<Seq<LabelView<N, R>>>,
)
    requires
        prop < 6,
        prop_bounds(prop as int) is Some <==> kind is Number,
        prop == 1 <==> kind is Enum,
        are_labels(old(labels)@, expected),
    ensures
        are_labels(
            final(labels)@,
            expected + button_labels(
                tree.places(),
                prop as int,
                shown.words(),
                buttons_of(prop as int).len() as int,
            ),
        ),
{
    let actions = prop_actions(kind);
    let ghost words = shown.words();
    let mut j: usize = 0;
    assert(expected + button_labels(tree.places(), prop as int, words, 0) =~= expected);
    while j < actions.len()
        invariant
            prop < 6,
            j <= actions@.len() <= 2,
            actions@ == actions_of(*kind),
            prop_bounds(prop as int) is Some <==> kind is Number,
            prop == 1 <==> kind is Enum,
            words == shown.words(),
            are_labels(
                labels@,
                expected + button_labels(tree.places(), prop as int, words, j as int),
            ),
        decreases actions@.len() - j,
    {
        let action = actions[j];
        let id = control_id(prop, action);
        let ghost so_far = button_labels::<N, R>(tree.places(), prop as int, words, j as int);
        proof {
            buttons_come_back(prop, action, id);
            assert(buttons_of(prop as int)[j as int].id == id);
        }
        if let Some(rect) = tree.rect_of(id) {
            let label = Label {
                text: button_label(action, shown),
                spot: Spot::Button(rect),
                color: ROW_TEXT_COLOR,
            };
            labels.push(label);
            assert(expected + so_far.push(label.seen()) =~= (expected + so_far).push(label.seen()));
        }
        j += 1;
    }
}

impl<N: Copy, R: Copy> Editor<N, R> {
    /// Says where the widgets of the three regions are.
    pub fn place(&mut self, chrome: &[R], inspector: &[R], preview: &[R])
        requires
            chrome@.len() == old(self).rows().added().len(),
            inspector@.len() == old(self).buttons().added().len(),
            preview@.len() == old(self).projection().added().len(),
        ensures
            final(self).nodes() == old(self).nodes(),
            final(self).looks_at() == old(self).looks_at(),
            final(self).points_at() == old(self).points_at(),
            final(self).rows().added() == old(self).rows().added(),
            final(self).buttons().added() == old(self).buttons().added(),
            final(self).projection().added() == old(self).projection().added(),
            final(self).rows().places() == paired(old(self).rows().added(), chrome@),
            final(self).buttons().places() == paired(old(self).buttons().added(), inspector@),
            final(self).projection().places() == paired(old(self).projection().added(), preview@),
    {
        self.chrome.layout(chrome);
        self.inspector.layout(inspector);
        self.preview.layout(preview);
    }

    /// Marks the node whose row is under the cursor, if there is one. What is under the cursor in the
    /// document does not count.
    pub fn hover(&mut self, chrome: &[bool])
        requires
            chrome@.len() == old(self).rows().places().len(),
        ensures
            final(self).nodes() == old(self).nodes(),
            final(self).points_at() == old(self).points_at(),
            final(self).rows() == old(self).rows(),
            final(self).buttons() == old(self).buttons(),
            final(self).projection() == old(self).projection(),
            final(self).looks_at() == (EditorState {
                hovered: match topmost(old(self).rows().places(), chrome@) {
                    Some(id) => node_behind(old(self).nodes(), id, 0),
                    None => None,
                },
                ..old(self).looks_at()
            }),
    {
        self.state.hovered = match self.chrome.hit_test(chrome) {
            Some(id) => node_of(&self.document, id),
            None => None,
        };
    }

    /// The rectangle of the selected node as it is shown; none if nothing is selected or the node is
    /// not shown.
    pub fn selection_rect(&self) -> (rect: Option<R>)
        ensures
            rect == match self.looks_at().selected {
                Some(id) => rect_for(self.projection().places(), id.widget_id()),
                None => None,
            },
    {
        match self.state.selected {
            Some(id) => self.preview.rect_of(id.ui_id()),
            None => None,
        }
    }

    /// What is drawn below the texts, from the bottom up: the list, the panel, the document, and the
    /// outline of the selected node.
    pub fn paint(&self, areas: &Areas<R>, outline: Option<[R; 4]>) -> (quads: Vec<Quad<R>>)
        ensures
            quads@ == seq![plain(areas.sidebar, SIDEBAR_COLOR)] + row_quads(
                self.nodes(),
                self.rows().places(),
                self.looks_at(),
                self.nodes().len() as int,
            ) + seq![plain(areas.inspector, PANEL_COLOR)] + button_quads(
                self.buttons().places(),
                buttons_up_to(6).len() as int,
            ) + seq![plain(areas.preview, PREVIEW_COLOR)] + node_quads(
                self.nodes(),
                self.projection().places(),
                self.nodes().len() as int,
            ) + outline_quads(outline),
    {
        let mut quads: Vec<Quad<R>> = Vec::new();
        quads.push(Quad::solid(areas.sidebar, SIDEBAR_COLOR));
        let ghost base = quads@;
        assert(base =~= seq![plain(areas.sidebar, SIDEBAR_COLOR)]);
        self.push_sidebar(&mut quads);
        quads.push(Quad::solid(areas.inspector, PANEL_COLOR));
        self.push_inspector(&mut quads);
        quads.push(Quad::solid(areas.preview, PREVIEW_COLOR));
        self.push_preview(&mut quads);
        if let Some(outline) = outline {
            let ghost done = quads@;
            let mut i: usize = 0;
            while i < 4
                invariant
                    i <= 4,
                    quads@ == done + outline_quads(Some(outline)).take(i as int),
                decreases 4 - i,
            {
                quads.push(Quad::solid(outline[i], STROKE_COLOR));
                assert(quads@ =~= done + outline_quads(Some(outline)).take(i + 1));
                i += 1;
            }
            assert(outline_quads(Some(outline)).take(4) =~= outline_quads(Some(outline)));
        }
        quads
    }

    fn push_sidebar(&self, quads: &mut Vec<Quad<R>>)
        ensures
            final(quads)@ == old(quads)@ + row_quads(
                self.nodes(),
                self.rows().places(),
                self.looks_at(),
                self.nodes().len() as int,
            ),
    {
        let nodes = self.document.nodes();
        let ghost done = quads@;
        let ghost placed = self.chrome.places();
        let mut i: usize = 0;
        assert(quads@ =~= done + row_quads(nodes@, placed, self.state, 0));
        while i < nodes.len()
            invariant
                i <= nodes@.len(),
                nodes@ == self.nodes(),
                placed == self.chrome.places(),
                quads@ == done + row_quads(nodes@, placed, self.state, i as int),
            decreases nodes@.len() - i,
        {
            let id = nodes[i].id();
            let color = if self.state.selected == Some(id) {
                ROW_SELECTED_COLOR
            } else if self.state.hovered == Some(id) {
                ROW_HOVERED_COLOR
            } else {
                ROW_COLOR
            };
            push_plain(quads, self.chrome.rect_of(row_id(id)), color);
            assert(quads@ =~= done + row_quads(nodes@, placed, self.state, i + 1));
            i += 1;
        }
    }

    fn push_inspector(&self, quads: &mut Vec<Quad<R>>)
        ensures
            final(quads)@ == old(quads)@ + button_quads(
                self.buttons().places(),
                buttons_up_to(6).len() as int,
            ),
    {
        let buttons = all_buttons();
        let ghost done = quads@;
        let ghost placed = self.inspector.places();
        let mut i: usize = 0;
        assert(quads@ =~= done + button_quads(placed, 0));
        while i < buttons.len()
            invariant
                i <= buttons@.len(),
                buttons@ == buttons_up_to(6),
                placed == self.inspector.places(),
                quads@ == done + button_quads(placed, i as int),
            decreases buttons@.len() - i,
        {
            push_plain(quads, self.inspector.rect_of(buttons[i].id), BUTTON_COLOR);
            assert(quads@ =~= done + button_quads(placed, i + 1));
            i += 1;
        }
    }

    fn push_preview(&self, quads: &mut Vec<Quad<R>>)
        ensures
            final(quads)@ == old(quads)@ + node_quads(
                self.nodes(),
                self.projection().places(),
                self.nodes().len() as int,
            ),
    {
        let nodes = self.document.nodes();
        let ghost done = quads@;
        let ghost placed = self.preview.places();
        let mut i: usize = 0;
        assert(quads@ =~= done + node_quads(nodes@, placed, 0));
        while i < nodes.len()
            invariant
                i <= nodes@.len(),
                nodes@ == self.nodes(),
                placed == self.preview.places(),
                quads@ == done + node_quads(nodes@, placed, i as int),
            decreases nodes@.len() - i,
        {
            push_plain(quads, self.preview.rect_of(nodes[i].id().ui_id()), NODE_COLOR);
            assert(quads@ =~= done + node_quads(nodes@, placed, i + 1));
            i += 1;
        }
    }

    /// The texts, in the order in which they are set: the titles of the rows, and what is said of the
    /// selected node.
    pub fn labels(&self) -> (labels: Vec<Label<N, R>>)
        ensures
            are_labels(
                labels@,
                row_labels(self.nodes(), self.rows().places(), self.nodes().len() as int)
                    + panel_labels(
                    self.nodes(),
                    self.looks_at().selected,
                    self.buttons().places(),
                ),
            ),
    {
        let mut labels: Vec<Label<N, R>> = Vec::new();
        let nodes = self.document.nodes();
        let ghost placed = self.chrome.places();
        let mut i: usize = 0;
        while i < nodes.len()
            invariant
                i <= nodes@.len(),
                nodes@ == self.nodes(),
                placed == self.chrome.places(),
                are_labels(labels@, row_labels(nodes@, placed, i as int)),
            decreases nodes@.len() - i,
        {
            if let Some(rect) = self.chrome.rect_of(row_id(nodes[i].id())) {
                let text = Shown::Text(row_label(&nodes[i]));
                labels.push(Label { text, spot: Spot::Row(rect), color: ROW_TEXT_COLOR });
            }
            i += 1;
        }
        let ghost rows = row_labels(nodes@, placed, nodes@.len() as int);
        let node = match self.state.selected {
            Some(id) => self.document.node_by_id(id),
            None => None,
        };
        match node {
            Some(node) => {
                self.push_panel_labels(&mut labels, node, Ghost(rows));
            },
            None => {
                assert(rows + Seq::<LabelView<N, R>>::empty() =~= rows);
            },
        }
        labels
    }

    fn push_panel_labels(&self, labels: &mut Vec<Label<N, R>>, node: &DocNode<N>, Ghost(rows): Ghost<
        Seq<LabelView<N, R>>,
    >)
        requires
            are_labels(old(labels)@, rows),
        ensures
            are_labels(
                final(labels)@,
                rows + (seq![
                    LabelView {
                        words: Words::Text(title_of(*node)),
                        spot: Spot::Header,
                        color: VALUE_COLOR@,
                    },
                ] + prop_labels(*node, self.buttons().places(), 6)),
            ),
    {
        let ghost placed = self.inspector.places();
        let title = Label {
            text: Shown::Text(row_label(node)),
            spot: Spot::Header,
            color: VALUE_COLOR,
        };
        let ghost head = seq![title.seen()];
        labels.push(title);
        assert(rows + (head + prop_labels(*node, placed, 0)) =~= rows.push(head[0]));
        let props = node_props();
        let mut i: usize = 0;
        while i < 6
            invariant
                i <= 6,
                placed == self.inspector.places(),
                forall|k: int|
                    0 <= k < 6 ==> {
                        &&& (#[trigger] props@[k]).label@ == prop_row(k).1
                        &&& match prop_bounds(k) {
                            Some(_) => props@[k].kind is Number,
                            None => props@[k].kind !is Number,
                        }
                    },
                props@[0].kind is Text,
                props@[1].kind is Enum,
                are_labels(labels@, rows + (head + prop_labels(*node, placed, i as int))),
            decreases 6 - i,
        {
            let ghost so_far = rows + (head + prop_labels(*node, placed, i as int));
            let shown = displayed_value(node, i);
            let name = Label {
                text: Shown::Text(props[i].label.to_owned()),
                spot: Spot::Label(i),
                color: LABEL_COLOR,
            };
            assert(props@[i as int].label@ == prop_row(i as int).1);
            let value = Label { text: again(&shown), spot: Spot::Value(i), color: VALUE_COLOR };
            let ghost pair = seq![name.seen(), value.seen()];
            labels.push(name);
            labels.push(value);
            assert(are_labels(labels@, so_far + pair));
            push_button_labels(labels, &self.inspector, i, &props[i].kind, &shown, Ghost(so_far + pair));
            proof {
                let last = button_labels::<N, R>(
                    placed,
                    i as int,
                    shown.words(),
                    buttons_of(i as int).len() as int,
                );
                assert(so_far + pair + last =~= rows + (head + prop_labels(*node, placed, i + 1)));
            }
            i += 1;
        }
    }
}

/// A node is found by its row and by itself, as long as no other node shares an identity with it: so a
/// click on either selects the same node.
pub proof fn both_widgets_lead_to_the_node<N>(nodes: Seq<DocNode<N>>, i: int)
    requires
        0 <= i < nodes.len(),
        forall|j: int|
            0 <= j < nodes.len() && j != i ==> {
                &&& (#[trigger] nodes[j]).ident().widget_id() != nodes[i].ident().widget_id()
                &&& nodes[j].ident().widget_id() != row_of(nodes[i].ident())
            },
    ensures
        node_behind(nodes, nodes[i].ident().widget_id(), 0) == Some(nodes[i].ident()),
        node_behind(nodes, row_of(nodes[i].ident()), 0) == Some(nodes[i].ident()),
{
    found_behind(nodes, i, 0);
}

proof fn found_behind<N>(nodes: Seq<DocNode<N>>, i: int, from: int)
    requires
        0 <= from <= i < nodes.len(),
        forall|j: int|
            0 <= j < nodes.len() && j != i ==> {
                &&& (#[trigger] nodes[j]).ident().widget_id() != nodes[i].ident().widget_id()
                &&& nodes[j].ident().widget_id() != row_of(nodes[i].ident())
            },
    ensures
        node_behind(nodes, nodes[i].ident().widget_id(), from) == Some(nodes[i].ident()),
        node_behind(nodes, row_of(nodes[i].ident()), from) == Some(nodes[i].ident()),
    decreases i - from,
{
    if from < i {
        let a = nodes[from].ident();
        let b = nodes[i].ident();
        rows_are_told_apart(a, b);
        let x = a.widget_id().0;
        let y = b.widget_id().0;
        assert(x ^ 0x8000_0000u32 == y ==> x == y ^ 0x8000_0000u32) by (bit_vector);
        found_behind(nodes, i, from + 1);
    }
}

proof fn node_index_in_range<N>(nodes: Seq<DocNode<N>>, id: NodeId, i: int)
    requires
        0 <= i,
        node_index(nodes, id, i) is Some,
    ensures
        i <= node_index(nodes, id, i)->0 < nodes.len(),
        nodes[node_index(nodes, id, i)->0].ident() == id,
    decreases nodes.len() - i,
{
    if nodes[i].ident() != id {
        node_index_in_range(nodes, id, i + 1);
    }
}

/// The list of nodes hides the buttons, and those the document: what lies on top is what is hit.
pub proof fn what_lies_on_top_is_hit<N>(
    nodes: Seq<DocNode<N>>,
    row: Option<UiId>,
    button: Option<UiId>,
    node: Option<UiId>,
)
    ensures
        row is Some ==> hit_of(nodes, row, button, node) == hit_of(nodes, row, None, None),
        row is None && button is Some ==> hit_of(nodes, row, button, node) == hit_of(nodes, None, button, None),
        row is Some ==> hit_of(nodes, row, button, node) !is Some || (hit_of(nodes, row, button, node)->0 is Node),
        row is None && button is Some ==> hit_of(nodes, row, button, node) !is Some || (hit_of(
            nodes,
            row,
            button,
            node,
        )->0 is Control),
        row is None && button is None && node is None ==> hit_of(nodes, row, button, node) is None,
        hit_of(nodes, row, None, None) == hit_of(nodes, None, None, row),
{
}

/// A button asks something of the selected node only, from what is written of it there; without a selection,
/// or if the selected node is gone, it asks nothing.
pub proof fn a_button_asks_of_the_selected_node<N>(nodes: Seq<DocNode<N>>, selected: Option<NodeId>, control: Control)
    ensures
        selected is None ==> asked_of(nodes, selected, control) is None,
        asked_of(nodes, selected, control) matches Some((i, change)) ==> {
            &&& 0 <= i < nodes.len()
            &&& Some(nodes[i].ident()) == selected
            &&& control.prop < 6
            &&& change_of(
                control.prop as int,
                control.action,
                prop_in(nodes[i].written(), prop_row(control.prop as int).0),
            ) == Some(change)
        },
        (forall|i: int| 0 <= i < nodes.len() ==> Some((#[trigger] nodes[i]).ident()) != selected) ==> asked_of(
            nodes,
            selected,
            control,
        ) is None,
{
    if let Some(id) = selected {
        the_first_node_is_found(nodes, id, 0);
    }
}

/// The rows of the list stand one below the other, each of full width, and as many as fit.
pub proof fn rows_stand_one_below_the_other<N>(nodes: Seq<DocNode<N>>, rows: int, i: int)
    requires
        0 <= rows,
        0 <= i < rows_of(nodes, rows).len(),
        nodes.len() * ROW_HEIGHT <= i32::MAX,
    ensures
        rows_of(nodes, rows).len() <= rows,
        rows_of(nodes, rows).len() == nodes.len() || rows_of(nodes, rows).len() == rows,
        rows_of(nodes, rows)[i].id == row_of(nodes[i].ident()),
        rows_of(nodes, rows)[i].shape.y == Number::<N>::Whole((i * 28) as i32),
        rows_of(nodes, rows)[i].shape.height == Number::<N>::Whole(28),
        rows_of(nodes, rows)[i].shape.x == Number::<N>::Whole(0),
        rows_of(nodes, rows)[i].shape.width == Number::<N>::Whole(240),
{
}

/// The selected row is marked as such even while it is hovered, and only one of the three colors is used.
pub proof fn selection_shows_over_hovering(state: EditorState, node: NodeId)
    ensures
        state.selected == Some(node) ==> row_color(state, node) == ROW_SELECTED_COLOR,
        state.selected != Some(node) && state.hovered == Some(node) ==> row_color(state, node) == ROW_HOVERED_COLOR,
        state.selected != Some(node) && state.hovered != Some(node) ==> row_color(state, node) == ROW_COLOR,
{
}

/// Every node of the list whose row is placed has its row drawn there, in its color.
pub proof fn every_placed_row_is_drawn<N, R>(
    nodes: Seq<DocNode<N>>,
    placed: Seq<Placed<R>>,
    state: EditorState,
    n: int,
    i: int,
)
    requires
        0 <= i < n <= nodes.len(),
        rect_for(placed, row_of(nodes[i].ident())) is Some,
    ensures
        row_quads(nodes, placed, state, n).contains(
            Quad {
                rect: rect_for(placed, row_of(nodes[i].ident()))->0,
                color: row_color(state, nodes[i].ident()),
                source: QuadSource::Solid,
            },
        ),
    decreases n,
{
    let id = nodes[i].ident();
    let quad = Quad {
        rect: rect_for(placed, row_of(id))->0,
        color: row_color(state, id),
        source: QuadSource::Solid,
    };
    let before = row_quads(nodes, placed, state, n - 1);
    let all = row_quads(nodes, placed, state, n);
    if i == n - 1 {
        assert(all[before.len() as int] == quad);
    } else {
        every_placed_row_is_drawn(nodes, placed, state, n - 1, i);
        let at = choose|at: int| 0 <= at < before.len() && before[at] == quad;
        assert(all[at] == quad);
    }
}

/// Every node of the document that is placed is drawn there.
pub proof fn every_placed_node_is_drawn<N, R>(nodes: Seq<DocNode<N>>, placed: Seq<Placed<R>>, n: int, i: int)
    requires
        0 <= i < n <= nodes.len(),
        rect_for(placed, nodes[i].ident().widget_id()) is Some,
    ensures
        node_quads(nodes, placed, n).contains(
            Quad {
                rect: rect_for(placed, nodes[i].ident().widget_id())->0,
                color: NODE_COLOR,
                source: QuadSource::Solid,
            },
        ),
    decreases n,
{
    let quad = Quad {
        rect: rect_for(placed, nodes[i].ident().widget_id())->0,
        color: NODE_COLOR,
        source: QuadSource::Solid,
    };
    let before = node_quads(nodes, placed, n - 1);
    let all = node_quads(nodes, placed, n);
    if i == n - 1 {
        assert(all[before.len() as int] == quad);
    } else {
        every_placed_node_is_drawn(nodes, placed, n - 1, i);
        let at = choose|at: int| 0 <= at < before.len() && before[at] == quad;
        assert(all[at] == quad);
    }
}

/// Every row that is placed bears the title of its node.
pub proof fn every_placed_row_bears_its_title<N, R>(nodes: Seq<DocNode<N>>, placed: Seq<Placed<R>>, n: int, i: int)
    requires
        0 <= i < n <= nodes.len(),
        rect_for(placed, row_of(nodes[i].ident())) is Some,
    ensures
        row_labels(nodes, placed, n).contains(
            LabelView {
                words: Words::Text(title_of(nodes[i])),
                spot: Spot::Row(rect_for(placed, row_of(nodes[i].ident()))->0),
                color: ROW_TEXT_COLOR@,
            },
        ),
    decreases n,
{
    let label: LabelView<N, R> = LabelView {
        words: Words::Text(title_of(nodes[i])),
        spot: Spot::Row(rect_for(placed, row_of(nodes[i].ident()))->0),
        color: ROW_TEXT_COLOR@,
    };
    let before = row_labels(nodes, placed, n - 1);
    let all = row_labels(nodes, placed, n);
    if i == n - 1 {
        assert(all[before.len() as int] == label);
    } else {
        every_placed_row_bears_its_title(nodes, placed, n - 1, i);
        let at = choose|at: int| 0 <= at < before.len() && before[at] == label;
        assert(all[at] == label);
    }
}

/// The panel says of every property of the selected node what it is called and what it shows; without a selected
/// node it says nothing.
pub proof fn the_panel_tells_of_every_property<N, R>(
    nodes: Seq<DocNode<N>>,
    selected: Option<NodeId>,
    placed: Seq<Placed<R>>,
    i: int,
    prop: int,
)
    requires
        0 <= prop < 6,
    ensures
        selected is None ==> panel_labels(nodes, selected, placed).len() == 0,
        0 <= i < nodes.len() && selected == Some(nodes[i].ident()) && (forall|j: int|
            0 <= j < i ==> (#[trigger] nodes[j]).ident() != nodes[i].ident()) ==> {
            let labels = panel_labels(nodes, selected, placed);
            let written = prop_in(nodes[i].written(), prop_row(prop).0);
            &&& labels.contains(
                LabelView { words: Words::Text(title_of(nodes[i])), spot: Spot::Header, color: VALUE_COLOR@ },
            )
            &&& labels.contains(
                LabelView {
                    words: Words::Text(prop_row(prop).1),
                    spot: Spot::Label(prop as usize),
                    color: LABEL_COLOR@,
                },
            )
            &&& labels.contains(
                LabelView { words: shown_of(prop, written), spot: Spot::Value(prop as usize), color: VALUE_COLOR@ },
            )
        },
{
    if 0 <= i < nodes.len() && selected == Some(nodes[i].ident()) && (forall|j: int|
        0 <= j < i ==> (#[trigger] nodes[j]).ident() != nodes[i].ident()) {
        the_first_node_is_found(nodes, nodes[i].ident(), 0);
        let labels = panel_labels(nodes, selected, placed);
        let props = prop_labels(nodes[i], placed, 6);
        assert(labels[0].spot is Header);
        told_of(nodes[i], placed, 6, prop);
        let written = prop_in(nodes[i].written(), prop_row(prop).0);
        let a: LabelView<N, R> = LabelView {
            words: Words::Text(prop_row(prop).1),
            spot: Spot::Label(prop as usize),
            color: LABEL_COLOR@,
        };
        let b = LabelView { words: shown_of(prop, written), spot: Spot::<R>::Value(prop as usize), color: VALUE_COLOR@ };
        let k = choose|k: int| 0 <= k < props.len() && props[k] == a;
        assert(labels[k + 1] == a);
        let m = choose|m: int| 0 <= m < props.len() && props[m] == b;
        assert(labels[m + 1] == b);
    }
}

proof fn told_of<N, R>(node: DocNode<N>, placed: Seq<Placed<R>>, n: int, prop: int)
    requires
        0 <= prop < n <= 6,
    ensures
        prop_labels(node, placed, n).contains(
            LabelView {
                words: Words::Text(prop_row(prop).1),
                spot: Spot::Label(prop as usize),
                color: LABEL_COLOR@,
            },
        ),
        prop_labels(node, placed, n).contains(
            LabelView {
                words: shown_of(prop, prop_in(node.written(), prop_row(prop).0)),
                spot: Spot::Value(prop as usize),
                color: VALUE_COLOR@,
            },
        ),
    decreases n,
{
    let a: LabelView<N, R> = LabelView {
        words: Words::Text(prop_row(prop).1),
        spot: Spot::Label(prop as usize),
        color: LABEL_COLOR@,
    };
    let b: LabelView<N, R> = LabelView {
        words: shown_of(prop, prop_in(node.written(), prop_row(prop).0)),
        spot: Spot::Value(prop as usize),
        color: VALUE_COLOR@,
    };
    let before = prop_labels(node, placed, n - 1);
    let all = prop_labels(node, placed, n);
    if prop == n - 1 {
        assert(all[before.len() as int] == a);
        assert(all[(before.len() + 1) as int] == b);
    } else {
        told_of(node, placed, n - 1, prop);
        let k = choose|k: int| 0 <= k < before.len() && before[k] == a;
        assert(all[k] == a);
        let m = choose|m: int| 0 <= m < before.len() && before[m] == b;
        assert(all[m] == b);
    }
}

proof fn the_node_stays_where_it_is<N>(
    before: Seq<DocNode<N>>,
    after: Seq<DocNode<N>>,
    i: int,
    key: Seq<char>,
    value: PropValue<N>,
    id: NodeId,
    from: int,
)
    requires
        written_at(before, after, i, key, value),
        0 <= from <= before.len(),
    ensures
        node_index(after, id, from) == node_index(before, id, from),
    decreases before.len() - from,
{
    if from < before.len() {
        assert(after[from].ident() == before[from].ident());
        the_node_stays_where_it_is(before, after, i, key, value, id, from + 1);
    }
}

/// A step up that stays within the bounds is taken back by a step down: the buttons then ask for the number that
/// was shown before.
pub proof fn a_step_down_takes_back_a_step_up<N>(
    before: Seq<DocNode<N>>,
    after: Seq<DocNode<N>>,
    selected: Option<NodeId>,
    prop: usize,
    i: int,
    shown: i32,
    value: PropValue<N>,
)
    requires
        prop < 6,
        prop_bounds(prop as int) matches Some((min, max, step)) && min <= shown && shown + step <= max,
        asked_of(before, selected, Control { prop, action: Action::Increase }) == Some((i, Change::Value(value))),
        0 <= i < before.len(),
        number_in(before[i].written(), prop_row(prop as int).0) == Number::<N>::Whole(shown),
        written_at(before, after, i, prop_row(prop as int).0, value),
    ensures
        asked_of(after, selected, Control { prop, action: Action::Decrease }) == Some(
            (i, Change::Value(PropValue::<N>::Number(Number::Whole(shown)))),
        ),
{
    a_button_asks_of_the_selected_node(before, selected, Control { prop, action: Action::Increase });
    let key = prop_row(prop as int).0;
    the_node_stays_where_it_is(before, after, i, key, value, selected->0, 0);
    let written = prop_in(before[i].written(), key);
    assert(written matches Some(w) ==> w is Number);
    a_button_steps_from_what_is_shown(before[i].written(), prop as int);
}

/// A change of a number shows at once where the node is shown, and nothing else about the node moves.
pub proof fn a_change_shows_at_once<N>(
    before: Seq<DocNode<N>>,
    after: Seq<DocNode<N>>,
    i: int,
    prop: int,
    number: Number<N>,
)
    requires
        2 <= prop < 6,
        written_at(before, after, i, prop_row(prop).0, PropValue::Number(number)),
    ensures
        ({
            let (old_one, new_one) = (widget_for(before[i]), widget_for(after[i]));
            &&& new_one.id == old_one.id && new_one.anchor == old_one.anchor && new_one.overlay == old_one.overlay
            &&& new_one.shape.x == (if prop == 2 {
                number
            } else {
                old_one.shape.x
            })
            &&& new_one.shape.y == (if prop == 3 {
                number
            } else {
                old_one.shape.y
            })
            &&& new_one.shape.width == (if prop == 4 {
                number
            } else {
                old_one.shape.width
            })
            &&& new_one.shape.height == (if prop == 5 {
                number
            } else {
                old_one.shape.height
            })
        }),
{
    reveal_strlit("anchor");
    reveal_strlit("x");
    reveal_strlit("y");
    reveal_strlit("width");
    reveal_strlit("height");
    assert("anchor"@.len() == 6 && "x"@.len() == 1 && "y"@.len() == 1 && "width"@.len() == 5 && "height"@.len() == 6);
    assert("x"@[0] != "y"@[0]);
    assert("anchor"@[0] != "height"@[0]);
    let (a, b) = (before[i].written(), after[i].written());
    let key = prop_row(prop).0;
    assert("anchor"@ != key ==> prop_in(b, "anchor"@) == prop_in(a, "anchor"@));
    assert("x"@ != key ==> prop_in(b, "x"@) == prop_in(a, "x"@));
    assert("y"@ != key ==> prop_in(b, "y"@) == prop_in(a, "y"@));
    assert("width"@ != key ==> prop_in(b, "width"@) == prop_in(a, "width"@));
    assert("height"@ != key ==> prop_in(b, "height"@) == prop_in(a, "height"@));
}

} // verus!
