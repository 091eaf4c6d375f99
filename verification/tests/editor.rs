//! The editor: selecting, stepping, listing and drawing.

use lxlake::contract::event::Event;
use lxlake::contract::input::MouseButton;
use lxlake::contract::widget::{UiId, Widget};
use lxlake::contract::window::WindowId;
use lxlake::editor::controls::{
    button_label, control_id, control_of, displayed_value, prop_actions, row_id, row_label, Action,
    Control, Hit, Shown, INSPECTOR_WIDTH, ROW_HEIGHT, SIDEBAR_WIDTH,
};
use lxlake::editor::desk::{
    node_of, Areas, ButtonShape, Editor, Response, Spot, BUTTON_COLOR, LABEL_COLOR, NODE_COLOR,
    PANEL_COLOR, PREVIEW_COLOR, ROW_COLOR, ROW_HOVERED_COLOR, ROW_SELECTED_COLOR, SIDEBAR_COLOR,
    STROKE_COLOR, VALUE_COLOR,
};
use lxlake::editor::sample::sample_document;
use lxlake::ui::doc::{node_props, NodeShape, Number, PropValue};

#[derive(Debug, Clone, Copy, PartialEq)]
struct Rect {
    x: f64,
    y: f64,
    width: f64,
    height: f64,
}

impl Rect {
    fn contains(&self, point: [f64; 2]) -> bool {
        point[0] >= self.x
            && point[0] < self.x + self.width
            && point[1] >= self.y
            && point[1] < self.y + self.height
    }

    fn center(&self) -> [f64; 2] {
        [self.x + self.width / 2.0, self.y + self.height / 2.0]
    }
}

const VIEWPORT: [f64; 2] = [1280.0, 720.0];

fn value(number: Number<f64>) -> f64 {
    match number {
        Number::Whole(whole) => f64::from(whole),
        Number::Real(real) => real,
    }
}

fn node_rect(widget: &Widget<NodeShape<f64>>, area: Rect) -> Rect {
    let [fx, fy] = widget.anchor.halves();
    let (width, height) = (value(widget.shape.width), value(widget.shape.height));
    Rect {
        x: (area.width - width) * f64::from(fx) / 2.0 + area.x + value(widget.shape.x),
        y: (area.height - height) * f64::from(fy) / 2.0 + area.y + value(widget.shape.y),
        width,
        height,
    }
}

fn preview_area(viewport: [f64; 2]) -> Rect {
    let sides = f64::from(SIDEBAR_WIDTH + INSPECTOR_WIDTH);
    Rect {
        x: f64::from(SIDEBAR_WIDTH) + 24.0,
        y: 24.0,
        width: (viewport[0] - sides - 48.0).max(0.0),
        height: (viewport[1] - 48.0).max(0.0),
    }
}

fn button_rect(shape: &ButtonShape, viewport: [f64; 2]) -> Rect {
    let right = viewport[0] - 12.0;
    Rect {
        x: right - f64::from(shape.from_right),
        y: 12.0 + (shape.row as f64 + 1.0) * f64::from(ROW_HEIGHT) + 4.0,
        width: f64::from(shape.width),
        height: 20.0,
    }
}

/// An editor whose geometry is worked out.
struct Bench {
    editor: Editor<f64, Rect>,
}

impl Bench {
    fn new() -> Bench {
        Bench { editor: Editor::new(sample_document(), [0.0, 0.0]) }
    }

    fn relayout(&mut self, viewport: [f64; 2]) {
        let editor = &mut self.editor;
        editor.relayout((viewport[1] / f64::from(ROW_HEIGHT)).floor().max(0.0) as usize);
        let whole = Rect { x: 0.0, y: 0.0, width: viewport[0], height: viewport[1] };
        let area = preview_area(viewport);
        let chrome: Vec<Rect> =
            editor.chrome().widgets().iter().map(|row| node_rect(row, whole)).collect();
        let preview: Vec<Rect> =
            editor.preview().widgets().iter().map(|node| node_rect(node, area)).collect();
        let inspector: Vec<Rect> = editor
            .inspector()
            .widgets()
            .iter()
            .map(|button| button_rect(&button.shape, viewport))
            .collect();
        editor.place(&chrome, &inspector, &preview);
        let cursor = editor.cursor();
        let inside: Vec<bool> =
            editor.chrome().placed().iter().map(|placed| placed.rect.contains(cursor)).collect();
        editor.hover(&inside);
    }

    fn point_at(&mut self, position: [f64; 2]) {
        let event = Event::CursorMoved { window: WindowId(0), position };
        assert_eq!(self.editor.handle_event(&event), Response::Nothing);
    }

    fn click(&mut self) {
        let event =
            Event::MouseButton { window: WindowId(0), button: MouseButton::Left, pressed: true };
        assert_eq!(self.editor.handle_event(&event), Response::Click);
        let at = self.editor.cursor();
        let chrome: Vec<bool> =
            self.editor.chrome().placed().iter().map(|it| it.rect.contains(at)).collect();
        let inspector: Vec<bool> =
            self.editor.inspector().placed().iter().map(|it| it.rect.contains(at)).collect();
        let preview: Vec<bool> =
            self.editor.preview().placed().iter().map(|it| it.rect.contains(at)).collect();
        if let Some(step) = self.editor.click(&chrome, &inspector, &preview) {
            let by = f64::from(step.step);
            let bound = f64::from(step.bound);
            let next =
                if step.up { (step.from + by).min(bound) } else { (step.from - by).max(bound) };
            self.editor.take_step(&step, next);
        }
    }

    fn control_center(&self, prop: usize, action: Action) -> [f64; 2] {
        self.editor.inspector().rect_of(control_id(prop, action)).unwrap().center()
    }

    fn select_row(&mut self, row: usize) {
        self.relayout(VIEWPORT);
        self.point_at(row_center(row));
        self.click();
        let node = self.editor.document().nodes()[row].id();
        assert_eq!(self.editor.state().selected, Some(node));
        self.relayout(VIEWPORT);
    }

    fn number(&self, row: usize, key: &str) -> f64 {
        value(self.editor.document().nodes()[row].number(key))
    }
}

fn row_center(row: usize) -> [f64; 2] {
    let height = f64::from(ROW_HEIGHT);
    [f64::from(SIDEBAR_WIDTH) / 2.0, row as f64 * height + height / 2.0]
}

fn prop_index(key: &str) -> usize {
    node_props().iter().position(|desc| desc.key == key).unwrap()
}

fn stroke(rect: Rect) -> [Rect; 4] {
    let t = 2.0;
    [
        Rect { height: t, ..rect },
        Rect { y: rect.y + rect.height - t, height: t, ..rect },
        Rect { width: t, ..rect },
        Rect { x: rect.x + rect.width - t, width: t, ..rect },
    ]
}

fn areas() -> Areas<Rect> {
    let column = |x: f64, width: f64| Rect { x, y: 0.0, width, height: VIEWPORT[1] };
    Areas {
        sidebar: column(0.0, 240.0),
        inspector: column(1000.0, 280.0),
        preview: preview_area(VIEWPORT),
    }
}

#[test]
fn clicking_the_second_row_selects_the_second_node() {
    let mut bench = Bench::new();
    bench.select_row(1);

    let second = bench.editor.document().nodes()[1].id();
    let rect = bench.editor.preview().rect_of(second.ui_id()).unwrap();
    assert_eq!(bench.editor.selection_rect(), Some(rect));
}

#[test]
fn clicking_a_node_in_the_preview_selects_it_too() {
    let mut bench = Bench::new();
    bench.relayout(VIEWPORT);

    let corner = bench.editor.document().nodes()[1].id();
    let rect = bench.editor.preview().rect_of(corner.ui_id()).unwrap();
    bench.point_at(rect.center());
    bench.click();

    assert_eq!(bench.editor.state().selected, Some(corner));
}

#[test]
fn the_stroke_follows_the_selected_rect() {
    let mut bench = Bench::new();
    bench.select_row(0);
    let rect = bench.editor.selection_rect().unwrap();
    let quads = bench.editor.paint(&areas(), Some(stroke(rect)));

    let [top, bottom, left, right] = stroke(rect);
    assert_eq!(top, Rect { height: 2.0, ..rect });
    assert_eq!(bottom.y + bottom.height, rect.y + rect.height);
    assert_eq!(bottom.width, rect.width);
    assert_eq!(left.height, rect.height);
    assert_eq!(right.x + right.width, rect.x + rect.width);
    assert_eq!(right.height, rect.height);
    let last = &quads[quads.len() - 4..];
    assert_eq!(last.iter().map(|quad| quad.rect).collect::<Vec<_>>(), [top, bottom, left, right]);
    assert!(last.iter().all(|quad| quad.color == STROKE_COLOR));
}

#[test]
fn clicking_empty_space_keeps_the_selection() {
    let mut bench = Bench::new();
    bench.select_row(0);
    let first = bench.editor.document().nodes()[0].id();

    bench.point_at([f64::from(SIDEBAR_WIDTH) / 2.0, VIEWPORT[1] - 1.0]);
    bench.click();
    assert_eq!(bench.editor.state().selected, Some(first));
}

#[test]
fn nothing_is_stroked_before_a_selection() {
    let mut bench = Bench::new();
    bench.relayout(VIEWPORT);

    assert_eq!(bench.editor.state().selected, None);
    assert_eq!(bench.editor.selection_rect(), None);
    assert!(bench.editor.inspector().placed().is_empty());
}

#[test]
fn rows_that_do_not_fit_stay_out_of_the_tree() {
    let mut bench = Bench::new();
    bench.relayout([1280.0, f64::from(ROW_HEIGHT) * 2.5]);

    assert_eq!(bench.editor.document().nodes().len(), 3);
    for (index, node) in bench.editor.document().nodes().iter().enumerate() {
        let placed = bench.editor.chrome().rect_of(row_id(node.id())).is_some();
        assert_eq!(placed, index < 2, "{index}");
    }
}

#[test]
fn hovering_marks_the_row_under_the_cursor() {
    let mut bench = Bench::new();
    bench.point_at(row_center(2));
    bench.relayout(VIEWPORT);
    let third = bench.editor.document().nodes()[2].id();
    assert_eq!(bench.editor.state().hovered, Some(third));

    bench.point_at([f64::from(SIDEBAR_WIDTH) / 2.0, VIEWPORT[1] - 1.0]);
    bench.relayout(VIEWPORT);
    assert_eq!(bench.editor.state().hovered, None);
}

#[test]
fn both_ids_reverse_lookup_the_same_node() {
    let mut bench = Bench::new();
    bench.relayout(VIEWPORT);

    let document = bench.editor.document();
    for node in document.nodes() {
        assert_ne!(row_id(node.id()), node.id().ui_id());
        assert_eq!(node_of(document, row_id(node.id())), Some(node.id()));
        assert_eq!(node_of(document, node.id().ui_id()), Some(node.id()));
    }
}

#[test]
fn stepping_a_number_moves_the_node() {
    let mut bench = Bench::new();
    bench.select_row(0);

    let node = bench.editor.document().nodes()[0].id();
    let width = prop_index("width");
    let before_value = bench.number(0, "width");
    let before_rect = bench.editor.preview().rect_of(node.ui_id()).unwrap();

    bench.point_at(bench.control_center(width, Action::Increase));
    bench.click();

    assert_eq!(bench.number(0, "width"), before_value + 8.0);
    bench.relayout(VIEWPORT);
    let after_rect = bench.editor.preview().rect_of(node.ui_id()).unwrap();
    assert_eq!(after_rect.width, before_rect.width + 8.0);
    assert_ne!(after_rect, before_rect);
}

#[test]
fn stepping_stops_at_the_bounds() {
    let mut bench = Bench::new();
    bench.select_row(0);

    let width = prop_index("width");
    for _ in 0..200 {
        bench.point_at(bench.control_center(width, Action::Decrease));
        bench.click();
    }

    assert_eq!(bench.number(0, "width"), 0.0);
}

#[test]
fn the_enum_button_cycles_through_candidates() {
    let mut bench = Bench::new();
    bench.select_row(0);

    let anchor = prop_index("anchor");
    for expected in [5, 6, 7, 8, 0, 1, 2, 3, 4] {
        bench.point_at(bench.control_center(anchor, Action::Next));
        bench.click();
        assert_eq!(bench.editor.document().nodes()[0].variant("anchor"), expected);
    }
}

#[test]
fn a_text_prop_has_no_control() {
    let mut bench = Bench::new();
    bench.select_row(0);

    let name = prop_index("name");
    for action in [Action::Decrease, Action::Increase, Action::Next] {
        assert_eq!(bench.editor.inspector().rect_of(control_id(name, action)), None);
    }
}

#[test]
fn control_ids_round_trip() {
    for prop in 0..node_props().len() {
        for action in [Action::Decrease, Action::Increase, Action::Next] {
            assert_eq!(control_of(control_id(prop, action)), Some(Control { prop, action }));
        }
    }

    assert_eq!(control_of(control_id(node_props().len(), Action::Next)), None);
    assert_eq!(control_of(UiId(0xF)), None);
}

#[test]
fn pressing_a_control_keeps_the_selection() {
    let mut bench = Bench::new();
    bench.select_row(0);
    let selected = bench.editor.state().selected;

    bench.point_at(bench.control_center(prop_index("height"), Action::Increase));
    bench.click();

    assert_eq!(bench.editor.state().selected, selected);
}

#[test]
fn actions_have_numbers() {
    for action in [Action::Decrease, Action::Increase, Action::Next] {
        assert_eq!(Action::from_code(action.code()), Some(action));
    }
    assert_eq!(Action::from_code(3), None);
    assert_eq!(control_id(4, Action::Increase), UiId(65));
}

#[test]
fn a_number_that_is_not_whole_is_stepped_by_the_caller() {
    let mut document = sample_document();
    let id = document.nodes()[0].id();
    document.node_mut(id).unwrap().set("width", PropValue::Number(Number::Real(4095.5)));
    let mut bench = Bench { editor: Editor::new(document, [0.0, 0.0]) };
    bench.select_row(0);
    bench.point_at(bench.control_center(prop_index("width"), Action::Increase));
    bench.click();
    assert_eq!(bench.number(0, "width"), 4096.0);
}

#[test]
fn buttons_stand_side_by_side_from_the_right() {
    let mut bench = Bench::new();
    bench.select_row(0);
    let x = prop_index("x");
    let minus = bench.editor.inspector().rect_of(control_id(x, Action::Decrease)).unwrap();
    let plus = bench.editor.inspector().rect_of(control_id(x, Action::Increase)).unwrap();
    assert_eq!(plus.x + plus.width, VIEWPORT[0] - 12.0);
    assert_eq!(minus.x + minus.width + 4.0, plus.x);
    let next = bench.editor.inspector().rect_of(control_id(1, Action::Next)).unwrap();
    assert_eq!(next.width, 96.0);
}

#[test]
fn a_value_of_another_kind_is_left_alone() {
    let mut document = sample_document::<f64>();
    let id = document.nodes()[0].id();
    document.node_mut(id).unwrap().set("width", PropValue::Text("wide".to_owned()));
    let mut bench = Bench { editor: Editor::new(document, [0.0, 0.0]) };
    bench.select_row(0);
    bench.point_at(bench.control_center(prop_index("width"), Action::Increase));
    bench.click();
    let node = &bench.editor.document().nodes()[0];
    assert_eq!(node.prop("width"), Some(&PropValue::Text("wide".to_owned())));
}

#[test]
fn what_is_shown_of_a_node() {
    let document = sample_document::<f64>();
    let footer = &document.nodes()[2];
    assert_eq!(row_label(footer), "label 页脚");
    let shown = |key: &str| displayed_value(footer, prop_index(key));
    assert_eq!(shown("name"), Shown::Text("页脚".to_owned()));
    assert_eq!(shown("anchor"), Shown::Text("bottom-right".to_owned()));
    assert_eq!(shown("width"), Shown::Number(Number::Whole(200)));
    assert_eq!(shown("height"), Shown::Number(Number::Whole(32)));
    let value = Shown::<f64>::Text("center".to_owned());
    assert_eq!(button_label(Action::Decrease, &value), Shown::Text("-".to_owned()));
    assert_eq!(button_label(Action::Increase, &value), Shown::Text("+".to_owned()));
    assert_eq!(button_label(Action::Next, &value), value);
    let props = node_props();
    assert_eq!(prop_actions(&props[0].kind), Vec::<Action>::new());
    assert_eq!(prop_actions(&props[1].kind), vec![Action::Next]);

    let mut odd = sample_document::<f64>();
    let id = odd.nodes()[0].id();
    odd.node_mut(id).unwrap().set("anchor", PropValue::Variant(42));
    odd.node_mut(id).unwrap().set("name", PropValue::Text(String::new()));
    assert_eq!(displayed_value(&odd.nodes()[0], 1), Shown::Text("42".to_owned()));
    assert_eq!(row_label(&odd.nodes()[0]), "panel");
}

#[test]
fn what_is_drawn_comes_in_layers() {
    let mut bench = Bench::new();
    bench.select_row(0);
    bench.point_at(row_center(1));
    bench.relayout(VIEWPORT);
    let colors: Vec<[u8; 4]> =
        bench.editor.paint(&areas(), None).iter().map(|quad| quad.color).collect();
    let mut expected = vec![SIDEBAR_COLOR, ROW_SELECTED_COLOR, ROW_HOVERED_COLOR, ROW_COLOR];
    expected.push(PANEL_COLOR);
    expected.extend([BUTTON_COLOR; 9]);
    expected.push(PREVIEW_COLOR);
    expected.extend([NODE_COLOR; 3]);
    assert_eq!(colors, expected);
}

#[test]
fn texts_are_titles_and_what_is_said_of_the_selected_node() {
    let mut bench = Bench::new();
    bench.relayout(VIEWPORT);
    assert_eq!(bench.editor.labels().len(), 3);
    bench.select_row(2);
    let labels = bench.editor.labels();
    // Three titles, a header, and for six properties a label, a value and nine buttons in all.
    assert_eq!(labels.len(), 3 + 1 + 6 * 2 + 9);
    assert_eq!(labels[3].spot, Spot::Header);
    assert_eq!(labels[3].text, Shown::Text("label 页脚".to_owned()));
    assert_eq!(labels[4].text, Shown::Text("名称".to_owned()));
    assert_eq!((labels[4].spot, labels[4].color), (Spot::Label(0), LABEL_COLOR));
    assert_eq!((labels[5].spot, labels[5].color), (Spot::Value(0), VALUE_COLOR));
    assert!(matches!(labels[8].spot, Spot::Button(_)));
    assert_eq!(labels[8].text, Shown::Text("bottom-right".to_owned()));
}

#[test]
fn the_list_is_hit_before_the_document() {
    let mut bench = Bench::new();
    bench.select_row(0);
    let editor = &bench.editor;
    let nodes = editor.document().nodes();
    let all = |n: usize| vec![true; n];
    let none = |n: usize| vec![false; n];
    let (rows, buttons, boxes) = (
        editor.chrome().placed().len(),
        editor.inspector().placed().len(),
        editor.preview().placed().len(),
    );
    assert_eq!(
        editor.hit(&all(rows), &all(buttons), &all(boxes)),
        Some(Hit::Node(nodes[2].id()))
    );
    assert_eq!(
        editor.hit(&none(rows), &all(buttons), &all(boxes)),
        Some(Hit::Control(Control { prop: 5, action: Action::Increase }))
    );
    assert_eq!(
        editor.hit(&none(rows), &none(buttons), &all(boxes)),
        Some(Hit::Node(nodes[2].id()))
    );
    assert_eq!(editor.hit(&none(rows), &none(buttons), &none(boxes)), None);
}

#[test]
fn closing_the_window_leaves() {
    let mut bench = Bench::new();
    let event = Event::CloseRequested { window: WindowId(0) };
    assert_eq!(bench.editor.handle_event(&event), Response::Exit);
    let event =
        Event::MouseButton { window: WindowId(0), button: MouseButton::Right, pressed: true };
    assert_eq!(bench.editor.handle_event(&event), Response::Nothing);
}
