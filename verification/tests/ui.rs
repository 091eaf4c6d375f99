//! Widgets, the tree they stand in, documents, and text.

use ab_glyph::{Font, FontVec, GlyphId, PxScale, ScaleFont};
use lxlake::contract::widget::{Anchor, UiId, Widget};
use lxlake::ui::doc::{
    anchor_at, anchor_names, default_of, instantiate, node_props, Document, NodeShape, Number,
    PropDefault, PropKind, PropValue,
};
use lxlake::ui::draw::{GlyphKey, Quad, QuadSource};
use lxlake::ui::text::{load_font, FontSource, GlyphBitmap, TextError, TextShaper};
use lxlake::ui::tree::UiTree;

#[derive(Debug, Clone, Copy, PartialEq)]
struct Rect {
    x: f64,
    y: f64,
    width: f64,
    height: f64,
}

impl Rect {
    fn contains(&self, point: [f64; 2]) -> bool {
        point[0] >= self.x
            && point[0] < self.x + self.width
            && point[1] >= self.y
            && point[1] < self.y + self.height
    }
}

#[derive(Debug, Clone, Copy, PartialEq)]
struct Shape {
    size: [f64; 2],
    offset: [f64; 2],
}

fn normalized(anchor: Anchor) -> [f64; 2] {
    let [x, y] = anchor.halves();
    [f64::from(x) / 2.0, f64::from(y) / 2.0]
}

fn place_in(widget: &Widget<Shape>, area: Rect) -> Rect {
    let [fx, fy] = normalized(widget.anchor);
    let Shape { size: [width, height], offset: [x, y] } = widget.shape;
    Rect {
        x: (area.width - width) * fx + area.x + x,
        y: (area.height - height) * fy + area.y + y,
        width,
        height,
    }
}

fn layout_in(tree: &mut UiTree<Shape, Rect>, area: Rect) {
    let rects: Vec<Rect> = tree.widgets().iter().map(|widget| place_in(widget, area)).collect();
    tree.layout(&rects);
}

fn viewport(width: f64, height: f64) -> Rect {
    Rect { x: 0.0, y: 0.0, width, height }
}

fn hit_test(tree: &UiTree<Shape, Rect>, point: [f64; 2]) -> Option<UiId> {
    let inside: Vec<bool> = tree.placed().iter().map(|placed| placed.rect.contains(point)).collect();
    tree.hit_test(&inside)
}

fn widget(id: u32, anchor: Anchor, width: f64, height: f64) -> Widget<Shape> {
    Widget::new(UiId(id), anchor, Shape { size: [width, height], offset: [0.0, 0.0] })
}

fn moved(widget: Widget<Shape>, offset: [f64; 2]) -> Widget<Shape> {
    Widget { shape: Shape { offset, ..widget.shape }, ..widget }
}

// Widgets.

#[test]
fn anchors_cover_the_full_three_by_three_grid() {
    assert_eq!(normalized(Anchor::TopLeft), [0.0, 0.0]);
    assert_eq!(normalized(Anchor::Center), [0.5, 0.5]);
    assert_eq!(normalized(Anchor::BottomRight), [1.0, 1.0]);
    assert_eq!(normalized(Anchor::TopCenter), [0.5, 0.0]);
    assert_eq!(normalized(Anchor::CenterLeft), [0.0, 0.5]);
    assert_eq!(normalized(Anchor::BottomCenter), [0.5, 1.0]);
}

#[test]
fn a_new_widget_is_drawn_at_its_anchor() {
    let widget = widget(1, Anchor::TopLeft, 120.0, 40.0);

    assert_eq!(widget.shape.offset, [0.0, 0.0]);
    assert!(!widget.overlay);
}

#[test]
fn overlay_and_offset_are_chainable() {
    let widget = moved(widget(2, Anchor::TopRight, 320.0, 240.0), [16.0, 16.0]).overlay();

    assert!(widget.overlay);
    assert_eq!(widget.shape.offset, [16.0, 16.0]);
}

// The tree.

#[test]
fn anchors_place_widgets_at_their_corners() {
    let mut tree = UiTree::new();
    tree.add(widget(1, Anchor::TopLeft, 100.0, 40.0));
    tree.add(widget(2, Anchor::Center, 100.0, 40.0));
    tree.add(widget(3, Anchor::BottomRight, 100.0, 40.0));

    layout_in(&mut tree, viewport(1000.0, 600.0));

    assert_eq!(tree.rect_of(UiId(1)).unwrap().x, 0.0);
    assert_eq!(tree.rect_of(UiId(1)).unwrap().y, 0.0);
    assert_eq!(tree.rect_of(UiId(2)).unwrap().x, 450.0);
    assert_eq!(tree.rect_of(UiId(2)).unwrap().y, 280.0);
    assert_eq!(tree.rect_of(UiId(3)).unwrap().x, 900.0);
    assert_eq!(tree.rect_of(UiId(3)).unwrap().y, 560.0);
}

#[test]
fn offset_pushes_a_widget_inward_from_its_anchor() {
    let mut tree = UiTree::new();
    tree.add(moved(widget(1, Anchor::TopRight, 200.0, 100.0), [-16.0, 16.0]));

    layout_in(&mut tree, viewport(1000.0, 600.0));

    let rect = tree.rect_of(UiId(1)).unwrap();
    assert_eq!(rect.x, 784.0);
    assert_eq!(rect.y, 16.0);
}

#[test]
fn relayout_follows_the_viewport() {
    let mut tree = UiTree::new();
    tree.add(widget(1, Anchor::BottomRight, 100.0, 40.0));

    layout_in(&mut tree, viewport(1000.0, 600.0));
    assert_eq!(tree.rect_of(UiId(1)).unwrap().x, 900.0);

    layout_in(&mut tree, viewport(500.0, 300.0));
    assert_eq!(tree.rect_of(UiId(1)).unwrap().x, 400.0);
    assert_eq!(tree.rect_of(UiId(1)).unwrap().y, 260.0);
}

#[test]
fn without_layout_there_is_no_rect() {
    let mut tree = UiTree::new();
    tree.add(widget(1, Anchor::TopLeft, 10.0, 10.0));

    assert_eq!(tree.rect_of(UiId(1)), None);
    assert_eq!(hit_test(&tree, [5.0, 5.0]), None);
}

#[test]
fn the_later_widget_wins_inside_the_same_group() {
    let mut tree = UiTree::new();
    tree.add(widget(1, Anchor::TopLeft, 100.0, 100.0));
    tree.add(widget(2, Anchor::TopLeft, 100.0, 100.0));

    layout_in(&mut tree, viewport(1000.0, 600.0));

    assert_eq!(hit_test(&tree, [50.0, 50.0]), Some(UiId(2)));
}

#[test]
fn overlays_win_over_later_drawn_widgets() {
    let mut tree = UiTree::new();
    tree.add(widget(1, Anchor::TopLeft, 100.0, 100.0).overlay());
    tree.add(widget(2, Anchor::TopLeft, 100.0, 100.0));

    layout_in(&mut tree, viewport(1000.0, 600.0));

    assert_eq!(hit_test(&tree, [50.0, 50.0]), Some(UiId(1)));
    tree.add(widget(3, Anchor::Center, 20.0, 20.0));
    layout_in(&mut tree, viewport(1000.0, 600.0));
    assert_eq!(hit_test(&tree, [500.0, 300.0]), Some(UiId(3)));
}

#[test]
fn clicks_outside_every_widget_miss() {
    let mut tree = UiTree::new();
    tree.add(widget(1, Anchor::TopLeft, 100.0, 40.0));
    layout_in(&mut tree, viewport(1000.0, 600.0));

    assert_eq!(hit_test(&tree, [99.0, 39.0]), Some(UiId(1)));
    assert_eq!(hit_test(&tree, [100.0, 39.0]), None);
    assert_eq!(hit_test(&tree, [500.0, 300.0]), None);
}

#[test]
fn clear_drops_widgets_and_placement() {
    let mut tree = UiTree::new();
    tree.add(widget(1, Anchor::TopLeft, 100.0, 40.0));
    layout_in(&mut tree, viewport(1000.0, 600.0));

    tree.clear();

    assert!(tree.placed().is_empty());
    assert_eq!(hit_test(&tree, [10.0, 10.0]), None);
}

#[test]
fn the_first_of_an_identity_has_the_rectangle() {
    let mut tree: UiTree<(), i32> = UiTree::new();
    tree.add(Widget::new(UiId(1), Anchor::Center, ()));
    tree.add(Widget::new(UiId(1), Anchor::Center, ()));
    tree.layout(&[7, 8]);
    assert_eq!(tree.rect_of(UiId(1)), Some(7));
}

// Documents.

type Doc = Document<f64>;

fn value(number: Number<f64>) -> f64 {
    match number {
        Number::Whole(whole) => f64::from(whole),
        Number::Real(real) => real,
    }
}

fn node_rect(widget: &Widget<NodeShape<f64>>, area: Rect) -> Rect {
    let NodeShape { width, height, x, y } = widget.shape;
    let shape = Shape { size: [value(width), value(height)], offset: [value(x), value(y)] };
    place_in(&Widget { id: widget.id, anchor: widget.anchor, shape, overlay: widget.overlay }, area)
}

fn project(document: &Doc) -> UiTree<NodeShape<f64>, Rect> {
    let mut tree: UiTree<NodeShape<f64>, Rect> = instantiate(document);
    let area = viewport(800.0, 600.0);
    let rects: Vec<Rect> = tree.widgets().iter().map(|widget| node_rect(widget, area)).collect();
    tree.layout(&rects);
    tree
}

#[test]
fn instantiate_is_repeatable() {
    let mut document = Doc::new();
    document.push("panel", Some("sidebar"));
    document.push("panel", None);
    document.push("label", None);

    let ids = |tree: &UiTree<NodeShape<f64>, Rect>| {
        tree.placed().iter().map(|placed| placed.id).collect::<Vec<_>>()
    };
    let first = project(&document);
    let second = project(&document);
    assert!(!ids(&first).is_empty());
    assert_eq!(ids(&first), ids(&second));
}

#[test]
fn a_keyed_node_keeps_its_id_when_a_sibling_is_inserted() {
    let mut alone = Doc::new();
    let keyed = alone.push("panel", Some("sidebar"));

    let mut with_sibling = Doc::new();
    let sibling = with_sibling.push("panel", None);
    let keyed_after = with_sibling.push("panel", Some("sidebar"));

    assert_eq!(keyed, keyed_after);
    assert_ne!(sibling, keyed_after);
}

#[test]
fn missing_props_fall_back_to_the_table_defaults() {
    let mut document = Doc::new();
    let id = document.push("panel", None);
    let node = document.node_by_id(id).unwrap();

    assert_eq!(node.number("width"), Number::Whole(120));
    assert_eq!(node.number("height"), Number::Whole(32));
    assert_eq!(node.number("x"), Number::Whole(0));
    assert_eq!(node.variant("anchor"), 0);
    assert_eq!(node.prop("name"), None);
}

#[test]
fn changing_a_number_prop_moves_the_node() {
    let mut document = Doc::new();
    let id = document.push("panel", Some("sidebar"));

    let before = project(&document).rect_of(id.ui_id()).unwrap();
    document
        .node_mut(id)
        .unwrap()
        .set("width", PropValue::Number(Number::Real(300.0)));
    let after = project(&document).rect_of(id.ui_id()).unwrap();

    assert_eq!(before.width, 120.0);
    assert_eq!(after.width, 300.0);
    assert_eq!(after.x, before.x);
}

#[test]
fn the_anchor_table_covers_the_grid_in_row_major_order() {
    assert_eq!(anchor_names().len(), 9);
    assert_eq!(normalized(anchor_at(0)), [0.0, 0.0]);
    assert_eq!(normalized(anchor_at(4)), [0.5, 0.5]);
    assert_eq!(normalized(anchor_at(8)), [1.0, 1.0]);
    assert_eq!(anchor_names()[7], "bottom-center");
}

#[test]
fn identities_are_fnv_1a_of_key_or_place() {
    fn fnv(text: &str) -> u64 {
        text.bytes().fold(0xcbf2_9ce4_8422_2325, |hash, byte| {
            (hash ^ u64::from(byte)).wrapping_mul(0x0000_0100_0000_01b3)
        })
    }
    let mut document = Doc::new();
    let keyed = document.push("panel", Some("侧栏"));
    let placed = document.push("label", None);
    assert_eq!(keyed.ui_id(), UiId(fnv("key:侧栏") as u32));
    assert_eq!(placed.ui_id(), UiId(fnv("label#1") as u32));
}

#[test]
fn what_does_not_fit_falls_back_to_the_table() {
    let mut document = Doc::new();
    let id = document.push("panel", None);
    let node = document.node_mut(id).unwrap();
    node.set("width", PropValue::Text("wide".to_owned()));
    node.set("anchor", PropValue::Variant(99));
    assert_eq!(node.number("width"), Number::Whole(120));
    assert_eq!(node.variant("anchor"), 0);
    node.set("anchor", PropValue::Variant(3));
    assert_eq!(node.variant("anchor"), 3);
    assert_eq!(node.number("nonsense"), Number::Whole(0));
    assert_eq!(default_of("height"), Some(PropDefault::Number(32)));
    assert_eq!(default_of("nonsense"), None);
    assert_eq!(document.nodes()[0].kind(), "panel");
    assert!(document.last_mut().is_some());
    assert!(Doc::default().last_mut().is_none());
}

#[test]
fn the_table_of_properties_is_complete() {
    let props = node_props();
    let keys: Vec<&str> = props.iter().map(|desc| desc.key).collect();
    assert_eq!(keys, ["name", "anchor", "x", "y", "width", "height"]);
    assert_eq!(props[2].kind, PropKind::Number { min: -4096, max: 4096, step: 8 });
    assert_eq!(props[4].kind, PropKind::Number { min: 0, max: 4096, step: 8 });
    assert_eq!(props[1].kind, PropKind::Enum(anchor_names()));
    assert_eq!(props[4].label, "宽");
}

// Text.

/// A font of three glyphs without outlines: one for `A`, one for `B`, and one for anything else.
fn tiny_font() -> Vec<u8> {
    let mut head = vec![0u8; 54];
    head[0..4].copy_from_slice(&[0, 1, 0, 0]);
    head[12..16].copy_from_slice(&0x5F0F_3CF5u32.to_be_bytes());
    head[18..20].copy_from_slice(&1000u16.to_be_bytes());
    let mut hhea = vec![0u8; 36];
    hhea[0..4].copy_from_slice(&[0, 1, 0, 0]);
    hhea[4..6].copy_from_slice(&800i16.to_be_bytes());
    hhea[6..8].copy_from_slice(&(-200i16).to_be_bytes());
    hhea[34..36].copy_from_slice(&1u16.to_be_bytes());
    let mut maxp = vec![0, 0, 0x50, 0];
    maxp.extend_from_slice(&3u16.to_be_bytes());
    let hmtx = vec![1, 244, 0, 0, 0, 0, 0, 0];
    // One subtable of format 12, for Windows and all of Unicode: `A` to `B` are glyphs 1 to 2.
    let mut cmap = vec![0, 0, 0, 1, 0, 3, 0, 10, 0, 0, 0, 12];
    cmap.extend_from_slice(&[0, 12, 0, 0]);
    for word in [28u32, 0, 1, 0x41, 0x42, 1] {
        cmap.extend_from_slice(&word.to_be_bytes());
    }
    let tables: [(&[u8; 4], Vec<u8>); 5] = [
        (b"cmap", cmap),
        (b"head", head),
        (b"hhea", hhea),
        (b"hmtx", hmtx),
        (b"maxp", maxp),
    ];
    let mut font = vec![0, 1, 0, 0, 0, tables.len() as u8, 0, 0, 0, 0, 0, 0];
    let mut offset = 12 + 16 * tables.len();
    for (tag, table) in &tables {
        font.extend_from_slice(*tag);
        font.extend_from_slice(&[0, 0, 0, 0]);
        font.extend_from_slice(&(offset as u32).to_be_bytes());
        font.extend_from_slice(&(table.len() as u32).to_be_bytes());
        offset += table.len().div_ceil(4) * 4;
    }
    for (_, table) in &tables {
        font.extend_from_slice(table);
        font.resize(font.len().div_ceil(4) * 4, 0);
    }
    font
}

#[test]
fn rejects_garbage_font_data() {
    match TextShaper::<[i32; 2]>::from_bytes(vec![0, 1, 2, 3]) {
        Err(error) => {
            assert!(matches!(error, TextError::Font(_)));
            assert_eq!(error.display(), "字体错误：InvalidFont");
        }
        Ok(_) => panic!("garbage is no font"),
    }
}

#[test]
fn glyphs_are_looked_up_in_the_font() {
    let shaper = TextShaper::<[i32; 2]>::from_bytes(tiny_font()).ok().unwrap();
    let key = |glyph: u16| GlyphKey { glyph, size_px: 16 };
    assert_eq!(
        shaper.shape("AB\nB中", 16),
        vec![vec![key(1), key(2)], vec![key(2), key(0)]]
    );
    assert_eq!(shaper.shape("", 16), vec![Vec::<GlyphKey>::new()]);
}

/// An image whose height and offset grow with the size, as those of an outline do.
fn bitmap(glyph: u16, size_px: u16, width: u32) -> GlyphBitmap<[i32; 2]> {
    let height = u32::from(size_px / 8);
    GlyphBitmap {
        key: GlyphKey { glyph, size_px },
        offset: [i32::from(size_px / 16), -i32::from(size_px / 8)],
        width,
        height,
        coverage: vec![255; (width * height) as usize],
    }
}

const SIZE: f64 = 16.0;
const LINE_HEIGHT: f64 = 20.0;

fn shaper() -> TextShaper<[i32; 2]> {
    TextShaper::from_bytes(tiny_font()).ok().unwrap()
}

fn size_px(scale_factor: f64) -> u16 {
    (SIZE * scale_factor).round().clamp(1.0, 65535.0) as u16
}

fn moved_on(font: &FontVec, pen: [f64; 2], glyph: u16, scale_factor: f64) -> [f64; 2] {
    let scaled = font.as_scaled(PxScale::from(f32::from(size_px(scale_factor))));
    [pen[0] + f64::from(scaled.h_advance(GlyphId(glyph))) / scale_factor, pen[1]]
}

/// Lays a text out in logical pixels. Anything but `A` and `B` is blank.
fn lay_out(shaper: &mut TextShaper<[i32; 2]>, text: &str, scale_factor: f64) -> Vec<Quad<Rect>> {
    shaper.layout(
        text,
        size_px(scale_factor),
        [0.0, 12.0],
        [255; 4],
        |font: &FontVec, pen: [f64; 2], glyph: u16| moved_on(font, pen, glyph, scale_factor),
        |start: [f64; 2]| [start[0], start[1] + LINE_HEIGHT],
        |_font: &FontVec, key: GlyphKey| bitmap(key.glyph, key.size_px, u32::from(key.glyph * key.size_px / 4)),
        |pen: [f64; 2], image: &GlyphBitmap<[i32; 2]>| Rect {
            x: pen[0] + f64::from(image.offset[0]) / scale_factor,
            y: pen[1] + f64::from(image.offset[1]) / scale_factor,
            width: f64::from(image.width) / scale_factor,
            height: f64::from(image.height) / scale_factor,
        },
    )
}

fn measured(shaper: &TextShaper<[i32; 2]>, text: &str) -> [f64; 2] {
    let ends = shaper.measure(text, 16, [0.0, 0.0], |font: &FontVec, pen: [f64; 2], glyph: u16| {
        moved_on(font, pen, glyph, 1.0)
    });
    let width = ends.iter().fold(0.0f64, |width, end| width.max(end[0]));
    [width, ends.len() as f64 * LINE_HEIGHT]
}

#[test]
fn empty_text_measures_nothing() {
    assert_eq!(measured(&shaper(), ""), [0.0, 0.0]);
}

#[test]
fn a_text_is_as_wide_as_its_widest_line() {
    let shaper = shaper();
    assert_eq!(measured(&shaper, "AB"), [16.0, 20.0]);
    assert_eq!(measured(&shaper, "A\nABA\n"), [24.0, 60.0]);
}

#[test]
fn two_lines_are_one_line_height_apart() {
    let quads = lay_out(&mut shaper(), "A\nA", 1.0);

    assert_eq!(quads.len(), 2);
    assert_eq!(quads[1].rect.y - quads[0].rect.y, LINE_HEIGHT);
    assert_eq!(quads[0].rect.x, quads[1].rect.x);
}

#[test]
fn spaces_advance_but_draw_nothing() {
    let quads = lay_out(&mut shaper(), "A A", 1.0);

    assert_eq!(quads.len(), 2);
    assert!(quads[1].rect.x > quads[0].rect.x);
    assert_eq!(quads[1].rect.x - quads[0].rect.x, 16.0);
    assert_eq!(quads[0].source, QuadSource::Glyph(GlyphKey { glyph: 1, size_px: 16 }));
    assert_eq!(quads[0].color, [255; 4]);
}

#[test]
fn a_second_layout_reports_no_new_glyphs() {
    let mut shaper = shaper();

    lay_out(&mut shaper, "AB", 1.0);
    let first = shaper.take_new_glyphs();
    assert_eq!(first, vec![bitmap(1, 16, 4), bitmap(2, 16, 8)]);

    lay_out(&mut shaper, "AB", 1.0);
    assert!(shaper.take_new_glyphs().is_empty());
    lay_out(&mut shaper, "BAB B\nA", 3.0);
    assert_eq!(shaper.take_new_glyphs(), vec![bitmap(2, 48, 24), bitmap(1, 48, 12)]);
}

#[test]
fn the_same_text_keeps_its_logical_size_across_dpi() {
    let mut shaper = shaper();

    let low = lay_out(&mut shaper, "A", 1.0)[0].rect;
    let high = lay_out(&mut shaper, "A", 2.0)[0].rect;

    assert!((low.width - high.width).abs() < 1.0);
    assert!((low.height - high.height).abs() < 1.0);
    assert!((low.x - high.x).abs() < 1.0);
    assert!((low.y - high.y).abs() < 1.0);

    let keys = shaper.take_new_glyphs();
    let sizes: Vec<u32> = keys.iter().map(|bitmap| bitmap.width).collect();
    assert_eq!(keys.len(), 2, "{sizes:?}");
    assert!(sizes[1] > sizes[0], "{sizes:?}");
}

#[test]
fn a_glyph_that_was_made_stays() {
    let mut shaper = shaper();
    shaper.store(bitmap(1, 16, 3));
    shaper.store(bitmap(1, 16, 5));
    assert_eq!(shaper.bitmap(GlyphKey { glyph: 1, size_px: 16 }), Some(&bitmap(1, 16, 3)));
    assert_eq!(shaper.take_new_glyphs(), vec![bitmap(1, 16, 3)]);
}

#[test]
fn what_cannot_be_seen_is_not_handed_out() {
    let mut shaper = TextShaper::from_bytes(tiny_font()).ok().unwrap();
    shaper.store(bitmap(0, 16, 0));
    assert!(shaper.take_new_glyphs().is_empty());
    assert!(shaper.bitmap(GlyphKey { glyph: 0, size_px: 16 }).is_some());
}

#[test]
fn a_font_that_cannot_be_had_is_reported() {
    let load = |source: FontSource| load_font::<[i32; 2]>(source).err();
    assert_eq!(
        load(FontSource::Path("a.otf".to_owned(), Err("gone".to_owned()))),
        Some("读不到字体 a.otf：gone".to_owned())
    );
    assert_eq!(
        load(FontSource::Path("a.otf".to_owned(), Ok(vec![1, 2, 3]))),
        Some("字体 a.otf 解析失败：字体错误：InvalidFont".to_owned())
    );
    assert_eq!(
        load(FontSource::Bytes(Vec::new())),
        Some("字体 <内存> 解析失败：字体错误：InvalidFont".to_owned())
    );
    assert_eq!(load(FontSource::Bytes(tiny_font())), None);
}

#[test]
fn quads_are_solid_or_glyphs() {
    let key = GlyphKey { glyph: 3, size_px: 14 };
    assert_eq!(Quad::solid(1, [1, 2, 3, 4]).source, QuadSource::Solid);
    assert_eq!(Quad::glyph(key, 1, [1, 2, 3, 4]).source, QuadSource::Glyph(key));
}
