//! What the demo shows on top of the world: a crosshair, a panel with numbers, and a panel with help.
//!
//! `S` is a size and `R` a rectangle.

use crate::contract::widget::{Anchor, UiId, Widget};
use crate::text::{decimal, push_decimal};
use crate::ui::draw::{Quad, QuadSource};
use crate::ui::tree::{paired, rect_for, the_later_widget_wins, topmost, Placed, UiTree};
use vstd::prelude::*;
use vstd::string::StringExecFns;

verus! {

/// The panel with numbers.
pub const HUD_PANEL: u32 = 1;

/// The horizontal bar of the crosshair.
pub const HUD_CROSSHAIR_H: u32 = 2;

/// The vertical bar of the crosshair.
pub const HUD_CROSSHAIR_V: u32 = 3;

/// The panel with help.
pub const HUD_HELP: u32 = 4;

/// Length of a bar of the crosshair, in logical pixels.
pub const CROSSHAIR_LENGTH: i32 = 10;

/// Thickness of a bar of the crosshair.
pub const CROSSHAIR_THICKNESS: i32 = 2;

/// Distance of the panel with numbers from the upper left corner of the window.
pub const HUD_MARGIN: i32 = 12;

/// Color of panels.
pub const HUD_PANEL_COLOR: [u8; 4] = [10, 12, 16, 170];

/// Color of texts.
pub const HUD_TEXT_COLOR: [u8; 4] = [235, 240, 245, 255];

/// Color of the crosshair.
pub const CROSSHAIR_COLOR: [u8; 4] = [255, 255, 255, 200];

/// How often the numbers in the title change, in nanoseconds.
pub const REPORT_INTERVAL: u64 = 1_000_000_000;

/// Size and offset of a widget.
#[derive(Debug, Clone, Copy, PartialEq, Eq)]
pub enum HudShape<S> {
    /// A bar of a fixed size.
    Bar { width: i32, height: i32 },
    /// A panel of a measured size, moved by an offset.
    Panel { size: S, x: i32, y: i32 },
}

/// A drawn widget.
pub open spec fn item<S>(id: u32, anchor: Anchor, shape: HudShape<S>) -> Widget<HudShape<S>> {
    Widget { id: UiId(id), anchor, shape, overlay: false }
}

/// The widgets, from the bottom up. The crosshair comes first, so that the panel with help, which
/// stands in the middle too, covers it.
pub open spec fn hud_widgets<S>(info: S, help: Option<S>) -> Seq<Widget<HudShape<S>>> {
    let closed = seq![
        item(
            HUD_CROSSHAIR_H,
            Anchor::Center,
            HudShape::Bar { width: CROSSHAIR_LENGTH, height: CROSSHAIR_THICKNESS },
        ),
        item(
            HUD_CROSSHAIR_V,
            Anchor::Center,
            HudShape::Bar { width: CROSSHAIR_THICKNESS, height: CROSSHAIR_LENGTH },
        ),
        item(
            HUD_PANEL,
            Anchor::TopLeft,
            HudShape::Panel { size: info, x: HUD_MARGIN, y: HUD_MARGIN },
        ),
    ];
    match help {
        Some(size) => closed.push(
            item(HUD_HELP, Anchor::Center, HudShape::Panel { size, x: 0, y: 0 }),
        ),
        None => closed,
    }
}

/// Something to draw.
#[derive(Debug, Clone, Copy, PartialEq, Eq)]
pub enum HudPart<R> {
    /// A rectangle of color.
    Fill(Quad<R>),
    /// The numbers, in their panel.
    Numbers(R),
    /// The help, in its panel.
    Help(R),
}

/// A bar of the crosshair, if it is placed.
pub open spec fn bar_parts<R>(rect: Option<R>) -> Seq<HudPart<R>> {
    match rect {
        Some(rect) => seq![
            HudPart::Fill(Quad { rect, color: CROSSHAIR_COLOR, source: QuadSource::Solid }),
        ],
        None => seq![],
    }
}

/// A panel, if it is placed: first its color, then its text.
pub open spec fn panel_parts<R>(rect: Option<R>, help: bool) -> Seq<HudPart<R>> {
    match rect {
        Some(rect) => seq![
            HudPart::Fill(Quad { rect, color: HUD_PANEL_COLOR, source: QuadSource::Solid }),
            if help {
                HudPart::Help(rect)
            } else {
                HudPart::Numbers(rect)
            },
        ],
        None => seq![],
    }
}

/// What is drawn, from the bottom up.
pub open spec fn hud_parts<R>(placed: Seq<Placed<R>>, open: bool) -> Seq<HudPart<R>> {
    bar_parts(rect_for(placed, UiId(HUD_CROSSHAIR_H))) + bar_parts(
        rect_for(placed, UiId(HUD_CROSSHAIR_V)),
    ) + panel_parts(rect_for(placed, UiId(HUD_PANEL)), false) + if open {
        panel_parts(rect_for(placed, UiId(HUD_HELP)), true)
    } else {
        seq![]
    }
}

fn push_bar<R: Copy>(parts: &mut Vec<HudPart<R>>, rect: Option<R>)
    ensures
        final(parts)@ == old(parts)@ + bar_parts(rect),
{
    if let Some(rect) = rect {
        parts.push(HudPart::Fill(Quad::solid(rect, CROSSHAIR_COLOR)));
    }
    assert(parts@ =~= old(parts)@ + bar_parts(rect));
}

fn push_panel<R: Copy>(parts: &mut Vec<HudPart<R>>, rect: Option<R>, help: bool)
    ensures
        final(parts)@ == old(parts)@ + panel_parts(rect, help),
{
    if let Some(rect) = rect {
        parts.push(HudPart::Fill(Quad::solid(rect, HUD_PANEL_COLOR)));
        if help {
            parts.push(HudPart::Help(rect));
        } else {
            parts.push(HudPart::Numbers(rect));
        }
    }
    assert(parts@ =~= old(parts)@ + panel_parts(rect, help));
}

/// The display.
#[derive(Debug)]
pub struct Hud<S, R> {
    tree: UiTree<HudShape<S>, R>,
}

impl<S: Copy, R: Copy> Hud<S, R> {
    /// The widgets.
    pub closed spec fn widgets(&self) -> UiTree<HudShape<S>, R> {
        self.tree
    }

    pub fn new() -> (hud: Self)
        ensures
            hud.widgets().added().len() == 0,
            hud.widgets().places().len() == 0,
    {
        Hud { tree: UiTree::new() }
    }

    pub fn tree(&self) -> (tree: &UiTree<HudShape<S>, R>)
        ensures
            *tree == self.widgets(),
    {
        &self.tree
    }

    /// Fills the display anew. `info` is the measured size of the panel with numbers, and `help` that
    /// of the panel with help if it is open.
    pub fn build(&mut self, info: S, help: Option<S>)
        ensures
            final(self).widgets().added() == hud_widgets(info, help),
            final(self).widgets().places().len() == 0,
    {
        self.tree.clear();
        self.tree.add(
            Widget::new(
                UiId(HUD_CROSSHAIR_H),
                Anchor::Center,
                HudShape::Bar { width: CROSSHAIR_LENGTH, height: CROSSHAIR_THICKNESS },
            ),
        );
        self.tree.add(
            Widget::new(
                UiId(HUD_CROSSHAIR_V),
                Anchor::Center,
                HudShape::Bar { width: CROSSHAIR_THICKNESS, height: CROSSHAIR_LENGTH },
            ),
        );
        self.tree.add(
            Widget::new(
                UiId(HUD_PANEL),
                Anchor::TopLeft,
                HudShape::Panel { size: info, x: HUD_MARGIN, y: HUD_MARGIN },
            ),
        );
        if let Some(size) = help {
            self.tree.add(
                Widget::new(UiId(HUD_HELP), Anchor::Center, HudShape::Panel { size, x: 0, y: 0 }),
            );
        }
        assert(self.widgets().added() =~= hud_widgets(info, help));
    }

    /// Says where the widgets are.
    pub fn place(&mut self, rects: &[R])
        requires
            rects@.len() == old(self).widgets().added().len(),
        ensures
            final(self).widgets().added() == old(self).widgets().added(),
            final(self).widgets().places() == paired(old(self).widgets().added(), rects@),
    {
        self.tree.layout(rects);
    }

    /// What is drawn, from the bottom up.
    pub fn parts(&self, open: bool) -> (parts: Vec<HudPart<R>>)
        ensures
            parts@ == hud_parts(self.widgets().places(), open),
    {
        let mut parts: Vec<HudPart<R>> = Vec::new();
        push_bar(&mut parts, self.tree.rect_of(UiId(HUD_CROSSHAIR_H)));
        push_bar(&mut parts, self.tree.rect_of(UiId(HUD_CROSSHAIR_V)));
        push_panel(&mut parts, self.tree.rect_of(UiId(HUD_PANEL)), false);
        if open {
            push_panel(&mut parts, self.tree.rect_of(UiId(HUD_HELP)), true);
        }
        assert(parts@ =~= hud_parts(self.widgets().places(), open));
        parts
    }
}

/// Where the open panel lies over the crosshair, it is the panel that is hit.
pub proof fn the_open_panel_covers_the_crosshair<S, R>(info: S, help: S, rects: Seq<R>, inside: Seq<bool>)
    requires
        rects.len() == 4,
        inside.len() == 4,
        inside[3],
    ensures
        topmost(paired(hud_widgets(info, Some(help)), rects), inside) == Some(UiId(HUD_HELP)),
{
    the_later_widget_wins(paired(hud_widgets(info, Some(help)), rects), inside, 3);
}

/// The help, line by line.
pub fn help_lines() -> (lines: [&'static str; 3])
    ensures
        lines@[0]@ == "WASD 移动 / Space 上升 / Ctrl 下降"@,
        lines@[1]@ == "Shift 加速 / 左键破坏 / 右键放置"@,
        lines@[2]@ == "Tab 开关面板 / Esc 退出 / 鼠标转向"@,
{
    [
        "WASD 移动 / Space 上升 / Ctrl 下降",
        "Shift 加速 / 左键破坏 / 右键放置",
        "Tab 开关面板 / Esc 退出 / 鼠标转向",
    ]
}

fn counted(label: &str, n: usize) -> (line: String)
    ensures
        line@ == label@ + decimal(n as nat),
{
    let mut line = label.to_owned();
    push_decimal(&mut line, n as u64);
    line
}

/// The lines of whole numbers: chunks on the device, and chunks in the world.
pub fn count_lines(uploaded: usize, chunks: usize) -> (lines: (String, String))
    ensures
        lines.0@ == "GPU 区块 "@ + decimal(uploaded as nat),
        lines.1@ == "世界区块 "@ + decimal(chunks as nat),
{
    (counted("GPU 区块 ", uploaded), counted("世界区块 ", chunks))
}

/// What follows the number of frames in the title.
pub fn title_tail(uploaded: usize, chunks: usize, streamed: usize) -> (tail: String)
    ensures
        tail@ == " fps | GPU 区块 "@ + decimal(uploaded as nat) + " | 世界 "@ + decimal(chunks as nat)
            + " | 流式 "@ + decimal(streamed as nat),
{
    let mut tail = counted(" fps | GPU 区块 ", uploaded);
    tail.append(" | 世界 ");
    push_decimal(&mut tail, chunks as u64);
    tail.append(" | 流式 ");
    push_decimal(&mut tail, streamed as u64);
    tail
}

/// Frames over a stretch of time.
#[derive(Debug, Clone, Copy, PartialEq, Eq, Structural)]
pub struct Report {
    pub frames: u32,
    /// Length of the stretch, in nanoseconds.
    pub since: u64,
}

/// Counts frames, and reports once a second.
#[derive(Debug, Clone, Copy, PartialEq, Eq, Structural)]
pub struct FrameCounter {
    pub frames: u32,
    /// When the last report was, in nanoseconds.
    pub last_report: u64,
}

/// Time since a moment; none if the moment is still to come.
pub open spec fn elapsed_since(now: int, then: int) -> int {
    if now < then {
        0
    } else {
        now - then
    }
}

impl FrameCounter {
    pub fn new() -> (counter: Self)
        ensures
            counter == (FrameCounter { frames: 0, last_report: 0 }),
    {
        FrameCounter { frames: 0, last_report: 0 }
    }

    /// One more frame. Returns whether it is the first since the last report.
    pub fn count(&mut self) -> (first: bool)
        requires
            old(self).frames < u32::MAX,
        ensures
            *final(self) == (FrameCounter { frames: (old(self).frames + 1) as u32, ..*old(self) }),
            first == (old(self).frames == 0),
    {
        self.frames = self.frames + 1;
        self.frames <= 1
    }

    /// The report, if it is time for one; counting then starts over.
    pub fn report(&mut self, elapsed: u64) -> (report: Option<Report>)
        ensures
            ({
                let since = elapsed_since(elapsed as int, old(self).last_report as int);
                if since < REPORT_INTERVAL {
                    report is None && *final(self) == *old(self)
                } else {
                    &&& report == Some(Report { frames: old(self).frames, since: since as u64 })
                    &&& *final(self) == (FrameCounter { frames: 0, last_report: elapsed })
                }
            }),
    {
        let since: u64 = if elapsed < self.last_report {
            0
        } else {
            elapsed - self.last_report
        };
        if since < REPORT_INTERVAL {
            return None;
        }
        let report = Report { frames: self.frames, since };
        self.frames = 0;
        self.last_report = elapsed;
        Some(report)
    }
}

/// The crosshair is two bars across each other in the middle, one lying and one standing; the panel with
/// numbers stands in the corner above it, and the one with help, which is there only if it is open, on top of
/// all.
pub proof fn the_display_is_built_from_the_bottom_up<S>(info: S, help: Option<S>)
    ensures
        ({
            let widgets = hud_widgets(info, help);
            &&& widgets.len() == (if help is Some {
                4int
            } else {
                3
            })
            &&& widgets[0].anchor == Anchor::Center && widgets[1].anchor == Anchor::Center
            &&& widgets[0].shape matches HudShape::Bar { width, height } && width > height && (
            widgets[1].shape matches HudShape::Bar { width: w, height: h } && w == height && h == width)
            &&& widgets[2].id == UiId(HUD_PANEL) && widgets[2].anchor == Anchor::TopLeft
            &&& widgets[2].shape matches HudShape::Panel { size, x, y } && size == info && x == y && x > 0
            &&& help matches Some(help) ==> (widgets[3].id == UiId(HUD_HELP) && widgets[3].anchor == Anchor::Center
                && widgets[3].shape == (HudShape::Panel { size: help, x: 0, y: 0 }))
            &&& forall|i: int| 0 <= i < widgets.len() ==> !(#[trigger] widgets[i]).overlay
        }),
{
}

/// The help is drawn only while the panel is open, and last; every text lies right on the color of its panel.
pub proof fn texts_lie_on_their_panels<R>(placed: Seq<Placed<R>>, open: bool, i: int)
    requires
        0 <= i < hud_parts(placed, open).len(),
    ensures
        hud_parts(placed, open)[i] is Help ==> open && i == hud_parts(placed, open).len() - 1,
        hud_parts(placed, open)[i] matches HudPart::Numbers(rect) ==> i > 0 && (hud_parts(placed, open)[i
            - 1] matches HudPart::Fill(quad) && quad.rect == rect),
        hud_parts(placed, open)[i] matches HudPart::Help(rect) ==> i > 0 && (hud_parts(placed, open)[i
            - 1] matches HudPart::Fill(quad) && quad.rect == rect),
{
    let a = bar_parts(rect_for(placed, UiId(HUD_CROSSHAIR_H)));
    let b = bar_parts(rect_for(placed, UiId(HUD_CROSSHAIR_V)));
    let c = panel_parts(rect_for(placed, UiId(HUD_PANEL)), false);
    let d = if open {
        panel_parts(rect_for(placed, UiId(HUD_HELP)), true)
    } else {
        seq![]
    };
    let all = hud_parts(placed, open);
    assert(all == a + b + c + d);
    if i < a.len() {
        assert(all[i] == a[i]);
    } else if i < a.len() + b.len() {
        assert(all[i] == b[i - a.len()]);
    } else if i < a.len() + b.len() + c.len() {
        let k = i - a.len() - b.len();
        assert(all[i] == c[k]);
        if k > 0 {
            assert(all[i - 1] == c[k - 1]);
        }
    } else {
        let k = i - a.len() - b.len() - c.len();
        assert(all[i] == d[k]);
        if k > 0 {
            assert(all[i - 1] == d[k - 1]);
        }
    }
}

/// Whatever of the display is placed is drawn: the bars of the crosshair, the panel with numbers, and the one with
/// help while it is open.
pub proof fn what_is_placed_is_drawn<R>(placed: Seq<Placed<R>>, open: bool)
    ensures
        rect_for(placed, UiId(HUD_CROSSHAIR_H)) matches Some(rect) ==> hud_parts(placed, open).contains(
            HudPart::Fill(Quad { rect, color: CROSSHAIR_COLOR, source: QuadSource::Solid }),
        ),
        rect_for(placed, UiId(HUD_CROSSHAIR_V)) matches Some(rect) ==> hud_parts(placed, open).contains(
            HudPart::Fill(Quad { rect, color: CROSSHAIR_COLOR, source: QuadSource::Solid }),
        ),
        rect_for(placed, UiId(HUD_PANEL)) matches Some(rect) ==> hud_parts(placed, open).contains(HudPart::Numbers(rect)),
        rect_for(placed, UiId(HUD_HELP)) matches Some(rect) ==> (open ==> hud_parts(placed, open).contains(
            HudPart::Help(rect),
        )),
{
    let a = bar_parts(rect_for(placed, UiId(HUD_CROSSHAIR_H)));
    let b = bar_parts(rect_for(placed, UiId(HUD_CROSSHAIR_V)));
    let c = panel_parts(rect_for(placed, UiId(HUD_PANEL)), false);
    let d = if open {
        panel_parts(rect_for(placed, UiId(HUD_HELP)), true)
    } else {
        seq![]
    };
    let all = hud_parts(placed, open);
    assert(all == a + b + c + d);
    let (n, m, k) = (a.len() as int, (a.len() + b.len()) as int, (a.len() + b.len() + c.len()) as int);
    if a.len() > 0 {
        assert(all[0] == a[0]);
    }
    if b.len() > 0 {
        assert(all[n] == b[0]);
    }
    if c.len() > 0 {
        assert(all[m + 1] == c[1]);
    }
    if d.len() > 0 {
        assert(all[k + 1] == d[1]);
    }
}

} // verus!
