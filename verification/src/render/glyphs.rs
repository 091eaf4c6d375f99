//! The texture of the glyphs, and the triangles that quads are drawn as.
//!
//! The texture is a grid of cells, and a cell holds one glyph. The first cell is not for glyphs: it
//! holds an opaque pixel for quads that are of one color all over. Positions in the texture are
//! counted in halves of a pixel, so that the middle of a pixel is a whole number.

use crate::ui::draw::{GlyphKey, Quad, QuadSource};
use crate::ui::text::GlyphBitmap;
use std::collections::HashMap;
use vstd::arithmetic::power2::pow2;
use vstd::prelude::*;

verus! {

broadcast use vstd::std_specs::hash::group_hash_axioms;

/// Width and height of a cell, in pixels.
pub const CELL: u32 = 64;

/// Number of cells in a row.
pub const GLYPH_COLUMNS: u32 = 16;

/// Number of rows of cells.
pub const GLYPH_ROWS: u32 = 16;

/// Width of the texture, in pixels.
pub const WIDTH: u32 = 1024;

/// Height of the texture, in pixels.
pub const HEIGHT: u32 = 1024;

/// Number of glyphs that the texture holds: all cells but the first.
pub const MAX_GLYPHS: u32 = 255;

/// Number of vertices that there is room for at first.
pub const INITIAL_CAPACITY: usize = 1024;

/// Where a glyph is in the texture.
#[derive(Debug, Clone, Copy, PartialEq, Eq, Structural)]
pub struct GlyphSlot {
    pub cell: u32,
    pub width: u32,
    pub height: u32,
}

/// The upper left pixel of a cell.
pub open spec fn origin_of(cell: int) -> (int, int) {
    (cell % 16 * 64, cell / 16 * 64)
}

/// The upper left pixel of a cell.
pub fn cell_origin(cell: u32) -> (origin: (u32, u32))
    requires
        origin_of(cell as int).1 <= u32::MAX,
    ensures
        (origin.0 as int, origin.1 as int) == origin_of(cell as int),
{
    ((cell % GLYPH_COLUMNS) * CELL, (cell / GLYPH_COLUMNS) * CELL)
}

/// The cells lie in the texture, side by side.
pub proof fn cells_do_not_overlap(a: int, b: int)
    requires
        0 <= a <= MAX_GLYPHS,
        0 <= b <= MAX_GLYPHS,
        a != b,
    ensures
        origin_of(a).0 + CELL <= WIDTH,
        origin_of(a).1 + CELL <= HEIGHT,
        ({
            let (ax, ay) = origin_of(a);
            let (bx, by) = origin_of(b);
            ax + CELL <= bx || bx + CELL <= ax || ay + CELL <= by || by + CELL <= ay
        }),
{
}

/// The corners of a glyph in the texture, left, top, right and bottom, in halves of a pixel. They lie
/// in the middle of the outermost pixels, so that no other glyph shines through.
pub open spec fn corners_of(slot: GlyphSlot) -> Seq<int> {
    let (x, y) = origin_of(slot.cell as int);
    seq![2 * x + 1, 2 * y + 1, 2 * (x + slot.width) - 1, 2 * (y + slot.height) - 1]
}

/// Whether a glyph was put into a cell that it fits.
pub open spec fn fits_cell(slot: GlyphSlot) -> bool {
    &&& 1 <= slot.cell <= MAX_GLYPHS
    &&& 1 <= slot.width <= CELL
    &&& 1 <= slot.height <= CELL
}

/// The corners of a glyph in the texture.
pub fn uv_rect(slot: GlyphSlot) -> (uv: [u32; 4])
    requires
        fits_cell(slot),
    ensures
        forall|i: int| 0 <= i < 4 ==> #[trigger] uv@[i] == corners_of(slot)[i],
{
    let (x, y) = cell_origin(slot.cell);
    [2 * x + 1, 2 * y + 1, 2 * (x + slot.width) - 1, 2 * (y + slot.height) - 1]
}

/// The corners of a glyph lie strictly inside its own cell.
pub proof fn a_glyph_stays_inside_its_cell(slot: GlyphSlot)
    requires
        fits_cell(slot),
    ensures
        ({
            let (x, y) = origin_of(slot.cell as int);
            let uv = corners_of(slot);
            &&& 2 * x < uv[0] <= uv[2] < 2 * (x + CELL)
            &&& 2 * y < uv[1] <= uv[3] < 2 * (y + CELL)
        }),
{
}

/// The corners of a quad of one color: four times the middle of the opaque pixel.
pub fn solid_uv() -> (uv: [u32; 4])
    ensures
        uv@ == seq![1u32, 1, 1, 1],
{
    let uv: [u32; 4] = [1, 1, 1, 1];
    assert(uv@ =~= seq![1u32, 1, 1, 1]);
    uv
}

/// What became of a glyph.
#[derive(Debug, Clone, Copy, PartialEq, Eq, Structural)]
pub enum Upload {
    /// There is nothing to see of it.
    Empty,
    /// It does not fit a cell.
    TooLarge,
    /// It is in the texture already.
    Known,
    /// There is no cell left.
    Full,
    /// It goes to this cell.
    Write(GlyphSlot),
}

/// What is in the texture: where each glyph is, and the next cell.
#[verifier::ext_equal]
pub struct Shelf {
    pub slots: Map<GlyphKey, GlyphSlot>,
    pub next: int,
}

/// What becomes of a glyph, by what is in the texture.
pub open spec fn upload_of(shelf: Shelf, key: GlyphKey, width: u32, height: u32) -> Upload {
    if width == 0 || height == 0 {
        Upload::Empty
    } else if width > CELL || height > CELL {
        Upload::TooLarge
    } else if shelf.slots.contains_key(key) {
        Upload::Known
    } else if shelf.next > MAX_GLYPHS {
        Upload::Full
    } else {
        Upload::Write(GlyphSlot { cell: shelf.next as u32, width, height })
    }
}

/// What is in the texture after a glyph was dealt with.
pub open spec fn shelf_with(shelf: Shelf, key: GlyphKey, upload: Upload) -> Shelf {
    match upload {
        Upload::Write(slot) => Shelf { slots: shelf.slots.insert(key, slot), next: shelf.next + 1 },
        _ => shelf,
    }
}

/// What is in the texture after the first `n` glyphs.
pub open spec fn shelf_after<O>(shelf: Shelf, glyphs: Seq<GlyphBitmap<O>>, n: int) -> Shelf
    decreases n,
{
    if n <= 0 {
        shelf
    } else {
        let before = shelf_after(shelf, glyphs, n - 1);
        let glyph = glyphs[n - 1];
        shelf_with(before, glyph.key, upload_of(before, glyph.key, glyph.width, glyph.height))
    }
}

/// What becomes of each glyph.
pub open spec fn uploads_of<O>(shelf: Shelf, glyphs: Seq<GlyphBitmap<O>>) -> Seq<Upload> {
    Seq::new(
        glyphs.len(),
        |i: int|
            {
                let before = shelf_after(shelf, glyphs, i);
                upload_of(before, glyphs[i].key, glyphs[i].width, glyphs[i].height)
            },
    )
}

/// Every glyph is in a cell of its own that was given out, and fits it.
pub open spec fn shelf_is_sound(shelf: Shelf) -> bool {
    &&& 1 <= shelf.next <= MAX_GLYPHS + 1
    &&& forall|key: GlyphKey| #[trigger]
        shelf.slots.contains_key(key) ==> fits_cell(shelf.slots[key]) && shelf.slots[key].cell
            < shelf.next
    &&& forall|a: GlyphKey, b: GlyphKey| #[trigger]
        shelf.slots.contains_key(a) && #[trigger] shelf.slots.contains_key(b) && a != b
            ==> shelf.slots[a].cell != shelf.slots[b].cell
}

/// Uploading keeps every glyph in a cell of its own, and moves none that is there.
pub proof fn uploading_moves_no_glyph<O>(shelf: Shelf, glyphs: Seq<GlyphBitmap<O>>, n: int)
    requires
        shelf_is_sound(shelf),
        0 <= n <= glyphs.len(),
    ensures
        shelf_is_sound(shelf_after(shelf, glyphs, n)),
        forall|key: GlyphKey| #[trigger]
            shelf.slots.contains_key(key) ==> shelf_after(shelf, glyphs, n).slots.contains_key(key)
                && shelf_after(shelf, glyphs, n).slots[key] == shelf.slots[key],
        shelf.next <= shelf_after(shelf, glyphs, n).next,
    decreases n,
{
    if n > 0 {
        uploading_moves_no_glyph(shelf, glyphs, n - 1);
    }
}

/// The number that a glyph is filed under.
spec fn number(key: GlyphKey) -> int {
    key.glyph * 0x1_0000 + key.size_px
}

fn number_for(key: GlyphKey) -> (n: u32)
    ensures
        n == number(key),
{
    key.glyph as u32 * 0x1_0000 + key.size_px as u32
}

proof fn number_is_injective(a: GlyphKey, b: GlyphKey)
    requires
        number(a) == number(b),
    ensures
        a == b,
{
}

/// Which glyphs are in the texture, and where. Glyphs are added and never taken out: the texts of a
/// user interface are made of a limited number of them.
#[derive(Debug)]
pub struct GlyphAtlas {
    slots: HashMap<u32, GlyphSlot>,
    next: u32,
}

impl View for GlyphAtlas {
    type V = Shelf;

    closed spec fn view(&self) -> Shelf {
        Shelf {
            slots: Map::new(
                |key: GlyphKey| self.slots@.contains_key(number(key) as u32),
                |key: GlyphKey| self.slots@[number(key) as u32],
            ),
            next: self.next as int,
        }
    }
}

impl GlyphAtlas {
    pub fn new() -> (atlas: Self)
        ensures
            atlas@ == (Shelf { slots: Map::empty(), next: 1 }),
            shelf_is_sound(atlas@),
    {
        let atlas = GlyphAtlas { slots: HashMap::new(), next: 1 };
        assert(atlas@.slots =~= Map::<GlyphKey, GlyphSlot>::empty());
        atlas
    }

    fn take(&mut self, key: GlyphKey, width: u32, height: u32) -> (upload: Upload)
        requires
            shelf_is_sound(old(self)@),
        ensures
            upload == upload_of(old(self)@, key, width, height),
            final(self)@ == shelf_with(old(self)@, key, upload),
    {
        if width == 0 || height == 0 {
            return Upload::Empty;
        }
        if width > CELL || height > CELL {
            return Upload::TooLarge;
        }
        let number_of_key = number_for(key);
        if self.slots.contains_key(&number_of_key) {
            return Upload::Known;
        }
        if self.next > MAX_GLYPHS {
            return Upload::Full;
        }
        let slot = GlyphSlot { cell: self.next, width, height };
        self.next = self.next + 1;
        self.slots.insert(number_of_key, slot);
        proof {
            let expected = old(self)@.slots.insert(key, slot);
            assert forall|other: GlyphKey| #[trigger] self@.slots.contains_key(other)
                == expected.contains_key(other) && (expected.contains_key(other) ==> self@.slots[other]
                == expected[other]) by {
                if number(other) == number(key) {
                    number_is_injective(other, key);
                }
            }
            assert(self@.slots =~= expected);
        }
        Upload::Write(slot)
    }

    /// Finds cells for glyphs. The answer says of each what became of it, and where it has to be
    /// written.
    pub fn upload<O>(&mut self, glyphs: &[GlyphBitmap<O>]) -> (uploads: Vec<Upload>)
        requires
            shelf_is_sound(old(self)@),
        ensures
            uploads@ == uploads_of(old(self)@, glyphs@),
            final(self)@ == shelf_after(old(self)@, glyphs@, glyphs@.len() as int),
            shelf_is_sound(final(self)@),
    {
        let ghost shelf = self@;
        let mut uploads: Vec<Upload> = Vec::new();
        let mut i: usize = 0;
        while i < glyphs.len()
            invariant
                i <= glyphs@.len(),
                shelf_is_sound(shelf),
                self@ == shelf_after(shelf, glyphs@, i as int),
                uploads@ == uploads_of(shelf, glyphs@).take(i as int),
            decreases glyphs@.len() - i,
        {
            proof {
                uploading_moves_no_glyph(shelf, glyphs@, i as int);
            }
            let upload = self.take(glyphs[i].key, glyphs[i].width, glyphs[i].height);
            uploads.push(upload);
            assert(uploads@ =~= uploads_of(shelf, glyphs@).take(i + 1));
            i += 1;
        }
        proof {
            uploading_moves_no_glyph(shelf, glyphs@, i as int);
            assert(uploads_of(shelf, glyphs@).take(i as int) =~= uploads_of(shelf, glyphs@));
        }
        uploads
    }

    /// The corners of a glyph in the texture; none if it is not there.
    pub fn uv(&self, key: GlyphKey) -> (uv: Option<[u32; 4]>)
        requires
            shelf_is_sound(self@),
        ensures
            uv is Some == self@.slots.contains_key(key),
            uv matches Some(uv) ==> forall|i: int|
                0 <= i < 4 ==> #[trigger] uv@[i] == corners_of(self@.slots[key])[i],
    {
        match self.slots.get(&number_for(key)) {
            Some(slot) => {
                assert(self@.slots.contains_key(key));
                Some(uv_rect(*slot))
            },
            None => None,
        }
    }
}

/// A corner of a triangle: a corner of a quad, and the position in the texture.
#[derive(Debug, Clone, Copy, PartialEq, Eq, Structural)]
pub struct UiCorner {
    /// Which quad, by its place among those to be drawn.
    pub quad: usize,
    pub right: bool,
    pub bottom: bool,
    pub u: u32,
    pub v: u32,
}

/// The corners of a quad in the texture; none if it is a glyph that is not there.
pub open spec fn quad_corners(shelf: Shelf, source: QuadSource) -> Option<Seq<int>> {
    match source {
        QuadSource::Solid => Some(seq![1, 1, 1, 1]),
        QuadSource::Glyph(key) => if shelf.slots.contains_key(key) {
            Some(corners_of(shelf.slots[key]))
        } else {
            None
        },
    }
}

/// A corner of a quad. The texture has its top where the quad has.
pub open spec fn corner(quad: int, uv: Seq<int>, right: bool, bottom: bool) -> UiCorner {
    UiCorner {
        quad: quad as usize,
        right,
        bottom,
        u: (if right { uv[2] } else { uv[0] }) as u32,
        v: (if bottom { uv[3] } else { uv[1] }) as u32,
    }
}

/// A quad as two triangles.
pub open spec fn triangles(quad: int, uv: Seq<int>) -> Seq<UiCorner> {
    seq![
        corner(quad, uv, false, true),
        corner(quad, uv, false, false),
        corner(quad, uv, true, false),
        corner(quad, uv, false, true),
        corner(quad, uv, true, false),
        corner(quad, uv, true, true),
    ]
}

/// The first `n` quads as triangles. Glyphs that are not in the texture are left out.
pub open spec fn drawn<R>(shelf: Shelf, quads: Seq<Quad<R>>, n: int) -> Seq<UiCorner>
    decreases n,
{
    if n <= 0 {
        seq![]
    } else {
        let before = drawn(shelf, quads, n - 1);
        match quad_corners(shelf, quads[n - 1].source) {
            Some(uv) => before + triangles(n - 1, uv),
            None => before,
        }
    }
}

fn at_corner(quad: usize, uv: &[u32; 4], right: bool, bottom: bool) -> (result: UiCorner)
    ensures
        result == corner(quad as int, uv@.map_values(|x: u32| x as int), right, bottom),
{
    UiCorner {
        quad,
        right,
        bottom,
        u: if right {
            uv[2]
        } else {
            uv[0]
        },
        v: if bottom {
            uv[3]
        } else {
            uv[1]
        },
    }
}

/// The quads as triangles, in order.
pub fn ui_corners<R>(atlas: &GlyphAtlas, quads: &[Quad<R>]) -> (corners: Vec<UiCorner>)
    requires
        shelf_is_sound(atlas@),
    ensures
        corners@ == drawn(atlas@, quads@, quads@.len() as int),
{
    let mut corners: Vec<UiCorner> = Vec::new();
    let mut i: usize = 0;
    while i < quads.len()
        invariant
            i <= quads@.len(),
            shelf_is_sound(atlas@),
            corners@ == drawn(atlas@, quads@, i as int),
        decreases quads@.len() - i,
    {
        let uv = match quads[i].source {
            QuadSource::Solid => Some(solid_uv()),
            QuadSource::Glyph(key) => atlas.uv(key),
        };
        let ghost before = corners@;
        if let Some(uv) = uv {
            corners.push(at_corner(i, &uv, false, true));
            corners.push(at_corner(i, &uv, false, false));
            corners.push(at_corner(i, &uv, true, false));
            corners.push(at_corner(i, &uv, false, true));
            corners.push(at_corner(i, &uv, true, false));
            corners.push(at_corner(i, &uv, true, true));
            proof {
                let expected = quad_corners(atlas@, quads@[i as int].source)->0;
                assert(uv@.map_values(|x: u32| x as int) =~= expected);
                assert(corners@ =~= before + triangles(i as int, expected));
            }
        }
        i += 1;
    }
    corners
}

/// Whether there is room for vertices: what there is if that is enough, and otherwise the next power
/// of two.
pub open spec fn is_room_for(capacity: int, needed: int, room: int) -> bool {
    if needed <= capacity {
        room == capacity
    } else {
        &&& needed <= room
        &&& exists|k: nat| room == #[trigger] pow2(k)
        &&& room > 1 ==> room < 2 * needed
    }
}

/// Room for vertices: what there is if it is enough, and otherwise the next power of two.
pub fn ensure_capacity(capacity: usize, needed: usize) -> (room: usize)
    requires
        needed <= 0x8000_0000,
    ensures
        is_room_for(capacity as int, needed as int, room as int),
{
    if needed <= capacity {
        return capacity;
    }
    let mut room: usize = 1;
    let ghost mut k: nat = 0;
    proof {
        vstd::arithmetic::power2::lemma2_to64();
    }
    while room < needed
        invariant
            needed <= 0x8000_0000,
            room == pow2(k),
            room > 1 ==> room < 2 * needed,
            1 <= room,
        decreases 2 * needed - room,
    {
        proof {
            vstd::arithmetic::power2::lemma_pow2_unfold(k + 1);
            k = k + 1;
        }
        room = room * 2;
    }
    room
}

/// Where a corner stands on the screen, for a quad of unit size: to the right and down.
pub open spec fn place_of(p: UiCorner) -> (int, int) {
    (
        if p.right {
            1
        } else {
            0
        },
        if p.bottom {
            1
        } else {
            0
        },
    )
}

/// Twice the area of a triangle on the screen, with the sign of its turn.
pub open spec fn turn(a: (int, int), b: (int, int), c: (int, int)) -> int {
    (b.0 - a.0) * (c.1 - a.1) - (b.1 - a.1) * (c.0 - a.0)
}

/// The two triangles of a quad turn the same way and make up the whole of it, and each corner has the part of
/// the texture that belongs there: its left and top at the left and the top.
pub proof fn a_quad_is_drawn_whole(quad: int, uv: Seq<int>, i: int)
    requires
        0 <= quad <= usize::MAX,
        uv.len() == 4,
        forall|k: int| 0 <= k < 4 ==> 0 <= #[trigger] uv[k] <= u32::MAX,
        0 <= i < 6,
    ensures
        ({
            let t = triangles(quad, uv);
            &&& t.len() == 6
            &&& turn(place_of(t[0]), place_of(t[1]), place_of(t[2])) == 1
            &&& turn(place_of(t[3]), place_of(t[4]), place_of(t[5])) == 1
            &&& t[0] == t[3] && t[2] == t[4] && t[0].right != t[2].right && t[0].bottom != t[2].bottom
            &&& t[1].right != t[5].right && t[1].bottom != t[5].bottom
            &&& t[i].quad == quad
            &&& t[i].u == (if t[i].right {
                uv[2]
            } else {
                uv[0]
            })
            &&& t[i].v == (if t[i].bottom {
                uv[3]
            } else {
                uv[1]
            })
        }),
{
    let _ = (uv[0], uv[1], uv[2], uv[3]);
    assert(turn((0, 1), (0, 0), (1, 0)) == 1 && turn((0, 1), (1, 0), (1, 1)) == 1) by (nonlinear_arith);
}

/// A glyph that can be seen and fits a cell gets one if it has none yet, as long as there is one; one that
/// is there stays where it is.
pub proof fn a_glyph_gets_a_cell_once(shelf: Shelf, key: GlyphKey, width: u32, height: u32)
    requires
        shelf_is_sound(shelf),
        1 <= width <= CELL,
        1 <= height <= CELL,
    ensures
        ({
            let upload = upload_of(shelf, key, width, height);
            let after = shelf_with(shelf, key, upload);
            &&& shelf.slots.contains_key(key) ==> after == shelf && upload is Known
            &&& !shelf.slots.contains_key(key) && shelf.next <= MAX_GLYPHS ==> after.slots.contains_key(key)
                && after.slots[key].cell == shelf.next && after.slots[key].width == width
                && after.slots[key].height == height && upload == Upload::Write(after.slots[key])
            &&& !shelf.slots.contains_key(key) && shelf.next > MAX_GLYPHS ==> after == shelf && upload is Full
        }),
{
}

/// Quads are drawn in their order, and none but those that there are.
pub proof fn quads_are_drawn_in_order<R>(shelf: Shelf, quads: Seq<Quad<R>>, n: int, i: int, j: int)
    requires
        0 <= n <= quads.len() <= usize::MAX,
        0 <= i <= j < drawn(shelf, quads, n).len(),
    ensures
        drawn(shelf, quads, n)[i].quad <= drawn(shelf, quads, n)[j].quad < n,
        quad_corners(shelf, quads[drawn(shelf, quads, n)[j].quad as int].source) is Some,
    decreases n,
{
    if n > 0 {
        let before = drawn(shelf, quads, n - 1);
        if j < before.len() {
            quads_are_drawn_in_order(shelf, quads, n - 1, i, j);
        } else {
            let uv = quad_corners(shelf, quads[n - 1].source)->0;
            assert(drawn(shelf, quads, n)[j] == triangles(n - 1, uv)[j - before.len()]);
            if i < before.len() {
                quads_are_drawn_in_order(shelf, quads, n - 1, i, i);
                assert(drawn(shelf, quads, n)[i] == before[i]);
            } else {
                assert(drawn(shelf, quads, n)[i] == triangles(n - 1, uv)[i - before.len()]);
            }
        }
    }
}

/// What has one color is drawn from the first cell, which is never given to a glyph; a glyph is drawn from its own
/// cell, and not at all if it has none.
pub proof fn plain_quads_have_a_cell_of_their_own(shelf: Shelf, key: GlyphKey)
    requires
        shelf_is_sound(shelf),
    ensures
        quad_corners(shelf, QuadSource::Solid) matches Some(uv) && uv.len() == 4 && forall|k: int|
            0 <= k < 4 ==> 0 < #[trigger] uv[k] < 2 * CELL,
        shelf.slots.contains_key(key) ==> shelf.slots[key].cell != 0 && quad_corners(shelf, QuadSource::Glyph(key))
            == Some(corners_of(shelf.slots[key])),
        !shelf.slots.contains_key(key) ==> quad_corners(shelf, QuadSource::Glyph(key)) is None,
{
}

/// A glyph is drawn from as much of the texture as its image takes: the corners lie half a pixel inside the image,
/// whose upper left pixel is that of the cell.
pub proof fn a_glyph_is_drawn_from_its_image(slot: GlyphSlot)
    ensures
        ({
            let uv = corners_of(slot);
            let (x, y) = origin_of(slot.cell as int);
            &&& uv.len() == 4
            &&& uv[0] == 2 * x + 1 && uv[1] == 2 * y + 1
            &&& uv[2] - uv[0] == 2 * (slot.width - 1)
            &&& uv[3] - uv[1] == 2 * (slot.height - 1)
        }),
{
}

/// Cells go row by row: the next one is to the right of the last, or begins the next row.
pub proof fn cells_go_row_by_row(cell: int)
    requires
        0 <= cell,
    ensures
        origin_of(0) == (0int, 0int),
        cell % 16 < 15 ==> origin_of(cell + 1) == (origin_of(cell).0 + 64, origin_of(cell).1),
        cell % 16 == 15 ==> origin_of(cell + 1) == (0int, origin_of(cell).1 + 64),
{
}

} // verus!
