//! The texture of the blocks: one tile per base color, eight to a row, with a little grain.
//!
//! The grain is a hash and no random number: the same tile always looks the same.

use vstd::prelude::*;

verus! {

/// Width and height of a tile, in pixels.
pub const TILE_SIZE: u32 = 16;

/// Number of tiles in a row.
pub const COLUMNS: u32 = 8;

/// The hash of a pixel of a tile.
pub open spec fn grain(tile: u32, x: u32, y: u32) -> u32 {
    let a = tile.wrapping_mul(0x9E37_79B9).wrapping_add(x.wrapping_mul(0x85EB_CA6B)).wrapping_add(
        y.wrapping_mul(0xC2B2_AE35),
    );
    let b = (a ^ (a >> 15)).wrapping_mul(0x2545_F491);
    b ^ (b >> 13)
}

/// How bright a pixel of a tile is, in thousandths of the base color.
pub open spec fn brightness(tile: u32, x: u32, y: u32) -> int {
    820 + (grain(tile, x, y) & 0xFF) * 360 / 255
}

/// A pixel is neither much darker nor much lighter than the base color.
pub proof fn grain_stays_in_range(tile: u32, x: u32, y: u32)
    ensures
        820 <= brightness(tile, x, y) <= 1180,
{
    let h = grain(tile, x, y);
    assert(h & 0xFF <= 255) by (bit_vector);
}

/// How bright a pixel of a tile is, in thousandths of the base color.
pub fn pixel_noise(tile: u32, x: u32, y: u32) -> (permille: u32)
    ensures
        permille == brightness(tile, x, y),
        820 <= permille <= 1180,
{
    let a: u32 = tile.wrapping_mul(0x9E37_79B9).wrapping_add(x.wrapping_mul(0x85EB_CA6B)).wrapping_add(
        y.wrapping_mul(0xC2B2_AE35),
    );
    let b: u32 = (a ^ (a >> 15)).wrapping_mul(0x2545_F491);
    let h: u32 = b ^ (b >> 13);
    assert(h & 0xFF <= 255) by (bit_vector);
    820 + (h & 0xFF) * 360 / 255
}

/// Number of rows that the tiles take: at least one.
pub open spec fn rows_for(tiles: int) -> int {
    if tiles <= 0 {
        1
    } else {
        (tiles + 7) / 8
    }
}

/// The texture: four bytes for each pixel, row by row.
#[derive(Debug, PartialEq, Eq)]
pub struct AtlasImage {
    pub columns: u32,
    pub rows: u32,
    /// Width in pixels.
    pub width: u32,
    /// Height in pixels.
    pub height: u32,
    pub pixels: Vec<u8>,
}

/// The tile that a pixel belongs to.
pub open spec fn tile_at(x: int, y: int) -> int {
    y / 16 * 8 + x / 16
}

/// Whether a byte of the texture is right: the shaded base color of its tile, opaque; black and clear
/// where there is no tile.
pub open spec fn byte_is_right<F: Fn(u8, u32) -> u8>(tiles: Seq<[u8; 3]>, shade: F, at: int, byte: u8) -> bool {
    let x = at / 4 % 128;
    let y = at / 4 / 128;
    let tile = tile_at(x, y);
    if tile >= tiles.len() {
        byte == 0
    } else if at % 4 == 3 {
        byte == 255
    } else {
        call_ensures(
            shade,
            (
                tiles[tile]@[at % 4],
                brightness(tile as u32, (x % 16) as u32, (y % 16) as u32) as u32,
            ),
            byte,
        )
    }
}

/// Draws the texture. `shade` scales a channel of a base color by thousandths.
pub fn atlas_image<F: Fn(u8, u32) -> u8>(tiles: &[[u8; 3]], shade: F) -> (image: AtlasImage)
    requires
        rows_for(tiles@.len() as int) * 8192 <= u32::MAX,
        forall|channel: u8, permille: u32|
            820 <= permille <= 1180 ==> #[trigger] call_requires(shade, (channel, permille)),
    ensures
        image.columns == COLUMNS,
        image.rows == rows_for(tiles@.len() as int),
        image.width == COLUMNS * TILE_SIZE,
        image.height == image.rows * TILE_SIZE,
        image.pixels@.len() == image.width * image.height * 4,
        forall|at: int|
            0 <= at < image.pixels@.len() ==> byte_is_right(
                tiles@,
                shade,
                at,
                #[trigger] image.pixels@[at],
            ),
{
    let count: u32 = tiles.len() as u32;
    let rows: u32 = if count == 0 {
        1
    } else {
        (count + 7) / 8
    };
    let width: u32 = 128;
    let height: u32 = rows * 16;
    let total: u32 = width * height;
    let mut pixels: Vec<u8> = Vec::new();
    let mut q: u32 = 0;
    while q < total
        invariant
            q <= total,
            total * 4 <= u32::MAX,
            count == tiles@.len(),
            forall|channel: u8, permille: u32|
                820 <= permille <= 1180 ==> #[trigger] call_requires(shade, (channel, permille)),
            pixels@.len() == q * 4,
            forall|at: int|
                0 <= at < pixels@.len() ==> byte_is_right(tiles@, shade, at, #[trigger] pixels@[at]),
        decreases total - q,
    {
        let x: u32 = q % 128;
        let y: u32 = q / 128;
        let tile: u32 = y / 16 * 8 + x / 16;
        let ghost before = pixels@;
        if tile < count {
            let base = tiles[tile as usize];
            let permille: u32 = pixel_noise(tile, x % 16, y % 16);
            pixels.push(shade(base[0], permille));
            pixels.push(shade(base[1], permille));
            pixels.push(shade(base[2], permille));
            pixels.push(255);
        } else {
            pixels.push(0);
            pixels.push(0);
            pixels.push(0);
            pixels.push(0);
        }
        assert forall|at: int| 0 <= at < pixels@.len() implies byte_is_right(
            tiles@,
            shade,
            at,
            #[trigger] pixels@[at],
        ) by {
            if at < before.len() {
                assert(pixels@[at] == before[at]);
            } else {
                assert(at / 4 == q);
                assert(at % 4 == at - q * 4);
            }
        }
        q += 1;
    }
    AtlasImage { columns: COLUMNS, rows, width, height, pixels }
}

/// A tile fills its cell of the grid and nothing else.
pub proof fn a_tile_fills_its_cell(tile: int, x: int, y: int)
    requires
        0 <= x < 128,
        0 <= y,
        0 <= tile,
    ensures
        tile_at(x, y) == tile <==> {
            &&& tile % 8 * 16 <= x < tile % 8 * 16 + 16
            &&& tile / 8 * 16 <= y < tile / 8 * 16 + 16
        },
{
}

/// There are just enough rows of tiles.
pub proof fn rows_hold_the_tiles(tiles: int)
    ensures
        rows_for(tiles) >= 1,
        rows_for(tiles) * 8 >= tiles,
        rows_for(tiles) > 1 ==> (rows_for(tiles) - 1) * 8 < tiles,
{
}

/// The number that a pixel's hash was made from: its steps, undone from the last to the first.
pub open spec fn ungrained(hash: u32) -> u32 {
    let b = (hash ^ (hash >> 13) ^ (hash >> 26)).wrapping_mul(0x4144_4C71);
    b ^ (b >> 15) ^ (b >> 30)
}

proof fn product_is_undone(x: u32)
    ensures
        x.wrapping_mul(0x2545_F491).wrapping_mul(0x4144_4C71) == x,
{
    let (p, c, d) = (x as int, 0x2545_F491int, 0x4144_4C71int);
    let m: int = 0x1_0000_0000;
    vstd::arithmetic::div_mod::lemma_mul_mod_noop_left(p * c, d, m);
    assert((p * c) * d == p * (c * d)) by (nonlinear_arith);
    vstd::arithmetic::div_mod::lemma_mul_mod_noop_right(p, c * d, m);
    vstd::arithmetic::div_mod::lemma_small_mod(p as nat, m as nat);
}

proof fn sum_wraps(i: int, j: int, k: int, t: u32, u: u32, v: u32)
    requires
        t == i % 0x1_0000_0000,
        u == j % 0x1_0000_0000,
        v == k % 0x1_0000_0000,
    ensures
        t.wrapping_add(u).wrapping_add(v) == (i + j + k) % 0x1_0000_0000,
{
}

proof fn steps_are_undone(a: u32)
    ensures
        ({
            let b = (a ^ (a >> 15)).wrapping_mul(0x2545_F491);
            ungrained(b ^ (b >> 13)) == a
        }),
{
    let a1 = a ^ (a >> 15);
    let b = a1.wrapping_mul(0x2545_F491);
    let b1 = b ^ (b >> 13);
    assert(b1 ^ (b1 >> 13) ^ (b1 >> 26) == b) by (bit_vector)
        requires
            b1 == b ^ (b >> 13),
    ;
    product_is_undone(a1);
    assert(a1 ^ (a1 >> 15) ^ (a1 >> 30) == a) by (bit_vector)
        requires
            a1 == a ^ (a >> 15),
    ;
}

/// The hash of a pixel can be undone: it comes from one number, to which tile, column and row each add a
/// multiple of their own.
pub proof fn a_hash_comes_from_its_pixel(tile: u32, x: u32, y: u32)
    ensures
        ungrained(grain(tile, x, y)) == (tile * 0x9E37_79B9 + x * 0x85EB_CA6B + y * 0xC2B2_AE35) % 0x1_0000_0000,
{
    let (t, u, v) = (
        tile.wrapping_mul(0x9E37_79B9),
        x.wrapping_mul(0x85EB_CA6B),
        y.wrapping_mul(0xC2B2_AE35),
    );
    steps_are_undone(t.wrapping_add(u).wrapping_add(v));
    sum_wraps(tile * 0x9E37_79B9, x * 0x85EB_CA6B, y * 0xC2B2_AE35, t, u, v);
}

/// Brightness goes with the lowest byte of the hash: from the darkest at none to the lightest at all of it, in
/// even steps.
pub proof fn brightness_goes_with_the_lowest_byte(tile: u32, x: u32, y: u32)
    ensures
        ({
            let byte = grain(tile, x, y) % 256;
            let over = brightness(tile, x, y) - 820;
            &&& over * 255 <= byte * 360 < (over + 1) * 255
            &&& byte == 0 ==> over == 0
            &&& byte == 255 ==> over == 360
        }),
{
    let g = grain(tile, x, y);
    assert(g & 0xFF == g % 256) by (bit_vector);
}

} // verus!
