//! The floating island: which material fills which cell, and the hash behind the noise.
//!
//! Generation is a pure function: the same seed, position and palette give the same chunk. The
//! density itself is a field of real numbers; what is decided here starts from its sign, taken
//! for the chunk and a few layers above it.

use crate::world::block::{BlockId, BlockPalette};
use crate::world::chunk::{
    block_index, count_non_air, in_chunk, layout_is_in_range, layout_is_injective,
    zero_count_means_air, Chunk, ChunkPos, CHUNK_SIZE,
};
use vstd::prelude::*;

verus! {

/// Lowest chunk layer of the island.
pub const ISLAND_MIN_CHUNK_Y: i32 = -2;

/// Highest chunk layer of the island.
pub const ISLAND_MAX_CHUNK_Y: i32 = 2;

/// How many blocks below the surface are dirt.
pub const DIRT_DEPTH: usize = 4;

/// Layers of the density field: those of the chunk and [`DIRT_DEPTH`] above it.
pub const DENSITY_LAYERS: usize = 36;

/// Number of cells of the density field.
pub const DENSITY_VOLUME: usize = 36864;

/// The mixing step of splitmix64.
pub open spec fn mixed(value: u64) -> u64 {
    let a = value.wrapping_add(0x9E37_79B9_7F4A_7C15);
    let b = (a ^ (a >> 30u64)).wrapping_mul(0xBF58_476D_1CE4_E5B9);
    let c = (b ^ (b >> 27u64)).wrapping_mul(0x94D0_49BB_1331_11EB);
    c ^ (c >> 31u64)
}

/// Scatters regular numbers: the mixing step of splitmix64.
pub fn mix64(value: u64) -> (result: u64)
    ensures
        result == mixed(value),
{
    let a: u64 = value.wrapping_add(0x9E37_79B9_7F4A_7C15);
    let b: u64 = (a ^ (a >> 30u64)).wrapping_mul(0xBF58_476D_1CE4_E5B9);
    let c: u64 = (b ^ (b >> 27u64)).wrapping_mul(0x94D0_49BB_1331_11EB);
    c ^ (c >> 31u64)
}

/// A 32-bit coordinate as 64 bits, its sign extended.
pub open spec fn widened(x: i32) -> u64 {
    if x >= 0 {
        x as u64
    } else {
        (0x1_0000_0000_0000_0000 + x) as u64
    }
}

fn widen(x: i32) -> (wide: u64)
    ensures
        wide == widened(x),
{
    if x >= 0 {
        x as u64
    } else {
        (0x1_0000_0000_0000_0000i128 + x as i128) as u64
    }
}

/// Rotation to the left.
pub open spec fn rotated(value: u64, by: u64) -> u64 {
    (value << by) | (value >> ((64 - by) as u64))
}

/// The hash of a lattice point under a seed: 24 bits.
pub open spec fn lattice_bits(seed: u64, x: i32, y: i32, z: i32) -> u64 {
    let hash = seed ^ mixed(widened(x)) ^ rotated(mixed(widened(y)), 21) ^ rotated(
        mixed(widened(z)),
        42,
    );
    mixed(hash) >> 40u64
}

/// The hash of a lattice point under a seed, below 2^24.
pub fn lattice(seed: u64, x: i32, y: i32, z: i32) -> (bits: u32)
    ensures
        bits == lattice_bits(seed, x, y, z),
        bits < 0x100_0000,
{
    let my: u64 = mix64(widen(y));
    let mz: u64 = mix64(widen(z));
    let ry: u64 = (my << 21u64) | (my >> 43u64);
    let rz: u64 = (mz << 42u64) | (mz >> 22u64);
    let hash: u64 = seed ^ mix64(widen(x)) ^ ry ^ rz;
    let m: u64 = mix64(hash);
    assert(m >> 40u64 < 0x100_0000) by (bit_vector);
    (m >> 40u64) as u32
}

/// The seed of an octave of the noise.
pub open spec fn octave_seed(seed: u64, octave: u32) -> u64 {
    seed ^ (octave as u64).wrapping_mul(0x9E37_79B9_7F4A_7C15)
}

/// The seed of an octave of the noise: each octave has its own.
pub fn layer_seed(seed: u64, octave: u32) -> (result: u64)
    ensures
        result == octave_seed(seed, octave),
{
    seed ^ (octave as u64).wrapping_mul(0x9E37_79B9_7F4A_7C15)
}

/// Index into the density field: the layout of a chunk, with more layers.
pub fn density_index(x: usize, y: usize, z: usize) -> (index: usize)
    requires
        block_index(x as int, y as int, z as int) <= usize::MAX,
    ensures
        index == block_index(x as int, y as int, z as int),
{
    (y * CHUNK_SIZE + z) * CHUNK_SIZE + x
}

/// Whether the field is solid at a cell.
pub open spec fn field_at(field: Seq<bool>, x: int, y: int, z: int) -> bool {
    field[block_index(x, y, z)]
}

/// What fills a cell: air where the field is empty; grass right below air, dirt where the field is
/// empty [`DIRT_DEPTH`] above, stone below that.
pub open spec fn material(palette: BlockPalette, field: Seq<bool>, x: int, y: int, z: int) -> BlockId {
    if !field_at(field, x, y, z) {
        BlockId::air()
    } else if !field_at(field, x, y + 1, z) {
        palette.grass
    } else if !field_at(field, x, y + 4, z) {
        palette.dirt
    } else {
        palette.stone
    }
}

/// Whether a chunk is what the field makes of it.
pub open spec fn filled(chunk: Chunk, palette: BlockPalette, field: Seq<bool>) -> bool {
    forall|x: int, y: int, z: int|
        in_chunk(x, y, z) ==> #[trigger] chunk.block(x, y, z) == material(palette, field, x, y, z)
}

/// Generates the chunks of one island.
#[derive(Debug, Clone, Copy)]
pub struct IslandGenerator {
    seed: u64,
    palette: BlockPalette,
}

impl IslandGenerator {
    /// The seed.
    pub closed spec fn spec_seed(&self) -> u64 {
        self.seed
    }

    /// The blocks that the island is made of.
    pub closed spec fn spec_palette(&self) -> BlockPalette {
        self.palette
    }

    pub fn new(seed: u64, palette: BlockPalette) -> (generator: Self)
        ensures
            generator.spec_seed() == seed,
            generator.spec_palette() == palette,
    {
        IslandGenerator { seed, palette }
    }

    pub fn seed(&self) -> (seed: u64)
        ensures
            seed == self.spec_seed(),
    {
        self.seed
    }

    pub fn palette(&self) -> (palette: &BlockPalette)
        ensures
            *palette == self.spec_palette(),
    {
        &self.palette
    }

    /// The chunk at `pos`, made from the sign of the density: `field` is solid where the density is
    /// above zero.
    pub fn generate(&self, pos: ChunkPos, field: &[bool]) -> (chunk: Chunk)
        requires
            field@.len() == DENSITY_VOLUME,
        ensures
            chunk.wf(),
            chunk.at() == pos,
            filled(chunk, self.spec_palette(), field@),
    {
        let mut chunk = Chunk::new(pos);
        let mut y: usize = 0;
        while y < CHUNK_SIZE
            invariant
                y <= 32,
                field@.len() == DENSITY_VOLUME,
                chunk.wf(),
                chunk.at() == pos,
                forall|a: int, b: int, c: int|
                    in_chunk(a, b, c) ==> #[trigger] chunk.block(a, b, c) == (if b < y {
                        material(self.palette, field@, a, b, c)
                    } else {
                        BlockId::air()
                    }),
            decreases 32 - y,
        {
            let mut z: usize = 0;
            while z < CHUNK_SIZE
                invariant
                    y < 32,
                    z <= 32,
                    field@.len() == DENSITY_VOLUME,
                    chunk.wf(),
                    chunk.at() == pos,
                    forall|a: int, b: int, c: int|
                        in_chunk(a, b, c) ==> #[trigger] chunk.block(a, b, c) == (if b < y || (b
                            == y && c < z) {
                            material(self.palette, field@, a, b, c)
                        } else {
                            BlockId::air()
                        }),
                decreases 32 - z,
            {
                let mut x: usize = 0;
                while x < CHUNK_SIZE
                    invariant
                        y < 32,
                        z < 32,
                        x <= 32,
                        field@.len() == DENSITY_VOLUME,
                        chunk.wf(),
                        chunk.at() == pos,
                        forall|a: int, b: int, c: int|
                            in_chunk(a, b, c) ==> #[trigger] chunk.block(a, b, c) == (if b < y || (b
                                == y && c < z) || (b == y && c == z && a < x) {
                                material(self.palette, field@, a, b, c)
                            } else {
                                BlockId::air()
                            }),
                    decreases 32 - x,
                {
                    let ghost before = chunk;
                    if field[density_index(x, y, z)] {
                        let block = if !field[density_index(x, y + 1, z)] {
                            self.palette.grass
                        } else if !field[density_index(x, y + DIRT_DEPTH, z)] {
                            self.palette.dirt
                        } else {
                            self.palette.stone
                        };
                        chunk.set([x, y, z], block);
                        proof {
                            before.wf_means_full();
                            assert forall|a: int, b: int, c: int| in_chunk(a, b, c) implies
                                #[trigger] chunk.block(a, b, c) == (if a == x && b == y && c == z {
                                block
                            } else {
                                before.block(a, b, c)
                            }) by {
                                layout_is_in_range(a, b, c);
                                layout_is_in_range(x as int, y as int, z as int);
                                if block_index(a, b, c) == block_index(
                                    x as int,
                                    y as int,
                                    z as int,
                                ) {
                                    layout_is_injective((a, b, c), (x as int, y as int, z as int));
                                }
                            }
                        }
                    }
                    x += 1;
                }
                z += 1;
            }
            y += 1;
        }
        chunk
    }
}

/// Generation depends on the palette and the field alone: equal inputs give equal chunks.
pub proof fn generation_is_determined(a: Chunk, b: Chunk, palette: BlockPalette, field: Seq<bool>)
    requires
        a.wf(),
        b.wf(),
        filled(a, palette, field),
        filled(b, palette, field),
    ensures
        a@ == b@,
{
    a.wf_means_full();
    b.wf_means_full();
    assert forall|i: int| 0 <= i < a@.len() implies a@[i] == b@[i] by {
        let x = i % 32;
        let z = (i / 32) % 32;
        let y = i / 1024;
        assert(block_index(x, y, z) == i);
        assert(in_chunk(x, y, z));
        assert(a.block(x, y, z) == b.block(x, y, z));
    }
    assert(a@ =~= b@);
}

/// The surface is grass, and what has solid ground from 1 to 4 above it is stone.
pub proof fn surface_is_grass_and_core_is_stone(
    palette: BlockPalette,
    field: Seq<bool>,
    x: int,
    y: int,
    z: int,
)
    requires
        field_at(field, x, y, z),
    ensures
        !field_at(field, x, y + 1, z) ==> material(palette, field, x, y, z) == palette.grass,
        field_at(field, x, y + 1, z) && field_at(field, x, y + 4, z) ==> material(
            palette,
            field,
            x,
            y,
            z,
        ) == palette.stone,
{
}

/// A chunk is made of air and the blocks of the palette, and of air alone where the field is clear.
pub proof fn a_chunk_is_made_of_the_palette(chunk: Chunk, palette: BlockPalette, field: Seq<bool>)
    requires
        chunk.wf(),
        filled(chunk, palette, field),
    ensures
        forall|i: int|
            0 <= i < chunk@.len() ==> (#[trigger] chunk@[i]) == BlockId::air() || chunk@[i] == palette.stone
                || chunk@[i] == palette.dirt || chunk@[i] == palette.grass,
        (forall|i: int| 0 <= i < field.len() ==> !field[i]) && field.len() == DENSITY_VOLUME
            ==> count_non_air(chunk@) == 0,
{
    chunk.wf_means_full();
    let clear = (forall|i: int| 0 <= i < field.len() ==> !field[i]) && field.len() == DENSITY_VOLUME;
    assert forall|i: int| 0 <= i < chunk@.len() implies ((#[trigger] chunk@[i]) == BlockId::air() || chunk@[i]
        == palette.stone || chunk@[i] == palette.dirt || chunk@[i] == palette.grass) && (clear ==> chunk@[i]
        == BlockId::air()) by {
        let x = i % 32;
        let z = (i / 32) % 32;
        let y = i / 1024;
        assert(block_index(x, y, z) == i);
        assert(in_chunk(x, y, z));
        assert(chunk.block(x, y, z) == material(palette, field, x, y, z));
    }
    crate::world::block::air_is_index_zero();
    zero_count_means_air(chunk@);
}

/// Grass lies right under air, and nothing else does: below the topmost layer of a chunk, a block is grass
/// exactly where the one above it is air.
pub proof fn grass_lies_under_air(
    chunk: Chunk,
    palette: BlockPalette,
    field: Seq<bool>,
    x: int,
    y: int,
    z: int,
)
    requires
        filled(chunk, palette, field),
        in_chunk(x, y, z),
        in_chunk(x, y + 1, z),
        palette.stone != BlockId::air() && palette.dirt != BlockId::air() && palette.grass != BlockId::air(),
        palette.grass != palette.stone && palette.grass != palette.dirt,
        chunk.block(x, y, z) != BlockId::air(),
    ensures
        chunk.block(x, y, z) == palette.grass <==> chunk.block(x, y + 1, z) == BlockId::air(),
{
    assert(chunk.block(x, y, z) == material(palette, field, x, y, z));
    assert(chunk.block(x, y + 1, z) == material(palette, field, x, y + 1, z));
}

/// Dirt lies between grass and stone: a solid cell with a solid one right above it is dirt where the field
/// is empty four above it, and stone where it is solid there.
pub proof fn dirt_lies_below_the_surface(
    chunk: Chunk,
    palette: BlockPalette,
    field: Seq<bool>,
    x: int,
    y: int,
    z: int,
)
    requires
        filled(chunk, palette, field),
        in_chunk(x, y, z),
        field[block_index(x, y, z)],
        field[block_index(x, y + 1, z)],
    ensures
        !field[block_index(x, y + 4, z)] ==> chunk.block(x, y, z) == palette.dirt,
        field[block_index(x, y + 4, z)] ==> chunk.block(x, y, z) == palette.stone,
{
    assert(chunk.block(x, y, z) == material(palette, field, x, y, z));
}

/// A column of solid ground up to a surface and nothing above it: air above the surface, grass on it, dirt
/// in the three blocks below the grass, and stone in all below these. The surface may lie above the chunk,
/// in the layers of the field that reach beyond it, or below all of it.
pub proof fn a_column_is_layered(
    chunk: Chunk,
    palette: BlockPalette,
    field: Seq<bool>,
    x: int,
    y: int,
    z: int,
    surface: int,
)
    requires
        filled(chunk, palette, field),
        in_chunk(x, y, z),
        forall|h: int| 0 <= h < DENSITY_LAYERS ==> (#[trigger] field[block_index(x, h, z)] <==> h <= surface),
    ensures
        y > surface ==> chunk.block(x, y, z) == BlockId::air(),
        y == surface ==> chunk.block(x, y, z) == palette.grass,
        surface - 3 <= y < surface ==> chunk.block(x, y, z) == palette.dirt,
        y < surface - 3 ==> chunk.block(x, y, z) == palette.stone,
{
    assert(chunk.block(x, y, z) == material(palette, field, x, y, z));
    assert(field[block_index(x, y, z)] <==> y <= surface);
    assert(field[block_index(x, y + 1, z)] <==> y + 1 <= surface);
    assert(field[block_index(x, y + 4, z)] <==> y + 4 <= surface);
}

/// A cell is filled exactly where the field is solid, whatever is above or beside it.
pub proof fn the_shape_is_that_of_the_field(
    chunk: Chunk,
    palette: BlockPalette,
    field: Seq<bool>,
    x: int,
    y: int,
    z: int,
)
    requires
        filled(chunk, palette, field),
        in_chunk(x, y, z),
        palette.stone != BlockId::air() && palette.dirt != BlockId::air() && palette.grass != BlockId::air(),
    ensures
        chunk.block(x, y, z) != BlockId::air() <==> field[block_index(x, y, z)],
{
    assert(chunk.block(x, y, z) == material(palette, field, x, y, z));
}

proof fn product_is_undone(x: u64, c: u64, d: u64)
    requires
        (c as nat * d as nat) % 0x1_0000_0000_0000_0000 == 1,
    ensures
        x.wrapping_mul(c).wrapping_mul(d) == x,
{
    let m: int = 0x1_0000_0000_0000_0000;
    let (x, c, d) = (x as int, c as int, d as int);
    vstd::arithmetic::div_mod::lemma_mul_mod_noop_left(x * c, d, m);
    assert((x * c) * d == x * (c * d)) by (nonlinear_arith);
    vstd::arithmetic::div_mod::lemma_mul_mod_noop_right(x, c * d, m);
    vstd::arithmetic::div_mod::lemma_small_mod(x as nat, m as nat);
}

/// The number that was mixed: each step of the mixing, undone from the last to the first.
pub open spec fn unmixed(result: u64) -> u64 {
    let c = (result ^ (result >> 31u64) ^ (result >> 62u64)).wrapping_mul(0x3196_42B2_D24D_8EC3);
    let b = (c ^ (c >> 27u64) ^ (c >> 54u64)).wrapping_mul(0x96DE_1B17_3F11_9089);
    let a = b ^ (b >> 30u64) ^ (b >> 60u64);
    a.wrapping_sub(0x9E37_79B9_7F4A_7C15)
}

/// Mixing loses nothing: it can be undone, so no two numbers are mixed into one.
pub proof fn mixing_can_be_undone(value: u64)
    ensures
        unmixed(mixed(value)) == value,
{
    let a = value.wrapping_add(0x9E37_79B9_7F4A_7C15);
    let a1 = a ^ (a >> 30u64);
    let b = a1.wrapping_mul(0xBF58_476D_1CE4_E5B9);
    let b1 = b ^ (b >> 27u64);
    let c = b1.wrapping_mul(0x94D0_49BB_1331_11EB);
    let c1 = c ^ (c >> 31u64);
    assert(c1 ^ (c1 >> 31u64) ^ (c1 >> 62u64) == c) by (bit_vector)
        requires
            c1 == c ^ (c >> 31u64),
    ;
    product_is_undone(b1, 0x94D0_49BB_1331_11EB, 0x3196_42B2_D24D_8EC3);
    assert(b1 ^ (b1 >> 27u64) ^ (b1 >> 54u64) == b) by (bit_vector)
        requires
            b1 == b ^ (b >> 27u64),
    ;
    product_is_undone(a1, 0xBF58_476D_1CE4_E5B9, 0x96DE_1B17_3F11_9089);
    assert(a1 ^ (a1 >> 30u64) ^ (a1 >> 60u64) == a) by (bit_vector)
        requires
            a1 == a ^ (a >> 30u64),
    ;
}

/// What the three coordinates of a lattice point add to the seed: the mixed first, the mixed second turned by
/// 21 bits and the mixed third turned by 42, negative coordinates with their sign.
pub open spec fn lattice_share(x: i32, y: i32, z: i32) -> u64 {
    let wide = |c: int|
        (if c < 0 {
            c + 0x1_0000_0000_0000_0000
        } else {
            c
        }) as u64;
    let second = mixed(wide(y as int));
    let third = mixed(wide(z as int));
    mixed(wide(x as int)) ^ ((second << 21u64) | (second >> 43u64)) ^ ((third << 42u64) | (third >> 22u64))
}

/// Moving through the lattice is like changing the seed: under a seed that takes the share of a point back,
/// the hash of the point is the upper 24 bits of the mixed seed.
pub proof fn a_point_acts_like_a_seed(seed: u64, x: i32, y: i32, z: i32)
    ensures
        lattice_bits(seed ^ lattice_share(x, y, z), x, y, z) == mixed(seed) >> 40u64,
        lattice_bits(seed, x, y, z) < 0x100_0000,
{
    let p = mixed(widened(x));
    let q = rotated(mixed(widened(y)), 21);
    let r = rotated(mixed(widened(z)), 42);
    let share = lattice_share(x, y, z);
    assert(share == p ^ q ^ r);
    assert(seed ^ share ^ p ^ q ^ r == seed) by (bit_vector)
        requires
            share == p ^ q ^ r,
    ;
    let m = mixed(seed ^ p ^ q ^ r);
    assert(m >> 40u64 < 0x100_0000) by (bit_vector);
}

/// Every octave has a seed of its own: the octave can be told from its seed and the seed of all. The first
/// octave has just that.
pub proof fn octaves_are_told_apart(seed: u64, octave: u32)
    ensures
        (octave_seed(seed, octave) ^ seed).wrapping_mul(0xF1DE_83E1_9937_733D) == octave,
        octave_seed(seed, 0) == seed,
{
    let part = (octave as u64).wrapping_mul(0x9E37_79B9_7F4A_7C15);
    assert(seed ^ part ^ seed == part) by (bit_vector);
    product_is_undone(octave as u64, 0x9E37_79B9_7F4A_7C15, 0xF1DE_83E1_9937_733D);
    let zero: u64 = 0u64.wrapping_mul(0x9E37_79B9_7F4A_7C15);
    assert(zero == 0);
    assert(seed ^ 0 == seed) by (bit_vector);
}

} // verus!
