//! What is drawn: the texture of blocks, the texture of glyphs, surfaces and chunk geometry.

use lxlake::contract::geometry::PhysicalSize;
use lxlake::meshing::{ChunkMesh, Vertex};
use lxlake::render::glyphs::{
    cell_origin, ensure_capacity, solid_uv, ui_corners, uv_rect, GlyphAtlas, GlyphSlot, Upload,
    CELL, GLYPH_COLUMNS, GLYPH_ROWS, HEIGHT, INITIAL_CAPACITY, MAX_GLYPHS, WIDTH,
};
use lxlake::render::resources::{to_world_vertices, ChunkDraws};
use lxlake::render::surface::{acquire, FrameStatus, FrameStep, RenderError, SurfaceSize};
use lxlake::render::tiles::{atlas_image, pixel_noise, COLUMNS, TILE_SIZE};
use lxlake::ui::draw::{GlyphKey, Quad};
use lxlake::ui::text::GlyphBitmap;
use lxlake::world::chunk::ChunkPos;

/// Scales a channel and keeps it in range.
fn shade_channel(channel: u8, permille: u32) -> u8 {
    let shade = permille as f32 / 1000.0;
    (f32::from(channel) * shade).round().clamp(0.0, 255.0) as u8
}

#[test]
fn noise_is_deterministic_and_spread() {
    assert_eq!(pixel_noise(1, 3, 4), pixel_noise(1, 3, 4));
    let distinct: std::collections::HashSet<u32> = (0..TILE_SIZE)
        .flat_map(|y| (0..TILE_SIZE).map(move |x| pixel_noise(1, x, y)))
        .collect();
    assert!(distinct.len() > TILE_SIZE as usize);
    assert_ne!(pixel_noise(1, 3, 4), pixel_noise(2, 3, 4));
}

#[test]
fn noise_stays_in_range() {
    for tile in 0..8 {
        for y in 0..TILE_SIZE {
            for x in 0..TILE_SIZE {
                let shade = pixel_noise(tile, x, y) as f32 / 1000.0;
                assert!((0.82..=1.18).contains(&shade), "{shade}");
            }
        }
    }
}

#[test]
fn shading_channels_saturate_instead_of_wrapping() {
    assert_eq!(shade_channel(255, 1180), 255);
    assert_eq!(shade_channel(0, 820), 0);
    assert_eq!(shade_channel(128, 1000), 128);
}

#[test]
fn noise_has_a_known_value() {
    let mut h = 1u32
        .wrapping_mul(0x9E37_79B9)
        .wrapping_add(3u32.wrapping_mul(0x85EB_CA6B))
        .wrapping_add(4u32.wrapping_mul(0xC2B2_AE35));
    h ^= h >> 15;
    h = h.wrapping_mul(0x2545_F491);
    h ^= h >> 13;
    assert_eq!(pixel_noise(1, 3, 4), 820 + (h & 0xFF) * 360 / 255);
}

#[test]
fn the_texture_of_blocks_is_tile_by_tile() {
    let tiles = [[10, 20, 30]; 9];
    let image = atlas_image(&tiles, shade_channel);
    assert_eq!((image.columns, image.rows), (COLUMNS, 2));
    assert_eq!((image.width, image.height), (128, 32));
    assert_eq!(image.pixels.len(), 128 * 32 * 4);
    for (index, base) in tiles.iter().enumerate() {
        let (col, row) = (index as u32 % COLUMNS, index as u32 / COLUMNS);
        for y in 0..TILE_SIZE {
            for x in 0..TILE_SIZE {
                let shade = pixel_noise(index as u32, x, y);
                let offset =
                    (((row * TILE_SIZE + y) * image.width) + col * TILE_SIZE + x) as usize * 4;
                for channel in 0..3 {
                    assert_eq!(image.pixels[offset + channel], shade_channel(base[channel], shade));
                }
                assert_eq!(image.pixels[offset + 3], 255);
            }
        }
    }
    let empty = (16 * 128 + 16) * 4;
    assert_eq!(image.pixels[empty..empty + 4], [0, 0, 0, 0]);
    assert_eq!(atlas_image(&[], shade_channel).rows, 1);
}

#[test]
fn the_grid_covers_the_texture_without_a_remainder() {
    assert_eq!(GLYPH_COLUMNS * CELL, WIDTH);
    assert_eq!(GLYPH_ROWS * CELL, HEIGHT);
    assert_eq!(MAX_GLYPHS + 1, GLYPH_COLUMNS * GLYPH_ROWS);
    assert_eq!(cell_origin(0), (0, 0));
    assert_eq!(cell_origin(GLYPH_COLUMNS), (0, CELL));
    assert_eq!(cell_origin(MAX_GLYPHS), (WIDTH - CELL, HEIGHT - CELL));
}

#[test]
fn glyph_uv_stays_inside_its_own_cell() {
    for cell in 1..=MAX_GLYPHS {
        let [u0, v0, u1, v1] = uv_rect(GlyphSlot { cell, width: 16, height: 24 });
        let (u0, u1) = (u0 as f32 / (2 * WIDTH) as f32, u1 as f32 / (2 * WIDTH) as f32);
        let (v0, v1) = (v0 as f32 / (2 * HEIGHT) as f32, v1 as f32 / (2 * HEIGHT) as f32);
        let (x, y) = cell_origin(cell);
        let (x, y) = (x as f32, y as f32);

        assert!(u0 > x / WIDTH as f32 && u1 < (x + CELL as f32) / WIDTH as f32);
        assert!(v0 > y / HEIGHT as f32 && v1 < (y + CELL as f32) / HEIGHT as f32);
        assert!(u1 > u0 && v1 > v0);
        assert_eq!(u0, (x + 0.5) / WIDTH as f32);
        assert_eq!(u1, (x + 16.0 - 0.5) / WIDTH as f32);
    }
}

#[test]
fn solid_uv_points_at_the_white_texel() {
    let [u, v, u2, v2] = solid_uv();

    assert_eq!([u, v], [u2, v2]);
    assert!(u > 0 && u < 2 * CELL);
    assert!(v > 0 && v < 2 * CELL);
}

fn glyph(number: u16, width: u32, height: u32) -> GlyphBitmap<()> {
    GlyphBitmap {
        key: GlyphKey { glyph: number, size_px: 16 },
        offset: (),
        width,
        height,
        coverage: Vec::new(),
    }
}

#[test]
fn glyphs_get_cells_of_their_own() {
    let mut atlas = GlyphAtlas::new();
    let uploads = atlas.upload(&[
        glyph(1, 8, 9),
        glyph(2, 0, 9),
        glyph(3, 65, 9),
        glyph(1, 8, 9),
        glyph(4, 64, 64),
    ]);
    assert_eq!(
        uploads,
        vec![
            Upload::Write(GlyphSlot { cell: 1, width: 8, height: 9 }),
            Upload::Empty,
            Upload::TooLarge,
            Upload::Known,
            Upload::Write(GlyphSlot { cell: 2, width: 64, height: 64 }),
        ]
    );
    assert_eq!(atlas.uv(GlyphKey { glyph: 1, size_px: 16 }), Some([129, 1, 143, 17]));
    assert_eq!(atlas.uv(GlyphKey { glyph: 3, size_px: 16 }), None);
    assert_eq!(atlas.upload(&[glyph(4, 64, 64)]), vec![Upload::Known]);
}

#[test]
fn a_full_texture_takes_no_more_glyphs() {
    let mut atlas = GlyphAtlas::new();
    let many: Vec<GlyphBitmap<()>> = (1..=256).map(|number| glyph(number, 4, 4)).collect();
    let uploads = atlas.upload(&many);
    assert_eq!(uploads[254], Upload::Write(GlyphSlot { cell: 255, width: 4, height: 4 }));
    assert_eq!(uploads[255], Upload::Full);
    assert!(atlas.uv(GlyphKey { glyph: 256, size_px: 16 }).is_none());
}

#[test]
fn quads_become_two_triangles_and_unknown_glyphs_nothing() {
    let mut atlas = GlyphAtlas::new();
    atlas.upload(&[glyph(1, 8, 9)]);
    let known = GlyphKey { glyph: 1, size_px: 16 };
    let unknown = GlyphKey { glyph: 2, size_px: 16 };
    let quads = [
        Quad::glyph(unknown, 0, [0; 4]),
        Quad::solid(1, [0; 4]),
        Quad::glyph(known, 2, [0; 4]),
    ];
    let corners = ui_corners(&atlas, &quads);
    assert_eq!(corners.len(), 12);
    let places: Vec<(usize, bool, bool)> =
        corners.iter().map(|corner| (corner.quad, corner.right, corner.bottom)).collect();
    assert_eq!(
        places[..6],
        [
            (1, false, true),
            (1, false, false),
            (1, true, false),
            (1, false, true),
            (1, true, false),
            (1, true, true),
        ]
    );
    assert!(corners[..6].iter().all(|corner| (corner.u, corner.v) == (1, 1)));
    let last = corners[11];
    assert_eq!((last.quad, last.u, last.v), (2, 143, 17));
}

#[test]
fn room_for_vertices_doubles() {
    assert_eq!(ensure_capacity(INITIAL_CAPACITY, 1024), 1024);
    assert_eq!(ensure_capacity(INITIAL_CAPACITY, 1025), 2048);
    for needed in [1usize, 2, 3, 5, 1000, 4096, 4097] {
        assert_eq!(ensure_capacity(0, needed), needed.next_power_of_two());
    }
}

#[test]
fn a_surface_ignores_windows_without_an_area() {
    let size = |width, height| PhysicalSize { width, height };
    let mut surface = SurfaceSize::new(size(0, 5));
    assert_eq!(surface.physical_size(), (1, 5));
    assert!(!surface.resize(size(0, 9)));
    assert!(!surface.resize(size(9, 0)));
    assert!(!surface.resize(size(1, 5)));
    assert!(surface.resize(size(8, 6)));
    assert_eq!(surface.physical_size(), (8, 6));
}

#[test]
fn only_a_lost_surface_is_an_error() {
    assert_eq!(acquire(FrameStatus::Success), FrameStep::Draw);
    assert_eq!(acquire(FrameStatus::Suboptimal), FrameStep::Draw);
    assert_eq!(acquire(FrameStatus::Timeout), FrameStep::Skip);
    assert_eq!(acquire(FrameStatus::Occluded), FrameStep::Skip);
    assert_eq!(acquire(FrameStatus::Outdated), FrameStep::Reconfigure);
    assert_eq!(acquire(FrameStatus::Lost), FrameStep::Fail);
    assert_eq!(acquire(FrameStatus::Validation), FrameStep::Fail);
    assert_eq!(RenderError::SurfaceLost.display(), "表面已丢失");
    assert_eq!(RenderError::Device("x".to_owned()).display(), "请求设备失败：x");
}

fn mesh() -> ChunkMesh {
    ChunkMesh {
        pos: ChunkPos::new(1, -1, 2),
        vertices: vec![
            Vertex { position: [0, 0, 0], normal: [0, 1, 0], uv: [0, 0], tile: 3 },
            Vertex { position: [32, 5, 32], normal: [1, 0, 0], uv: [2, 1], tile: 7 },
        ],
        indices: vec![0, 1, 0],
    }
}

#[test]
fn world_vertices_bake_the_chunk_origin() {
    let vertices = to_world_vertices(&mesh());
    assert_eq!(vertices[0].position, [32, -32, 64]);
    assert_eq!(vertices[1].position, [64, -27, 96]);
    assert_eq!(vertices[1].normal, [1, 0, 0]);
    assert_eq!(vertices[1].uv, [2, 1]);
    assert_eq!(vertices[1].tile, 7);
}

#[test]
fn chunk_geometry_comes_and_goes() {
    let mut draws: ChunkDraws<&str> = ChunkDraws::new();
    draws.upload(&mesh(), "first");
    draws.upload(&mesh(), "second");
    assert_eq!(draws.uploaded_chunks(), 1);
    assert_eq!(draws.draw(ChunkPos::new(1, -1, 2)), Some(&"second"));
    let mut other = mesh();
    other.pos = ChunkPos::new(0, 0, 0);
    draws.upload(&other, "third");
    let mut all = draws.draw_chunks();
    all.sort();
    assert_eq!(all, vec![&"second", &"third"]);
    draws.unload(ChunkPos::new(0, 0, 0));
    draws.unload(ChunkPos::new(9, 9, 9));
    assert_eq!(draws.uploaded_chunks(), 1);
    draws.upload(&ChunkMesh::empty(ChunkPos::new(1, -1, 2)), "nothing");
    assert_eq!(draws.uploaded_chunks(), 0);
    assert_eq!(draws.draw(ChunkPos::new(1, -1, 2)), None);
}
