use prim_batch::color::Rgba;
use prim_batch::coords::FxRect;
use prim_batch::glyph::GlyphCache;
use prim_batch::image_table::ImageMap;
use prim_batch::primitive::{GlyphInst, Primitive, PrimitiveKind, MODE_TEXT};
use prim_batch::renderer::{Command, Renderer};
use prim_batch::FX_ONE;

fn full_window() -> FxRect {
    FxRect { l: -400 * FX_ONE, r: 400 * FX_ONE, b: -300 * FX_ONE, t: 300 * FX_ONE }
}

fn white() -> Rgba {
    Rgba { r: 65536, g: 65536, b: 65536, a: 65536 }
}

fn glyph(id: u64, w: u32, h: u32) -> GlyphInst {
    GlyphInst {
        glyph_id: id,
        off_x: 0,
        off_y: 0,
        left: 100,
        top: 100,
        width: w,
        height: h,
        data: vec![200u8; (w * h) as usize],
    }
}

fn text_prim(glyphs: Vec<GlyphInst>) -> Primitive {
    Primitive {
        kind: PrimitiveKind::Text { color: white(), font_id: 1, glyphs },
        rect: full_window(),
        scizzor: full_window(),
    }
}

#[test]
fn queue_and_flush_place_a_glyph() {
    let mut c = GlyphCache::with_dimensions(64, 64);
    c.queue(1, 10, 0, 0, 3, 4, vec![7u8; 12]);
    let ups = c.flush();
    assert_eq!(ups.len(), 1);
    assert_eq!(ups[0].x, 0);
    assert_eq!(ups[0].y, 0);
    assert_eq!(ups[0].w, 3);
    assert_eq!(ups[0].h, 4);
    assert_eq!(ups[0].data, vec![7u8; 12]);
    let (uv, p) = c.rect_for(1, 10, 0, 0).expect("glyph placed");
    assert_eq!((p.x, p.y, p.w, p.h), (0, 0, 3, 4));
    assert_eq!(uv.u0, 0);
    assert_eq!(uv.v0, 0);
    assert_eq!(uv.u1, 3072);
    assert_eq!(uv.v1, 4096);
}

#[test]
fn duplicate_queue_in_one_frame_uploads_once() {
    let mut c = GlyphCache::with_dimensions(64, 64);
    c.queue(1, 10, 0, 0, 3, 4, vec![7u8; 12]);
    c.queue(1, 10, 0, 0, 3, 4, vec![7u8; 12]);
    let ups = c.flush();
    assert_eq!(ups.len(), 1);
}

#[test]
fn cached_glyph_is_reused_without_a_new_upload() {
    let mut c = GlyphCache::with_dimensions(64, 64);
    c.queue(1, 10, 0, 0, 3, 4, vec![7u8; 12]);
    assert_eq!(c.flush().len(), 1);
    // The next frame queues the same glyph: the old placement is reused
    // and nothing is uploaded again.
    c.queue(1, 10, 0, 0, 3, 4, vec![7u8; 12]);
    assert_eq!(c.flush().len(), 0);
    assert!(c.rect_for(1, 10, 0, 0).is_some());
}

#[test]
fn subpixel_offsets_within_tolerance_share_an_entry() {
    let mut c = GlyphCache::with_dimensions(64, 64);
    // The default tolerance is a tenth of a unit; offsets 0 and 0.01 round
    // to the same bucket.
    c.queue(1, 10, 0, 0, 3, 4, vec![7u8; 12]);
    c.queue(1, 10, 655, 0, 3, 4, vec![7u8; 12]);
    assert_eq!(c.flush().len(), 1);
}

#[test]
fn distinct_glyphs_get_disjoint_placements() {
    let mut c = GlyphCache::with_dimensions(64, 64);
    c.queue(1, 10, 0, 0, 10, 8, vec![1u8; 80]);
    c.queue(1, 11, 0, 0, 10, 8, vec![2u8; 80]);
    let ups = c.flush();
    assert_eq!(ups.len(), 2);
    let (_, p1) = c.rect_for(1, 10, 0, 0).unwrap();
    let (_, p2) = c.rect_for(1, 11, 0, 0).unwrap();
    let disjoint = p1.x + p1.w <= p2.x || p2.x + p2.w <= p1.x || p1.y + p1.h <= p2.y
        || p2.y + p2.h <= p1.y;
    assert!(disjoint);
}

#[test]
fn packer_wraps_to_a_new_row() {
    let mut c = GlyphCache::with_dimensions(10, 10);
    c.queue(1, 10, 0, 0, 6, 4, vec![0u8; 24]);
    c.queue(1, 11, 0, 0, 6, 4, vec![0u8; 24]);
    assert_eq!(c.flush().len(), 2);
    let (_, p1) = c.rect_for(1, 10, 0, 0).unwrap();
    let (_, p2) = c.rect_for(1, 11, 0, 0).unwrap();
    assert_eq!((p1.x, p1.y), (0, 0));
    assert_eq!((p2.x, p2.y), (0, 4));
}

#[test]
fn overflow_glyphs_are_not_placed() {
    // The cache is at capacity: queueing more distinct glyphs than fit in
    // one flush leaves the overflow glyphs unplaced.
    let mut c = GlyphCache::with_dimensions(4, 4);
    c.queue(1, 10, 0, 0, 4, 4, vec![0u8; 16]);
    c.queue(1, 11, 0, 0, 4, 4, vec![0u8; 16]);
    let ups = c.flush();
    assert_eq!(ups.len(), 1);
    assert!(c.rect_for(1, 10, 0, 0).is_some());
    assert!(c.rect_for(1, 11, 0, 0).is_none());
}

#[test]
fn text_run_emits_a_quad_per_placed_glyph() {
    let mut r = Renderer::new();
    let images = ImageMap::new();
    let prims = vec![text_prim(vec![glyph(10, 3, 4), glyph(11, 3, 4)])];
    let ups = r.fill(800, 600, FX_ONE, &prims, &images);
    assert_eq!(ups.len(), 2);
    let mut it = r.commands();
    let c = it.next().unwrap();
    assert!(matches!(c, Command::Plain { start: 0, end: 12 }));
    assert!(it.next().is_none());
    for v in r.vertices().iter() {
        assert_eq!(v.mode, MODE_TEXT);
    }
}

#[test]
fn cache_pressure_drops_glyphs_from_the_frame() {
    // With a tiny cache, a text run of two distinct full-cache glyphs
    // contributes strictly fewer than six vertices per glyph: the second
    // glyph is silently dropped.
    let mut r = Renderer::with_glyph_cache_dimensions(4, 4);
    let images = ImageMap::new();
    let prims = vec![text_prim(vec![glyph(10, 4, 4), glyph(11, 4, 4)])];
    let ups = r.fill(800, 600, FX_ONE, &prims, &images);
    assert_eq!(ups.len(), 1);
    let vs = r.vertices();
    assert!(vs.len() < 12);
    assert_eq!(vs.len(), 6);
}

#[test]
fn glyph_quad_maps_screen_and_texture_rects() {
    let mut r = Renderer::with_glyph_cache_dimensions(64, 64);
    let images = ImageMap::new();
    let mut g = glyph(10, 32, 32);
    g.left = 0;
    g.top = 0;
    g.data = vec![9u8; 32 * 32];
    let prims = vec![text_prim(vec![g])];
    r.fill(800, 600, FX_ONE, &prims, &images);
    let vs = r.vertices();
    assert_eq!(vs.len(), 6);
    // Screen rect (0,0)..(32,32) on 800x600: x spans [-1, round(-0.92)],
    // y spans [round(0.8933), 1]; uv spans [0, 1/2] of the 64x64 cache.
    let x0 = -FX_ONE;
    let x1 = -60293;
    let y0 = FX_ONE;
    let y1 = 58545;
    for v in vs.iter() {
        assert!(v.x == x0 || v.x == x1);
        assert!(v.y == y0 || v.y == y1);
        assert!(v.u == 0 || v.u == FX_ONE / 2);
        assert!(v.v == 0 || v.v == FX_ONE / 2);
    }
}

#[test]
fn image_table_lookup() {
    let mut m = ImageMap::new();
    assert!(m.get(5).is_none());
    m.insert(5, prim_batch::image_table::Texture { texture: 9, width: 2, height: 3 });
    let t = m.get(5).unwrap();
    assert_eq!(t.texture, 9);
    assert_eq!(t.width, 2);
    assert_eq!(t.height, 3);
    assert!(m.get(6).is_none());
}
