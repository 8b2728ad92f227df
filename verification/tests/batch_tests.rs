use prim_batch::color::Rgba;
use prim_batch::coords::FxRect;
use prim_batch::image_table::{ImageMap, Texture};
use prim_batch::primitive::{
    ColoredTriangle, FxPoint, Primitive, PrimitiveKind, Triangle, MODE_GEOMETRY, MODE_IMAGE,
};
use prim_batch::renderer::{Command, DrawStep, Renderer, TexBind};
use prim_batch::FX_ONE;

fn full_window() -> FxRect {
    FxRect { l: -400 * FX_ONE, r: 400 * FX_ONE, b: -300 * FX_ONE, t: 300 * FX_ONE }
}

fn red() -> Rgba {
    Rgba { r: 65536, g: 0, b: 0, a: 65536 }
}

fn rect_prim(color: Rgba) -> Primitive {
    Primitive {
        kind: PrimitiveKind::Rectangle { color },
        rect: full_window(),
        scizzor: full_window(),
    }
}

fn image_prim(image_id: u64) -> Primitive {
    Primitive {
        kind: PrimitiveKind::Image { image_id, color: None, source_rect: None },
        rect: full_window(),
        scizzor: full_window(),
    }
}

fn collect(r: &Renderer) -> Vec<Command> {
    let mut out = Vec::new();
    let mut it = r.commands();
    while let Some(c) = it.next() {
        out.push(c);
    }
    out
}

#[test]
fn one_rectangle_full_window() {
    // One full-window rectangle at 800x600 and scale one: exactly one
    // Plain command of six geometry vertices spanning [-1, 1]^2.
    let mut r = Renderer::new();
    let images = ImageMap::new();
    let prims = vec![rect_prim(red())];
    let ups = r.fill(800, 600, FX_ONE, &prims, &images);
    assert!(ups.is_empty());
    let cmds = collect(&r);
    assert_eq!(cmds.len(), 1);
    assert!(matches!(cmds[0], Command::Plain { start: 0, end: 6 }));
    let vs = r.vertices();
    assert_eq!(vs.len(), 6);
    let mut min_x = i64::MAX;
    let mut max_x = i64::MIN;
    let mut min_y = i64::MAX;
    let mut max_y = i64::MIN;
    for v in vs.iter() {
        assert_eq!(v.mode, MODE_GEOMETRY);
        assert_eq!(v.color, red());
        min_x = min_x.min(v.x);
        max_x = max_x.max(v.x);
        min_y = min_y.min(v.y);
        max_y = max_y.max(v.y);
    }
    assert_eq!((min_x, max_x), (-FX_ONE, FX_ONE));
    assert_eq!((min_y, max_y), (-FX_ONE, FX_ONE));
}

#[test]
fn rect_image_rect_gives_three_commands() {
    // Rectangle, Image(7) present in the table, Rectangle: exactly three
    // commands, in order Plain, Image(7), Plain.
    let mut r = Renderer::new();
    let mut images = ImageMap::new();
    images.insert(7, Texture { texture: 42, width: 16, height: 16 });
    let prims = vec![rect_prim(red()), image_prim(7), rect_prim(red())];
    r.fill(800, 600, FX_ONE, &prims, &images);
    let cmds = collect(&r);
    assert_eq!(cmds.len(), 3);
    assert!(matches!(cmds[0], Command::Plain { start: 0, end: 6 }));
    assert!(matches!(cmds[1], Command::Image { image_id: 7, start: 6, end: 12 }));
    assert!(matches!(cmds[2], Command::Plain { start: 12, end: 18 }));
    for v in &r.vertices()[6..12] {
        assert_eq!(v.mode, MODE_IMAGE);
    }
}

#[test]
fn absent_image_emits_nothing() {
    // An Image primitive whose id is absent from the table contributes no
    // vertices and no Image command.
    let mut r = Renderer::new();
    let images = ImageMap::new();
    let prims = vec![image_prim(99)];
    r.fill(800, 600, FX_ONE, &prims, &images);
    assert_eq!(collect(&r).len(), 0);
    assert_eq!(r.vertices().len(), 0);
}

#[test]
fn absent_image_between_rectangles_merges_the_plains() {
    // The empty ranges around the absent image are dropped, and the two
    // rectangle ranges merge into one minimal Plain command.
    let mut r = Renderer::new();
    let images = ImageMap::new();
    let prims = vec![rect_prim(red()), image_prim(99), rect_prim(red())];
    r.fill(800, 600, FX_ONE, &prims, &images);
    let cmds = collect(&r);
    assert_eq!(r.vertices().len(), 12);
    assert_eq!(cmds.len(), 1);
    assert!(matches!(cmds[0], Command::Plain { start: 0, end: 12 }));
}

#[test]
fn adjacent_same_image_primitives_merge() {
    let mut r = Renderer::new();
    let mut images = ImageMap::new();
    images.insert(7, Texture { texture: 1, width: 8, height: 8 });
    let prims = vec![image_prim(7), image_prim(7)];
    r.fill(800, 600, FX_ONE, &prims, &images);
    let cmds = collect(&r);
    assert_eq!(cmds.len(), 1);
    assert!(matches!(cmds[0], Command::Image { image_id: 7, start: 0, end: 12 }));
}

#[test]
fn empty_triangle_batch_is_skipped_and_preserves_state() {
    // An empty triangle batch is a no-op: it does not break image
    // batching around it.
    let mut r = Renderer::new();
    let mut images = ImageMap::new();
    images.insert(7, Texture { texture: 1, width: 8, height: 8 });
    let empty = Primitive {
        kind: PrimitiveKind::TrianglesSingleColor { color: red(), triangles: Vec::new() },
        rect: full_window(),
        scizzor: full_window(),
    };
    let prims = vec![image_prim(7), empty, image_prim(7)];
    r.fill(800, 600, FX_ONE, &prims, &images);
    let cmds = collect(&r);
    assert_eq!(cmds.len(), 1);
    assert!(matches!(cmds[0], Command::Image { image_id: 7, start: 0, end: 12 }));
}

#[test]
fn triangles_emit_three_vertices_each() {
    let mut r = Renderer::new();
    let images = ImageMap::new();
    let t1 = Triangle {
        a: FxPoint { x: 0, y: 0 },
        b: FxPoint { x: 10 * FX_ONE, y: 0 },
        c: FxPoint { x: 0, y: 10 * FX_ONE },
    };
    let t2 = Triangle {
        a: FxPoint { x: 0, y: 0 },
        b: FxPoint { x: -10 * FX_ONE, y: 0 },
        c: FxPoint { x: 0, y: -10 * FX_ONE },
    };
    let prims = vec![Primitive {
        kind: PrimitiveKind::TrianglesSingleColor { color: red(), triangles: vec![t1, t2] },
        rect: full_window(),
        scizzor: full_window(),
    }];
    r.fill(800, 600, FX_ONE, &prims, &images);
    let cmds = collect(&r);
    assert_eq!(cmds.len(), 1);
    assert!(matches!(cmds[0], Command::Plain { start: 0, end: 6 }));
    assert_eq!(r.vertices().len(), 6);
}

#[test]
fn clip_change_emits_scissor_and_resets_to_plain() {
    // A clip change closes the open image range, emits exactly one
    // Scizzor, and resets the draw state to plain, so the second range of
    // the same image starts a fresh command.
    let mut r = Renderer::new();
    let mut images = ImageMap::new();
    images.insert(7, Texture { texture: 1, width: 8, height: 8 });
    let mut second = image_prim(7);
    second.scizzor = FxRect { l: 0, r: 100 * FX_ONE, b: 0, t: 100 * FX_ONE };
    let prims = vec![image_prim(7), second];
    r.fill(800, 600, FX_ONE, &prims, &images);
    let cmds = collect(&r);
    assert_eq!(cmds.len(), 3);
    assert!(matches!(cmds[0], Command::Image { image_id: 7, start: 0, end: 6 }));
    match cmds[1] {
        Command::Scizzor { rect } => {
            assert_eq!(rect.left, 400);
            assert_eq!(rect.bottom, 300);
            assert_eq!(rect.width, 100);
            assert_eq!(rect.height, 100);
        },
        _ => panic!("expected a scissor update"),
    }
    assert!(matches!(cmds[2], Command::Image { image_id: 7, start: 6, end: 12 }));
}

#[test]
fn first_differing_clip_comes_before_any_geometry() {
    let mut r = Renderer::new();
    let images = ImageMap::new();
    let mut p = rect_prim(red());
    p.scizzor = FxRect { l: 0, r: 100 * FX_ONE, b: 0, t: 100 * FX_ONE };
    let prims = vec![p];
    r.fill(800, 600, FX_ONE, &prims, &images);
    let cmds = collect(&r);
    assert_eq!(cmds.len(), 2);
    assert!(matches!(cmds[0], Command::Scizzor { .. }));
    assert!(matches!(cmds[1], Command::Plain { start: 0, end: 6 }));
}

#[test]
fn unchanged_clip_emits_no_scissor() {
    let mut r = Renderer::new();
    let images = ImageMap::new();
    let prims = vec![rect_prim(red()), rect_prim(red())];
    r.fill(800, 600, FX_ONE, &prims, &images);
    let cmds = collect(&r);
    assert_eq!(cmds.len(), 1);
    assert!(matches!(cmds[0], Command::Plain { start: 0, end: 12 }));
}

#[test]
fn empty_stream_emits_nothing() {
    let mut r = Renderer::new();
    let images = ImageMap::new();
    let prims: Vec<Primitive> = Vec::new();
    r.fill(800, 600, FX_ONE, &prims, &images);
    assert_eq!(collect(&r).len(), 0);
    assert_eq!(r.vertices().len(), 0);
}

#[test]
fn unknown_primitive_kind_is_invisible() {
    let mut r = Renderer::new();
    let images = ImageMap::new();
    let other = Primitive {
        kind: PrimitiveKind::Other,
        rect: full_window(),
        scizzor: full_window(),
    };
    let prims = vec![rect_prim(red()), other, rect_prim(red())];
    r.fill(800, 600, FX_ONE, &prims, &images);
    let cmds = collect(&r);
    assert_eq!(cmds.len(), 1);
    assert!(matches!(cmds[0], Command::Plain { start: 0, end: 12 }));
}

#[test]
fn ranges_tile_the_vertex_buffer() {
    // The concatenation of all draw ranges covers the vertex buffer
    // exactly once, in order, and every range is a multiple of three.
    let mut r = Renderer::new();
    let mut images = ImageMap::new();
    images.insert(7, Texture { texture: 1, width: 8, height: 8 });
    images.insert(8, Texture { texture: 2, width: 8, height: 8 });
    let mut clipped = rect_prim(red());
    clipped.scizzor = FxRect { l: 0, r: 50 * FX_ONE, b: 0, t: 50 * FX_ONE };
    let prims = vec![
        rect_prim(red()),
        image_prim(7),
        image_prim(8),
        image_prim(99),
        clipped,
        rect_prim(red()),
    ];
    r.fill(800, 600, FX_ONE, &prims, &images);
    let cmds = collect(&r);
    let mut expected_start: usize = 0;
    for c in &cmds {
        match *c {
            Command::Plain { start, end } | Command::Image { start, end, .. } => {
                assert_eq!(start, expected_start);
                assert!(end > start);
                assert_eq!((end - start) % 3, 0);
                expected_start = end;
            },
            Command::Scizzor { .. } => {},
        }
    }
    assert_eq!(expected_start, r.vertices().len());
}

#[test]
fn draw_steps_bind_the_right_textures() {
    let mut r = Renderer::new();
    let mut images = ImageMap::new();
    images.insert(7, Texture { texture: 42, width: 16, height: 16 });
    let prims = vec![rect_prim(red()), image_prim(7), rect_prim(red())];
    r.fill(800, 600, FX_ONE, &prims, &images);
    let steps = r.draw_steps(&images);
    assert_eq!(steps.len(), 3);
    assert!(matches!(
        steps[0],
        DrawStep::DrawTriangles { tex: TexBind::GlyphTexture, start: 0, end: 6 }
    ));
    assert!(matches!(
        steps[1],
        DrawStep::DrawTriangles { tex: TexBind::ImageTexture { texture: 42 }, start: 6, end: 12 }
    ));
    assert!(matches!(
        steps[2],
        DrawStep::DrawTriangles { tex: TexBind::GlyphTexture, start: 12, end: 18 }
    ));
}

#[test]
fn commands_iterator_ends_with_none() {
    let mut r = Renderer::new();
    let images = ImageMap::new();
    let prims = vec![rect_prim(red())];
    r.fill(800, 600, FX_ONE, &prims, &images);
    let mut it = r.commands();
    assert!(it.next().is_some());
    assert!(it.next().is_none());
    assert!(it.next().is_none());
}

#[test]
fn image_source_rect_sets_uv_coordinates() {
    // A source rectangle of the lower-left quarter of a 16x16 image maps
    // uv into [0, 1/2].
    let mut r = Renderer::new();
    let mut images = ImageMap::new();
    images.insert(7, Texture { texture: 1, width: 16, height: 16 });
    let p = Primitive {
        kind: PrimitiveKind::Image {
            image_id: 7,
            color: None,
            source_rect: Some(FxRect { l: 0, r: 8 * FX_ONE, b: 0, t: 8 * FX_ONE }),
        },
        rect: full_window(),
        scizzor: full_window(),
    };
    let prims = vec![p];
    r.fill(800, 600, FX_ONE, &prims, &images);
    let vs = r.vertices();
    assert_eq!(vs.len(), 6);
    for v in vs.iter() {
        assert!(v.u == 0 || v.u == FX_ONE / 2);
        assert!(v.v == 0 || v.v == FX_ONE / 2);
    }
    // The default tint is white, which converts to linear white.
    assert_eq!(vs[0].color, Rgba { r: 65536, g: 65536, b: 65536, a: 65536 });
}

#[test]
fn multicolor_triangle_converts_each_corner() {
    let mut r = Renderer::new();
    let images = ImageMap::new();
    let t = ColoredTriangle {
        a: FxPoint { x: 0, y: 0 },
        ca: Rgba { r: 65536, g: 0, b: 0, a: 65536 },
        b: FxPoint { x: 10 * FX_ONE, y: 0 },
        cb: Rgba { r: 32768, g: 32768, b: 32768, a: 65536 },
        c: FxPoint { x: 0, y: 10 * FX_ONE },
        cc: Rgba { r: 0, g: 0, b: 0, a: 65536 },
    };
    let prims = vec![Primitive {
        kind: PrimitiveKind::TrianglesMultiColor { triangles: vec![t] },
        rect: full_window(),
        scizzor: full_window(),
    }];
    r.fill(800, 600, FX_ONE, &prims, &images);
    let vs = r.vertices();
    assert_eq!(vs.len(), 3);
    assert_eq!(vs[0].color, Rgba { r: 65536, g: 0, b: 0, a: 65536 });
    assert_eq!(vs[1].color, Rgba { r: 14028, g: 14028, b: 14028, a: 65536 });
    assert_eq!(vs[2].color, Rgba { r: 0, g: 0, b: 0, a: 65536 });
}

#[test]
fn fill_replaces_the_previous_frame_entirely() {
    // A second fill fully rebuilds the vertex and command buffers; nothing
    // of the first frame leaks into the second.
    let mut r = Renderer::new();
    let images = ImageMap::new();
    let first = vec![rect_prim(red()), rect_prim(red()), rect_prim(red())];
    r.fill(800, 600, FX_ONE, &first, &images);
    assert_eq!(r.vertices().len(), 18);
    let second = vec![rect_prim(red())];
    r.fill(800, 600, FX_ONE, &second, &images);
    let cmds = collect(&r);
    assert_eq!(r.vertices().len(), 6);
    assert_eq!(cmds.len(), 1);
    assert!(matches!(cmds[0], Command::Plain { start: 0, end: 6 }));
}
