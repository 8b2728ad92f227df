//! The command batcher: the mathematical model of one `fill` pass.
//!
//! A pass walks the primitive stream once and grows a vertex buffer and a
//! command list.  Two dimensions of state interleave: the draw state (plain
//! geometry or one image), which closes the open vertex range whenever it
//! changes, and the clip state, which closes the open range, emits a
//! `Scizzor` command and resets the draw state to plain whenever a
//! primitive's clip rectangle differs from the active one.  A closed range
//! is dropped when empty and merged into the previous command when that
//! command has the same draw state and ends where the range begins, so the
//! emitted command list is minimal.

use vstd::prelude::*;
use crate::color::{gamma_srgb_to_linear_spec, Rgba};
use crate::coords::{
    default_scizzor_spec, gx_spec, gy_spec, to_gl_rect_spec, vx_spec, vy_spec, FxRect, GlRect,
};
use crate::fixed::round_div;
use crate::glyph::{
    find_place, flush_model, key_of_spec, queue_model, uv_of_spec, CacheM, QueuedM, UploadM,
};
use crate::image_table::{ImageMap, Texture};
use crate::primitive::{
    ColoredTriangle, GlyphInst, Primitive, PrimitiveKind, Triangle, Vertex, MODE_GEOMETRY,
    MODE_IMAGE, MODE_TEXT,
};

verus! {

/// A draw command over mathematical vertex ranges.
pub enum CmdM {
    /// Draw a range of plain (geometry or text) vertices.
    Plain {
        /// First vertex of the range.
        start: int,
        /// One past the last vertex of the range.
        end: int,
    },
    /// Draw a range of vertices textured with one image.
    Image {
        /// The image to bind.
        image_id: u64,
        /// First vertex of the range.
        start: int,
        /// One past the last vertex of the range.
        end: int,
    },
    /// Replace the active scissor rectangle.
    Scizzor {
        /// The new clip rectangle.
        rect: GlRect,
    },
}

/// The whole state of a pass: emitted commands, vertices, the open range
/// and its draw state, the active clip rectangle, the glyph cache, and the
/// texture uploads gathered so far.
pub struct BatchM {
    /// Commands emitted so far.
    pub cmds: Seq<CmdM>,
    /// Vertices emitted so far.
    pub verts: Seq<Vertex>,
    /// Start of the open vertex range.
    pub open_start: int,
    /// Draw state of the open range: an image, or plain when `None`.
    pub open_image: Option<u64>,
    /// The active clip rectangle.
    pub scizzor: GlRect,
    /// The glyph cache.
    pub cache: CacheM,
    /// Glyph texture regions changed so far.
    pub ups: Seq<UploadM>,
}

/// The initial state of a pass over a framebuffer of `w` by `h` pixels.
pub open spec fn init_state(cache: CacheM, w: u32, h: u32) -> BatchM {
    BatchM {
        cmds: Seq::empty(),
        verts: Seq::empty(),
        open_start: 0,
        open_image: None,
        scizzor: default_scizzor_spec(w, h),
        cache,
        ups: Seq::empty(),
    }
}

/// Whether a closed range with the given draw state can extend a command.
pub open spec fn mergeable(c: CmdM, tag: Option<u64>, start: int) -> bool {
    match c {
        CmdM::Plain { start: _, end } => tag is None && end == start,
        CmdM::Image { image_id, start: _, end } => tag == Some(image_id) && end == start,
        CmdM::Scizzor { .. } => false,
    }
}

/// The command extended to a new end.
pub open spec fn extended(c: CmdM, end: int) -> CmdM {
    match c {
        CmdM::Plain { start, end: _ } => CmdM::Plain { start, end },
        CmdM::Image { image_id, start, end: _ } => CmdM::Image { image_id, start, end },
        CmdM::Scizzor { rect } => CmdM::Scizzor { rect },
    }
}

/// The command a draw state and range stand for.
pub open spec fn draw_cmd(tag: Option<u64>, start: int, end: int) -> CmdM {
    match tag {
        None => CmdM::Plain { start, end },
        Some(image_id) => CmdM::Image { image_id, start, end },
    }
}

/// Closes a vertex range into the command list: dropped when empty, merged
/// into the last command when that command has the same draw state and ends
/// where the range begins, appended otherwise.
pub open spec fn push_draw(cmds: Seq<CmdM>, tag: Option<u64>, start: int, end: int) -> Seq<
    CmdM,
> {
    if end <= start {
        cmds
    } else if cmds.len() > 0 && mergeable(cmds.last(), tag, start) {
        cmds.update(cmds.len() - 1, extended(cmds.last(), end))
    } else {
        cmds.push(draw_cmd(tag, start, end))
    }
}

/// Closes the open range; the next range opens at the current vertex count
/// with the draw state unchanged.
pub open spec fn close_m(st: BatchM) -> BatchM {
    BatchM {
        cmds: push_draw(st.cmds, st.open_image, st.open_start, st.verts.len() as int),
        open_start: st.verts.len() as int,
        ..st
    }
}

/// The clip step of one primitive: when its clip rectangle differs from the
/// active one, the open range closes, a `Scizzor` command is emitted, and
/// the draw state resets to plain.
pub open spec fn scissor_step_m(st: BatchM, new: GlRect) -> BatchM {
    if new == st.scizzor {
        st
    } else {
        let c = close_m(st);
        BatchM {
            cmds: c.cmds.push(CmdM::Scizzor { rect: new }),
            scizzor: new,
            open_image: None,
            ..c
        }
    }
}

/// Ensures the draw state is plain, closing the open range if it was an
/// image.
pub open spec fn to_plain_m(st: BatchM) -> BatchM {
    if st.open_image is None {
        st
    } else {
        let c = close_m(st);
        BatchM { open_image: None, ..c }
    }
}

/// Ensures the draw state is the given image, closing the open range if it
/// was anything else.
pub open spec fn to_image_m(st: BatchM, image_id: u64) -> BatchM {
    if st.open_image == Some(image_id) {
        st
    } else {
        let c = close_m(st);
        BatchM { open_image: Some(image_id), ..c }
    }
}

/// Appends vertices to the open range.
pub open spec fn append_m(st: BatchM, vs: Seq<Vertex>) -> BatchM {
    BatchM { verts: st.verts + vs, ..st }
}

/// A plain geometry vertex.
pub open spec fn geom_v(x: int, y: int, c: Rgba) -> Vertex {
    Vertex { mode: MODE_GEOMETRY, x: x as i64, y: y as i64, u: 0, v: 0, color: c }
}

/// A text vertex.
pub open spec fn text_v(x: int, y: int, u: int, v: int, c: Rgba) -> Vertex {
    Vertex { mode: MODE_TEXT, x: x as i64, y: y as i64, u: u as i64, v: v as i64, color: c }
}

/// An image vertex.
pub open spec fn image_v(x: int, y: int, u: int, v: int, c: Rgba) -> Vertex {
    Vertex { mode: MODE_IMAGE, x: x as i64, y: y as i64, u: u as i64, v: v as i64, color: c }
}

/// The six vertices of a solid rectangle: two triangles covering its
/// bounds, in the order bottom-left triangle then top-right triangle.
pub open spec fn rect_verts_spec(r: FxRect, c: Rgba, d: i64, w: u32, h: u32) -> Seq<Vertex> {
    let l = vx_spec(r.l, d, w);
    let rr = vx_spec(r.r, d, w);
    let b = vy_spec(r.b, d, h);
    let t = vy_spec(r.t, d, h);
    seq![
        geom_v(l, t, c),
        geom_v(rr, b, c),
        geom_v(l, b, c),
        geom_v(l, t, c),
        geom_v(rr, b, c),
        geom_v(rr, t, c),
    ]
}

/// The three vertices of one solid-color triangle.
pub open spec fn tri3_spec(t: Triangle, c: Rgba, d: i64, w: u32, h: u32) -> Seq<Vertex> {
    seq![
        geom_v(vx_spec(t.a.x, d, w), vy_spec(t.a.y, d, h), c),
        geom_v(vx_spec(t.b.x, d, w), vy_spec(t.b.y, d, h), c),
        geom_v(vx_spec(t.c.x, d, w), vy_spec(t.c.y, d, h), c),
    ]
}

/// The vertices of a batch of solid-color triangles, in order.
pub open spec fn tris_single_spec(ts: Seq<Triangle>, c: Rgba, d: i64, w: u32, h: u32) -> Seq<
    Vertex,
>
    decreases ts.len(),
{
    if ts.len() == 0 {
        Seq::empty()
    } else {
        tris_single_spec(ts.drop_last(), c, d, w, h) + tri3_spec(ts.last(), c, d, w, h)
    }
}

/// The three vertices of one per-corner-colored triangle; each corner's
/// color converts to linear light on its own.
pub open spec fn tri3m_spec(t: ColoredTriangle, d: i64, w: u32, h: u32) -> Seq<Vertex> {
    seq![
        geom_v(vx_spec(t.a.x, d, w), vy_spec(t.a.y, d, h), gamma_srgb_to_linear_spec(t.ca)),
        geom_v(vx_spec(t.b.x, d, w), vy_spec(t.b.y, d, h), gamma_srgb_to_linear_spec(t.cb)),
        geom_v(vx_spec(t.c.x, d, w), vy_spec(t.c.y, d, h), gamma_srgb_to_linear_spec(t.cc)),
    ]
}

/// The vertices of a batch of per-corner-colored triangles, in order.
pub open spec fn tris_multi_spec(ts: Seq<ColoredTriangle>, d: i64, w: u32, h: u32) -> Seq<
    Vertex,
>
    decreases ts.len(),
{
    if ts.len() == 0 {
        Seq::empty()
    } else {
        tris_multi_spec(ts.drop_last(), d, w, h) + tri3m_spec(ts.last(), d, w, h)
    }
}

/// The quad of one placed glyph: the placement's pixel rectangle at the
/// glyph's screen position, textured with the cache rectangle.  An
/// unplaced glyph contributes nothing.
pub open spec fn glyph_quad_spec(
    g: GlyphInst,
    font_id: u64,
    cache: CacheM,
    c: Rgba,
    w: u32,
    h: u32,
) -> Seq<Vertex> {
    let key = key_of_spec(font_id, g.glyph_id, g.off_x, g.off_y, cache.tol);
    match find_place(cache.entries, key) {
        None => Seq::empty(),
        Some(p) => {
            let uv = uv_of_spec(p, cache.width, cache.height);
            let x0 = gx_spec(g.left, w);
            let x1 = gx_spec((g.left + p.w) as i64, w);
            let y0 = gy_spec(g.top, h);
            let y1 = gy_spec((g.top + p.h) as i64, h);
            seq![
                text_v(x0, y1, uv.u0 as int, uv.v1 as int, c),
                text_v(x0, y0, uv.u0 as int, uv.v0 as int, c),
                text_v(x1, y0, uv.u1 as int, uv.v0 as int, c),
                text_v(x1, y0, uv.u1 as int, uv.v0 as int, c),
                text_v(x1, y1, uv.u1 as int, uv.v1 as int, c),
                text_v(x0, y1, uv.u0 as int, uv.v1 as int, c),
            ]
        },
    }
}

/// The vertices of a text run against a flushed cache, in glyph order.
pub open spec fn text_verts_spec(
    gs: Seq<GlyphInst>,
    font_id: u64,
    cache: CacheM,
    c: Rgba,
    w: u32,
    h: u32,
) -> Seq<Vertex>
    decreases gs.len(),
{
    if gs.len() == 0 {
        Seq::empty()
    } else {
        text_verts_spec(gs.drop_last(), font_id, cache, c, w, h) + glyph_quad_spec(
            gs.last(),
            font_id,
            cache,
            c,
            w,
            h,
        )
    }
}

/// Queueing every glyph of a text run, in order.
pub open spec fn queue_run_m(cache: CacheM, font_id: u64, gs: Seq<GlyphInst>) -> CacheM
    decreases gs.len(),
{
    if gs.len() == 0 {
        cache
    } else {
        let g = gs.last();
        queue_model(
            queue_run_m(cache, font_id, gs.drop_last()),
            QueuedM {
                key: key_of_spec(font_id, g.glyph_id, g.off_x, g.off_y, cache.tol),
                w: g.width,
                h: g.height,
                data: g.data@,
            },
        )
    }
}

/// The six vertices of an image quad: the primitive's bounds textured with
/// the source rectangle, or with the whole texture when none is given.
pub open spec fn image_verts_spec(
    r: FxRect,
    src: Option<FxRect>,
    tex: Texture,
    c: Rgba,
    d: i64,
    w: u32,
    h: u32,
) -> Seq<Vertex> {
    let uv_l = match src {
        Some(sr) => round_div(sr.l as int, tex.width as int),
        None => 0,
    };
    let uv_r = match src {
        Some(sr) => round_div(sr.r as int, tex.width as int),
        None => 65536,
    };
    let uv_b = match src {
        Some(sr) => round_div(sr.b as int, tex.height as int),
        None => 0,
    };
    let uv_t = match src {
        Some(sr) => round_div(sr.t as int, tex.height as int),
        None => 65536,
    };
    let l = vx_spec(r.l, d, w);
    let rr = vx_spec(r.r, d, w);
    let b = vy_spec(r.b, d, h);
    let t = vy_spec(r.t, d, h);
    seq![
        image_v(l, t, uv_l, uv_t, c),
        image_v(rr, b, uv_r, uv_b, c),
        image_v(l, b, uv_l, uv_b, c),
        image_v(l, t, uv_l, uv_t, c),
        image_v(rr, b, uv_r, uv_b, c),
        image_v(rr, t, uv_r, uv_t, c),
    ]
}

/// The white tint used for an image primitive without a color.
pub open spec fn white_rgba() -> Rgba {
    Rgba { r: 65536, g: 65536, b: 65536, a: 65536 }
}

/// One primitive's effect on the pass state.
pub open spec fn prim_step_m(st: BatchM, p: Primitive, d: i64, w: u32, h: u32, im: ImageMap) -> BatchM {
    let st1 = scissor_step_m(st, to_gl_rect_spec(p.scizzor, d, w, h));
    match p.kind {
        PrimitiveKind::Rectangle { color } => append_m(
            to_plain_m(st1),
            rect_verts_spec(p.rect, gamma_srgb_to_linear_spec(color), d, w, h),
        ),
        PrimitiveKind::TrianglesSingleColor { color, triangles } => {
            if triangles@.len() == 0 {
                st1
            } else {
                append_m(
                    to_plain_m(st1),
                    tris_single_spec(triangles@, gamma_srgb_to_linear_spec(color), d, w, h),
                )
            }
        },
        PrimitiveKind::TrianglesMultiColor { triangles } => {
            if triangles@.len() == 0 {
                st1
            } else {
                append_m(to_plain_m(st1), tris_multi_spec(triangles@, d, w, h))
            }
        },
        PrimitiveKind::Text { color, font_id, glyphs } => {
            let st2 = to_plain_m(st1);
            let cache1 = queue_run_m(st2.cache, font_id, glyphs@);
            let (cache2, ups2) = flush_model(cache1);
            let st3 = BatchM { cache: cache2, ups: st2.ups + ups2, ..st2 };
            append_m(
                st3,
                text_verts_spec(
                    glyphs@,
                    font_id,
                    cache2,
                    gamma_srgb_to_linear_spec(color),
                    w,
                    h,
                ),
            )
        },
        PrimitiveKind::Image { image_id, color, source_rect } => {
            let st2 = to_image_m(st1, image_id);
            match im.spec_get(image_id) {
                None => st2,
                Some(tex) => append_m(
                    st2,
                    image_verts_spec(
                        p.rect,
                        source_rect,
                        tex,
                        gamma_srgb_to_linear_spec(
                            match color {
                                Some(cc) => cc,
                                None => white_rgba(),
                            },
                        ),
                        d,
                        w,
                        h,
                    ),
                ),
            }
        },
        PrimitiveKind::Other => st1,
    }
}

/// The pass state after the first `n` primitives.
pub open spec fn fill_fold(
    prims: Seq<Primitive>,
    d: i64,
    w: u32,
    h: u32,
    im: ImageMap,
    st0: BatchM,
) -> BatchM
    decreases prims.len(),
{
    if prims.len() == 0 {
        st0
    } else {
        prim_step_m(
            fill_fold(prims.drop_last(), d, w, h, im, st0),
            prims.last(),
            d,
            w,
            h,
            im,
        )
    }
}

/// The whole pass: every primitive in order, then the still-open range is
/// closed into a final command.
pub open spec fn fill_model(
    prims: Seq<Primitive>,
    d: i64,
    w: u32,
    h: u32,
    im: ImageMap,
    cache0: CacheM,
) -> BatchM {
    close_m(fill_fold(prims, d, w, h, im, init_state(cache0, w, h)))
}

/// The draw ranges of a command list, in command order.
pub open spec fn dranges(cmds: Seq<CmdM>) -> Seq<(int, int)>
    decreases cmds.len(),
{
    if cmds.len() == 0 {
        Seq::empty()
    } else {
        dranges(cmds.drop_last()) + (match cmds.last() {
            CmdM::Plain { start, end } => seq![(start, end)],
            CmdM::Image { image_id: _, start, end } => seq![(start, end)],
            CmdM::Scizzor { .. } => Seq::empty(),
        })
    }
}

/// The ranges tile `[lo, hi)` in order: each starts where the one before
/// it ended, the first at `lo`, the last ending at `hi`.
pub open spec fn chain(rs: Seq<(int, int)>, lo: int, hi: int) -> bool
    decreases rs.len(),
{
    if rs.len() == 0 {
        lo == hi
    } else {
        chain(rs.drop_last(), lo, rs.last().0) && rs.last().0 <= rs.last().1 && rs.last().1
            == hi
    }
}

/// A draw command is nonempty and holds whole triangles.
pub open spec fn draw_cmd_ok(c: CmdM) -> bool {
    match c {
        CmdM::Plain { start, end } => start < end && (end - start) % 3 == 0,
        CmdM::Image { image_id: _, start, end } => start < end && (end - start) % 3 == 0,
        CmdM::Scizzor { .. } => true,
    }
}

/// Every draw command of the list is nonempty and triangle-aligned.
pub open spec fn draws_ok(cmds: Seq<CmdM>) -> bool {
    forall|i: int| 0 <= i < cmds.len() ==> draw_cmd_ok(#[trigger] cmds[i])
}

/// Whether two commands share a draw state: both plain, or both the same
/// image.  Adjacent commands sharing a draw state should have been merged.
pub open spec fn same_state(a: CmdM, b: CmdM) -> bool {
    match (a, b) {
        (CmdM::Plain { .. }, CmdM::Plain { .. }) => true,
        (
            CmdM::Image { image_id: ia, start: _, end: _ },
            CmdM::Image { image_id: ib, start: _, end: _ },
        ) => ia == ib,
        _ => false,
    }
}

/// No two adjacent commands share a draw state.
pub open spec fn merged_ok(cmds: Seq<CmdM>) -> bool {
    forall|i: int|
        0 <= i < cmds.len() - 1 ==> !same_state(#[trigger] cmds[i], cmds[i + 1])
}

/// The clip rectangle active after a command list runs, starting from the
/// frame default.
pub open spec fn active_scizzor(cmds: Seq<CmdM>, d0: GlRect) -> GlRect
    decreases cmds.len(),
{
    if cmds.len() == 0 {
        d0
    } else {
        match cmds.last() {
            CmdM::Scizzor { rect } => rect,
            _ => active_scizzor(cmds.drop_last(), d0),
        }
    }
}

/// Every `Scizzor` command changes the active clip rectangle: none repeats
/// the rectangle that was already active.
pub open spec fn scizzors_distinct(cmds: Seq<CmdM>, d0: GlRect) -> bool
    decreases cmds.len(),
{
    if cmds.len() == 0 {
        true
    } else {
        scizzors_distinct(cmds.drop_last(), d0) && (match cmds.last() {
            CmdM::Scizzor { rect } => rect != active_scizzor(cmds.drop_last(), d0),
            _ => true,
        })
    }
}

/// The pass invariant: the emitted ranges tile `[0, open_start)`, the open
/// range is triangle-aligned, every emitted draw is sound, adjacent
/// commands are merged, and the tracked clip rectangle is the active one.
pub open spec fn batch_inv(st: BatchM, d0: GlRect) -> bool {
    &&& 0 <= st.open_start <= st.verts.len()
    &&& (st.verts.len() - st.open_start) % 3 == 0
    &&& chain(dranges(st.cmds), 0, st.open_start)
    &&& draws_ok(st.cmds)
    &&& merged_ok(st.cmds)
    &&& active_scizzor(st.cmds, d0) == st.scizzor
    &&& scizzors_distinct(st.cmds, d0)
}

/// Closing the open range preserves the invariant and does not touch the
/// active clip rectangle.
proof fn lemma_close_inv(st: BatchM, d0: GlRect)
    requires
        batch_inv(st, d0),
    ensures
        batch_inv(close_m(st), d0),
        active_scizzor(close_m(st).cmds, d0) == active_scizzor(st.cmds, d0),
        close_m(st).open_start == st.verts.len(),
        close_m(st).cmds.len() >= st.cmds.len(),
        st.cmds.len() >= 1 ==> close_m(st).cmds.len() >= 1,
        forall|i: int|
            0 <= i < st.cmds.len() - 1 ==> #[trigger] close_m(st).cmds[i] == st.cmds[i],
        st.cmds.len() >= 1 && st.cmds[0] is Scizzor ==> close_m(st).cmds[0] == st.cmds[0],
{
    let cmds = st.cmds;
    let tag = st.open_image;
    let s0 = st.open_start;
    let e0 = st.verts.len() as int;
    let out = push_draw(cmds, tag, s0, e0);
    if e0 <= s0 {
        assert(e0 == s0);
    } else if cmds.len() > 0 && mergeable(cmds.last(), tag, s0) {
        let n = cmds.len() as int;
        let last = cmds.last();
        let ext = extended(last, e0);
        let u = cmds.update(n - 1, ext);
        assert(u.drop_last() =~= cmds.drop_last());
        assert(u.last() == ext);
        match last {
            CmdM::Plain { start, end } => {
                assert(end == s0);
                assert(dranges(cmds) == dranges(cmds.drop_last()) + seq![(start, end)]);
                assert(dranges(u) == dranges(cmds.drop_last()) + seq![(start, e0)]);
                lemma_chain_concat_one(dranges(cmds.drop_last()), start, end, s0);
                assert(chain(dranges(cmds.drop_last()), 0, start));
                assert((dranges(cmds.drop_last()) + seq![(start, e0)]).drop_last()
                    =~= dranges(cmds.drop_last()));
                assert(chain(dranges(u), 0, e0));
                assert((e0 - start) % 3 == 0) by {
                    vstd::arithmetic::div_mod::lemma_add_mod_noop(s0 - start, e0 - s0, 3);
                };
                assert(draw_cmd_ok(ext));
            },
            CmdM::Image { image_id, start, end } => {
                assert(end == s0);
                assert(dranges(cmds) == dranges(cmds.drop_last()) + seq![(start, end)]);
                assert(dranges(u) == dranges(cmds.drop_last()) + seq![(start, e0)]);
                lemma_chain_concat_one(dranges(cmds.drop_last()), start, end, s0);
                assert(chain(dranges(cmds.drop_last()), 0, start));
                assert((dranges(cmds.drop_last()) + seq![(start, e0)]).drop_last()
                    =~= dranges(cmds.drop_last()));
                assert(chain(dranges(u), 0, e0));
                assert((e0 - start) % 3 == 0) by {
                    vstd::arithmetic::div_mod::lemma_add_mod_noop(s0 - start, e0 - s0, 3);
                };
                assert(draw_cmd_ok(ext));
            },
            CmdM::Scizzor { .. } => {
                assert(false);
            },
        }
        assert(draws_ok(u)) by {
            assert forall|i: int| 0 <= i < u.len() implies draw_cmd_ok(#[trigger] u[i]) by {
                if i < n - 1 {
                    assert(u[i] == cmds[i]);
                    assert(draw_cmd_ok(cmds[i]));
                } else {
                    assert(u[i] == extended(last, e0));
                }
            }
        }
        assert(merged_ok(u)) by {
            assert forall|i: int| 0 <= i < u.len() - 1 implies !same_state(
                #[trigger] u[i],
                u[i + 1],
            ) by {
                assert(!same_state(cmds[i], cmds[i + 1]));
                if i + 1 < n - 1 {
                    assert(u[i] == cmds[i] && u[i + 1] == cmds[i + 1]);
                } else {
                    assert(u[i] == cmds[i]);
                    assert(u[i + 1] == extended(last, e0));
                }
            }
        }
        assert(active_scizzor(u, d0) == active_scizzor(cmds, d0));
        assert(scizzors_distinct(u, d0));
    } else {
        let newc = draw_cmd(tag, s0, e0);
        let p = cmds.push(newc);
        assert(p.drop_last() =~= cmds);
        assert(p.last() == newc);
        assert(dranges(p) == dranges(cmds) + seq![(s0, e0)]);
        assert((dranges(cmds) + seq![(s0, e0)]).drop_last() =~= dranges(cmds));
        assert(chain(dranges(p), 0, e0));
        assert(draw_cmd_ok(newc));
        assert(draws_ok(p)) by {
            assert forall|i: int| 0 <= i < p.len() implies draw_cmd_ok(#[trigger] p[i]) by {
                if i < cmds.len() {
                    assert(p[i] == cmds[i]);
                    assert(draw_cmd_ok(cmds[i]));
                }
            }
        }
        if cmds.len() > 0 {
            lemma_last_draw_ends_open(cmds, s0);
            assert(!same_state(cmds.last(), newc));
        }
        assert(merged_ok(p)) by {
            assert forall|i: int| 0 <= i < p.len() - 1 implies !same_state(
                #[trigger] p[i],
                p[i + 1],
            ) by {
                if i < cmds.len() - 1 {
                    assert(p[i] == cmds[i] && p[i + 1] == cmds[i + 1]);
                    assert(!same_state(cmds[i], cmds[i + 1]));
                } else {
                    assert(p[i] == cmds.last() && p[i + 1] == newc);
                }
            }
        }
        assert(active_scizzor(p, d0) == active_scizzor(cmds, d0));
        assert(scizzors_distinct(p, d0));
    }
}

/// If the chain of a list ending in a draw reaches `hi`, that draw ends at
/// `hi`; so a draw command last in the list is mergeable exactly when the
/// draw state matches.
proof fn lemma_last_draw_ends_open(cmds: Seq<CmdM>, s0: int)
    requires
        cmds.len() > 0,
        chain(dranges(cmds), 0, s0),
    ensures
        match cmds.last() {
            CmdM::Plain { start: _, end } => end == s0,
            CmdM::Image { image_id: _, start: _, end } => end == s0,
            CmdM::Scizzor { .. } => true,
        },
{
    match cmds.last() {
        CmdM::Plain { start, end } => {
            assert(dranges(cmds) == dranges(cmds.drop_last()) + seq![(start, end)]);
            assert(dranges(cmds).last() == (start, end));
        },
        CmdM::Image { image_id: _, start, end } => {
            assert(dranges(cmds) == dranges(cmds.drop_last()) + seq![(start, end)]);
            assert(dranges(cmds).last() == (start, end));
        },
        CmdM::Scizzor { .. } => {},
    }
}

/// Unfolding a chain over a list extended with one range.
proof fn lemma_chain_concat_one(rs: Seq<(int, int)>, a: int, b: int, hi: int)
    requires
        chain(rs + seq![(a, b)], 0, hi),
    ensures
        chain(rs, 0, a),
        a <= b,
        b == hi,
{
    let full = rs + seq![(a, b)];
    assert(full.last() == (a, b));
    assert(full.drop_last() =~= rs);
}

/// The clip step preserves the invariant.
proof fn lemma_scissor_inv(st: BatchM, new: GlRect, d0: GlRect)
    requires
        batch_inv(st, d0),
    ensures
        batch_inv(scissor_step_m(st, new), d0),
{
    if new != st.scizzor {
        lemma_close_inv(st, d0);
        let c = close_m(st);
        let p = c.cmds.push(CmdM::Scizzor { rect: new });
        assert(p.drop_last() =~= c.cmds);
        assert(p.last() == CmdM::Scizzor { rect: new });
        assert(dranges(p) =~= dranges(c.cmds) + Seq::<(int, int)>::empty());
        assert(dranges(p) =~= dranges(c.cmds));
        assert(chain(dranges(p), 0, c.open_start));
        assert(draws_ok(p)) by {
            assert forall|i: int| 0 <= i < p.len() implies draw_cmd_ok(#[trigger] p[i]) by {
                if i < c.cmds.len() {
                    assert(p[i] == c.cmds[i]);
                    assert(draw_cmd_ok(c.cmds[i]));
                }
            }
        }
        assert(merged_ok(p)) by {
            assert forall|i: int| 0 <= i < p.len() - 1 implies !same_state(
                #[trigger] p[i],
                p[i + 1],
            ) by {
                if i < c.cmds.len() - 1 {
                    assert(p[i] == c.cmds[i] && p[i + 1] == c.cmds[i + 1]);
                    assert(!same_state(c.cmds[i], c.cmds[i + 1]));
                } else {
                    assert(p[i + 1] == CmdM::Scizzor { rect: new });
                }
            }
        }
        assert(active_scizzor(p, d0) == new);
        assert(scizzors_distinct(p, d0));
    }
}

/// Resetting the draw state to plain preserves the invariant.
proof fn lemma_to_plain_inv(st: BatchM, d0: GlRect)
    requires
        batch_inv(st, d0),
    ensures
        batch_inv(to_plain_m(st), d0),
{
    if !(st.open_image is None) {
        lemma_close_inv(st, d0);
    }
}

/// Switching the draw state to an image preserves the invariant.
proof fn lemma_to_image_inv(st: BatchM, image_id: u64, d0: GlRect)
    requires
        batch_inv(st, d0),
    ensures
        batch_inv(to_image_m(st, image_id), d0),
{
    if st.open_image != Some(image_id) {
        lemma_close_inv(st, d0);
    }
}

/// Appending whole triangles preserves the invariant.
proof fn lemma_append_inv(st: BatchM, vs: Seq<Vertex>, d0: GlRect)
    requires
        batch_inv(st, d0),
        vs.len() % 3 == 0,
    ensures
        batch_inv(append_m(st, vs), d0),
{
    assert((st.verts.len() + vs.len() - st.open_start) % 3 == 0) by {
        vstd::arithmetic::div_mod::lemma_add_mod_noop(
            st.verts.len() - st.open_start,
            vs.len() as int,
            3,
        );
    };
    assert((st.verts + vs).len() == st.verts.len() + vs.len());
}

/// A batch of solid-color triangles yields three vertices per triangle.
proof fn lemma_tris_single_len(ts: Seq<Triangle>, c: Rgba, d: i64, w: u32, h: u32)
    ensures
        tris_single_spec(ts, c, d, w, h).len() == 3 * ts.len(),
    decreases ts.len(),
{
    if ts.len() > 0 {
        lemma_tris_single_len(ts.drop_last(), c, d, w, h);
    }
}

/// A batch of per-corner-colored triangles yields three vertices per
/// triangle.
proof fn lemma_tris_multi_len(ts: Seq<ColoredTriangle>, d: i64, w: u32, h: u32)
    ensures
        tris_multi_spec(ts, d, w, h).len() == 3 * ts.len(),
    decreases ts.len(),
{
    if ts.len() > 0 {
        lemma_tris_multi_len(ts.drop_last(), d, w, h);
    }
}

/// A text run yields six vertices per placed glyph and none for the rest:
/// whole triangles, and never more than six per glyph.
proof fn lemma_text_verts_len(
    gs: Seq<GlyphInst>,
    font_id: u64,
    cache: CacheM,
    c: Rgba,
    w: u32,
    h: u32,
)
    ensures
        tex_len(gs, font_id, cache, c, w, h) % 3 == 0,
        tex_len(gs, font_id, cache, c, w, h) <= 6 * gs.len(),
    decreases gs.len(),
{
    if gs.len() > 0 {
        lemma_text_verts_len(gs.drop_last(), font_id, cache, c, w, h);
    }
}

/// Abbreviation for the length of a text run's vertex list.
pub open spec fn tex_len(
    gs: Seq<GlyphInst>,
    font_id: u64,
    cache: CacheM,
    c: Rgba,
    w: u32,
    h: u32,
) -> int {
    text_verts_spec(gs, font_id, cache, c, w, h).len() as int
}

/// One primitive step preserves the invariant.
proof fn lemma_step_inv(st: BatchM, p: Primitive, d: i64, w: u32, h: u32, im: ImageMap, d0: GlRect)
    requires
        batch_inv(st, d0),
    ensures
        batch_inv(prim_step_m(st, p, d, w, h, im), d0),
{
    let st1 = scissor_step_m(st, to_gl_rect_spec(p.scizzor, d, w, h));
    lemma_scissor_inv(st, to_gl_rect_spec(p.scizzor, d, w, h), d0);
    match p.kind {
        PrimitiveKind::Rectangle { color } => {
            lemma_to_plain_inv(st1, d0);
            lemma_append_inv(
                to_plain_m(st1),
                rect_verts_spec(p.rect, gamma_srgb_to_linear_spec(color), d, w, h),
                d0,
            );
        },
        PrimitiveKind::TrianglesSingleColor { color, triangles } => {
            if triangles@.len() != 0 {
                lemma_to_plain_inv(st1, d0);
                lemma_tris_single_len(
                    triangles@,
                    gamma_srgb_to_linear_spec(color),
                    d,
                    w,
                    h,
                );
                assert((3 * triangles@.len()) % 3 == 0) by {
                    vstd::arithmetic::div_mod::lemma_mod_multiples_basic(
                        triangles@.len() as int,
                        3,
                    );
                };
                lemma_append_inv(
                    to_plain_m(st1),
                    tris_single_spec(triangles@, gamma_srgb_to_linear_spec(color), d, w, h),
                    d0,
                );
            }
        },
        PrimitiveKind::TrianglesMultiColor { triangles } => {
            if triangles@.len() != 0 {
                lemma_to_plain_inv(st1, d0);
                lemma_tris_multi_len(triangles@, d, w, h);
                assert((3 * triangles@.len()) % 3 == 0) by {
                    vstd::arithmetic::div_mod::lemma_mod_multiples_basic(
                        triangles@.len() as int,
                        3,
                    );
                };
                lemma_append_inv(to_plain_m(st1), tris_multi_spec(triangles@, d, w, h), d0);
            }
        },
        PrimitiveKind::Text { color, font_id, glyphs } => {
            lemma_to_plain_inv(st1, d0);
            let st2 = to_plain_m(st1);
            let cache1 = queue_run_m(st2.cache, font_id, glyphs@);
            let (cache2, ups2) = flush_model(cache1);
            let st3 = BatchM { cache: cache2, ups: st2.ups + ups2, ..st2 };
            assert(batch_inv(st3, d0));
            lemma_text_verts_len(
                glyphs@,
                font_id,
                cache2,
                gamma_srgb_to_linear_spec(color),
                w,
                h,
            );
            lemma_append_inv(
                st3,
                text_verts_spec(
                    glyphs@,
                    font_id,
                    cache2,
                    gamma_srgb_to_linear_spec(color),
                    w,
                    h,
                ),
                d0,
            );
        },
        PrimitiveKind::Image { image_id, color, source_rect } => {
            lemma_to_image_inv(st1, image_id, d0);
            let st2 = to_image_m(st1, image_id);
            match im.spec_get(image_id) {
                None => {},
                Some(tex) => {
                    lemma_append_inv(
                        st2,
                        image_verts_spec(
                            p.rect,
                            source_rect,
                            tex,
                            gamma_srgb_to_linear_spec(
                                match color {
                                    Some(cc) => cc,
                                    None => white_rgba(),
                                },
                            ),
                            d,
                            w,
                            h,
                        ),
                        d0,
                    );
                },
            }
        },
        PrimitiveKind::Other => {},
    }
}

/// The invariant holds after any number of primitives.
proof fn lemma_fold_inv(
    prims: Seq<Primitive>,
    d: i64,
    w: u32,
    h: u32,
    im: ImageMap,
    cache0: CacheM,
)
    ensures
        batch_inv(
            fill_fold(prims, d, w, h, im, init_state(cache0, w, h)),
            default_scizzor_spec(w, h),
        ),
    decreases prims.len(),
{
    let d0 = default_scizzor_spec(w, h);
    if prims.len() == 0 {
        let st0 = init_state(cache0, w, h);
        assert(dranges(st0.cmds) =~= Seq::<(int, int)>::empty());
        assert(batch_inv(st0, d0));
    } else {
        lemma_fold_inv(prims.drop_last(), d, w, h, im, cache0);
        lemma_step_inv(
            fill_fold(prims.drop_last(), d, w, h, im, init_state(cache0, w, h)),
            prims.last(),
            d,
            w,
            h,
            im,
            d0,
        );
    }
}

/// For any primitive stream, the concatenation of the vertex ranges of the
/// emitted commands tiles the vertex buffer exactly, in order, with no gap
/// and no overlap; and every draw command is nonempty and holds a whole
/// number of triangles.
pub proof fn lemma_fill_ranges(
    prims: Seq<Primitive>,
    d: i64,
    w: u32,
    h: u32,
    im: ImageMap,
    cache0: CacheM,
)
    ensures
        ({
            let st = fill_model(prims, d, w, h, im, cache0);
            chain(dranges(st.cmds), 0, st.verts.len() as int) && draws_ok(st.cmds)
        }),
{
    lemma_fold_inv(prims, d, w, h, im, cache0);
    lemma_close_inv(
        fill_fold(prims, d, w, h, im, init_state(cache0, w, h)),
        default_scizzor_spec(w, h),
    );
}

/// For any primitive stream, no two adjacent emitted commands share a draw
/// state: in particular, two adjacent `Image` commands never reference the
/// same image, and adjacent `Plain` commands never occur.
pub proof fn lemma_fill_merged(
    prims: Seq<Primitive>,
    d: i64,
    w: u32,
    h: u32,
    im: ImageMap,
    cache0: CacheM,
)
    ensures
        merged_ok(fill_model(prims, d, w, h, im, cache0).cmds),
{
    lemma_fold_inv(prims, d, w, h, im, cache0);
    lemma_close_inv(
        fill_fold(prims, d, w, h, im, init_state(cache0, w, h)),
        default_scizzor_spec(w, h),
    );
}

/// For any primitive stream, every emitted `Scizzor` command carries a
/// rectangle that differs from the clip rectangle active just before it,
/// starting from the frame default.
pub proof fn lemma_fill_scizzors(
    prims: Seq<Primitive>,
    d: i64,
    w: u32,
    h: u32,
    im: ImageMap,
    cache0: CacheM,
)
    ensures
        scizzors_distinct(
            fill_model(prims, d, w, h, im, cache0).cmds,
            default_scizzor_spec(w, h),
        ),
{
    lemma_fold_inv(prims, d, w, h, im, cache0);
    lemma_close_inv(
        fill_fold(prims, d, w, h, im, init_state(cache0, w, h)),
        default_scizzor_spec(w, h),
    );
}

/// One primitive step never disturbs a `Scizzor` command sitting first in
/// the list.
proof fn lemma_step_first(
    st: BatchM,
    p: Primitive,
    d: i64,
    w: u32,
    h: u32,
    im: ImageMap,
    d0: GlRect,
    r0: GlRect,
)
    requires
        batch_inv(st, d0),
        st.cmds.len() >= 1,
        st.cmds[0] == (CmdM::Scizzor { rect: r0 }),
    ensures
        prim_step_m(st, p, d, w, h, im).cmds.len() >= 1,
        prim_step_m(st, p, d, w, h, im).cmds[0] == (CmdM::Scizzor { rect: r0 }),
{
    let new = to_gl_rect_spec(p.scizzor, d, w, h);
    let st1 = scissor_step_m(st, new);
    lemma_scissor_inv(st, new, d0);
    if new != st.scizzor {
        lemma_close_inv(st, d0);
        let c = close_m(st);
        assert(c.cmds.push(CmdM::Scizzor { rect: new })[0] == c.cmds[0]);
    }
    assert(st1.cmds.len() >= 1 && st1.cmds[0] == (CmdM::Scizzor { rect: r0 }));
    match p.kind {
        PrimitiveKind::Rectangle { .. } => {
            lemma_to_plain_first(st1, d0, r0);
        },
        PrimitiveKind::TrianglesSingleColor { color: _, triangles } => {
            if triangles@.len() != 0 {
                lemma_to_plain_first(st1, d0, r0);
            }
        },
        PrimitiveKind::TrianglesMultiColor { triangles } => {
            if triangles@.len() != 0 {
                lemma_to_plain_first(st1, d0, r0);
            }
        },
        PrimitiveKind::Text { .. } => {
            lemma_to_plain_first(st1, d0, r0);
        },
        PrimitiveKind::Image { image_id, .. } => {
            if st1.open_image != Some(image_id) {
                lemma_close_inv(st1, d0);
            }
        },
        PrimitiveKind::Other => {},
    }
}

/// Resetting the draw state to plain never disturbs a `Scizzor` command
/// sitting first in the list.
proof fn lemma_to_plain_first(st: BatchM, d0: GlRect, r0: GlRect)
    requires
        batch_inv(st, d0),
        st.cmds.len() >= 1,
        st.cmds[0] == (CmdM::Scizzor { rect: r0 }),
    ensures
        to_plain_m(st).cmds.len() >= 1,
        to_plain_m(st).cmds[0] == (CmdM::Scizzor { rect: r0 }),
{
    if !(st.open_image is None) {
        lemma_close_inv(st, d0);
    }
}

/// When the first primitive's clip rectangle differs from the frame
/// default, the very first emitted command is that `Scizzor`, before any
/// geometry.
pub proof fn lemma_fill_first_scizzor(
    prims: Seq<Primitive>,
    d: i64,
    w: u32,
    h: u32,
    im: ImageMap,
    cache0: CacheM,
)
    requires
        prims.len() > 0,
        to_gl_rect_spec(prims[0].scizzor, d, w, h) != default_scizzor_spec(w, h),
    ensures
        fill_model(prims, d, w, h, im, cache0).cmds.len() >= 1,
        fill_model(prims, d, w, h, im, cache0).cmds[0] == (CmdM::Scizzor {
            rect: to_gl_rect_spec(prims[0].scizzor, d, w, h),
        }),
{
    let d0 = default_scizzor_spec(w, h);
    let r0 = to_gl_rect_spec(prims[0].scizzor, d, w, h);
    lemma_fold_first(prims, d, w, h, im, cache0);
    lemma_fold_inv(prims, d, w, h, im, cache0);
    let st = fill_fold(prims, d, w, h, im, init_state(cache0, w, h));
    lemma_close_inv(st, d0);
}

/// After any nonempty prefix of the stream, the first emitted command is
/// the first primitive's `Scizzor`.
proof fn lemma_fold_first(
    prims: Seq<Primitive>,
    d: i64,
    w: u32,
    h: u32,
    im: ImageMap,
    cache0: CacheM,
)
    requires
        prims.len() > 0,
        to_gl_rect_spec(prims[0].scizzor, d, w, h) != default_scizzor_spec(w, h),
    ensures
        fill_fold(prims, d, w, h, im, init_state(cache0, w, h)).cmds.len() >= 1,
        fill_fold(prims, d, w, h, im, init_state(cache0, w, h)).cmds[0] == (CmdM::Scizzor {
            rect: to_gl_rect_spec(prims[0].scizzor, d, w, h),
        }),
    decreases prims.len(),
{
    let d0 = default_scizzor_spec(w, h);
    let r0 = to_gl_rect_spec(prims[0].scizzor, d, w, h);
    let st0 = init_state(cache0, w, h);
    if prims.len() == 1 {
        assert(prims.drop_last().len() == 0);
        assert(fill_fold(prims.drop_last(), d, w, h, im, st0) == st0);
        assert(prims.last() == prims[0]);
        assert(dranges(st0.cmds) =~= Seq::<(int, int)>::empty());
        assert(batch_inv(st0, d0));
        let st1 = scissor_step_m(st0, r0);
        lemma_scissor_inv(st0, r0, d0);
        assert(close_m(st0).cmds =~= st0.cmds);
        assert(st1.cmds =~= Seq::<CmdM>::empty().push(CmdM::Scizzor { rect: r0 }));
        assert(st1.cmds[0] == (CmdM::Scizzor { rect: r0 }));
        let p = prims[0];
        match p.kind {
            PrimitiveKind::Rectangle { .. } => {
                lemma_to_plain_first(st1, d0, r0);
            },
            PrimitiveKind::TrianglesSingleColor { color: _, triangles } => {
                if triangles@.len() != 0 {
                    lemma_to_plain_first(st1, d0, r0);
                }
            },
            PrimitiveKind::TrianglesMultiColor { triangles } => {
                if triangles@.len() != 0 {
                    lemma_to_plain_first(st1, d0, r0);
                }
            },
            PrimitiveKind::Text { .. } => {
                lemma_to_plain_first(st1, d0, r0);
            },
            PrimitiveKind::Image { image_id, .. } => {
                if st1.open_image != Some(image_id) {
                    lemma_close_inv(st1, d0);
                }
            },
            PrimitiveKind::Other => {},
        }
    } else {
        assert(prims.drop_last()[0] == prims[0]);
        lemma_fold_first(prims.drop_last(), d, w, h, im, cache0);
        lemma_fold_inv(prims.drop_last(), d, w, h, im, cache0);
        lemma_step_first(
            fill_fold(prims.drop_last(), d, w, h, im, st0),
            prims.last(),
            d,
            w,
            h,
            im,
            d0,
            r0,
        );
    }
}

/// Queueing a text run changes only the queue of the cache.
pub proof fn lemma_queue_run_frame(cache: CacheM, font_id: u64, gs: Seq<GlyphInst>)
    ensures
        queue_run_m(cache, font_id, gs).width == cache.width,
        queue_run_m(cache, font_id, gs).height == cache.height,
        queue_run_m(cache, font_id, gs).tol == cache.tol,
        queue_run_m(cache, font_id, gs).entries == cache.entries,
        queue_run_m(cache, font_id, gs).next_x == cache.next_x,
        queue_run_m(cache, font_id, gs).next_y == cache.next_y,
        queue_run_m(cache, font_id, gs).row_h == cache.row_h,
    decreases gs.len(),
{
    if gs.len() > 0 {
        lemma_queue_run_frame(cache, font_id, gs.drop_last());
    }
}

} // verus!
