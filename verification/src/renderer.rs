//! The renderer: it owns the glyph cache and the frame's vertex and command
//! buffers.  `fill` rebuilds both from a primitive stream, following the
//! batcher model to the letter; `commands` iterates the result, and
//! `draw_steps` turns it into the decisions a GPU submission loop executes.

use vstd::prelude::*;
use crate::batcher::{
    close_m, draw_cmd, extended, fill_fold, fill_model, image_verts_spec, init_state,
    mergeable, prim_step_m, push_draw, queue_run_m, rect_verts_spec, scissor_step_m,
    text_verts_spec, to_image_m, to_plain_m, tris_multi_spec, tris_single_spec, white_rgba,
    CmdM,
};
use crate::color::{gamma_srgb_to_linear, Rgba};
use crate::coords::{
    default_scizzor, dpi_ok, fx_rect_ok, to_gl_rect, vx, vy, gx, gy, FxRect, GlRect,
};
use crate::fixed::round_div;
use crate::glyph::{cache_wf, flush_model, CacheM, GlyphCache, UploadRegion};
use crate::image_table::{ImageMap, Texture};
use crate::primitive::{
    ctri_ok, glyph_ok, prim_ok, tri_ok, ColoredTriangle, GlyphInst, Primitive, PrimitiveKind,
    Triangle, Vertex, MODE_GEOMETRY, MODE_IMAGE, MODE_TEXT,
};

verus! {

/// A draw command over the frame's vertex buffer: a vertex range drawn
/// plain, a vertex range drawn with an image bound, or a scissor update.
#[derive(Clone, Copy, PartialEq, Eq, Structural, Debug)]
pub enum Command {
    /// Draw a range of plain (geometry or text) vertices.
    Plain {
        /// First vertex of the range.
        start: usize,
        /// One past the last vertex of the range.
        end: usize,
    },
    /// Draw a range of vertices textured with one image.
    Image {
        /// The image to bind.
        image_id: u64,
        /// First vertex of the range.
        start: usize,
        /// One past the last vertex of the range.
        end: usize,
    },
    /// Replace the active scissor rectangle.
    Scizzor {
        /// The new clip rectangle.
        rect: GlRect,
    },
}

impl View for Command {
    type V = CmdM;

    open spec fn view(&self) -> CmdM {
        match *self {
            Command::Plain { start, end } => CmdM::Plain {
                start: start as int,
                end: end as int,
            },
            Command::Image { image_id, start, end } => CmdM::Image {
                image_id,
                start: start as int,
                end: end as int,
            },
            Command::Scizzor { rect } => CmdM::Scizzor { rect },
        }
    }
}

/// The mathematical image of a command list.
pub open spec fn cmds_view(s: Seq<Command>) -> Seq<CmdM> {
    s.map_values(|c: Command| c@)
}

/// Lifting a push through the view of a command list.
proof fn lemma_cmds_view_push(v_old: Seq<Command>, v_new: Seq<Command>, c: Command)
    requires
        v_new == v_old.push(c),
    ensures
        cmds_view(v_new) == cmds_view(v_old).push(c@),
{
    let lhs = cmds_view(v_new);
    let rhs = cmds_view(v_old).push(c@);
    assert forall|j: int| 0 <= j < lhs.len() implies #[trigger] lhs[j] == rhs[j] by {
        if j < v_old.len() {
            assert(v_new[j] == v_old[j]);
        } else {
            assert(v_new[j] == c);
        }
    }
    assert(lhs =~= rhs);
}

/// Lifting an update of the last element through the view of a command
/// list.
proof fn lemma_cmds_view_update_last(v_old: Seq<Command>, v_new: Seq<Command>, c: Command)
    requires
        v_old.len() > 0,
        v_new == v_old.update(v_old.len() - 1, c),
    ensures
        cmds_view(v_new) == cmds_view(v_old).update(v_old.len() - 1, c@),
{
    let lhs = cmds_view(v_new);
    let rhs = cmds_view(v_old).update(v_old.len() - 1, c@);
    assert forall|j: int| 0 <= j < lhs.len() implies #[trigger] lhs[j] == rhs[j] by {
        if j < v_old.len() - 1 {
            assert(v_new[j] == v_old[j]);
        } else {
            assert(v_new[j] == c);
        }
    }
    assert(lhs =~= rhs);
}

/// Closes a vertex range into the command list, exactly as the model's
/// `push_draw` does: dropped when empty, merged into a matching last
/// command, appended otherwise.
fn push_draw_exec(cmds: &mut Vec<Command>, tag: Option<u64>, start: usize, end: usize)
    ensures
        cmds_view(final(cmds)@) == push_draw(
            cmds_view(old(cmds)@),
            tag,
            start as int,
            end as int,
        ),
{
    if end <= start {
        return ;
    }
    let n = cmds.len();
    if n > 0 {
        let last = cmds[n - 1];
        let merge: bool = match (last, tag) {
            (Command::Plain { start: _, end: e }, Option::None) => e == start,
            (Command::Image { image_id, start: _, end: e }, Option::Some(t)) => t == image_id
                && e == start,
            _ => false,
        };
        proof {
            assert(cmds_view(cmds@).len() == n);
            assert(cmds_view(cmds@).last() == last@);
            assert(merge == mergeable(cmds_view(cmds@).last(), tag, start as int));
        }
        if merge {
            let ext = match last {
                Command::Plain { start: s, end: _ } => Command::Plain { start: s, end },
                Command::Image { image_id, start: s, end: _ } => Command::Image {
                    image_id,
                    start: s,
                    end,
                },
                Command::Scizzor { rect } => Command::Scizzor { rect },
            };
            proof {
                assert(ext@ == extended(last@, end as int));
            }
            let ghost before = cmds@;
            cmds.pop();
            cmds.push(ext);
            proof {
                assert(cmds@ =~= before.update(before.len() - 1, ext));
                lemma_cmds_view_update_last(before, cmds@, ext);
            }
            return ;
        }
    }
    let c = match tag {
        Option::None => Command::Plain { start, end },
        Option::Some(image_id) => Command::Image { image_id, start, end },
    };
    proof {
        assert(c@ == draw_cmd(tag, start as int, end as int));
    }
    let ghost before = cmds@;
    cmds.push(c);
    proof {
        lemma_cmds_view_push(before, cmds@, c);
        if before.len() > 0 {
            assert(cmds_view(before).last() == before.last()@);
        }
    }
}

/// Appends the six vertices of a solid rectangle.
fn push_rect_verts(vs: &mut Vec<Vertex>, r: FxRect, c: Rgba, d: i64, w: u32, h: u32)
    requires
        fx_rect_ok(r),
        dpi_ok(d),
        w >= 1,
        h >= 1,
    ensures
        final(vs)@ == old(vs)@ + rect_verts_spec(r, c, d, w, h),
{
    let l = vx(r.l, d, w);
    let rr = vx(r.r, d, w);
    let b = vy(r.b, d, h);
    let t = vy(r.t, d, h);
    vs.push(Vertex { mode: MODE_GEOMETRY, x: l, y: t, u: 0, v: 0, color: c });
    vs.push(Vertex { mode: MODE_GEOMETRY, x: rr, y: b, u: 0, v: 0, color: c });
    vs.push(Vertex { mode: MODE_GEOMETRY, x: l, y: b, u: 0, v: 0, color: c });
    vs.push(Vertex { mode: MODE_GEOMETRY, x: l, y: t, u: 0, v: 0, color: c });
    vs.push(Vertex { mode: MODE_GEOMETRY, x: rr, y: b, u: 0, v: 0, color: c });
    vs.push(Vertex { mode: MODE_GEOMETRY, x: rr, y: t, u: 0, v: 0, color: c });
    proof {
        assert(vs@ =~= old(vs)@ + rect_verts_spec(r, c, d, w, h));
    }
}

/// Appends three vertices per solid-color triangle, in order.
fn push_tris_single(vs: &mut Vec<Vertex>, ts: &Vec<Triangle>, c: Rgba, d: i64, w: u32, h: u32)
    requires
        forall|i: int| 0 <= i < ts@.len() ==> tri_ok(#[trigger] ts@[i]),
        dpi_ok(d),
        w >= 1,
        h >= 1,
    ensures
        final(vs)@ == old(vs)@ + tris_single_spec(ts@, c, d, w, h),
{
    let n = ts.len();
    let mut j: usize = 0;
    proof {
        assert(ts@.take(0) =~= Seq::<Triangle>::empty());
        assert(vs@ =~= old(vs)@ + tris_single_spec(ts@.take(0), c, d, w, h));
    }
    while j < n
        invariant
            0 <= j <= n,
            n == ts@.len(),
            forall|i: int| 0 <= i < ts@.len() ==> tri_ok(#[trigger] ts@[i]),
            dpi_ok(d),
            w >= 1,
            h >= 1,
            vs@ == old(vs)@ + tris_single_spec(ts@.take(j as int), c, d, w, h),
        decreases n - j,
    {
        let t = ts[j];
        vs.push(
            Vertex {
                mode: MODE_GEOMETRY,
                x: vx(t.a.x, d, w),
                y: vy(t.a.y, d, h),
                u: 0,
                v: 0,
                color: c,
            },
        );
        vs.push(
            Vertex {
                mode: MODE_GEOMETRY,
                x: vx(t.b.x, d, w),
                y: vy(t.b.y, d, h),
                u: 0,
                v: 0,
                color: c,
            },
        );
        vs.push(
            Vertex {
                mode: MODE_GEOMETRY,
                x: vx(t.c.x, d, w),
                y: vy(t.c.y, d, h),
                u: 0,
                v: 0,
                color: c,
            },
        );
        proof {
            assert(ts@.take(j as int + 1).drop_last() =~= ts@.take(j as int));
            assert(ts@.take(j as int + 1).last() == ts@[j as int]);
            assert(vs@ =~= old(vs)@ + tris_single_spec(ts@.take(j as int + 1), c, d, w, h));
        }
        j += 1;
    }
    proof {
        assert(ts@.take(n as int) =~= ts@);
    }
}

/// Appends three vertices per per-corner-colored triangle, in order, each
/// corner's color converted to linear light.
fn push_tris_multi(vs: &mut Vec<Vertex>, ts: &Vec<ColoredTriangle>, d: i64, w: u32, h: u32)
    requires
        forall|i: int| 0 <= i < ts@.len() ==> ctri_ok(#[trigger] ts@[i]),
        dpi_ok(d),
        w >= 1,
        h >= 1,
    ensures
        final(vs)@ == old(vs)@ + tris_multi_spec(ts@, d, w, h),
{
    let n = ts.len();
    let mut j: usize = 0;
    proof {
        assert(ts@.take(0) =~= Seq::<ColoredTriangle>::empty());
        assert(vs@ =~= old(vs)@ + tris_multi_spec(ts@.take(0), d, w, h));
    }
    while j < n
        invariant
            0 <= j <= n,
            n == ts@.len(),
            forall|i: int| 0 <= i < ts@.len() ==> ctri_ok(#[trigger] ts@[i]),
            dpi_ok(d),
            w >= 1,
            h >= 1,
            vs@ == old(vs)@ + tris_multi_spec(ts@.take(j as int), d, w, h),
        decreases n - j,
    {
        let t = ts[j];
        vs.push(
            Vertex {
                mode: MODE_GEOMETRY,
                x: vx(t.a.x, d, w),
                y: vy(t.a.y, d, h),
                u: 0,
                v: 0,
                color: gamma_srgb_to_linear(t.ca),
            },
        );
        vs.push(
            Vertex {
                mode: MODE_GEOMETRY,
                x: vx(t.b.x, d, w),
                y: vy(t.b.y, d, h),
                u: 0,
                v: 0,
                color: gamma_srgb_to_linear(t.cb),
            },
        );
        vs.push(
            Vertex {
                mode: MODE_GEOMETRY,
                x: vx(t.c.x, d, w),
                y: vy(t.c.y, d, h),
                u: 0,
                v: 0,
                color: gamma_srgb_to_linear(t.cc),
            },
        );
        proof {
            assert(ts@.take(j as int + 1).drop_last() =~= ts@.take(j as int));
            assert(ts@.take(j as int + 1).last() == ts@[j as int]);
            assert(vs@ =~= old(vs)@ + tris_multi_spec(ts@.take(j as int + 1), d, w, h));
        }
        j += 1;
    }
    proof {
        assert(ts@.take(n as int) =~= ts@);
    }
}

/// Appends the quads of a text run's placed glyphs, in glyph order; the
/// cache must already be flushed for this frame.
fn push_text_verts(
    vs: &mut Vec<Vertex>,
    gs: &Vec<GlyphInst>,
    font_id: u64,
    cache: &GlyphCache,
    c: Rgba,
    w: u32,
    h: u32,
)
    requires
        cache.wf(),
        cache@.width >= 1,
        cache@.height >= 1,
        forall|i: int| 0 <= i < gs@.len() ==> glyph_ok(#[trigger] gs@[i]),
        w >= 1,
        h >= 1,
    ensures
        final(vs)@ == old(vs)@ + text_verts_spec(gs@, font_id, cache@, c, w, h),
{
    let n = gs.len();
    let mut j: usize = 0;
    proof {
        assert(gs@.take(0) =~= Seq::<GlyphInst>::empty());
        assert(vs@ =~= old(vs)@ + text_verts_spec(gs@.take(0), font_id, cache@, c, w, h));
    }
    while j < n
        invariant
            0 <= j <= n,
            n == gs@.len(),
            cache.wf(),
            cache@.width >= 1,
            cache@.height >= 1,
            forall|i: int| 0 <= i < gs@.len() ==> glyph_ok(#[trigger] gs@[i]),
            w >= 1,
            h >= 1,
            vs@ == old(vs)@ + text_verts_spec(gs@.take(j as int), font_id, cache@, c, w, h),
        decreases n - j,
    {
        let g = &gs[j];
        proof {
            assert(glyph_ok(gs@[j as int]));
        }
        match cache.rect_for(font_id, g.glyph_id, g.off_x, g.off_y) {
            Option::None => {
            },
            Option::Some((uv, p)) => {
                let x0 = gx(g.left, w);
                let x1 = gx(g.left + (p.w as i64), w);
                let y0 = gy(g.top, h);
                let y1 = gy(g.top + (p.h as i64), h);
                vs.push(Vertex { mode: MODE_TEXT, x: x0, y: y1, u: uv.u0, v: uv.v1, color: c });
                vs.push(Vertex { mode: MODE_TEXT, x: x0, y: y0, u: uv.u0, v: uv.v0, color: c });
                vs.push(Vertex { mode: MODE_TEXT, x: x1, y: y0, u: uv.u1, v: uv.v0, color: c });
                vs.push(Vertex { mode: MODE_TEXT, x: x1, y: y0, u: uv.u1, v: uv.v0, color: c });
                vs.push(Vertex { mode: MODE_TEXT, x: x1, y: y1, u: uv.u1, v: uv.v1, color: c });
                vs.push(Vertex { mode: MODE_TEXT, x: x0, y: y1, u: uv.u0, v: uv.v1, color: c });
            },
        }
        proof {
            assert(gs@.take(j as int + 1).drop_last() =~= gs@.take(j as int));
            assert(gs@.take(j as int + 1).last() == gs@[j as int]);
            assert(vs@ =~= old(vs)@ + text_verts_spec(
                gs@.take(j as int + 1),
                font_id,
                cache@,
                c,
                w,
                h,
            ));
        }
        j += 1;
    }
    proof {
        assert(gs@.take(n as int) =~= gs@);
    }
}

/// Appends the six vertices of an image quad.
fn push_image_verts(
    vs: &mut Vec<Vertex>,
    r: FxRect,
    src: Option<FxRect>,
    tex: Texture,
    c: Rgba,
    d: i64,
    w: u32,
    h: u32,
)
    requires
        fx_rect_ok(r),
        src is Some ==> fx_rect_ok(src.unwrap()),
        tex.width >= 1,
        tex.height >= 1,
        dpi_ok(d),
        w >= 1,
        h >= 1,
    ensures
        final(vs)@ == old(vs)@ + image_verts_spec(r, src, tex, c, d, w, h),
{
    let uv_l: i64;
    let uv_r: i64;
    let uv_b: i64;
    let uv_t: i64;
    match src {
        Option::Some(sr) => {
            proof {
                lemma_image_uv_bound(sr.l as int, tex.width as int);
                lemma_image_uv_bound(sr.r as int, tex.width as int);
                lemma_image_uv_bound(sr.b as int, tex.height as int);
                lemma_image_uv_bound(sr.t as int, tex.height as int);
            }
            uv_l = crate::fixed::round_div_i128(sr.l as i128, tex.width as i128) as i64;
            uv_r = crate::fixed::round_div_i128(sr.r as i128, tex.width as i128) as i64;
            uv_b = crate::fixed::round_div_i128(sr.b as i128, tex.height as i128) as i64;
            uv_t = crate::fixed::round_div_i128(sr.t as i128, tex.height as i128) as i64;
        },
        Option::None => {
            uv_l = 0;
            uv_r = 65536;
            uv_b = 0;
            uv_t = 65536;
        },
    }
    let l = vx(r.l, d, w);
    let rr = vx(r.r, d, w);
    let b = vy(r.b, d, h);
    let t = vy(r.t, d, h);
    vs.push(Vertex { mode: MODE_IMAGE, x: l, y: t, u: uv_l, v: uv_t, color: c });
    vs.push(Vertex { mode: MODE_IMAGE, x: rr, y: b, u: uv_r, v: uv_b, color: c });
    vs.push(Vertex { mode: MODE_IMAGE, x: l, y: b, u: uv_l, v: uv_b, color: c });
    vs.push(Vertex { mode: MODE_IMAGE, x: l, y: t, u: uv_l, v: uv_t, color: c });
    vs.push(Vertex { mode: MODE_IMAGE, x: rr, y: b, u: uv_r, v: uv_b, color: c });
    vs.push(Vertex { mode: MODE_IMAGE, x: rr, y: t, u: uv_r, v: uv_t, color: c });
    proof {
        assert(vs@ =~= old(vs)@ + image_verts_spec(r, src, tex, c, d, w, h));
    }
}

/// A source-rectangle-to-texture division stays inside `i64`.
proof fn lemma_image_uv_bound(a: int, m: int)
    requires
        -1_099_511_627_776 <= a <= 1_099_511_627_776,
        1 <= m,
    ensures
        -1_099_511_627_776 <= round_div(a, m) <= 1_099_511_627_776,
{
    assert(1_099_511_627_776 * m >= 1_099_511_627_776) by (nonlinear_arith)
        requires
            1 <= m,
    ;
    crate::coords::lemma_round_div_bound(a, m, 1_099_511_627_776);
}

/// Lifting concatenation through the view of a vector of upload regions.
proof fn lemma_upload_map_concat(a: Seq<UploadRegion>, b: Seq<UploadRegion>)
    ensures
        (a + b).map_values(|x: UploadRegion| x@) == a.map_values(|x: UploadRegion| x@)
            + b.map_values(|x: UploadRegion| x@),
{
    let lhs = (a + b).map_values(|x: UploadRegion| x@);
    let rhs = a.map_values(|x: UploadRegion| x@) + b.map_values(|x: UploadRegion| x@);
    assert forall|j: int| 0 <= j < lhs.len() implies #[trigger] lhs[j] == rhs[j] by {
        if j < a.len() {
            assert((a + b)[j] == a[j]);
        } else {
            assert((a + b)[j] == b[j - a.len()]);
        }
    }
    assert(lhs =~= rhs);
}

/// The renderer: the glyph cache and the frame's vertex and command
/// buffers, rebuilt on every `fill`.
pub struct Renderer {
    glyph_cache: GlyphCache,
    commands: Vec<Command>,
    vertices: Vec<Vertex>,
}

impl Renderer {
    /// The mathematical image of the command list.
    pub closed spec fn spec_commands(&self) -> Seq<CmdM> {
        cmds_view(self.commands@)
    }

    /// The mathematical image of the vertex buffer.
    pub closed spec fn spec_vertices(&self) -> Seq<Vertex> {
        self.vertices@
    }

    /// The mathematical image of the glyph cache.
    pub closed spec fn spec_cache(&self) -> CacheM {
        self.glyph_cache@
    }

    /// The renderer invariant: a well-formed glyph cache of nonzero
    /// dimensions.
    pub open spec fn wf(&self) -> bool {
        &&& cache_wf(self.spec_cache())
        &&& self.spec_cache().width >= 1
        &&& self.spec_cache().height >= 1
    }

    /// Builds an empty renderer with the default glyph cache dimensions.
    pub fn new() -> (r: Renderer)
        ensures
            r.wf(),
            r.spec_commands() == Seq::<CmdM>::empty(),
            r.spec_vertices() == Seq::<Vertex>::empty(),
            r.spec_cache().width == 1200,
            r.spec_cache().height == 900,
            r.spec_cache().entries == Seq::<(crate::glyph::GlyphKey, crate::glyph::Placement)>::empty(),
            r.spec_cache().queued == Seq::<crate::glyph::QueuedM>::empty(),
    {
        let r = Renderer {
            glyph_cache: GlyphCache::new(),
            commands: Vec::new(),
            vertices: Vec::new(),
        };
        proof {
            assert(cmds_view(r.commands@) =~= Seq::<CmdM>::empty());
        }
        r
    }

    /// Builds an empty renderer with the given glyph cache dimensions.
    pub fn with_glyph_cache_dimensions(width: u32, height: u32) -> (r: Renderer)
        requires
            width >= 1,
            height >= 1,
        ensures
            r.wf(),
            r.spec_commands() == Seq::<CmdM>::empty(),
            r.spec_vertices() == Seq::<Vertex>::empty(),
            r.spec_cache().width == width,
            r.spec_cache().height == height,
            r.spec_cache().entries == Seq::<(crate::glyph::GlyphKey, crate::glyph::Placement)>::empty(),
            r.spec_cache().queued == Seq::<crate::glyph::QueuedM>::empty(),
    {
        let r = Renderer {
            glyph_cache: GlyphCache::with_dimensions(width, height),
            commands: Vec::new(),
            vertices: Vec::new(),
        };
        proof {
            assert(cmds_view(r.commands@) =~= Seq::<CmdM>::empty());
        }
        r
    }
}

impl Renderer {
    /// Rebuilds the frame: walks the primitives once, converting each into
    /// vertices and draw commands exactly as the batcher model prescribes,
    /// and returns the glyph-texture regions that changed and must be
    /// uploaded before drawing.  The vertex and command buffers are fully
    /// replaced; the glyph cache persists across frames.
    pub fn fill(
        &mut self,
        screen_w: u32,
        screen_h: u32,
        dpi: i64,
        prims: &Vec<Primitive>,
        images: &ImageMap,
    ) -> (ups: Vec<UploadRegion>)
        requires
            old(self).wf(),
            screen_w >= 1,
            screen_h >= 1,
            dpi_ok(dpi),
            images.wf(),
            forall|i: int| 0 <= i < prims@.len() ==> prim_ok(#[trigger] prims@[i]),
        ensures
            final(self).wf(),
            ({
                let st = fill_model(
                    prims@,
                    dpi,
                    screen_w,
                    screen_h,
                    *images,
                    old(self).spec_cache(),
                );
                &&& final(self).spec_commands() == st.cmds
                &&& final(self).spec_vertices() == st.verts
                &&& final(self).spec_cache() == st.cache
                &&& ups@.map_values(|u: UploadRegion| u@) == st.ups
            }),
    {
        let ghost im = *images;
        let ghost cache0 = old(self).spec_cache();
        let ghost st0 = init_state(cache0, screen_w, screen_h);
        self.commands.clear();
        self.vertices.clear();
        let mut open_start: usize = 0;
        let mut open_image: Option<u64> = None;
        let mut cur_scizzor: GlRect = default_scizzor(screen_w, screen_h);
        let mut ups: Vec<UploadRegion> = Vec::new();
        let n = prims.len();
        let mut i: usize = 0;
        proof {
            assert(prims@.take(0) =~= Seq::<Primitive>::empty());
            assert(cmds_view(self.commands@) =~= Seq::<CmdM>::empty());
            assert(ups@.map_values(|u: UploadRegion| u@) =~= Seq::<
                crate::glyph::UploadM,
            >::empty());
        }
        while i < n
            invariant
                0 <= i <= n,
                n == prims@.len(),
                screen_w >= 1,
                screen_h >= 1,
                dpi_ok(dpi),
                images.wf(),
                im == *images,
                forall|k: int| 0 <= k < prims@.len() ==> prim_ok(#[trigger] prims@[k]),
                cache_wf(self.glyph_cache@),
                self.glyph_cache@.width == cache0.width,
                self.glyph_cache@.height == cache0.height,
                cache0.width >= 1,
                cache0.height >= 1,
                st0 == init_state(cache0, screen_w, screen_h),
                ({
                    let st = fill_fold(
                        prims@.take(i as int),
                        dpi,
                        screen_w,
                        screen_h,
                        im,
                        st0,
                    );
                    &&& cmds_view(self.commands@) == st.cmds
                    &&& self.vertices@ == st.verts
                    &&& open_start as int == st.open_start
                    &&& open_image == st.open_image
                    &&& cur_scizzor == st.scizzor
                    &&& self.glyph_cache@ == st.cache
                    &&& ups@.map_values(|u: UploadRegion| u@) == st.ups
                }),
            decreases n - i,
        {
            let ghost pre = fill_fold(prims@.take(i as int), dpi, screen_w, screen_h, im, st0);
            proof {
                assert(prims@.take(i as int + 1).drop_last() =~= prims@.take(i as int));
                assert(prims@.take(i as int + 1).last() == prims@[i as int]);
                assert(prim_ok(prims@[i as int]));
            }
            let p = &prims[i];
            let new_scizzor = to_gl_rect(p.scizzor, dpi, screen_w, screen_h);
            if new_scizzor != cur_scizzor {
                let vl = self.vertices.len();
                push_draw_exec(&mut self.commands, open_image, open_start, vl);
                let ghost mid_cmds = self.commands@;
                self.commands.push(Command::Scizzor { rect: new_scizzor });
                proof {
                    lemma_cmds_view_push(
                        mid_cmds,
                        self.commands@,
                        Command::Scizzor { rect: new_scizzor },
                    );
                }
                cur_scizzor = new_scizzor;
                open_image = None;
                open_start = vl;
            }
            let ghost st1 = scissor_step_m(
                pre,
                crate::coords::to_gl_rect_spec(p.scizzor, dpi, screen_w, screen_h),
            );
            proof {
                assert(cmds_view(self.commands@) == st1.cmds);
                assert(self.vertices@ == st1.verts);
                assert(open_start as int == st1.open_start);
                assert(open_image == st1.open_image);
                assert(cur_scizzor == st1.scizzor);
                assert(self.glyph_cache@ == st1.cache);
                assert(ups@.map_values(|u: UploadRegion| u@) == st1.ups);
            }
            match &p.kind {
                PrimitiveKind::Rectangle { color } => {
                    if open_image.is_some() {
                        let vl = self.vertices.len();
                        push_draw_exec(&mut self.commands, open_image, open_start, vl);
                        open_image = None;
                        open_start = vl;
                    }
                    let ghost st2 = to_plain_m(st1);
                    proof {
                        assert(cmds_view(self.commands@) == st2.cmds);
                        assert(open_start as int == st2.open_start);
                    }
                    let col = gamma_srgb_to_linear(*color);
                    push_rect_verts(&mut self.vertices, p.rect, col, dpi, screen_w, screen_h);
                    proof {
                        let post = prim_step_m(
                            pre,
                            prims@[i as int],
                            dpi,
                            screen_w,
                            screen_h,
                            im,
                        );
                        assert(cmds_view(self.commands@) == post.cmds);
                        assert(self.vertices@ == post.verts);
                        assert(open_start as int == post.open_start);
                        assert(open_image == post.open_image);
                        assert(cur_scizzor == post.scizzor);
                        assert(self.glyph_cache@ == post.cache);
                        assert(ups@.map_values(|u: UploadRegion| u@) == post.ups);
                    }
                },
                PrimitiveKind::TrianglesSingleColor { color, triangles } => {
                    if triangles.len() > 0 {
                        if open_image.is_some() {
                            let vl = self.vertices.len();
                            push_draw_exec(&mut self.commands, open_image, open_start, vl);
                            open_image = None;
                            open_start = vl;
                        }
                        let col = gamma_srgb_to_linear(*color);
                        push_tris_single(
                            &mut self.vertices,
                            triangles,
                            col,
                            dpi,
                            screen_w,
                            screen_h,
                        );
                    }
                    proof {
                        let post = prim_step_m(
                            pre,
                            prims@[i as int],
                            dpi,
                            screen_w,
                            screen_h,
                            im,
                        );
                        assert(cmds_view(self.commands@) == post.cmds);
                        assert(self.vertices@ == post.verts);
                        assert(open_start as int == post.open_start);
                        assert(open_image == post.open_image);
                        assert(cur_scizzor == post.scizzor);
                        assert(self.glyph_cache@ == post.cache);
                        assert(ups@.map_values(|u: UploadRegion| u@) == post.ups);
                    }
                },
                PrimitiveKind::TrianglesMultiColor { triangles } => {
                    if triangles.len() > 0 {
                        if open_image.is_some() {
                            let vl = self.vertices.len();
                            push_draw_exec(&mut self.commands, open_image, open_start, vl);
                            open_image = None;
                            open_start = vl;
                        }
                        push_tris_multi(
                            &mut self.vertices,
                            triangles,
                            dpi,
                            screen_w,
                            screen_h,
                        );
                    }
                    proof {
                        let post = prim_step_m(
                            pre,
                            prims@[i as int],
                            dpi,
                            screen_w,
                            screen_h,
                            im,
                        );
                        assert(cmds_view(self.commands@) == post.cmds);
                        assert(self.vertices@ == post.verts);
                        assert(open_start as int == post.open_start);
                        assert(open_image == post.open_image);
                        assert(cur_scizzor == post.scizzor);
                        assert(self.glyph_cache@ == post.cache);
                        assert(ups@.map_values(|u: UploadRegion| u@) == post.ups);
                    }
                },
                PrimitiveKind::Text { color, font_id, glyphs } => {
                    if open_image.is_some() {
                        let vl = self.vertices.len();
                        push_draw_exec(&mut self.commands, open_image, open_start, vl);
                        open_image = None;
                        open_start = vl;
                    }
                    let ghost st2 = to_plain_m(st1);
                    proof {
                        assert(cmds_view(self.commands@) == st2.cmds);
                        assert(open_start as int == st2.open_start);
                    }
                    let ghost cache_pre = self.glyph_cache@;
                    let ghost cmds_keep = self.commands@;
                    let ghost verts_keep = self.vertices@;
                    let ghost ups_keep = ups@;
                    let gn = glyphs.len();
                    let mut k: usize = 0;
                    proof {
                        assert(glyphs@.take(0) =~= Seq::<GlyphInst>::empty());
                    }
                    while k < gn
                        invariant
                            0 <= k <= gn,
                            gn == glyphs@.len(),
                            forall|t: int|
                                0 <= t < glyphs@.len() ==> glyph_ok(#[trigger] glyphs@[t]),
                            cache_wf(self.glyph_cache@),
                            self.glyph_cache@ == queue_run_m(
                                cache_pre,
                                *font_id,
                                glyphs@.take(k as int),
                            ),
                            self.commands@ == cmds_keep,
                            self.vertices@ == verts_keep,
                        decreases gn - k,
                    {
                        let g = &glyphs[k];
                        let dbytes = crate::glyph::clone_bytes(&g.data);
                        proof {
                            crate::batcher::lemma_queue_run_frame(
                                cache_pre,
                                *font_id,
                                glyphs@.take(k as int),
                            );
                            assert(glyph_ok(glyphs@[k as int]));
                        }
                        self.glyph_cache.queue(
                            *font_id,
                            g.glyph_id,
                            g.off_x,
                            g.off_y,
                            g.width,
                            g.height,
                            dbytes,
                        );
                        proof {
                            assert(glyphs@.take(k as int + 1).drop_last() =~= glyphs@.take(
                                k as int,
                            ));
                            assert(glyphs@.take(k as int + 1).last() == glyphs@[k as int]);
                            assert(self.glyph_cache@ == queue_run_m(
                                cache_pre,
                                *font_id,
                                glyphs@.take(k as int + 1),
                            ));
                        }
                        k += 1;
                    }
                    proof {
                        assert(glyphs@.take(gn as int) =~= glyphs@);
                    }
                    let ghost cache1 = queue_run_m(cache_pre, *font_id, glyphs@);
                    let mut new_ups = self.glyph_cache.flush();
                    let ghost nu = new_ups@;
                    let ghost ups_old = ups@;
                    ups.append(&mut new_ups);
                    proof {
                        assert(ups@ == ups_old + nu);
                        lemma_upload_map_concat(ups_old, nu);
                        crate::glyph::lemma_flush_iter_frame(
                            cache1,
                            cache1.queued,
                            Seq::empty(),
                        );
                        crate::batcher::lemma_queue_run_frame(cache_pre, *font_id, glyphs@);
                        assert(self.glyph_cache@ == flush_model(cache1).0);
                        assert(self.glyph_cache@.width == cache0.width);
                        assert(self.glyph_cache@.height == cache0.height);
                    }
                    let col = gamma_srgb_to_linear(*color);
                    push_text_verts(
                        &mut self.vertices,
                        glyphs,
                        *font_id,
                        &self.glyph_cache,
                        col,
                        screen_w,
                        screen_h,
                    );
                    proof {
                        let post = prim_step_m(
                            pre,
                            prims@[i as int],
                            dpi,
                            screen_w,
                            screen_h,
                            im,
                        );
                        assert(cmds_view(self.commands@) == post.cmds);
                        assert(self.vertices@ == post.verts);
                        assert(open_start as int == post.open_start);
                        assert(open_image == post.open_image);
                        assert(cur_scizzor == post.scizzor);
                        assert(self.glyph_cache@ == post.cache);
                        assert(ups@.map_values(|u: UploadRegion| u@) == post.ups);
                    }
                },
                PrimitiveKind::Image { image_id, color, source_rect } => {
                    let mut same = false;
                    match open_image {
                        Option::Some(cur) => {
                            if cur == *image_id {
                                same = true;
                            }
                        },
                        Option::None => {},
                    }
                    if !same {
                        let vl = self.vertices.len();
                        push_draw_exec(&mut self.commands, open_image, open_start, vl);
                        open_image = Some(*image_id);
                        open_start = vl;
                    }
                    let ghost st2 = to_image_m(st1, *image_id);
                    proof {
                        assert(cmds_view(self.commands@) == st2.cmds);
                        assert(open_start as int == st2.open_start);
                        assert(open_image == st2.open_image);
                    }
                    match images.get(*image_id) {
                        Option::None => {
                        },
                        Option::Some(tex) => {
                            let col0 = match color {
                                Option::Some(c) => *c,
                                Option::None => Rgba {
                                    r: 65536,
                                    g: 65536,
                                    b: 65536,
                                    a: 65536,
                                },
                            };
                            proof {
                                assert(col0 == match prims@[i as int].kind {
                                    PrimitiveKind::Image { image_id: _, color, source_rect: _ } => {
                                        match color {
                                            Some(cc) => cc,
                                            None => white_rgba(),
                                        }
                                    },
                                    _ => col0,
                                });
                            }
                            let col = gamma_srgb_to_linear(col0);
                            push_image_verts(
                                &mut self.vertices,
                                p.rect,
                                *source_rect,
                                tex,
                                col,
                                dpi,
                                screen_w,
                                screen_h,
                            );
                        },
                    }
                    proof {
                        let post = prim_step_m(
                            pre,
                            prims@[i as int],
                            dpi,
                            screen_w,
                            screen_h,
                            im,
                        );
                        assert(cmds_view(self.commands@) == post.cmds);
                        assert(self.vertices@ == post.verts);
                        assert(open_start as int == post.open_start);
                        assert(open_image == post.open_image);
                        assert(cur_scizzor == post.scizzor);
                        assert(self.glyph_cache@ == post.cache);
                        assert(ups@.map_values(|u: UploadRegion| u@) == post.ups);
                    }
                },
                PrimitiveKind::Other => {
                    proof {
                        let post = prim_step_m(
                            pre,
                            prims@[i as int],
                            dpi,
                            screen_w,
                            screen_h,
                            im,
                        );
                        assert(cmds_view(self.commands@) == post.cmds);
                        assert(self.vertices@ == post.verts);
                        assert(open_start as int == post.open_start);
                        assert(open_image == post.open_image);
                        assert(cur_scizzor == post.scizzor);
                        assert(self.glyph_cache@ == post.cache);
                        assert(ups@.map_values(|u: UploadRegion| u@) == post.ups);
                    }
                },
            }
            proof {
                assert(fill_fold(prims@.take(i as int + 1), dpi, screen_w, screen_h, im, st0)
                    == prim_step_m(pre, prims@[i as int], dpi, screen_w, screen_h, im));
            }
            i += 1;
        }
        proof {
            assert(prims@.take(n as int) =~= prims@);
        }
        let vl = self.vertices.len();
        push_draw_exec(&mut self.commands, open_image, open_start, vl);
        proof {
            let stn = fill_fold(prims@, dpi, screen_w, screen_h, im, st0);
            assert(cmds_view(self.commands@) == close_m(stn).cmds);
        }
        ups
    }
}

/// An iterator-style cursor over the frame's command list, produced by
/// `Renderer::commands`.
pub struct Commands<'a> {
    commands: &'a Vec<Command>,
    idx: usize,
}

impl<'a> Commands<'a> {
    /// The commands iterated over.
    pub closed spec fn spec_cmds(&self) -> Seq<CmdM> {
        cmds_view(self.commands@)
    }

    /// How many commands were already yielded.
    pub closed spec fn spec_idx(&self) -> int {
        self.idx as int
    }

    /// Yields the next command, in emission order.
    pub fn next(&mut self) -> (r: Option<Command>)
        ensures
            final(self).spec_cmds() == old(self).spec_cmds(),
            old(self).spec_idx() < old(self).spec_cmds().len() ==> {
                &&& r is Some
                &&& r.unwrap()@ == old(self).spec_cmds()[old(self).spec_idx()]
                &&& final(self).spec_idx() == old(self).spec_idx() + 1
            },
            old(self).spec_idx() >= old(self).spec_cmds().len() ==> {
                &&& r is None
                &&& final(self).spec_idx() == old(self).spec_idx()
            },
    {
        if self.idx < self.commands.len() {
            let c = self.commands[self.idx];
            self.idx = self.idx + 1;
            proof {
                assert(c@ == cmds_view(self.commands@)[self.idx - 1]);
            }
            Some(c)
        } else {
            None
        }
    }
}

/// Which texture a draw call binds.
#[derive(Clone, Copy, PartialEq, Eq, Structural, Debug)]
pub enum TexBind {
    /// The glyph cache texture.
    GlyphTexture,
    /// The resolved image texture, by its opaque handle token.
    ImageTexture {
        /// The handle token from the image table.
        texture: u32,
    },
    /// No texture: the command named an image the table does not hold.
    Unbound,
}

/// One decision of the GPU submission loop.
#[derive(Clone, Copy, PartialEq, Eq, Structural, Debug)]
pub enum DrawStep {
    /// Enable scissoring and set the scissor rectangle.
    Scissor {
        /// The clip rectangle.
        rect: GlRect,
    },
    /// Upload the vertex range and issue a triangle-list draw call with
    /// the given texture bound.
    DrawTriangles {
        /// The texture to bind.
        tex: TexBind,
        /// First vertex of the range.
        start: usize,
        /// One past the last vertex of the range.
        end: usize,
    },
}

/// The mathematical image of one decision.
pub enum StepM {
    /// Set the scissor rectangle.
    Scissor {
        /// The clip rectangle.
        rect: GlRect,
    },
    /// Draw a vertex range with a texture bound.
    DrawTriangles {
        /// The texture to bind.
        tex: TexBind,
        /// First vertex of the range.
        start: int,
        /// One past the last vertex of the range.
        end: int,
    },
}

impl View for DrawStep {
    type V = StepM;

    open spec fn view(&self) -> StepM {
        match *self {
            DrawStep::Scissor { rect } => StepM::Scissor { rect },
            DrawStep::DrawTriangles { tex, start, end } => StepM::DrawTriangles {
                tex,
                start: start as int,
                end: end as int,
            },
        }
    }
}

/// The decisions one command gives rise to: a scissor update passes
/// through, a draw range shorter than one triangle is skipped, and an
/// image draw binds the resolved texture, or nothing when the image is
/// absent from the table.
pub open spec fn step_of(c: CmdM, im: ImageMap) -> Seq<StepM> {
    match c {
        CmdM::Scizzor { rect } => seq![StepM::Scissor { rect }],
        CmdM::Plain { start, end } => {
            if end - start >= 3 {
                seq![StepM::DrawTriangles { tex: TexBind::GlyphTexture, start, end }]
            } else {
                Seq::empty()
            }
        },
        CmdM::Image { image_id, start, end } => {
            if end - start >= 3 {
                seq![
                    StepM::DrawTriangles {
                        tex: match im.spec_get(image_id) {
                            Some(t) => TexBind::ImageTexture { texture: t.texture },
                            None => TexBind::Unbound,
                        },
                        start,
                        end,
                    },
                ]
            } else {
                Seq::empty()
            }
        },
    }
}

/// The decisions of a whole command list, in order.
pub open spec fn draw_steps_model(cmds: Seq<CmdM>, im: ImageMap) -> Seq<StepM>
    decreases cmds.len(),
{
    if cmds.len() == 0 {
        Seq::empty()
    } else {
        draw_steps_model(cmds.drop_last(), im) + step_of(cmds.last(), im)
    }
}

impl Renderer {
    /// Iterates the frame's commands in emission order.
    pub fn commands<'a>(&'a self) -> (r: Commands<'a>)
        ensures
            r.spec_cmds() == self.spec_commands(),
            r.spec_idx() == 0,
    {
        Commands { commands: &self.commands, idx: 0 }
    }

    /// The frame's vertex buffer.
    pub fn vertices(&self) -> (r: &Vec<Vertex>)
        ensures
            r@ == self.spec_vertices(),
    {
        &self.vertices
    }

    /// Turns the frame's command list into the ordered decisions a GPU
    /// submission loop executes: scissor updates pass through, each
    /// nonempty range becomes one triangle-list draw with the right
    /// texture bound, and any range shorter than one triangle is skipped.
    pub fn draw_steps(&self, images: &ImageMap) -> (steps: Vec<DrawStep>)
        requires
            images.wf(),
        ensures
            steps@.map_values(|s: DrawStep| s@) == draw_steps_model(
                self.spec_commands(),
                *images,
            ),
    {
        let mut steps: Vec<DrawStep> = Vec::new();
        let n = self.commands.len();
        let mut i: usize = 0;
        proof {
            assert(cmds_view(self.commands@).take(0) =~= Seq::<CmdM>::empty());
            assert(steps@.map_values(|s: DrawStep| s@) =~= Seq::<StepM>::empty());
        }
        while i < n
            invariant
                0 <= i <= n,
                n == self.commands@.len(),
                images.wf(),
                steps@.map_values(|s: DrawStep| s@) == draw_steps_model(
                    cmds_view(self.commands@).take(i as int),
                    *images,
                ),
            decreases n - i,
        {
            let ghost cv = cmds_view(self.commands@);
            proof {
                assert(cv.take(i as int + 1).drop_last() =~= cv.take(i as int));
                assert(cv.take(i as int + 1).last() == cv[i as int]);
                assert(cv[i as int] == self.commands@[i as int]@);
            }
            let c = self.commands[i];
            let ghost steps_old = steps@;
            match c {
                Command::Scizzor { rect } => {
                    steps.push(DrawStep::Scissor { rect });
                    proof {
                        lemma_steps_map_push(steps_old, steps@, DrawStep::Scissor { rect });
                    }
                },
                Command::Plain { start, end } => {
                    if end >= start && end - start >= 3 {
                        let st = DrawStep::DrawTriangles {
                            tex: TexBind::GlyphTexture,
                            start,
                            end,
                        };
                        steps.push(st);
                        proof {
                            lemma_steps_map_push(steps_old, steps@, st);
                        }
                    }
                },
                Command::Image { image_id, start, end } => {
                    if end >= start && end - start >= 3 {
                        let tex = match images.get(image_id) {
                            Option::Some(t) => TexBind::ImageTexture { texture: t.texture },
                            Option::None => TexBind::Unbound,
                        };
                        let st = DrawStep::DrawTriangles { tex, start, end };
                        steps.push(st);
                        proof {
                            lemma_steps_map_push(steps_old, steps@, st);
                        }
                    }
                },
            }
            proof {
                assert(steps@.map_values(|s: DrawStep| s@) =~= draw_steps_model(
                    cv.take(i as int + 1),
                    *images,
                ));
            }
            i += 1;
        }
        proof {
            assert(cmds_view(self.commands@).take(n as int) =~= cmds_view(self.commands@));
        }
        steps
    }
}

/// Lifting a push through the view of a decision list.
proof fn lemma_steps_map_push(v_old: Seq<DrawStep>, v_new: Seq<DrawStep>, s: DrawStep)
    requires
        v_new == v_old.push(s),
    ensures
        v_new.map_values(|x: DrawStep| x@) == v_old.map_values(|x: DrawStep| x@).push(s@),
{
    let lhs = v_new.map_values(|x: DrawStep| x@);
    let rhs = v_old.map_values(|x: DrawStep| x@).push(s@);
    assert forall|j: int| 0 <= j < lhs.len() implies #[trigger] lhs[j] == rhs[j] by {
        if j < v_old.len() {
            assert(v_new[j] == v_old[j]);
        } else {
            assert(v_new[j] == s);
        }
    }
    assert(lhs =~= rhs);
}

} // verus!
