//! The drawing primitives the renderer consumes, and the vertices it
//! produces.  Scalars are 16.16 fixed point throughout.

use vstd::prelude::*;
use crate::color::{rgba_ok, Rgba};
use crate::coords::{coord_ok, fx_rect_ok, FxRect};

verus! {

/// Vertex mode: render text from the glyph-cache texture.
pub const MODE_TEXT: u32 = 0;

/// Vertex mode: render an image from the bound texture.
pub const MODE_IMAGE: u32 = 1;

/// Vertex mode: plain colored 2D geometry.
pub const MODE_GEOMETRY: u32 = 2;

/// A vertex of the frame's interleaved buffer.  Positions are normalized
/// device coordinates and texture coordinates lie in `[0, 1]`, both in
/// 16.16 fixed point; the color is linear-light RGBA.
#[derive(Clone, Copy, PartialEq, Eq, Structural, Debug)]
pub struct Vertex {
    /// How the fragment stage interprets this vertex.
    pub mode: u32,
    /// Horizontal position in normalized device coordinates.
    pub x: i64,
    /// Vertical position in normalized device coordinates.
    pub y: i64,
    /// Horizontal texture coordinate.
    pub u: i64,
    /// Vertical texture coordinate.
    pub v: i64,
    /// Linear-light color.
    pub color: Rgba,
}

/// A point in logical coordinates.
#[derive(Clone, Copy, PartialEq, Eq, Structural, Debug)]
pub struct FxPoint {
    /// Horizontal logical coordinate.
    pub x: i64,
    /// Vertical logical coordinate.
    pub y: i64,
}

/// A solid-color triangle in logical coordinates.
#[derive(Clone, Copy, PartialEq, Eq, Structural, Debug)]
pub struct Triangle {
    /// First corner.
    pub a: FxPoint,
    /// Second corner.
    pub b: FxPoint,
    /// Third corner.
    pub c: FxPoint,
}

/// A triangle whose corners carry their own colors.
#[derive(Clone, Copy, PartialEq, Eq, Structural, Debug)]
pub struct ColoredTriangle {
    /// First corner.
    pub a: FxPoint,
    /// Color of the first corner.
    pub ca: Rgba,
    /// Second corner.
    pub b: FxPoint,
    /// Color of the second corner.
    pub cb: Rgba,
    /// Third corner.
    pub c: FxPoint,
    /// Color of the third corner.
    pub cc: Rgba,
}

/// One already-rasterized glyph of a text run: its identity, its subpixel
/// offset, where it lands on screen (pixel coordinates, y down), its pixel
/// dimensions, and its coverage bitmap in row-major order.
pub struct GlyphInst {
    /// Glyph identifier within the font.
    pub glyph_id: u64,
    /// Horizontal subpixel offset, fixed point.
    pub off_x: i64,
    /// Vertical subpixel offset, fixed point.
    pub off_y: i64,
    /// Screen pixel column of the glyph box's left edge.
    pub left: i64,
    /// Screen pixel row of the glyph box's top edge.
    pub top: i64,
    /// Width of the glyph box in pixels.
    pub width: u32,
    /// Height of the glyph box in pixels.
    pub height: u32,
    /// Coverage bitmap, one byte per pixel, `width * height` bytes.
    pub data: Vec<u8>,
}

/// What a primitive draws.
pub enum PrimitiveKind {
    /// A solid rectangle covering the primitive's bounds.
    Rectangle {
        /// Fill color, gamma-encoded.
        color: Rgba,
    },
    /// A batch of triangles sharing one color.
    TrianglesSingleColor {
        /// Shared color, gamma-encoded.
        color: Rgba,
        /// The triangles, in order.
        triangles: Vec<Triangle>,
    },
    /// A batch of triangles with per-corner colors.
    TrianglesMultiColor {
        /// The triangles, in order.
        triangles: Vec<ColoredTriangle>,
    },
    /// A run of positioned glyphs.
    Text {
        /// Text color, gamma-encoded.
        color: Rgba,
        /// Font identifier, part of each glyph's cache key.
        font_id: u64,
        /// The glyphs, in order.
        glyphs: Vec<GlyphInst>,
    },
    /// A textured rectangle covering the primitive's bounds.
    Image {
        /// Identifier to resolve through the image table.
        image_id: u64,
        /// Tint color, gamma-encoded; white when absent.
        color: Option<Rgba>,
        /// Sub-rectangle of the texture to sample, in logical units of the
        /// source image; the whole texture when absent.
        source_rect: Option<FxRect>,
    },
    /// A primitive kind this renderer does not know: drawn as nothing.
    Other,
}

/// A primitive: what to draw, where, and under which clip rectangle.
pub struct Primitive {
    /// What to draw.
    pub kind: PrimitiveKind,
    /// Bounding rectangle in logical coordinates.
    pub rect: FxRect,
    /// Clip rectangle in logical coordinates.
    pub scizzor: FxRect,
}

/// Whether a glyph's fields are within range and its bitmap matches its
/// dimensions.
pub open spec fn glyph_ok(g: GlyphInst) -> bool {
    &&& coord_ok(g.left)
    &&& coord_ok(g.top)
    &&& -crate::coords::COORD_LIMIT <= g.left + g.width <= crate::coords::COORD_LIMIT
    &&& -crate::coords::COORD_LIMIT <= g.top + g.height <= crate::coords::COORD_LIMIT
    &&& coord_ok(g.off_x)
    &&& coord_ok(g.off_y)
    &&& g.data@.len() == g.width * g.height
}

/// Whether a primitive's payload is within range.
pub open spec fn kind_ok(k: PrimitiveKind) -> bool {
    match k {
        PrimitiveKind::Rectangle { color } => rgba_ok(color),
        PrimitiveKind::TrianglesSingleColor { color, triangles } => {
            &&& rgba_ok(color)
            &&& forall|i: int|
                0 <= i < triangles@.len() ==> tri_ok(#[trigger] triangles@[i])
        },
        PrimitiveKind::TrianglesMultiColor { triangles } => forall|i: int|
            0 <= i < triangles@.len() ==> ctri_ok(#[trigger] triangles@[i]),
        PrimitiveKind::Text { color, font_id: _, glyphs } => {
            &&& rgba_ok(color)
            &&& forall|i: int| 0 <= i < glyphs@.len() ==> glyph_ok(#[trigger] glyphs@[i])
        },
        PrimitiveKind::Image { image_id: _, color, source_rect } => {
            &&& (color is Some ==> rgba_ok(color.unwrap()))
            &&& (source_rect is Some ==> fx_rect_ok(source_rect.unwrap()))
        },
        PrimitiveKind::Other => true,
    }
}

/// Whether a triangle's corners are within range.
pub open spec fn tri_ok(t: Triangle) -> bool {
    &&& coord_ok(t.a.x) && coord_ok(t.a.y)
    &&& coord_ok(t.b.x) && coord_ok(t.b.y)
    &&& coord_ok(t.c.x) && coord_ok(t.c.y)
}

/// Whether a colored triangle's corners and colors are within range.
pub open spec fn ctri_ok(t: ColoredTriangle) -> bool {
    &&& coord_ok(t.a.x) && coord_ok(t.a.y) && rgba_ok(t.ca)
    &&& coord_ok(t.b.x) && coord_ok(t.b.y) && rgba_ok(t.cb)
    &&& coord_ok(t.c.x) && coord_ok(t.c.y) && rgba_ok(t.cc)
}

/// Whether a primitive is within range: its rectangles and every scalar of
/// its payload.
pub open spec fn prim_ok(p: Primitive) -> bool {
    &&& fx_rect_ok(p.rect)
    &&& fx_rect_ok(p.scizzor)
    &&& kind_ok(p.kind)
}

} // verus!
