//! The glyph cache: a fixed-size 2D bitmap cache keyed by font, glyph and
//! rounded subpixel offset, packed with a shelf algorithm.  Queued glyphs
//! are packed on `flush`, which reports the texture regions that changed;
//! glyphs that do not fit are simply not placed, which the renderer
//! degrades to silently.  Two live glyphs never occupy overlapping
//! rectangles.

use vstd::prelude::*;
use crate::fixed::round_div;
use crate::coords::{coord_ok, COORD_LIMIT};

verus! {

/// The cache key of a glyph: font, glyph, and the subpixel offset rounded
/// to the cache's tolerance.
#[derive(Clone, Copy, PartialEq, Eq, Structural, Debug)]
pub struct GlyphKey {
    /// Font identifier.
    pub font_id: u64,
    /// Glyph identifier within the font.
    pub glyph_id: u64,
    /// Horizontal subpixel offset bucket.
    pub bx: i64,
    /// Vertical subpixel offset bucket.
    pub by: i64,
}

/// Where a glyph lives in the cache texture, in pixels.
#[derive(Clone, Copy, PartialEq, Eq, Structural, Debug)]
pub struct Placement {
    /// Column of the left edge.
    pub x: u32,
    /// Row of the top edge.
    pub y: u32,
    /// Width in pixels.
    pub w: u32,
    /// Height in pixels.
    pub h: u32,
}

/// A texture-space rectangle in `[0, 1]` fixed-point coordinates, with `v`
/// growing downward as texture rows do.
#[derive(Clone, Copy, PartialEq, Eq, Structural, Debug)]
pub struct UvRect {
    /// Left edge.
    pub u0: i64,
    /// Top edge.
    pub v0: i64,
    /// Right edge.
    pub u1: i64,
    /// Bottom edge.
    pub v1: i64,
}

/// A glyph queued for the next flush.
pub struct QueuedGlyph {
    /// Cache key.
    pub key: GlyphKey,
    /// Width in pixels.
    pub w: u32,
    /// Height in pixels.
    pub h: u32,
    /// Coverage bitmap, `w * h` bytes, row-major.
    pub data: Vec<u8>,
}

/// A region of the cache texture whose contents changed in a flush and must
/// be uploaded.
pub struct UploadRegion {
    /// Column of the left edge.
    pub x: u32,
    /// Row of the top edge.
    pub y: u32,
    /// Width in pixels.
    pub w: u32,
    /// Height in pixels.
    pub h: u32,
    /// The bytes to upload, `w * h` of them, row-major.
    pub data: Vec<u8>,
}

/// The mathematical image of a queued glyph.
pub struct QueuedM {
    /// Cache key.
    pub key: GlyphKey,
    /// Width in pixels.
    pub w: u32,
    /// Height in pixels.
    pub h: u32,
    /// Coverage bitmap.
    pub data: Seq<u8>,
}

/// The mathematical image of an upload region.
pub struct UploadM {
    /// Column of the left edge.
    pub x: u32,
    /// Row of the top edge.
    pub y: u32,
    /// Width in pixels.
    pub w: u32,
    /// Height in pixels.
    pub h: u32,
    /// The bytes to upload.
    pub data: Seq<u8>,
}

/// The mathematical image of the whole cache: dimensions, tolerance, the
/// placed entries, the queue, and the shelf packer's cursor.
pub struct CacheM {
    /// Texture width in pixels.
    pub width: u32,
    /// Texture height in pixels.
    pub height: u32,
    /// Subpixel tolerance in fixed point.
    pub tol: i64,
    /// Placed glyphs.
    pub entries: Seq<(GlyphKey, Placement)>,
    /// Glyphs queued for the next flush.
    pub queued: Seq<QueuedM>,
    /// Column where the current shelf row continues.
    pub next_x: u32,
    /// Row where the current shelf row starts.
    pub next_y: u32,
    /// Height of the current shelf row.
    pub row_h: u32,
}

impl View for QueuedGlyph {
    type V = QueuedM;

    open spec fn view(&self) -> QueuedM {
        QueuedM { key: self.key, w: self.w, h: self.h, data: self.data@ }
    }
}

impl View for UploadRegion {
    type V = UploadM;

    open spec fn view(&self) -> UploadM {
        UploadM { x: self.x, y: self.y, w: self.w, h: self.h, data: self.data@ }
    }
}

/// The cache key of a glyph under a tolerance: offsets are rounded to the
/// nearest multiple of the tolerance.
pub open spec fn key_of_spec(
    font_id: u64,
    glyph_id: u64,
    off_x: i64,
    off_y: i64,
    tol: i64,
) -> GlyphKey {
    GlyphKey {
        font_id,
        glyph_id,
        bx: round_div(off_x as int, tol as int) as i64,
        by: round_div(off_y as int, tol as int) as i64,
    }
}

/// First-match lookup among the placed entries.
pub open spec fn find_place(s: Seq<(GlyphKey, Placement)>, key: GlyphKey) -> Option<Placement>
    decreases s.len(),
{
    if s.len() == 0 {
        None
    } else if s[0].0 == key {
        Some(s[0].1)
    } else {
        find_place(s.skip(1), key)
    }
}

/// Whether a key is already queued.
pub open spec fn queued_has(qs: Seq<QueuedM>, key: GlyphKey) -> bool {
    exists|i: int| 0 <= i < qs.len() && (#[trigger] qs[i]).key == key
}

/// Queueing a glyph: a no-op when its key is already queued, else appended.
pub open spec fn queue_model(c: CacheM, q: QueuedM) -> CacheM {
    if queued_has(c.queued, q.key) {
        c
    } else {
        CacheM { queued: c.queued.push(q), ..c }
    }
}

/// One shelf-packing step: place in the current row if the glyph fits
/// there, else open a new row, else report failure.
pub open spec fn place_model(c: CacheM, w: u32, h: u32) -> (CacheM, Option<Placement>) {
    if c.next_x + w <= c.width && c.next_y + h <= c.height {
        let p = Placement { x: c.next_x, y: c.next_y, w, h };
        let row2 = if h > c.row_h {
            h
        } else {
            c.row_h
        };
        (CacheM { next_x: (c.next_x + w) as u32, row_h: row2, ..c }, Some(p))
    } else if w <= c.width && c.next_y + c.row_h + h <= c.height {
        let p = Placement { x: 0, y: (c.next_y + c.row_h) as u32, w, h };
        (
            CacheM {
                next_x: w,
                next_y: (c.next_y + c.row_h) as u32,
                row_h: h,
                ..c
            },
            Some(p),
        )
    } else {
        (c, None)
    }
}

/// The flush pass over the queue, front to back: an already-placed key is
/// reused without an upload, a fresh key is packed and its region recorded,
/// a glyph that does not fit is skipped.  The queue is empty afterwards.
pub open spec fn flush_iter(c: CacheM, qs: Seq<QueuedM>, acc: Seq<UploadM>) -> (
    CacheM,
    Seq<UploadM>,
)
    decreases qs.len(),
{
    if qs.len() == 0 {
        (CacheM { queued: Seq::empty(), ..c }, acc)
    } else {
        let q = qs[0];
        if find_place(c.entries, q.key) is Some {
            flush_iter(c, qs.skip(1), acc)
        } else {
            let (c2, op) = place_model(c, q.w, q.h);
            match op {
                Some(p) => flush_iter(
                    CacheM { entries: c2.entries.push((q.key, p)), ..c2 },
                    qs.skip(1),
                    acc.push(UploadM { x: p.x, y: p.y, w: q.w, h: q.h, data: q.data }),
                ),
                None => flush_iter(c, qs.skip(1), acc),
            }
        }
    }
}

/// What `flush` does to the cache, and the upload regions it reports.
pub open spec fn flush_model(c: CacheM) -> (CacheM, Seq<UploadM>) {
    flush_iter(c, c.queued, Seq::empty())
}

/// Whether two placements occupy disjoint rectangles.
pub open spec fn disjoint_place(p: Placement, q: Placement) -> bool {
    ||| p.x + p.w <= q.x
    ||| q.x + q.w <= p.x
    ||| p.y + p.h <= q.y
    ||| q.y + q.h <= p.y
}

/// Where a placement may sit relative to the packer's cursor: wholly in the
/// finished rows above, or in the current row left of the cursor.
pub open spec fn place_in_region(c: CacheM, p: Placement) -> bool {
    ||| (p.y + p.h <= c.next_y && p.x + p.w <= c.width)
    ||| (c.next_y <= p.y && p.y + p.h <= c.next_y + c.row_h && p.x + p.w <= c.next_x)
}

/// The cache invariant: a sane tolerance, a cursor inside the texture,
/// every placed entry inside the packed region with a unique key, placed
/// entries pairwise disjoint, and a well-formed queue.
pub open spec fn cache_wf(c: CacheM) -> bool {
    &&& 1 <= c.tol <= COORD_LIMIT
    &&& c.next_x <= c.width
    &&& c.next_y + c.row_h <= c.height
    &&& (forall|i: int|
        0 <= i < c.entries.len() ==> place_in_region(c, (#[trigger] c.entries[i]).1))
    &&& (forall|i: int, j: int|
        0 <= i < c.entries.len() && 0 <= j < c.entries.len() && i != j ==> disjoint_place(
            (#[trigger] c.entries[i]).1,
            (#[trigger] c.entries[j]).1,
        ))
    &&& (forall|i: int, j: int|
        0 <= i < j < c.entries.len() ==> (#[trigger] c.entries[i]).0
            != (#[trigger] c.entries[j]).0)
    &&& (forall|i: int|
        0 <= i < c.queued.len() ==> (#[trigger] c.queued[i]).data.len()
            == c.queued[i].w * c.queued[i].h)
}

/// Every placement of a well-formed cache lies inside the texture.
pub proof fn lemma_place_in_tex(c: CacheM, i: int)
    requires
        cache_wf(c),
        0 <= i < c.entries.len(),
    ensures
        c.entries[i].1.x + c.entries[i].1.w <= c.width,
        c.entries[i].1.y + c.entries[i].1.h <= c.height,
{
}

/// Two live glyphs never occupy overlapping rectangles: any two distinct
/// placed entries of a well-formed cache are disjoint.
pub proof fn lemma_placements_disjoint(c: CacheM, i: int, j: int)
    requires
        cache_wf(c),
        0 <= i < c.entries.len(),
        0 <= j < c.entries.len(),
        i != j,
    ensures
        disjoint_place(c.entries[i].1, c.entries[j].1),
{
}

/// Replacing the queue of a well-formed cache with any well-formed queue
/// keeps the cache well-formed: the packing invariant does not look at the
/// queue.
proof fn lemma_wf_with_queued(c: CacheM, qs: Seq<QueuedM>)
    requires
        cache_wf(c),
        forall|i: int| 0 <= i < qs.len() ==> (#[trigger] qs[i]).data.len() == qs[i].w * qs[i].h,
    ensures
        cache_wf(CacheM { queued: qs, ..c }),
{
    let c2 = CacheM { queued: qs, ..c };
    assert forall|i: int| 0 <= i < c2.entries.len() implies place_in_region(
        c2,
        (#[trigger] c2.entries[i]).1,
    ) by {
        assert(place_in_region(c, c.entries[i].1));
    }
    assert forall|i: int, j: int|
        0 <= i < c2.entries.len() && 0 <= j < c2.entries.len() && i != j implies disjoint_place(
        (#[trigger] c2.entries[i]).1,
        (#[trigger] c2.entries[j]).1,
    ) by {
        assert(disjoint_place(c.entries[i].1, c.entries[j].1));
    }
    assert forall|i: int, j: int| 0 <= i < j < c2.entries.len() implies (
    #[trigger] c2.entries[i]).0 != (#[trigger] c2.entries[j]).0 by {
        assert(c.entries[i].0 != c.entries[j].0);
    }
}

/// A key that `find_place` misses occurs nowhere among the entries.
proof fn lemma_find_place_char(s: Seq<(GlyphKey, Placement)>, key: GlyphKey)
    ensures
        find_place(s, key) is None ==> forall|i: int|
            0 <= i < s.len() ==> (#[trigger] s[i]).0 != key,
    decreases s.len(),
{
    if s.len() > 0 {
        lemma_find_place_char(s.skip(1), key);
        if find_place(s, key) is None {
            assert forall|i: int| 0 <= i < s.len() implies (#[trigger] s[i]).0 != key by {
                if i > 0 {
                    assert(s.skip(1)[i - 1] == s[i]);
                }
            }
        }
    }
}

/// Packing one fresh glyph and recording its entry preserves the cache
/// invariant: the new placement is disjoint from every live one.
proof fn lemma_place_push_wf(c: CacheM, key: GlyphKey, w: u32, h: u32)
    requires
        cache_wf(c),
        find_place(c.entries, key) is None,
        place_model(c, w, h).1 is Some,
    ensures
        cache_wf(
            CacheM {
                entries: place_model(c, w, h).0.entries.push(
                    (key, place_model(c, w, h).1.unwrap()),
                ),
                ..place_model(c, w, h).0
            },
        ),
{
    lemma_find_place_char(c.entries, key);
    let c2 = place_model(c, w, h).0;
    let p = place_model(c, w, h).1.unwrap();
    let c3 = CacheM { entries: c2.entries.push((key, p)), ..c2 };
    let n = c.entries.len() as int;
    assert(c3.entries.len() == n + 1);
    assert(forall|i: int| 0 <= i < n ==> c3.entries[i] == c.entries[i]);
    assert(c3.entries[n] == (key, p));
    assert forall|i: int| 0 <= i < c3.entries.len() implies place_in_region(
        c3,
        (#[trigger] c3.entries[i]).1,
    ) by {
        if i < n {
            assert(place_in_region(c, c.entries[i].1));
        }
    }
    assert forall|i: int, j: int|
        0 <= i < c3.entries.len() && 0 <= j < c3.entries.len() && i != j implies disjoint_place(
        (#[trigger] c3.entries[i]).1,
        (#[trigger] c3.entries[j]).1,
    ) by {
        if i < n && j < n {
            assert(disjoint_place(c.entries[i].1, c.entries[j].1));
        } else if i == n {
            assert(place_in_region(c, c.entries[j].1));
        } else {
            assert(place_in_region(c, c.entries[i].1));
        }
    }
}

/// Copies a byte vector.
pub(crate) fn clone_bytes(v: &Vec<u8>) -> (r: Vec<u8>)
    ensures
        r@ == v@,
{
    let mut r: Vec<u8> = Vec::new();
    let n = v.len();
    let mut i: usize = 0;
    while i < n
        invariant
            0 <= i <= n,
            n == v@.len(),
            r@ == v@.subrange(0, i as int),
        decreases n - i,
    {
        r.push(v[i]);
        proof {
            assert(r@ =~= v@.subrange(0, i as int + 1));
        }
        i += 1;
    }
    proof {
        assert(r@ =~= v@);
    }
    r
}

/// First-match scan among placed entries.
fn find_place_exec(entries: &Vec<(GlyphKey, Placement)>, key: GlyphKey) -> (r: Option<
    Placement,
>)
    ensures
        r == find_place(entries@, key),
{
    let mut i: usize = 0;
    let n = entries.len();
    proof {
        assert(entries@.skip(0) =~= entries@);
    }
    while i < n
        invariant
            0 <= i <= n,
            n == entries@.len(),
            find_place(entries@, key) == find_place(entries@.skip(i as int), key),
        decreases n - i,
    {
        proof {
            assert(entries@.skip(i as int)[0] == entries@[i as int]);
            assert(entries@.skip(i as int).skip(1) =~= entries@.skip(i as int + 1));
        }
        let (k, p) = entries[i];
        if k == key {
            return Some(p);
        }
        i += 1;
    }
    None
}

/// The glyph cache.  See the module documentation; the mathematical image
/// of a cache is a `CacheM`.
pub struct GlyphCache {
    width: u32,
    height: u32,
    tol: i64,
    entries: Vec<(GlyphKey, Placement)>,
    queued: Vec<QueuedGlyph>,
    next_x: u32,
    next_y: u32,
    row_h: u32,
}

impl View for GlyphCache {
    type V = CacheM;

    closed spec fn view(&self) -> CacheM {
        CacheM {
            width: self.width,
            height: self.height,
            tol: self.tol,
            entries: self.entries@,
            queued: self.queued@.map_values(|q: QueuedGlyph| q@),
            next_x: self.next_x,
            next_y: self.next_y,
            row_h: self.row_h,
        }
    }
}

impl GlyphCache {
    /// The invariant of this cache.
    pub open spec fn wf(&self) -> bool {
        cache_wf(self@)
    }

    /// Builds an empty cache with the given texture dimensions and subpixel
    /// tolerance.
    pub fn with_tolerance(width: u32, height: u32, tol: i64) -> (r: GlyphCache)
        requires
            width >= 1,
            height >= 1,
            1 <= tol <= COORD_LIMIT,
        ensures
            r.wf(),
            r@ == (CacheM {
                width,
                height,
                tol,
                entries: Seq::empty(),
                queued: Seq::empty(),
                next_x: 0,
                next_y: 0,
                row_h: 0,
            }),
    {
        let r = GlyphCache {
            width,
            height,
            tol,
            entries: Vec::new(),
            queued: Vec::new(),
            next_x: 0,
            next_y: 0,
            row_h: 0,
        };
        proof {
            assert(r.queued@.map_values(|q: QueuedGlyph| q@) =~= Seq::<QueuedM>::empty());
        }
        r
    }

    /// Builds an empty cache with the given texture dimensions and the
    /// default tolerance of a tenth of a unit.
    pub fn with_dimensions(width: u32, height: u32) -> (r: GlyphCache)
        requires
            width >= 1,
            height >= 1,
        ensures
            r.wf(),
            r@ == (CacheM {
                width,
                height,
                tol: 6554,
                entries: Seq::empty(),
                queued: Seq::empty(),
                next_x: 0,
                next_y: 0,
                row_h: 0,
            }),
    {
        Self::with_tolerance(width, height, 6554)
    }

    /// Builds an empty cache of the default dimensions.
    pub fn new() -> (r: GlyphCache)
        ensures
            r.wf(),
            r@ == (CacheM {
                width: 1200,
                height: 900,
                tol: 6554,
                entries: Seq::empty(),
                queued: Seq::empty(),
                next_x: 0,
                next_y: 0,
                row_h: 0,
            }),
    {
        Self::with_dimensions(1200, 900)
    }

    /// The cache texture's width in pixels.
    pub fn width(&self) -> (r: u32)
        ensures
            r == self@.width,
    {
        self.width
    }

    /// The cache texture's height in pixels.
    pub fn height(&self) -> (r: u32)
        ensures
            r == self@.height,
    {
        self.height
    }

    /// Computes the cache key of a glyph under this cache's tolerance.
    pub fn key_of(&self, font_id: u64, glyph_id: u64, off_x: i64, off_y: i64) -> (r: GlyphKey)
        requires
            self.wf(),
            coord_ok(off_x),
            coord_ok(off_y),
        ensures
            r == key_of_spec(font_id, glyph_id, off_x, off_y, self@.tol),
    {
        proof {
            crate::coords::lemma_round_div_bound(
                off_x as int,
                self.tol as int,
                1_099_511_627_776,
            );
            crate::coords::lemma_round_div_bound(
                off_y as int,
                self.tol as int,
                1_099_511_627_776,
            );
            assert(off_x as int <= 1_099_511_627_776 * (self.tol as int))
                by (nonlinear_arith)
                requires
                    off_x as int <= 1_099_511_627_776,
                    self.tol as int >= 1,
            ;
            assert(-(1_099_511_627_776 * (self.tol as int)) <= off_x as int)
                by (nonlinear_arith)
                requires
                    -1_099_511_627_776 <= off_x as int,
                    self.tol as int >= 1,
            ;
            assert(off_y as int <= 1_099_511_627_776 * (self.tol as int))
                by (nonlinear_arith)
                requires
                    off_y as int <= 1_099_511_627_776,
                    self.tol as int >= 1,
            ;
            assert(-(1_099_511_627_776 * (self.tol as int)) <= off_y as int)
                by (nonlinear_arith)
                requires
                    -1_099_511_627_776 <= off_y as int,
                    self.tol as int >= 1,
            ;
        }
        let bx = crate::fixed::round_div_i128(off_x as i128, self.tol as i128);
        let by = crate::fixed::round_div_i128(off_y as i128, self.tol as i128);
        GlyphKey { font_id, glyph_id, bx: bx as i64, by: by as i64 }
    }

    /// Queues a glyph for the next flush; a key already queued this frame
    /// is left as it is.
    pub fn queue(
        &mut self,
        font_id: u64,
        glyph_id: u64,
        off_x: i64,
        off_y: i64,
        w: u32,
        h: u32,
        data: Vec<u8>,
    )
        requires
            old(self).wf(),
            coord_ok(off_x),
            coord_ok(off_y),
            data@.len() == w * h,
        ensures
            final(self).wf(),
            final(self)@ == queue_model(
                old(self)@,
                QueuedM {
                    key: key_of_spec(font_id, glyph_id, off_x, off_y, old(self)@.tol),
                    w,
                    h,
                    data: data@,
                },
            ),
    {
        let key = self.key_of(font_id, glyph_id, off_x, off_y);
        let n = self.queued.len();
        let mut i: usize = 0;
        while i < n
            invariant
                *self == *old(self),
                old(self).wf(),
                key == key_of_spec(font_id, glyph_id, off_x, off_y, old(self)@.tol),
                0 <= i <= n,
                n == self.queued@.len(),
                forall|j: int| 0 <= j < i ==> (#[trigger] self.queued@[j]).key != key,
            decreases n - i,
        {
            if self.queued[i].key == key {
                proof {
                    let qs = self@.queued;
                    assert(qs[i as int] == self.queued@[i as int]@);
                    assert(qs[i as int].key == key);
                    assert(queued_has(qs, key));
                }
                return ;
            }
            i += 1;
        }
        proof {
            let qs = self@.queued;
            assert forall|j: int| 0 <= j < qs.len() implies (#[trigger] qs[j]).key
                != key by {
                assert(qs[j] == self.queued@[j]@);
            }
            assert(!queued_has(qs, key));
        }
        let ghost qm = QueuedM { key, w, h, data: data@ };
        let q = QueuedGlyph { key, w, h, data };
        self.queued.push(q);
        proof {
            assert(q@ == qm);
            let mapped = self.queued@.map_values(|g: QueuedGlyph| g@);
            let pushed = old(self)@.queued.push(qm);
            assert forall|j: int| 0 <= j < mapped.len() implies #[trigger] mapped[j]
                == pushed[j] by {
                if j < old(self).queued@.len() {
                    assert(self.queued@[j] == old(self).queued@[j]);
                }
            }
            assert(mapped =~= pushed);
            assert forall|j: int| 0 <= j < pushed.len() implies (#[trigger] pushed[j]).data.len()
                == pushed[j].w * pushed[j].h by {
                if j < old(self)@.queued.len() {
                    assert(old(self)@.queued[j].data.len() == old(self)@.queued[j].w * old(
                        self,
                    )@.queued[j].h);
                } else {
                    assert(pushed[j] == qm);
                }
            }
            lemma_wf_with_queued(old(self)@, pushed);
            assert(self@ == CacheM { queued: pushed, ..old(self)@ });
        }
    }
}


/// Lifting a push through the view of a vector of upload regions.
proof fn lemma_upload_map_push(v_old: Seq<UploadRegion>, v_new: Seq<UploadRegion>, u: UploadRegion)
    requires
        v_new == v_old.push(u),
    ensures
        v_new.map_values(|x: UploadRegion| x@) == v_old.map_values(|x: UploadRegion| x@).push(
            u@,
        ),
{
    let lhs = v_new.map_values(|x: UploadRegion| x@);
    let rhs = v_old.map_values(|x: UploadRegion| x@).push(u@);
    assert forall|j: int| 0 <= j < lhs.len() implies #[trigger] lhs[j] == rhs[j] by {
        if j < v_old.len() {
            assert(v_new[j] == v_old[j]);
        } else {
            assert(v_new[j] == u);
        }
    }
    assert(lhs =~= rhs);
}

impl GlyphCache {
    /// Packs every queued glyph that fits and is not already cached, and
    /// returns the texture regions that changed, in packing order.  Glyphs
    /// that do not fit are left unplaced; the queue is empty afterwards.
    pub fn flush(&mut self) -> (ups: Vec<UploadRegion>)
        requires
            old(self).wf(),
        ensures
            final(self).wf(),
            final(self)@ == flush_model(old(self)@).0,
            ups@.map_values(|u: UploadRegion| u@) == flush_model(old(self)@).1,
    {
        let mut ups: Vec<UploadRegion> = Vec::new();
        let n = self.queued.len();
        let mut i: usize = 0;
        proof {
            assert(old(self)@.queued.skip(0) =~= old(self)@.queued);
            assert(ups@.map_values(|u: UploadRegion| u@) =~= Seq::<UploadM>::empty());
        }
        while i < n
            invariant
                0 <= i <= n,
                n == self.queued@.len(),
                self.queued@ == old(self).queued@,
                self.width == old(self).width,
                self.height == old(self).height,
                self.tol == old(self).tol,
                cache_wf(self@),
                flush_iter(old(self)@, old(self)@.queued, Seq::empty()) == flush_iter(
                    self@,
                    old(self)@.queued.skip(i as int),
                    ups@.map_values(|u: UploadRegion| u@),
                ),
            decreases n - i,
        {
            let ghost pre = self@;
            let ghost qs_i = old(self)@.queued.skip(i as int);
            let ghost acc_pre = ups@.map_values(|u: UploadRegion| u@);
            proof {
                assert(qs_i[0] == old(self)@.queued[i as int]);
                assert(old(self)@.queued[i as int] == self.queued@[i as int]@);
                assert(qs_i.skip(1) =~= old(self)@.queued.skip(i as int + 1));
            }
            let qw = self.queued[i].w;
            let qh = self.queued[i].h;
            let qkey = self.queued[i].key;
            let found = find_place_exec(&self.entries, qkey);
            if found.is_none() {
                let placed: Option<Placement>;
                if qw <= self.width - self.next_x && qh <= self.height - self.next_y {
                    let p = Placement { x: self.next_x, y: self.next_y, w: qw, h: qh };
                    self.next_x = self.next_x + qw;
                    if qh > self.row_h {
                        self.row_h = qh;
                    }
                    placed = Some(p);
                } else if qw <= self.width && qh <= self.height - (self.next_y + self.row_h) {
                    let p = Placement {
                        x: 0,
                        y: self.next_y + self.row_h,
                        w: qw,
                        h: qh,
                    };
                    self.next_x = qw;
                    self.next_y = self.next_y + self.row_h;
                    self.row_h = qh;
                    placed = Some(p);
                } else {
                    placed = None;
                }
                match placed {
                    Some(p) => {
                        proof {
                            assert(place_model(pre, qw, qh).1 == Some(p));
                            assert(place_model(pre, qw, qh).0 == CacheM {
                                entries: pre.entries,
                                next_x: self.next_x,
                                next_y: self.next_y,
                                row_h: self.row_h,
                                ..pre
                            });
                            lemma_place_push_wf(pre, qkey, qw, qh);
                        }
                        self.entries.push((qkey, p));
                        let ghost v_old = ups@;
                        let d = clone_bytes(&self.queued[i].data);
                        let u = UploadRegion { x: p.x, y: p.y, w: qw, h: qh, data: d };
                        let ghost um = u@;
                        ups.push(u);
                        proof {
                            lemma_upload_map_push(v_old, ups@, u);
                            let c2 = place_model(pre, qw, qh).0;
                            let c3 = CacheM { entries: c2.entries.push((qkey, p)), ..c2 };
                            assert(self@ == c3);
                            assert(um == UploadM {
                                x: p.x,
                                y: p.y,
                                w: qs_i[0].w,
                                h: qs_i[0].h,
                                data: qs_i[0].data,
                            });
                            assert(flush_iter(pre, qs_i, acc_pre) == flush_iter(
                                self@,
                                qs_i.skip(1),
                                acc_pre.push(um),
                            ));
                        }
                    },
                    None => {
                        proof {
                            assert(place_model(pre, qw, qh).1 is None);
                            assert(flush_iter(pre, qs_i, acc_pre) == flush_iter(
                                self@,
                                qs_i.skip(1),
                                acc_pre,
                            ));
                        }
                    },
                }
            } else {
                proof {
                    assert(find_place(pre.entries, qs_i[0].key) is Some);
                    assert(flush_iter(pre, qs_i, acc_pre) == flush_iter(
                        self@,
                        qs_i.skip(1),
                        acc_pre,
                    ));
                }
            }
            i += 1;
        }
        let ghost preclear = self@;
        self.queued.clear();
        proof {
            assert(old(self)@.queued.skip(n as int).len() == 0);
            assert(self.queued@.map_values(|q: QueuedGlyph| q@) =~= Seq::<QueuedM>::empty());
            assert(self@ == CacheM { queued: Seq::empty(), ..preclear });
            lemma_wf_with_queued(preclear, Seq::empty());
        }
        ups
    }

    /// Looks a glyph up after a flush: its texture-space rectangle in
    /// `[0, 1]` fixed-point coordinates and its pixel placement, or nothing
    /// if the glyph was not placed.
    pub fn rect_for(&self, font_id: u64, glyph_id: u64, off_x: i64, off_y: i64) -> (r:
        Option<(UvRect, Placement)>)
        requires
            self.wf(),
            self@.width >= 1,
            self@.height >= 1,
            coord_ok(off_x),
            coord_ok(off_y),
        ensures
            ({
                let key = key_of_spec(font_id, glyph_id, off_x, off_y, self@.tol);
                match find_place(self@.entries, key) {
                    None => r is None,
                    Some(p) => r == Some((uv_of_spec(p, self@.width, self@.height), p)),
                }
            }),
    {
        let key = self.key_of(font_id, glyph_id, off_x, off_y);
        match find_place_exec(&self.entries, key) {
            None => None,
            Some(p) => {
                let uv = uv_of(p, self.width, self.height);
                Some((uv, p))
            },
        }
    }
}

/// The texture-space rectangle of a placement, each edge divided by the
/// texture dimension, rounding half away from zero.
pub open spec fn uv_of_spec(p: Placement, w: u32, h: u32) -> UvRect {
    UvRect {
        u0: round_div(p.x * 65536, w as int) as i64,
        v0: round_div(p.y * 65536, h as int) as i64,
        u1: round_div((p.x + p.w) * 65536, w as int) as i64,
        v1: round_div((p.y + p.h) * 65536, h as int) as i64,
    }
}

/// Computes the texture-space rectangle of a placement.
pub fn uv_of(p: Placement, w: u32, h: u32) -> (r: UvRect)
    requires
        w >= 1,
        h >= 1,
    ensures
        r == uv_of_spec(p, w, h),
{
    proof {
        lemma_uv_bound(p.x as int, p.w as int, w as int);
        lemma_uv_bound(p.y as int, p.h as int, h as int);
    }
    let u0 = crate::fixed::round_div_i128((p.x as i128) * 65536, w as i128);
    let v0 = crate::fixed::round_div_i128((p.y as i128) * 65536, h as i128);
    let u1 = crate::fixed::round_div_i128(
        ((p.x as i128) + (p.w as i128)) * 65536,
        w as i128,
    );
    let v1 = crate::fixed::round_div_i128(
        ((p.y as i128) + (p.h as i128)) * 65536,
        h as i128,
    );
    UvRect { u0: u0 as i64, v0: v0 as i64, u1: u1 as i64, v1: v1 as i64 }
}

/// The rounding divisions of a texture-coordinate conversion stay inside
/// `i64`.
proof fn lemma_uv_bound(a: int, b: int, m: int)
    requires
        0 <= a < 0x1_0000_0000,
        0 <= b < 0x1_0000_0000,
        1 <= m,
    ensures
        -0x2_0000_0000_0000_0000 <= round_div(a * 65536, m) <= 0x2_0000_0000_0000_0000,
        -0x2_0000_0000_0000_0000 <= round_div((a + b) * 65536, m)
            <= 0x2_0000_0000_0000_0000,
{
    assert(0 <= a * 65536 <= 0x1_0000_0000_0000_0000) by (nonlinear_arith)
        requires
            0 <= a < 0x1_0000_0000,
    ;
    assert(0 <= (a + b) * 65536 <= 0x2_0000_0000_0000_0000) by (nonlinear_arith)
        requires
            0 <= a < 0x1_0000_0000,
            0 <= b < 0x1_0000_0000,
    ;
    assert(0x2_0000_0000_0000_0000 * m >= 0x2_0000_0000_0000_0000) by (nonlinear_arith)
        requires
            1 <= m,
    ;
    crate::coords::lemma_round_div_bound(a * 65536, m, 0x2_0000_0000_0000_0000);
    crate::coords::lemma_round_div_bound((a + b) * 65536, m, 0x2_0000_0000_0000_0000);
}


/// A flush changes the entries, the packer cursor and the queue, never the
/// texture dimensions or the tolerance.
pub proof fn lemma_flush_iter_frame(c: CacheM, qs: Seq<QueuedM>, acc: Seq<UploadM>)
    ensures
        flush_iter(c, qs, acc).0.width == c.width,
        flush_iter(c, qs, acc).0.height == c.height,
        flush_iter(c, qs, acc).0.tol == c.tol,
        flush_iter(c, qs, acc).0.queued == Seq::<QueuedM>::empty(),
    decreases qs.len(),
{
    if qs.len() > 0 {
        let q = qs[0];
        if find_place(c.entries, q.key) is Some {
            lemma_flush_iter_frame(c, qs.skip(1), acc);
        } else {
            let (c2, op) = place_model(c, q.w, q.h);
            match op {
                Some(p) => {
                    lemma_flush_iter_frame(
                        CacheM { entries: c2.entries.push((q.key, p)), ..c2 },
                        qs.skip(1),
                        acc.push(UploadM { x: p.x, y: p.y, w: q.w, h: q.h, data: q.data }),
                    );
                },
                None => {
                    lemma_flush_iter_frame(c, qs.skip(1), acc);
                },
            }
        }
    }
}

/// The texture-space rectangle of a placement inside the texture lies in
/// the unit square, with ordered edges.
pub proof fn lemma_uv_in_unit(p: Placement, w: u32, h: u32)
    requires
        w >= 1,
        h >= 1,
        p.x + p.w <= w,
        p.y + p.h <= h,
    ensures
        0 <= uv_of_spec(p, w, h).u0 <= uv_of_spec(p, w, h).u1 <= 65536,
        0 <= uv_of_spec(p, w, h).v0 <= uv_of_spec(p, w, h).v1 <= 65536,
{
    lemma_uv_edges(p.x as int, p.w as int, w as int);
    lemma_uv_edges(p.y as int, p.h as int, h as int);
}

/// One axis of `lemma_uv_in_unit`: `a/m` and `(a+b)/m` are ordered and lie
/// in `[0, 1]` when `a + b <= m`.
proof fn lemma_uv_edges(a: int, b: int, m: int)
    requires
        0 <= a,
        0 <= b,
        a + b <= m,
        1 <= m,
    ensures
        0 <= round_div(a * 65536, m),
        round_div(a * 65536, m) <= round_div((a + b) * 65536, m),
        round_div((a + b) * 65536, m) <= 65536,
{
    assert(0 * m <= a * 65536) by (nonlinear_arith)
        requires
            0 <= a,
    ;
    crate::coords::lemma_round_div_bound(a * 65536, m, 0x1_0000_0000_0000);
    assert(a * 65536 <= (a + b) * 65536) by (nonlinear_arith)
        requires
            0 <= b,
    ;
    crate::coords::lemma_round_div_mono(a * 65536, (a + b) * 65536, m);
    assert((a + b) * 65536 <= 65536 * m) by (nonlinear_arith)
        requires
            a + b <= m,
    ;
    crate::coords::lemma_round_div_mono((a + b) * 65536, 65536 * m, m);
    crate::coords::lemma_round_div_exact(65536, m);
    assert(65536 * m == m * 65536) by (nonlinear_arith);
    if round_div(a * 65536, m) < 0 {
        assert(0 <= a * 65536) by (nonlinear_arith)
            requires
                0 <= a,
        ;
        assert((2 * (a * 65536) + m) / (2 * m) >= 0) by (nonlinear_arith)
            requires
                0 <= 2 * (a * 65536) + m,
                0 < 2 * m,
        ;
    }
}

} // verus!
