//! Canvas path-command names, the stack of saved drawing states, the
//! registry of decoded images, and cropping of RGBA images.
use vstd::prelude::*;
use std::collections::HashMap;
use crate::frame::MAX_IMAGES;
use crate::text::chars_of;
use crate::text::eq_lit;

verus! {

/// A canvas path operation.
#[derive(Clone, Copy, Debug, PartialEq, Eq, Structural)]
pub enum PathOp {
    MoveTo,
    LineTo,
    BezierCurveTo,
    QuadraticCurveTo,
    Arc,
    ArcTo,
    Ellipse,
    Rect,
    ClosePath,
}

/// The operation a command name stands for, if any.
pub open spec fn path_op_of(s: Seq<char>) -> Option<PathOp> {
    if s == "moveTo"@ {
        Some(PathOp::MoveTo)
    } else if s == "lineTo"@ {
        Some(PathOp::LineTo)
    } else if s == "bezierCurveTo"@ {
        Some(PathOp::BezierCurveTo)
    } else if s == "quadraticCurveTo"@ {
        Some(PathOp::QuadraticCurveTo)
    } else if s == "arc"@ {
        Some(PathOp::Arc)
    } else if s == "arcTo"@ {
        Some(PathOp::ArcTo)
    } else if s == "ellipse"@ {
        Some(PathOp::Ellipse)
    } else if s == "rect"@ || s == "rect_path"@ {
        Some(PathOp::Rect)
    } else if s == "closePath"@ {
        Some(PathOp::ClosePath)
    } else {
        None
    }
}

impl PathOp {
    /// Parses a path command name; `None` for unknown names.
    pub fn from_str(s: &str) -> (r: Option<PathOp>)
        ensures
            r == path_op_of(s@),
    {
        let v = chars_of(s);
        if eq_lit(&v, "moveTo") {
            Some(PathOp::MoveTo)
        } else if eq_lit(&v, "lineTo") {
            Some(PathOp::LineTo)
        } else if eq_lit(&v, "bezierCurveTo") {
            Some(PathOp::BezierCurveTo)
        } else if eq_lit(&v, "quadraticCurveTo") {
            Some(PathOp::QuadraticCurveTo)
        } else if eq_lit(&v, "arc") {
            Some(PathOp::Arc)
        } else if eq_lit(&v, "arcTo") {
            Some(PathOp::ArcTo)
        } else if eq_lit(&v, "ellipse") {
            Some(PathOp::Ellipse)
        } else if eq_lit(&v, "rect") || eq_lit(&v, "rect_path") {
            Some(PathOp::Rect)
        } else if eq_lit(&v, "closePath") {
            Some(PathOp::ClosePath)
        } else {
            None
        }
    }
}


/// The most drawing states that `save` keeps.
pub const MAX_STATE_STACK_DEPTH: usize = 512;

/// The saved drawing states of a canvas, each with the clip mask saved with
/// it: the two are kept as pairs, so that `restore` always takes back a state
/// with its own mask.
pub struct SaveStack<S, M> {
    entries: Vec<(S, M)>,
}

impl<S, M> SaveStack<S, M> {
    #[verifier::type_invariant]
    spec fn bounded(self) -> bool {
        self.entries@.len() <= MAX_STATE_STACK_DEPTH
    }

    /// The saved (state, mask) pairs, oldest first.
    pub closed spec fn view(&self) -> Seq<(S, M)> {
        self.entries@
    }

    /// No saved states.
    pub fn new() -> (r: Self)
        ensures
            r.view() == Seq::<(S, M)>::empty(),
    {
        SaveStack { entries: Vec::new() }
    }

    /// The number of saved states; never more than `MAX_STATE_STACK_DEPTH`.
    pub fn len(&self) -> (n: usize)
        ensures
            n == self.view().len(),
            n <= MAX_STATE_STACK_DEPTH,
    {
        proof {
            use_type_invariant(self);
        }
        self.entries.len()
    }

    /// Saves a state with its clip mask, unless `MAX_STATE_STACK_DEPTH` are
    /// saved already; says whether it did.
    pub fn save(&mut self, state: S, mask: M) -> (saved: bool)
        ensures
            saved == (old(self).view().len() < MAX_STATE_STACK_DEPTH),
            saved ==> final(self).view() == old(self).view().push((state, mask)),
            !saved ==> final(self).view() == old(self).view(),
    {
        proof {
            use_type_invariant(&*self);
        }
        if self.entries.len() >= MAX_STATE_STACK_DEPTH {
            return false;
        }
        let mut e: Vec<(S, M)> = Vec::new();
        std::mem::swap(&mut e, &mut self.entries);
        e.push((state, mask));
        self.entries = e;
        true
    }

    /// Takes back the state and mask saved last, if any.
    pub fn restore(&mut self) -> (r: Option<(S, M)>)
        ensures
            match r {
                Some(p) => old(self).view().len() > 0 && p == old(self).view().last()
                    && final(self).view() == old(self).view().drop_last(),
                None => old(self).view().len() == 0 && final(self).view() == old(self).view(),
            },
    {
        proof {
            use_type_invariant(&*self);
        }
        let mut e: Vec<(S, M)> = Vec::new();
        std::mem::swap(&mut e, &mut self.entries);
        let r = e.pop();
        self.entries = e;
        r
    }

    /// Forgets every saved state.
    pub fn clear(&mut self)
        ensures
            final(self).view() == Seq::<(S, M)>::empty(),
    {
        self.entries = Vec::new();
    }
}

/// A `restore` after a `save` that was kept gives back the state and mask
/// saved, and leaves the stack as it was before the `save`.
pub proof fn law_restore_undoes_save<S, M>(before: Seq<(S, M)>, state: S, mask: M)
    ensures
        before.push((state, mask)).len() > 0,
        before.push((state, mask)).last() == (state, mask),
        before.push((state, mask)).drop_last() == before,
{
    assert(before.push((state, mask)).drop_last() =~= before);
}

/// The most bytes of one pixel buffer: 8192 by 8192 RGBA pixels.
pub const MAX_PIXMAP_BYTES: usize = 268_435_456;

/// The smaller of two integers.
pub open spec fn min_int(a: int, b: int) -> int {
    if a <= b {
        a
    } else {
        b
    }
}

/// The rows of an RGBA image of `stride` pixels per row held in `len`
/// bytes.
pub open spec fn image_rows(stride: int, len: int) -> int {
    len / if stride >= 1 {
        stride * 4
    } else {
        1
    }
}

/// The crop rectangle `(x, y, w, h)` clamped to an image of `stride` pixels
/// per row held in `len` bytes: what lies outside the image is cut off.
pub open spec fn crop_rect(stride: int, len: int, x: int, y: int, w: int, h: int) -> (int, int, int, int) {
    let rows = image_rows(stride, len);
    let x2 = min_int(x, stride);
    let y2 = min_int(y, rows);
    (x2, y2, min_int(w, stride - x2), min_int(h, rows - y2))
}

/// The byte of the image that byte `i` of a crop at `(x, y)`, `w` pixels
/// wide, copies.
#[verifier::opaque]
pub open spec fn crop_source(stride: int, x: int, y: int, w: int, i: int) -> int {
    ((y + i / (w * 4)) * stride + x) * 4 + i % (w * 4)
}

/// Every byte of `out` is the byte of the image `pixels` that it copies (see
/// `crop_source`), which lies inside the image.
pub open spec fn copies_crop(pixels: Seq<u8>, out: Seq<u8>, stride: int, x: int, y: int, w: int) -> bool {
    forall|i: int|
        #![trigger out[i]]
        #![trigger crop_source(stride, x, y, w, i)]
        0 <= i < out.len() ==> {
            let s = crop_source(stride, x, y, w, i);
            0 <= s < pixels.len() && out[i] == pixels[s]
        }
}

/// Appending the byte that the next position copies keeps a crop a copy.
proof fn lemma_copies_push(pixels: Seq<u8>, before: Seq<u8>, v: u8, stride: int, x: int, y: int, w: int)
    requires
        copies_crop(pixels, before, stride, x, y, w),
        0 <= crop_source(stride, x, y, w, before.len() as int) < pixels.len(),
        v == pixels[crop_source(stride, x, y, w, before.len() as int)],
    ensures
        copies_crop(pixels, before.push(v), stride, x, y, w),
{
    let after = before.push(v);
    assert forall|i: int| #![trigger after[i]] 0 <= i < after.len() implies {
        let s = crop_source(stride, x, y, w, i);
        0 <= s < pixels.len() && after[i] == pixels[s]
    } by {
        if i < before.len() {
            assert(after[i] == before[i]);
        }
    }
}

/// Crops the rectangle at `(x, y)` of `w` by `h` pixels out of an RGBA image
/// of `src_stride` pixels per row, after clamping it to the image (see
/// `crop_rect`); a crop of more than `MAX_PIXMAP_BYTES` bytes gives nothing.
pub fn crop_image_rgba(src_stride: u32, pixels: &[u8], x: u32, y: u32, w: u32, h: u32) -> (r: Vec<u8>)
    requires
        src_stride * 4 <= u32::MAX,
        pixels@.len() <= u32::MAX,
    ensures
        ({
            let (x2, y2, w2, h2) = crop_rect(
                src_stride as int,
                pixels@.len() as int,
                x as int,
                y as int,
                w as int,
                h as int,
            );
            &&& w2 * h2 * 4 > MAX_PIXMAP_BYTES ==> r@.len() == 0
            &&& w2 * h2 * 4 <= MAX_PIXMAP_BYTES ==> r@.len() == w2 * h2 * 4 && copies_crop(
                pixels@,
                r@,
                src_stride as int,
                x2,
                y2,
                w2,
            )
        }),
{
    let len = pixels.len() as u32;
    let unit: u32 = if src_stride >= 1 {
        src_stride * 4
    } else {
        1
    };
    let rows = len / unit;
    let x2 = if x <= src_stride {
        x
    } else {
        src_stride
    };
    let y2 = if y <= rows {
        y
    } else {
        rows
    };
    let w2 = if w <= src_stride - x2 {
        w
    } else {
        src_stride - x2
    };
    let h2 = if h <= rows - y2 {
        h
    } else {
        rows - y2
    };
    let ghost stride = src_stride as int;
    assert(rows as int == image_rows(stride, pixels@.len() as int));
    let wb = w2 * 4;
    assert((wb as u64) * (h2 as u64) <= u64::MAX) by (nonlinear_arith)
        requires
            wb <= u32::MAX,
            h2 <= u32::MAX,
    ;
    let total: u64 = (wb as u64) * (h2 as u64);
    assert(total == w2 * h2 * 4) by (nonlinear_arith)
        requires
            total == wb * h2,
            wb == w2 * 4,
    ;
    assert(crop_rect(stride, pixels@.len() as int, x as int, y as int, w as int, h as int) == (
        x2 as int,
        y2 as int,
        w2 as int,
        h2 as int,
    ));
    if total > MAX_PIXMAP_BYTES as u64 {
        return Vec::new();
    }
    let mut out: Vec<u8> = Vec::new();
    let mut row: u32 = 0;
    proof {
        assert(rows * unit <= len) by (nonlinear_arith)
            requires
                rows == len / unit,
                unit >= 1,
        ;
    }
    while row < h2
        invariant
            row <= h2,
            stride == src_stride as int,
            h2 <= rows - y2,
            w2 <= src_stride - x2,
            x2 <= src_stride,
            wb == w2 * 4,
            w2 * h2 * 4 <= MAX_PIXMAP_BYTES,
            rows * unit <= len,
            len == pixels@.len(),
            unit == if src_stride >= 1 { src_stride * 4 } else { 1 },
            src_stride * 4 <= u32::MAX,
            out@.len() == row * wb,
            copies_crop(pixels@, out@, stride, x2 as int, y2 as int, w2 as int),
        decreases h2 - row,
    {
        let sr = y2 + row;
        proof {
            assert((sr + 1) * src_stride * 4 <= len) by (nonlinear_arith)
                requires
                    sr + 1 <= rows,
                    rows * unit <= len,
                    unit == if src_stride >= 1 { src_stride * 4 } else { 1 },
            ;
            assert((sr * src_stride + x2) * 4 + wb <= (sr + 1) * src_stride * 4) by (nonlinear_arith)
                requires
                    w2 <= src_stride - x2,
                    wb == w2 * 4,
            ;
            assert(row * wb + wb <= w2 * h2 * 4) by (nonlinear_arith)
                requires
                    row < h2,
                    wb == w2 * 4,
            ;
        }
        let src_off: usize = ((sr * src_stride + x2) * 4) as usize;
        let mut j: u32 = 0;
        while j < wb
            invariant
                j <= wb,
                stride == src_stride as int,
                src_off as int == ((y2 + row) * src_stride + x2) * 4,
                src_off + wb <= pixels.len(),
                pixels.len() == pixels@.len(),
                row < h2,
                wb == w2 * 4,
                out@.len() == row * wb + j,
                copies_crop(pixels@, out@, stride, x2 as int, y2 as int, w2 as int),
            decreases wb - j,
        {
            let ghost before = out@;
            out.push(pixels[src_off + j as usize]);
            proof {
                let i = row * wb + j;
                assert(i / (w2 * 4) == row as int && i % (w2 * 4) == j as int) by (nonlinear_arith)
                    requires
                        i == row * wb + j,
                        wb == w2 * 4,
                        0 <= j < wb,
                ;
                assert(crop_source(stride, x2 as int, y2 as int, w2 as int, i) == src_off + j) by {
                    reveal(crop_source);
                }
                lemma_copies_push(
                    pixels@,
                    before,
                    pixels@[src_off + j],
                    stride,
                    x2 as int,
                    y2 as int,
                    w2 as int,
                );
                assert(out@ == before.push(pixels@[src_off + j]));
            }
            j = j + 1;
        }
        row = row + 1;
        proof {
            assert(out@.len() == row * wb) by (nonlinear_arith)
                requires
                    out@.len() == (row - 1) * wb + wb,
            ;
        }
    }
    proof {
        assert(out@.len() == w2 * h2 * 4) by (nonlinear_arith)
            requires
                out@.len() == h2 * wb,
                wb == w2 * 4,
        ;
    }
    out
}

/// A decoded image: its size and its RGBA pixels.
pub struct StoredImage {
    pub width: u32,
    pub height: u32,
    pub rgba: Vec<u8>,
}

/// The decoded images by id, at most `MAX_IMAGES` of them.
pub struct ImageRegistry {
    images: HashMap<u32, StoredImage>,
}

/// The model of a stored image: width, height and pixels.
pub open spec fn image_view(s: StoredImage) -> (u32, u32, Seq<u8>) {
    (s.width, s.height, s.rgba@)
}

impl ImageRegistry {
    /// The registered images by id.
    pub closed spec fn view(&self) -> Map<u32, (u32, u32, Seq<u8>)> {
        self.images@.map_values(|s: StoredImage| image_view(s))
    }

    /// An empty registry.
    pub fn new() -> (r: Self)
        ensures
            r.view() == Map::<u32, (u32, u32, Seq<u8>)>::empty(),
    {
        let r = ImageRegistry { images: HashMap::new() };
        assert(r.view() =~= Map::<u32, (u32, u32, Seq<u8>)>::empty());
        r
    }

    /// The number of registered images.
    pub fn image_count(&self) -> (n: usize)
        ensures
            n == self.view().len(),
    {
        broadcast use vstd::std_specs::hash::group_hash_axioms;
        assert(self.view().dom() =~= self.images@.dom());
        self.images.len()
    }

    /// Registers an image under `id`, replacing one already there; a new id
    /// is refused (nothing changes) once `MAX_IMAGES` images are registered.
    pub fn register_image(&mut self, id: u32, width: u32, height: u32, rgba: Vec<u8>)
        ensures
            old(self).view().len() >= MAX_IMAGES && !old(self).view().contains_key(id)
                ==> final(self).view() == old(self).view(),
            !(old(self).view().len() >= MAX_IMAGES && !old(self).view().contains_key(id))
                ==> final(self).view() == old(self).view().insert(id, (width, height, rgba@)),
    {
        broadcast use vstd::std_specs::hash::group_hash_axioms;
        assert(self.view().dom() =~= self.images@.dom());
        if self.images.len() >= MAX_IMAGES && !self.images.contains_key(&id) {
            return;
        }
        let ghost before = self.images@;
        self.images.insert(id, StoredImage { width, height, rgba });
        assert(self.view() =~= before.map_values(|s: StoredImage| image_view(s)).insert(
            id,
            (width, height, rgba@),
        ));
    }

    /// The size of the image registered under `id`.
    pub fn image_size(&self, id: u32) -> (r: Option<(u32, u32)>)
        ensures
            match r {
                Some((w, h)) => self.view().contains_key(id) && self.view()[id].0 == w
                    && self.view()[id].1 == h,
                None => !self.view().contains_key(id),
            },
    {
        broadcast use vstd::std_specs::hash::group_hash_axioms;
        match self.images.get(&id) {
            Some(s) => Some((s.width, s.height)),
            None => None,
        }
    }
}

} // verus!
