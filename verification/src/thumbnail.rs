//! Image loading decisions: what kind of load was asked for, what a finished
//! load hands back, cache-key variants, crop geometry, EXIF orientation, and
//! the sizes thumbnails, viewer images and animation frames are prepared at.

use vstd::prelude::*;
use crate::app::{GRID_CELL_H, GRID_CELL_W};
use crate::picture::{
    crop, cropped, fitted, flip_horizontal, lemma_flipped_h_at, lemma_flipped_v_at,
    lemma_raster_ext, lemma_rotated180_at, lemma_rotated270_at, lemma_rotated90_at, flip_vertical, flipped_h, flipped_v, lemma_pixel_index, resize,
    resized_of, rotate180, rotate270, rotate90, rotated180, rotated270, rotated90, thumbnail,
    thumbnail_of, Picture, Raster,
};

verus! {

/// Maximum dimension (width or height in pixels) for grid thumbnails.
pub const THUMB_MAX_DIM: u32 = 256;

/// What kind of load was requested. Used to avoid dispatching a load twice.
#[derive(Debug, Clone, Copy, PartialEq, Eq, Hash, Structural)]
pub enum LoadKind {
    Thumb,
    Full,
    Animation,
}

/// What a finished load reports back, without the decoded pixels (which the
/// caller keeps alongside its terminal protocols).
#[derive(Debug)]
pub enum LoadPayload {
    /// A grid thumbnail is ready.
    Thumb,
    /// A (possibly downscaled) full image is ready; `original_dims` are the
    /// source pixel dimensions.
    Full { original_dims: (u32, u32) },
    /// An animation is ready, with each frame's delay in nanoseconds.
    Animation { original_dims: (u32, u32), delays: Vec<u64> },
}

/// A completed image-load result handed back to the main thread.
#[derive(Debug)]
pub struct LoadDone {
    pub source_path: String,
    pub kind: LoadKind,
    pub payload: Result<LoadPayload, String>,
}

/// The crop aspect of grid thumbnails when cropping is on: the pixel size of
/// a grid cell for a font of `font_w` x `font_h` pixels.
pub fn thumb_crop(enabled: bool, font_w: u16, font_h: u16) -> (r: Option<(u32, u32)>)
    ensures
        r == if enabled {
            Some(((GRID_CELL_W * font_w) as u32, (GRID_CELL_H * font_h) as u32))
        } else {
            None::<(u32, u32)>
        },
{
    assert(GRID_CELL_W * font_w <= 16 * 0xffff && GRID_CELL_H * font_h <= 8 * 0xffff) by (nonlinear_arith)
        requires
            GRID_CELL_W == 16,
            GRID_CELL_H == 8,
            font_w <= 0xffff,
            font_h <= 0xffff,
    ;
    if enabled {
        Some((GRID_CELL_W as u32 * font_w as u32, GRID_CELL_H as u32 * font_h as u32))
    } else {
        None
    }
}

/// The size full images are downscaled to: the larger pixel side of a
/// terminal of `cols` x `rows` cells with a `font_w` x `font_h` font, at
/// least one pixel.
pub fn full_max_dim(cols: u16, rows: u16, font_w: u16, font_h: u16) -> (r: u32)
    ensures
        r as int == {
            let w = cols * font_w;
            let h = rows * font_h;
            let m = if w > h {
                w
            } else {
                h
            };
            if m < 1 {
                1
            } else {
                m
            }
        },
{
    assert(cols * font_w <= 0xffff * 0xffff && rows * font_h <= 0xffff * 0xffff) by (nonlinear_arith)
        requires
            cols <= 0xffff,
            font_w <= 0xffff,
            rows <= 0xffff,
            font_h <= 0xffff,
    ;
    let w = cols as u32 * font_w as u32;
    let h = rows as u32 * font_h as u32;
    let m = if w > h {
        w
    } else {
        h
    };
    if m < 1 {
        1
    } else {
        m
    }
}

/// The delay of an animation frame given as `numer / denom` milliseconds,
/// in whole nanoseconds (a zero denominator counts as one).
pub fn delay_nanos(numer: u32, denom: u32) -> (r: u64)
    ensures
        r == numer * 1_000_000 / (if denom == 0 {
            1
        } else {
            denom as int
        }),
{
    let d: u64 = if denom == 0 {
        1
    } else {
        denom as u64
    };
    assert(numer * 1_000_000 <= 0xffff_ffff * 1_000_000) by (nonlinear_arith)
        requires
            numer <= 0xffff_ffff,
    ;
    (numer as u64) * 1_000_000 / d
}

/// Variant mixed into the cache key so toggling crop mode doesn't return a
/// thumbnail in the wrong shape: 0 without cropping, else `(w << 32) | h`.
pub open spec fn cache_variant_spec(crop: Option<(u32, u32)>) -> u64 {
    match crop {
        None => 0,
        Some((w, h)) => (w * 0x1_0000_0000 + h) as u64,
    }
}

/// Cache-key variant of a crop setting (see [`cache_variant_spec`]).
pub fn cache_variant(crop: Option<(u32, u32)>) -> (r: u64)
    ensures
        r == cache_variant_spec(crop),
{
    match crop {
        None => 0,
        Some((w, h)) => (w as u64) * 0x1_0000_0000u64 + (h as u64),
    }
}

/// Distinct crop settings get distinct cache-key variants, except that
/// cropping to `0:0` shares the variant of not cropping.
pub proof fn lemma_cache_variant_distinct(a: Option<(u32, u32)>, b: Option<(u32, u32)>)
    requires
        a != b,
        a != Some((0u32, 0u32)),
        b != Some((0u32, 0u32)),
    ensures
        cache_variant_spec(a) != cache_variant_spec(b),
{
    match (a, b) {
        (Some((w1, h1)), Some((w2, h2))) => {
            if w1 == w2 {
                assert(h1 != h2);
            } else if w1 < w2 {
                assert(w1 * 0x1_0000_0000 + h1 < w2 * 0x1_0000_0000 + h2) by (nonlinear_arith)
                    requires
                        w1 + 1 <= w2,
                        h1 < 0x1_0000_0000,
                        h2 >= 0,
                ;
            } else {
                assert(w2 * 0x1_0000_0000 + h2 < w1 * 0x1_0000_0000 + h1) by (nonlinear_arith)
                    requires
                        w2 + 1 <= w1,
                        h2 < 0x1_0000_0000,
                        h1 >= 0,
                ;
            }
        },
        (Some((w, h)), None) => {
            assert(w * 0x1_0000_0000 + h > 0) by (nonlinear_arith)
                requires
                    w > 0 || h > 0,
            ;
        },
        (None, Some((w, h))) => {
            assert(w * 0x1_0000_0000 + h > 0) by (nonlinear_arith)
                requires
                    w > 0 || h > 0,
            ;
        },
        (None, None) => {},
    }
}

/// A rectangle of pixels inside an image.
#[derive(Debug, Clone, Copy, PartialEq, Eq, Structural)]
pub struct CropRect {
    pub x: u32,
    pub y: u32,
    pub width: u32,
    pub height: u32,
}

/// The centered crop of a `w` x `h` image to the aspect `aw:ah`: the wider
/// side is cut (to at least one pixel) and the rest split evenly on both
/// sides. `None` when nothing needs cutting or a dimension is zero.
pub open spec fn crop_rect_for(w: u32, h: u32, aw: u32, ah: u32) -> Option<CropRect> {
    if w == 0 || h == 0 || aw == 0 || ah == 0 {
        None
    } else if w * ah > h * aw {
        let nw = h * aw / (ah as int);
        let cw = if nw < 1 {
            1
        } else {
            nw
        };
        Some(CropRect { x: ((w - cw) / 2) as u32, y: 0, width: cw as u32, height: h })
    } else if w * ah < h * aw {
        let nh = w * ah / (aw as int);
        let ch = if nh < 1 {
            1
        } else {
            nh
        };
        Some(CropRect { x: 0, y: ((h - ch) / 2) as u32, width: w, height: ch as u32 })
    } else {
        None
    }
}

/// The center crop matches the target aspect as closely as whole pixels
/// allow: it keeps one side of the image and cuts the other to the largest
/// length not exceeding the aspect (when that is at least one pixel), and
/// it cuts nothing when the image already has the aspect.
pub proof fn lemma_crop_matches_aspect(w: u32, h: u32, aw: u32, ah: u32)
    requires
        w >= 1,
        h >= 1,
        aw >= 1,
        ah >= 1,
        h * aw >= ah,
        w * ah >= aw,
    ensures
        crop_rect_for(w, h, aw, ah) is None <==> w * ah == h * aw,
        crop_rect_for(w, h, aw, ah) matches Some(c) ==> (c.height == h && c.width * ah <= h * aw < (
        c.width + 1) * ah) || (c.width == w && c.height * aw <= w * ah < (c.height + 1) * aw),
{
    if w * ah > h * aw {
        let q = h * aw / (ah as int);
        assert(q * ah <= h * aw < (q + 1) * ah && 1 <= q < w) by (nonlinear_arith)
            requires
                ah >= 1,
                q == h * aw / (ah as int),
                h * aw >= ah,
                w * ah > h * aw,
        ;
    } else if w * ah < h * aw {
        let q = w * ah / (aw as int);
        assert(q * aw <= w * ah < (q + 1) * aw && 1 <= q < h) by (nonlinear_arith)
            requires
                aw >= 1,
                q == w * ah / (aw as int),
                w * ah >= aw,
                w * ah < h * aw,
        ;
    }
}

/// The crop rectangle that center-crops a `w` x `h` image to `aw:ah`.
pub fn crop_rect(w: u32, h: u32, aw: u32, ah: u32) -> (r: Option<CropRect>)
    ensures
        r == crop_rect_for(w, h, aw, ah),
        r matches Some(c) ==> c.x + c.width <= w && c.y + c.height <= h && c.width >= 1
            && c.height >= 1 && (c.width == w || c.height == h),
{
    if w == 0 || h == 0 || aw == 0 || ah == 0 {
        return None;
    }
    assert((w as u64) * (ah as u64) <= 0xffff_ffff * 0xffff_ffff && (h as u64) * (aw as u64)
        <= 0xffff_ffff * 0xffff_ffff) by (nonlinear_arith)
        requires
            w <= 0xffff_ffff,
            h <= 0xffff_ffff,
            aw <= 0xffff_ffff,
            ah <= 0xffff_ffff,
    ;
    let image_ratio = (w as u64) * (ah as u64);
    let target_ratio = (h as u64) * (aw as u64);
    if image_ratio > target_ratio {
        let q = (h as u64) * (aw as u64) / (ah as u64);
        assert(q < w) by (nonlinear_arith)
            requires
                q == (h * aw) / (ah as int),
                w * ah > h * aw,
                ah >= 1,
        ;
        let cw: u32 = if q < 1 {
            1
        } else {
            q as u32
        };
        Some(CropRect { x: (w - cw) / 2, y: 0, width: cw, height: h })
    } else if image_ratio < target_ratio {
        let q = (w as u64) * (ah as u64) / (aw as u64);
        assert(q < h) by (nonlinear_arith)
            requires
                q == (w * ah) / (aw as int),
                w * ah < h * aw,
                aw >= 1,
        ;
        let ch: u32 = if q < 1 {
            1
        } else {
            q as u32
        };
        Some(CropRect { x: 0, y: (h - ch) / 2, width: w, height: ch })
    } else {
        None
    }
}

/// `r` center-cropped to the aspect `aspect.0:aspect.1` (see [`crop_rect_for`]).
pub open spec fn center_cropped(r: Raster, aspect: (u32, u32)) -> Raster {
    match crop_rect_for(r.width, r.height, aspect.0, aspect.1) {
        Some(c) => cropped(r, c.x, c.y, c.width, c.height),
        None => r,
    }
}

/// Center-crop `img` so its aspect matches `aspect.0:aspect.1` (see
/// [`crop_rect_for`]). If the image already matches, or a dimension is
/// zero, returns it unchanged.
pub fn center_crop_to_aspect(img: Picture, aspect: (u32, u32)) -> (r: Picture)
    ensures
        r@ == center_cropped(img@, aspect),
        img@.width >= 1 && img@.height >= 1 ==> r@.width >= 1 && r@.height >= 1,
        r@.width <= img@.width && r@.height <= img@.height,
{
    let w = img.width();
    let h = img.height();
    match crop_rect(w, h, aspect.0, aspect.1) {
        Some(rect) => crop(&img, rect.x, rect.y, rect.width, rect.height),
        None => img,
    }
}

/// An EXIF orientation as the image operations that undo it.
#[derive(Debug, Clone, Copy, PartialEq, Eq, Structural)]
pub enum Orientation {
    Identity,
    FlipHorizontal,
    Rotate180,
    FlipVertical,
    /// Rotate 90 degrees clockwise, then flip horizontally.
    Transpose,
    Rotate90,
    /// Rotate 270 degrees clockwise, then flip horizontally.
    Transverse,
    Rotate270,
}

/// The orientation of an EXIF tag value: 1=identity, 2=flip-h, 3=rot180,
/// 4=flip-v, 5=transpose, 6=rot90-cw, 7=transverse, 8=rot90-ccw; anything else
/// is left alone.
pub open spec fn orientation_spec(tag: u32) -> Orientation {
    if tag == 2 {
        Orientation::FlipHorizontal
    } else if tag == 3 {
        Orientation::Rotate180
    } else if tag == 4 {
        Orientation::FlipVertical
    } else if tag == 5 {
        Orientation::Transpose
    } else if tag == 6 {
        Orientation::Rotate90
    } else if tag == 7 {
        Orientation::Transverse
    } else if tag == 8 {
        Orientation::Rotate270
    } else {
        Orientation::Identity
    }
}

/// The orientation of an EXIF tag value (see [`orientation_spec`]).
pub fn orientation_of(tag: u32) -> (r: Orientation)
    ensures
        r == orientation_spec(tag),
{
    match tag {
        2 => Orientation::FlipHorizontal,
        3 => Orientation::Rotate180,
        4 => Orientation::FlipVertical,
        5 => Orientation::Transpose,
        6 => Orientation::Rotate90,
        7 => Orientation::Transverse,
        8 => Orientation::Rotate270,
        _ => Orientation::Identity,
    }
}

/// `r` with the EXIF orientation `tag` applied (see [`orientation_spec`]).
pub open spec fn oriented(r: Raster, tag: u32) -> Raster {
    match orientation_spec(tag) {
        Orientation::Identity => r,
        Orientation::FlipHorizontal => flipped_h(r),
        Orientation::Rotate180 => rotated180(r),
        Orientation::FlipVertical => flipped_v(r),
        Orientation::Transpose => flipped_h(rotated90(r)),
        Orientation::Rotate90 => rotated90(r),
        Orientation::Transverse => flipped_h(rotated270(r)),
        Orientation::Rotate270 => rotated270(r),
    }
}

/// Apply one of the 8 EXIF orientations to an image (see [`oriented`]).
pub fn apply_orientation(img: Picture, tag: u32) -> (r: Picture)
    ensures
        r@ == oriented(img@, tag),
{
    match orientation_of(tag) {
        Orientation::Identity => img,
        Orientation::FlipHorizontal => flip_horizontal(&img),
        Orientation::Rotate180 => rotate180(&img),
        Orientation::FlipVertical => flip_vertical(&img),
        Orientation::Transpose => {
            let r = rotate90(&img);
            flip_horizontal(&r)
        },
        Orientation::Rotate90 => rotate90(&img),
        Orientation::Transverse => {
            let r = rotate270(&img);
            flip_horizontal(&r)
        },
        Orientation::Rotate270 => rotate270(&img),
    }
}

/// EXIF orientations 5 to 8 turn the image a quarter, swapping its width
/// and height; the others keep its size.
pub proof fn lemma_orientation_dims(r: Raster, tag: u32)
    ensures
        5 <= tag <= 8 ==> oriented(r, tag).width == r.height && oriented(r, tag).height == r.width,
        !(5 <= tag <= 8) ==> oriented(r, tag).width == r.width && oriented(r, tag).height == r.height,
{
}

/// EXIF orientation 5 transposes: pixel `(x, y)` of the result is pixel
/// `(y, x)` of the source.
pub proof fn lemma_transpose(r: Raster, x: int, y: int, c: int)
    requires
        r.wf(),
        0 <= x < r.height,
        0 <= y < r.width,
        0 <= c < 4,
    ensures
        oriented(r, 5).at(x, y, c) == r.at(y, x, c),
{
    let q = rotated90(r);
    lemma_pixel_index(q.width, q.height, x, y, c);
    lemma_pixel_index(q.width, q.height, q.width - 1 - x, y, c);
    assert(flipped_h(q).at(x, y, c) == q.at(q.width - 1 - x, y, c));
    assert(q.at(q.width - 1 - x, y, c) == r.at(y, x, c));
}

/// EXIF orientation 7 transverses: pixel `(x, y)` of the result is pixel
/// `(width - 1 - y, height - 1 - x)` of the source.
pub proof fn lemma_transverse(r: Raster, x: int, y: int, c: int)
    requires
        r.wf(),
        0 <= x < r.height,
        0 <= y < r.width,
        0 <= c < 4,
    ensures
        oriented(r, 7).at(x, y, c) == r.at(r.width - 1 - y, r.height - 1 - x, c),
{
    let q = rotated270(r);
    lemma_pixel_index(q.width, q.height, x, y, c);
    lemma_pixel_index(q.width, q.height, q.width - 1 - x, y, c);
    assert(flipped_h(q).at(x, y, c) == q.at(q.width - 1 - x, y, c));
    assert(q.at(q.width - 1 - x, y, c) == r.at(r.width - 1 - y, r.height - 1 - x, c));
}

/// Applying an orientation that is its own inverse twice (2, 3, 4, 5 and 7:
/// the flips, the half turn, the transpose and the transverse), or 6 and 8
/// one after the other, gives the image back.
pub proof fn lemma_orientation_undone(r: Raster)
    requires
        r.wf(),
    ensures
        oriented(oriented(r, 2), 2) == r,
        oriented(oriented(r, 3), 3) == r,
        oriented(oriented(r, 4), 4) == r,
        oriented(oriented(r, 5), 5) == r,
        oriented(oriented(r, 7), 7) == r,
        oriented(oriented(r, 6), 8) == r,
        oriented(oriented(r, 8), 6) == r,
{
    let w = r.width as int;
    let h = r.height as int;
    // 2: flip left to right twice.
    let a = flipped_h(r);
    assert(a.wf() && flipped_h(a).wf());
    assert forall|x: int, y: int, c: int| 0 <= x < w && 0 <= y < h && 0 <= c < 4 implies #[trigger] flipped_h(
        a,
    ).at(x, y, c) == r.at(x, y, c) by {
        lemma_flipped_h_at(a, x, y, c);
        lemma_flipped_h_at(r, w - 1 - x, y, c);
    }
    lemma_raster_ext(flipped_h(a), r);
    // 3: half turn twice.
    let b = rotated180(r);
    assert(b.wf() && rotated180(b).wf());
    assert forall|x: int, y: int, c: int| 0 <= x < w && 0 <= y < h && 0 <= c < 4 implies #[trigger] rotated180(
        b,
    ).at(x, y, c) == r.at(x, y, c) by {
        lemma_rotated180_at(b, x, y, c);
        lemma_rotated180_at(r, w - 1 - x, h - 1 - y, c);
    }
    lemma_raster_ext(rotated180(b), r);
    // 4: flip top to bottom twice.
    let v = flipped_v(r);
    assert(v.wf() && flipped_v(v).wf());
    assert forall|x: int, y: int, c: int| 0 <= x < w && 0 <= y < h && 0 <= c < 4 implies #[trigger] flipped_v(
        v,
    ).at(x, y, c) == r.at(x, y, c) by {
        lemma_flipped_v_at(v, x, y, c);
        lemma_flipped_v_at(r, x, h - 1 - y, c);
    }
    lemma_raster_ext(flipped_v(v), r);
    // 6 then 8, and 8 then 6.
    let q = rotated90(r);
    assert(q.wf() && rotated270(q).wf());
    assert forall|x: int, y: int, c: int| 0 <= x < w && 0 <= y < h && 0 <= c < 4 implies #[trigger] rotated270(
        q,
    ).at(x, y, c) == r.at(x, y, c) by {
        lemma_rotated270_at(q, x, y, c);
        lemma_rotated90_at(r, h - 1 - y, x, c);
    }
    lemma_raster_ext(rotated270(q), r);
    let z = rotated270(r);
    assert(z.wf() && rotated90(z).wf());
    assert forall|x: int, y: int, c: int| 0 <= x < w && 0 <= y < h && 0 <= c < 4 implies #[trigger] rotated90(
        z,
    ).at(x, y, c) == r.at(x, y, c) by {
        lemma_rotated90_at(z, x, y, c);
        lemma_rotated270_at(r, y, w - 1 - x, c);
    }
    lemma_raster_ext(rotated90(z), r);
    // 5 twice: the transpose of the transpose.
    let t = oriented(r, 5);
    assert(t.wf() && oriented(t, 5).wf());
    assert forall|x: int, y: int, c: int| 0 <= x < w && 0 <= y < h && 0 <= c < 4 implies #[trigger] oriented(
        t,
        5,
    ).at(x, y, c) == r.at(x, y, c) by {
        lemma_transpose(t, x, y, c);
        lemma_transpose(r, y, x, c);
    }
    lemma_raster_ext(oriented(t, 5), r);
    // 7 twice: the transverse of the transverse.
    let u = oriented(r, 7);
    assert(u.wf() && oriented(u, 7).wf());
    assert forall|x: int, y: int, c: int| 0 <= x < w && 0 <= y < h && 0 <= c < 4 implies #[trigger] oriented(
        u,
        7,
    ).at(x, y, c) == r.at(x, y, c) by {
        lemma_transverse(u, x, y, c);
        lemma_transverse(r, h - 1 - y, w - 1 - x, c);
    }
    lemma_raster_ext(oriented(u, 7), r);
}

/// Whether a `w` x `h` image must shrink to fit `max_dim` on its longest side.
pub open spec fn exceeds(w: u32, h: u32, max_dim: u32) -> bool {
    w > max_dim || h > max_dim
}

/// The image the fullscreen viewer shows of `r`: downscaled to fit
/// `max_dim` x `max_dim` when larger, else `r` itself.
pub open spec fn full_view(r: Raster, max_dim: u32) -> Raster {
    if exceeds(r.width, r.height, max_dim) {
        resized_of(r, max_dim, max_dim)
    } else {
        r
    }
}

/// A decoded image prepared for the fullscreen viewer (see [`full_view`]),
/// with the source dimensions.
pub fn prepare_full(img: Picture, max_dim: u32) -> (r: (Picture, (u32, u32)))
    ensures
        r.1 == (img@.width, img@.height),
        r.0@ == full_view(img@, max_dim),
        img@.width >= 1 && img@.height >= 1 && max_dim >= 1 && exceeds(img@.width, img@.height, max_dim)
            ==> fitted(img@.width, img@.height, max_dim, max_dim, r.0@.width, r.0@.height),
        img@.width >= 1 && img@.height >= 1 && max_dim >= 1 ==> 1 <= r.0@.width <= max_dim
            && 1 <= r.0@.height <= max_dim,
{
    let dims = (img.width(), img.height());
    if exceeds_max(dims.0, dims.1, max_dim) {
        (resize(&img, max_dim, max_dim), dims)
    } else {
        (img, dims)
    }
}

/// Whether `w` x `h` exceeds `max_dim` on either side.
pub fn exceeds_max(w: u32, h: u32, max_dim: u32) -> (r: bool)
    ensures
        r == exceeds(w, h, max_dim),
{
    w > max_dim || h > max_dim
}

/// The grid thumbnail of `r`: center-cropped to `crop` when given, then
/// fitted into `THUMB_MAX_DIM` x `THUMB_MAX_DIM`.
pub open spec fn thumbnail_view(r: Raster, crop: Option<(u32, u32)>) -> Raster {
    let src = match crop {
        Some(aspect) => center_cropped(r, aspect),
        None => r,
    };
    thumbnail_of(src, THUMB_MAX_DIM, THUMB_MAX_DIM)
}

/// A grid thumbnail of a decoded image (see [`thumbnail_view`]).
pub fn make_thumbnail(img: Picture, crop: Option<(u32, u32)>) -> (r: Picture)
    ensures
        r@ == thumbnail_view(img@, crop),
        img@.width >= 1 && img@.height >= 1 ==> ({
            let src = match crop {
                Some(aspect) => center_cropped(img@, aspect),
                None => img@,
            };
            fitted(src.width, src.height, THUMB_MAX_DIM, THUMB_MAX_DIM, r@.width, r@.height)
        }),
{
    let img = match crop {
        Some(aspect) => center_crop_to_aspect(img, aspect),
        None => img,
    };
    thumbnail(&img, THUMB_MAX_DIM, THUMB_MAX_DIM)
}

} // verus!
