//! Decoded images as RGBA pixels, and the pixel operations of the `image`
//! crate the gallery applies to them.

use vstd::prelude::*;
use vstd::arithmetic::div_mod::lemma_fundamental_div_mod_converse;

verus! {

/// The value of a [`Picture`]: width, height, and the RGBA bytes of its
/// pixels row by row, four per pixel.
pub struct Raster {
    pub width: u32,
    pub height: u32,
    pub bytes: Seq<u8>,
}

impl Raster {
    /// Four bytes per pixel.
    pub open spec fn wf(self) -> bool {
        self.bytes.len() == 4 * self.width * self.height
    }

    /// Channel `c` (red, green, blue, alpha) of the pixel in column `x`, row `y`.
    pub open spec fn at(self, x: int, y: int, c: int) -> u8 {
        self.bytes[4 * (y * self.width + x) + c]
    }
}

/// The `width` x `height` raster whose channel `c` at `(x, y)` is `f(x, y, c)`.
pub open spec fn raster_from(width: u32, height: u32, f: spec_fn(int, int, int) -> u8) -> Raster {
    Raster {
        width,
        height,
        bytes: Seq::new(
            (4 * width * height) as nat,
            |i: int| f((i / 4) % (width as int), (i / 4) / (width as int), i % 4),
        ),
    }
}

/// Mirrored left to right.
pub open spec fn flipped_h(r: Raster) -> Raster {
    raster_from(r.width, r.height, |x: int, y: int, c: int| r.at(r.width - 1 - x, y, c))
}

/// Mirrored top to bottom.
pub open spec fn flipped_v(r: Raster) -> Raster {
    raster_from(r.width, r.height, |x: int, y: int, c: int| r.at(x, r.height - 1 - y, c))
}

/// Turned a quarter clockwise: the source's bottom-left corner becomes the top-left.
pub open spec fn rotated90(r: Raster) -> Raster {
    raster_from(r.height, r.width, |x: int, y: int, c: int| r.at(y, r.height - 1 - x, c))
}

/// Turned half a turn.
pub open spec fn rotated180(r: Raster) -> Raster {
    raster_from(
        r.width,
        r.height,
        |x: int, y: int, c: int| r.at(r.width - 1 - x, r.height - 1 - y, c),
    )
}

/// Turned three quarters clockwise: the source's top-right corner becomes the top-left.
pub open spec fn rotated270(r: Raster) -> Raster {
    raster_from(r.height, r.width, |x: int, y: int, c: int| r.at(r.width - 1 - y, x, c))
}

/// The `w` x `h` part of `r` whose top-left pixel is `(x0, y0)`.
pub open spec fn cropped(r: Raster, x0: u32, y0: u32, w: u32, h: u32) -> Raster {
    raster_from(w, h, |x: int, y: int, c: int| r.at(x0 + x, y0 + y, c))
}

/// A `w` x `h` image resized to `rw` x `rh` to fit `max_w` x `max_h` with
/// its aspect kept: each side between 1 and its maximum, the side that
/// limits the fit exactly at its maximum, and the other side less than one
/// pixel from the exact proportion.
pub open spec fn fitted(w: u32, h: u32, max_w: u32, max_h: u32, rw: u32, rh: u32) -> bool {
    &&& 1 <= rw <= max_w
    &&& 1 <= rh <= max_h
    &&& (w * max_h >= h * max_w ==> rw == max_w && -(w as int) < rh * w - h * max_w < w)
    &&& (w * max_h <= h * max_w ==> rh == max_h && -(h as int) < rw * h - w * max_h < h)
}

/// What `DynamicImage::thumbnail(max_w, max_h)` makes of an RGBA image.
pub uninterp spec fn thumbnail_of(r: Raster, max_w: u32, max_h: u32) -> Raster;

/// What `DynamicImage::resize(max_w, max_h, FilterType::Triangle)` makes of an RGBA image.
pub uninterp spec fn resized_of(r: Raster, max_w: u32, max_h: u32) -> Raster;

/// The PNG file `DynamicImage::write_to` writes for an RGBA image, or `None`
/// when the encoder refuses it.
pub uninterp spec fn png_of(r: Raster) -> Option<Seq<u8>>;

/// Where channel `c` of pixel `(x, y)` of a `width` x `height` raster
/// sits among its bytes, and how [`raster_from`] reads that position back.
pub proof fn lemma_pixel_index(width: u32, height: u32, x: int, y: int, c: int)
    requires
        0 <= x < width,
        0 <= y < height,
        0 <= c < 4,
    ensures
        ({
            let i = 4 * (y * width + x) + c;
            &&& 0 <= i < 4 * width * height
            &&& (i / 4) % (width as int) == x
            &&& (i / 4) / (width as int) == y
            &&& i % 4 == c
        }),
{
    let w = width as int;
    let h = height as int;
    let p = y * w + x;
    let i = 4 * p + c;
    assert(0 <= p < w * h) by (nonlinear_arith)
        requires
            0 <= x < w,
            0 <= y < h,
            p == y * w + x,
    ;
    assert(4 * w * h == 4 * (w * h)) by (nonlinear_arith);
    lemma_fundamental_div_mod_converse(i, 4, p, c);
    lemma_fundamental_div_mod_converse(p, w, y, x);
}

/// Every byte position of a `width` x `height` raster is channel `i % 4`
/// of one pixel `(x, y)` inside it.
pub proof fn lemma_index_decompose(width: u32, height: u32, i: int)
    requires
        0 <= i < 4 * width * height,
    ensures
        ({
            let p = i / 4;
            let x = p % (width as int);
            let y = p / (width as int);
            &&& 0 <= x < width
            &&& 0 <= y < height
            &&& 0 <= i % 4 < 4
            &&& i == 4 * (y * width + x) + i % 4
        }),
{
    let w = width as int;
    let h = height as int;
    let p = i / 4;
    assert(0 <= p < w * h && i == 4 * p + i % 4 && 0 <= i % 4 < 4) by (nonlinear_arith)
        requires
            0 <= i < 4 * w * h,
            p == i / 4,
    ;
    assert(w > 0) by (nonlinear_arith)
        requires
            0 <= p < w * h,
            w >= 0,
            h >= 0,
    ;
    assert(p == (p / w) * w + p % w && 0 <= p % w < w && 0 <= p / w < h) by (nonlinear_arith)
        requires
            w > 0,
            0 <= p < w * h,
    ;
}

/// Rasters of one size whose pixels all agree are equal.
pub proof fn lemma_raster_ext(a: Raster, b: Raster)
    requires
        a.wf(),
        b.wf(),
        a.width == b.width,
        a.height == b.height,
        forall|x: int, y: int, c: int|
            0 <= x < a.width && 0 <= y < a.height && 0 <= c < 4 ==> #[trigger] a.at(x, y, c) == b.at(
                x,
                y,
                c,
            ),
    ensures
        a == b,
{
    assert forall|i: int| 0 <= i < a.bytes.len() implies a.bytes[i] == b.bytes[i] by {
        lemma_index_decompose(a.width, a.height, i);
        let p = i / 4;
        let x = p % (a.width as int);
        let y = p / (a.width as int);
        assert(a.at(x, y, i % 4) == b.at(x, y, i % 4));
    }
    assert(a.bytes =~= b.bytes);
}

/// A pixel of [`flipped_h`].
pub proof fn lemma_flipped_h_at(r: Raster, x: int, y: int, c: int)
    requires
        0 <= x < r.width,
        0 <= y < r.height,
        0 <= c < 4,
    ensures
        flipped_h(r).at(x, y, c) == r.at(r.width - 1 - x, y, c),
        flipped_h(r).wf(),
{
    lemma_pixel_index(r.width, r.height, x, y, c);
}

/// A pixel of [`flipped_v`].
pub proof fn lemma_flipped_v_at(r: Raster, x: int, y: int, c: int)
    requires
        0 <= x < r.width,
        0 <= y < r.height,
        0 <= c < 4,
    ensures
        flipped_v(r).at(x, y, c) == r.at(x, r.height - 1 - y, c),
        flipped_v(r).wf(),
{
    lemma_pixel_index(r.width, r.height, x, y, c);
}

/// A pixel of [`rotated180`].
pub proof fn lemma_rotated180_at(r: Raster, x: int, y: int, c: int)
    requires
        0 <= x < r.width,
        0 <= y < r.height,
        0 <= c < 4,
    ensures
        rotated180(r).at(x, y, c) == r.at(r.width - 1 - x, r.height - 1 - y, c),
        rotated180(r).wf(),
{
    lemma_pixel_index(r.width, r.height, x, y, c);
}

/// A pixel of [`rotated90`].
pub proof fn lemma_rotated90_at(r: Raster, x: int, y: int, c: int)
    requires
        0 <= x < r.height,
        0 <= y < r.width,
        0 <= c < 4,
    ensures
        rotated90(r).at(x, y, c) == r.at(y, r.height - 1 - x, c),
        rotated90(r).wf(),
{
    lemma_pixel_index(r.height, r.width, x, y, c);
}

/// A pixel of [`rotated270`].
pub proof fn lemma_rotated270_at(r: Raster, x: int, y: int, c: int)
    requires
        0 <= x < r.height,
        0 <= y < r.width,
        0 <= c < 4,
    ensures
        rotated270(r).at(x, y, c) == r.at(r.width - 1 - y, x, c),
        rotated270(r).wf(),
{
    lemma_pixel_index(r.height, r.width, x, y, c);
}

/// `4 * width * height`, the number of bytes of a picture.
fn byte_count(width: u32, height: u32) -> (r: u128)
    ensures
        r == 4 * width * height,
{
    assert(4 * width * height < 0x1_0000_0000_0000_0000_0000) by (nonlinear_arith)
        requires
            width < 0x1_0000_0000,
            height < 0x1_0000_0000,
    ;
    4 * (width as u128) * (height as u128)
}

/// A decoded image: `width` x `height` pixels as RGBA bytes, row by row.
pub struct Picture {
    width: u32,
    height: u32,
    rgba: Vec<u8>,
}

impl View for Picture {
    type V = Raster;

    closed spec fn view(&self) -> Raster {
        Raster { width: self.width, height: self.height, bytes: self.rgba@ }
    }
}

impl Picture {
    #[verifier::type_invariant]
    closed spec fn inv(self) -> bool {
        self.rgba@.len() == 4 * self.width * self.height
    }

    /// A picture of the given size and bytes; `None` unless there are exactly
    /// four bytes per pixel.
    pub fn new(width: u32, height: u32, rgba: Vec<u8>) -> (r: Option<Picture>)
        ensures
            r is Some <==> rgba@.len() == 4 * width * height,
            r matches Some(p) ==> p@ == (Raster { width, height, bytes: rgba@ }),
    {
        let need = byte_count(width, height);
        if (rgba.len() as u128) == need {
            Some(Picture { width, height, rgba })
        } else {
            None
        }
    }

    pub fn width(&self) -> (r: u32)
        ensures
            r == self@.width,
            self@.wf(),
    {
        proof {
            use_type_invariant(self);
        }
        self.width
    }

    pub fn height(&self) -> (r: u32)
        ensures
            r == self@.height,
            self@.wf(),
    {
        proof {
            use_type_invariant(self);
        }
        self.height
    }

    /// The RGBA bytes, row by row.
    pub fn rgba(&self) -> (r: &[u8])
        ensures
            r@ == self@.bytes,
            self@.wf(),
    {
        proof {
            use_type_invariant(self);
        }
        self.rgba.as_slice()
    }

    /// A copy of this picture.
    pub fn duplicate(&self) -> (r: Picture)
        ensures
            r@ == self@,
    {
        proof {
            use_type_invariant(self);
        }
        let mut rgba: Vec<u8> = Vec::new();
        let mut i: usize = 0;
        while i < self.rgba.len()
            invariant
                i <= self.rgba@.len(),
                rgba@ == self.rgba@.take(i as int),
            decreases self.rgba@.len() - i,
        {
            rgba.push(self.rgba[i]);
            i = i + 1;
            assert(rgba@ =~= self.rgba@.take(i as int));
        }
        assert(self.rgba@.take(self.rgba@.len() as int) =~= self.rgba@);
        Picture { width: self.width, height: self.height, rgba }
    }

    /// The picture of an image of the `image` crate, converted to 8-bit RGBA:
    /// its size and the first four bytes per pixel of its RGBA buffer.
    pub fn from_image(img: &image::DynamicImage) -> (r: Picture)
        ensures
            r@ == (Raster {
                width: image_dims_of(*img).0,
                height: image_dims_of(*img).1,
                bytes: rgba8_of(*img).take(4 * image_dims_of(*img).0 * image_dims_of(*img).1),
            }),
    {
        let (width, height, mut rgba) = rgba8_parts(img);
        let n = byte_count(width, height);
        rgba.truncate(n as usize);
        Picture { width, height, rgba }
    }

    /// This picture as an RGBA image of the `image` crate, of the same size
    /// and bytes.
    pub fn to_image(&self) -> (r: image::DynamicImage)
        ensures
            image_dims_of(r) == (self@.width, self@.height),
            rgba8_of(r) == self@.bytes,
    {
        proof {
            use_type_invariant(self);
        }
        let copy = self.duplicate();
        let Picture { width, height, rgba } = copy;
        let img = rgba8_image(width, height, rgba);
        img.unwrap()
    }
}

/// An image of the `image` crate.
#[verifier::external_type_specification]
#[verifier::external_body]
pub struct ExDynamicImage(image::DynamicImage);

/// An error of the `image` crate.
#[verifier::external_type_specification]
#[verifier::external_body]
pub struct ExImageError(image::ImageError);

/// The size of an image of the `image` crate (`DynamicImage::dimensions`).
pub uninterp spec fn image_dims_of(img: image::DynamicImage) -> (u32, u32);

/// What an image of the `image` crate holds, as the buffer of 8-bit RGBA
/// bytes `DynamicImage::to_rgba8` gives for it: four bytes per pixel, row by
/// row, possibly followed by unused bytes of an RGBA image built over a
/// longer buffer.
pub uninterp spec fn rgba8_of(img: image::DynamicImage) -> Seq<u8>;

/// Calls `DynamicImage::to_rgba8` and takes the buffer apart: width, height
/// and the bytes, at least four per pixel (an `ImageBuffer` never holds fewer).
#[verifier::external_body]
fn rgba8_parts(img: &image::DynamicImage) -> (r: (u32, u32, Vec<u8>))
    ensures
        (r.0, r.1) == image_dims_of(*img),
        r.2@ == rgba8_of(*img),
        r.2@.len() >= 4 * r.0 * r.1,
{
    let rgba = img.to_rgba8();
    (rgba.width(), rgba.height(), rgba.into_raw())
}

/// Calls `ImageBuffer::<Rgba<u8>, _>::from_raw`, which accepts a buffer of at
/// least four bytes per pixel and keeps it as it is, and wraps the result as
/// a `DynamicImage` (whose `to_rgba8` is a copy of that buffer).
#[verifier::external_body]
fn rgba8_image(width: u32, height: u32, rgba: Vec<u8>) -> (r: Option<image::DynamicImage>)
    ensures
        r is Some <==> rgba@.len() >= 4 * width * height,
        r matches Some(img) ==> image_dims_of(img) == (width, height) && rgba8_of(img) == rgba@,
{
    image::RgbaImage::from_raw(width, height, rgba).map(image::DynamicImage::ImageRgba8)
}

/// Calls `image::imageops::flip_horizontal` on the picture's RGBA buffer.
#[verifier::external_body]
pub(crate) fn flip_horizontal(p: &Picture) -> (r: Picture)
    ensures
        r@ == flipped_h(p@),
{
    let img = image::RgbaImage::from_raw(p.width, p.height, p.rgba.clone()).unwrap();
    let out = image::imageops::flip_horizontal(&img);
    Picture { width: out.width(), height: out.height(), rgba: out.into_raw() }
}

/// Calls `image::imageops::flip_vertical` on the picture's RGBA buffer.
#[verifier::external_body]
pub(crate) fn flip_vertical(p: &Picture) -> (r: Picture)
    ensures
        r@ == flipped_v(p@),
{
    let img = image::RgbaImage::from_raw(p.width, p.height, p.rgba.clone()).unwrap();
    let out = image::imageops::flip_vertical(&img);
    Picture { width: out.width(), height: out.height(), rgba: out.into_raw() }
}

/// Calls `image::imageops::rotate90` on the picture's RGBA buffer.
#[verifier::external_body]
pub(crate) fn rotate90(p: &Picture) -> (r: Picture)
    ensures
        r@ == rotated90(p@),
{
    let img = image::RgbaImage::from_raw(p.width, p.height, p.rgba.clone()).unwrap();
    let out = image::imageops::rotate90(&img);
    Picture { width: out.width(), height: out.height(), rgba: out.into_raw() }
}

/// Calls `image::imageops::rotate180` on the picture's RGBA buffer.
#[verifier::external_body]
pub(crate) fn rotate180(p: &Picture) -> (r: Picture)
    ensures
        r@ == rotated180(p@),
{
    let img = image::RgbaImage::from_raw(p.width, p.height, p.rgba.clone()).unwrap();
    let out = image::imageops::rotate180(&img);
    Picture { width: out.width(), height: out.height(), rgba: out.into_raw() }
}

/// Calls `image::imageops::rotate270` on the picture's RGBA buffer.
#[verifier::external_body]
pub(crate) fn rotate270(p: &Picture) -> (r: Picture)
    ensures
        r@ == rotated270(p@),
{
    let img = image::RgbaImage::from_raw(p.width, p.height, p.rgba.clone()).unwrap();
    let out = image::imageops::rotate270(&img);
    Picture { width: out.width(), height: out.height(), rgba: out.into_raw() }
}

/// Calls `image::imageops::crop_imm` with a rectangle inside the picture
/// (which it then takes as given) and copies the view out.
#[verifier::external_body]
pub(crate) fn crop(p: &Picture, x: u32, y: u32, w: u32, h: u32) -> (r: Picture)
    requires
        x + w <= p@.width,
        y + h <= p@.height,
    ensures
        r@ == cropped(p@, x, y, w, h),
{
    let img = image::RgbaImage::from_raw(p.width, p.height, p.rgba.clone()).unwrap();
    let out = image::imageops::crop_imm(&img, x, y, w, h).to_image();
    Picture { width: out.width(), height: out.height(), rgba: out.into_raw() }
}

/// Calls `DynamicImage::thumbnail`: an aspect-preserving resize to fit
/// `max_w` x `max_h` (see [`fitted`]); the image crate scales both sides by
/// the smaller of the two ratios, rounds, and keeps at least one pixel.
#[verifier::external_body]
pub(crate) fn thumbnail(p: &Picture, max_w: u32, max_h: u32) -> (r: Picture)
    ensures
        r@ == thumbnail_of(p@, max_w, max_h),
        p@.width >= 1 && p@.height >= 1 && max_w >= 1 && max_h >= 1 ==> fitted(
            p@.width,
            p@.height,
            max_w,
            max_h,
            r@.width,
            r@.height,
        ),
{
    let img = image::RgbaImage::from_raw(p.width, p.height, p.rgba.clone()).unwrap();
    let out = image::DynamicImage::ImageRgba8(img).thumbnail(max_w, max_h).to_rgba8();
    Picture { width: out.width(), height: out.height(), rgba: out.into_raw() }
}

/// Calls `DynamicImage::resize` with the triangle filter: an
/// aspect-preserving resize to fit `max_w` x `max_h` (see [`fitted`]); the
/// image crate scales both sides by the smaller of the two ratios, rounds,
/// and keeps at least one pixel, or returns the image as it is when it
/// already has that size.
#[verifier::external_body]
pub(crate) fn resize(p: &Picture, max_w: u32, max_h: u32) -> (r: Picture)
    ensures
        r@ == resized_of(p@, max_w, max_h),
        p@.width >= 1 && p@.height >= 1 && max_w >= 1 && max_h >= 1 ==> fitted(
            p@.width,
            p@.height,
            max_w,
            max_h,
            r@.width,
            r@.height,
        ),
{
    let img = image::RgbaImage::from_raw(p.width, p.height, p.rgba.clone()).unwrap();
    let out = image::DynamicImage::ImageRgba8(img)
        .resize(max_w, max_h, image::imageops::FilterType::Triangle)
        .to_rgba8();
    Picture { width: out.width(), height: out.height(), rgba: out.into_raw() }
}

/// Calls `DynamicImage::write_to` with the PNG format on the picture's RGBA buffer.
#[verifier::external_body]
pub(crate) fn png(p: &Picture) -> (r: Result<Vec<u8>, image::ImageError>)
    ensures
        match r {
            Ok(b) => png_of(p@) == Some(b@),
            Err(_) => png_of(p@) is None,
        },
{
    let img = image::RgbaImage::from_raw(p.width, p.height, p.rgba.clone()).unwrap();
    let mut buf = Vec::new();
    image::DynamicImage::ImageRgba8(img)
        .write_to(&mut std::io::Cursor::new(&mut buf), image::ImageFormat::Png)?;
    Ok(buf)
}

/// Calls `ImageError`'s `Display`.
#[verifier::external_body]
pub(crate) fn image_error_text(e: &image::ImageError) -> String {
    e.to_string()
}

} // verus!
