use glry::thumbnail::{
    apply_orientation, cache_variant, center_crop_to_aspect, crop_rect, delay_nanos, full_max_dim,
    make_thumbnail, orientation_of, prepare_full, thumb_crop, CropRect, Orientation, THUMB_MAX_DIM,
};
use glry::picture::Picture;
use image::{DynamicImage, GenericImageView, Rgba};

fn pic(img: DynamicImage) -> Picture {
    Picture::from_image(&img)
}

fn dims(p: &Picture) -> (u32, u32) {
    (p.width(), p.height())
}

#[test]
fn cache_variants() {
    assert_eq!(cache_variant(None), 0);
    assert_eq!(cache_variant(Some((16, 9))), (16u64 << 32) | 9);
    assert_ne!(cache_variant(Some((1, 2))), cache_variant(Some((2, 1))));
}

#[test]
fn crop_rects() {
    // Wider than 1:1: cut the width, centered.
    assert_eq!(crop_rect(400, 100, 1, 1), Some(CropRect { x: 150, y: 0, width: 100, height: 100 }));
    // Taller than 2:1: cut the height.
    assert_eq!(crop_rect(100, 100, 2, 1), Some(CropRect { x: 0, y: 25, width: 100, height: 50 }));
    // Already the right shape, or degenerate.
    assert_eq!(crop_rect(160, 90, 16, 9), None);
    assert_eq!(crop_rect(0, 90, 16, 9), None);
    assert_eq!(crop_rect(90, 90, 0, 9), None);
    // Never thinner than one pixel.
    assert_eq!(crop_rect(1000, 1, 1, 1000), Some(CropRect { x: 499, y: 0, width: 1, height: 1 }));
}

#[test]
fn center_crop_on_pixels() {
    let mut img = image::RgbaImage::new(4, 2);
    img.put_pixel(1, 0, Rgba([9, 9, 9, 255]));
    let out = center_crop_to_aspect(pic(DynamicImage::ImageRgba8(img)), (1, 1));
    assert_eq!(dims(&out), (2, 2));
    assert_eq!(out.to_image().get_pixel(0, 0), Rgba([9, 9, 9, 255]));
    let same = center_crop_to_aspect(pic(DynamicImage::new_rgb8(4, 2)), (2, 1));
    assert_eq!(dims(&same), (4, 2));
}

#[test]
fn orientations() {
    assert_eq!(orientation_of(1), Orientation::Identity);
    assert_eq!(orientation_of(2), Orientation::FlipHorizontal);
    assert_eq!(orientation_of(3), Orientation::Rotate180);
    assert_eq!(orientation_of(4), Orientation::FlipVertical);
    assert_eq!(orientation_of(5), Orientation::Transpose);
    assert_eq!(orientation_of(6), Orientation::Rotate90);
    assert_eq!(orientation_of(7), Orientation::Transverse);
    assert_eq!(orientation_of(8), Orientation::Rotate270);
    assert_eq!(orientation_of(0), Orientation::Identity);
    assert_eq!(orientation_of(9), Orientation::Identity);
}

#[test]
fn apply_orientation_moves_pixels() {
    let mut img = image::RgbaImage::new(3, 2);
    img.put_pixel(0, 0, Rgba([7, 0, 0, 255]));
    let src = pic(DynamicImage::ImageRgba8(img));
    let r90 = apply_orientation(src.duplicate(), 6).to_image();
    assert_eq!(r90.dimensions(), (2, 3));
    assert_eq!(r90.get_pixel(1, 0), Rgba([7, 0, 0, 255]));
    let flip = apply_orientation(src.duplicate(), 2).to_image();
    assert_eq!(flip.get_pixel(2, 0), Rgba([7, 0, 0, 255]));
    let t = apply_orientation(src.duplicate(), 5).to_image();
    assert_eq!(t.dimensions(), (2, 3));
    assert_eq!(t.get_pixel(0, 0), Rgba([7, 0, 0, 255]));
    let tv = apply_orientation(src.duplicate(), 7).to_image();
    assert_eq!(tv.dimensions(), (2, 3));
    assert_eq!(tv.get_pixel(1, 2), Rgba([7, 0, 0, 255]));
    let r180 = apply_orientation(src.duplicate(), 3).to_image();
    assert_eq!(r180.get_pixel(2, 1), Rgba([7, 0, 0, 255]));
    let v = apply_orientation(src.duplicate(), 4).to_image();
    assert_eq!(v.get_pixel(0, 1), Rgba([7, 0, 0, 255]));
    let r270 = apply_orientation(src.duplicate(), 8).to_image();
    assert_eq!(r270.dimensions(), (2, 3));
    assert_eq!(r270.get_pixel(0, 2), Rgba([7, 0, 0, 255]));
    let same = apply_orientation(src, 1).to_image();
    assert_eq!(same.get_pixel(0, 0), Rgba([7, 0, 0, 255]));
}

#[test]
fn full_images_shrink_to_fit() {
    let (img, d) = prepare_full(pic(DynamicImage::new_rgb8(400, 200)), 100);
    assert_eq!(d, (400, 200));
    assert_eq!(dims(&img), (100, 50));
    let (img, d) = prepare_full(pic(DynamicImage::new_rgb8(80, 60)), 100);
    assert_eq!(d, (80, 60));
    assert_eq!(dims(&img), (80, 60));
}

#[test]
fn thumbnails_fit_and_crop() {
    let t = make_thumbnail(pic(DynamicImage::new_rgb8(1024, 512)), None);
    assert_eq!(dims(&t), (THUMB_MAX_DIM, 128));
    let c = make_thumbnail(pic(DynamicImage::new_rgb8(1024, 512)), Some((1, 1)));
    assert_eq!(dims(&c), (THUMB_MAX_DIM, THUMB_MAX_DIM));
    // Small images are scaled up to fit the box too.
    let s = make_thumbnail(pic(DynamicImage::new_rgb8(64, 32)), None);
    assert_eq!(dims(&s), (THUMB_MAX_DIM, 128));
}

#[test]
fn pictures_need_four_bytes_per_pixel() {
    assert!(Picture::new(2, 1, vec![0; 8]).is_some());
    assert!(Picture::new(2, 1, vec![0; 7]).is_none());
    assert!(Picture::new(0, 5, vec![]).is_some());
    let p = Picture::new(1, 1, vec![1, 2, 3, 4]).unwrap();
    assert_eq!(p.rgba(), &[1, 2, 3, 4]);
    assert_eq!(p.duplicate().rgba(), &[1, 2, 3, 4]);
}

#[test]
fn sizes_from_the_terminal() {
    assert_eq!(thumb_crop(true, 8, 16), Some((128, 128)));
    assert_eq!(thumb_crop(false, 8, 16), None);
    assert_eq!(full_max_dim(100, 40, 8, 16), 800);
    assert_eq!(full_max_dim(10, 40, 8, 16), 640);
    assert_eq!(full_max_dim(0, 0, 8, 16), 1);
}

#[test]
fn frame_delays() {
    assert_eq!(delay_nanos(100, 1), 100_000_000);
    assert_eq!(delay_nanos(1, 3), 333_333);
    assert_eq!(delay_nanos(70, 0), 70_000_000);
    assert_eq!(delay_nanos(0, 1), 0);
}

#[test]
fn pictures_to_and_from_images() {
    let mut rgb = image::RgbImage::new(2, 1);
    rgb.put_pixel(1, 0, image::Rgb([1, 2, 3]));
    let p = pic(DynamicImage::ImageRgb8(rgb));
    assert_eq!(dims(&p), (2, 1));
    assert_eq!(p.rgba(), &[0, 0, 0, 255, 1, 2, 3, 255]);
    let back = p.to_image();
    assert_eq!(back.dimensions(), (2, 1));
    assert_eq!(back.to_rgba8().into_raw(), vec![0, 0, 0, 255, 1, 2, 3, 255]);
    // An RGBA image over a longer buffer: only its pixels are taken.
    let long = image::RgbaImage::from_raw(1, 1, vec![9, 8, 7, 6, 5, 4, 3, 2]).unwrap();
    assert_eq!(pic(DynamicImage::ImageRgba8(long)).rgba(), &[9, 8, 7, 6]);
}
