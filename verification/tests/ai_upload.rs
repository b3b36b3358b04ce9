use glry::ai::encode_png_for_upload;
use glry::picture::Picture;
use image::DynamicImage;

#[test]
fn encode_downscales_big_images() {
    let big = DynamicImage::new_rgb8(4000, 3000);
    let bytes = encode_png_for_upload(&Picture::from_image(&big)).unwrap();
    let decoded = image::load_from_memory(&bytes).unwrap();
    assert!(decoded.width() <= 1024 && decoded.height() <= 1024);
}

#[test]
fn encode_preserves_small_images() {
    let small = DynamicImage::new_rgb8(200, 150);
    let bytes = encode_png_for_upload(&Picture::from_image(&small)).unwrap();
    let decoded = image::load_from_memory(&bytes).unwrap();
    assert_eq!((decoded.width(), decoded.height()), (200, 150));
}
