use glry::cache::{
    decode_raw, decode_thumbnail, encode_raw, encode_thumbnail, key_for, path_for, CacheError,
};
use glry::picture::Picture;
use glry::scan::{ImageEntry, Timestamp};
use image::{DynamicImage, GenericImageView, Rgba};

fn entry(path: &str, size: u64, secs: i64, nanos: u32) -> ImageEntry {
    ImageEntry {
        path: path.to_string(),
        name: "x".to_string(),
        size,
        modified: Timestamp { secs, nanos },
    }
}

#[test]
fn key_hashes_path_size_mtime_and_variant() {
    let e = entry("/pics/a.png", 1234, 5, 7);
    let mut bytes = b"/pics/a.png".to_vec();
    bytes.extend_from_slice(&1234u64.to_le_bytes());
    bytes.extend_from_slice(&5_000_000_007u64.to_le_bytes());
    bytes.extend_from_slice(&9u64.to_le_bytes());
    assert_eq!(key_for(&e, 9), xxhash_rust::xxh3::xxh3_64(&bytes));
    assert_ne!(key_for(&e, 9), key_for(&e, 0));
    assert_ne!(key_for(&e, 0), key_for(&entry("/pics/a.png", 1235, 5, 7), 0));
}

#[test]
fn key_of_pre_epoch_file_uses_zero_mtime() {
    let e = entry("/a", 1, -10, 0);
    let mut bytes = b"/a".to_vec();
    bytes.extend_from_slice(&1u64.to_le_bytes());
    bytes.extend_from_slice(&0u64.to_le_bytes());
    bytes.extend_from_slice(&0u64.to_le_bytes());
    assert_eq!(key_for(&e, 0), xxhash_rust::xxh3::xxh3_64(&bytes));
}

#[test]
fn cache_paths() {
    assert_eq!(path_for("/home/u/.cache/glry", 0xabc), "/home/u/.cache/glry/0000000000000abc.raw");
    assert_eq!(path_for("/tmp/", u64::MAX), "/tmp/ffffffffffffffff.raw");
    assert_eq!(path_for("", 1), "0000000000000001.raw");
    assert_ne!(path_for("/c", 1), path_for("/c", 16));
}

#[test]
fn raw_format_roundtrip() {
    let px: Vec<u8> = (0..24).collect();
    let data = encode_raw(3, 2, &px);
    assert_eq!(&data[0..8], &[3, 0, 0, 0, 2, 0, 0, 0]);
    assert_eq!(decode_raw(&data), Ok((3, 2, px)));
}

#[test]
fn raw_format_errors() {
    assert_eq!(decode_raw(&[1, 2, 3]), Err(CacheError::TooSmall));
    let data = encode_raw(2, 2, &[0; 15]);
    assert_eq!(decode_raw(&data), Err(CacheError::SizeMismatch { expected: 24, got: 23 }));
    let huge = encode_raw(u32::MAX, u32::MAX, &[]);
    assert_eq!(
        decode_raw(&huge),
        Err(CacheError::SizeMismatch { expected: 8 + (u32::MAX as u128) * (u32::MAX as u128) * 4, got: 8 })
    );
}

#[test]
fn thumbnail_roundtrip_through_image() {
    let mut img = image::RgbaImage::new(3, 2);
    img.put_pixel(2, 1, Rgba([1, 2, 3, 4]));
    let dynimg = DynamicImage::ImageRgba8(img);
    let bytes = encode_thumbnail(&Picture::from_image(&dynimg));
    assert_eq!(bytes.len(), 8 + 3 * 2 * 4);
    let back = decode_thumbnail(&bytes).unwrap().to_image();
    assert_eq!(back.dimensions(), (3, 2));
    assert_eq!(back.get_pixel(2, 1), Rgba([1, 2, 3, 4]));
    assert!(matches!(decode_thumbnail(&bytes[..10]), Err(CacheError::SizeMismatch { .. })));
}

#[test]
fn cache_path_parent_is_the_directory() {
    for dir in ["/home/u/.cache/glry", "cache", "rel/dir", "/"] {
        let p = path_for(dir, 0x1f);
        assert_eq!(std::path::Path::new(&p).parent(), Some(std::path::Path::new(dir)));
        assert_eq!(std::path::Path::new(&p).file_name().unwrap(), "000000000000001f.raw");
    }
}
